//! The per-frame dispatcher: runs the three action trackers, arbitrates the
//! single active input source, and derives the events the surface receives.
//!
//! Arbitration is hysteretic: only sources already hovering on the previous
//! frame may drive the surface, so a newly-arrived hover gains control on
//! its second consecutive qualifying frame.  Among candidates the nearest
//! wins; ties keep the earliest in sample order.  Button state is tracked so
//! a held button is released on the frame its click rule stops qualifying,
//! even if the holder has already left the surface.

use vstd::prelude::*;
use crate::fixed::{SCALE, lemma_abs_mul_le, lemma_div_below, div_nn};
use crate::input::{InputSample, InputKind, samples_wf, distinct_ids};
use crate::geometry::{
    SurfaceGeometry, map_pointer_screen_coords, map_point_screen_coords, WIDTH_MAX,
};
use crate::tracker::{
    ActionTracker, HoverQualify, PrimaryClickQualify, SecondaryClickQualify, Qualify,
    qualifying_ids, sample_coord_spec, lemma_except_member, ids_contain,
};

verus! {

/// Which surface button an event drives.
#[derive(Clone, Copy, PartialEq, Eq, Structural, Debug)]
pub enum ButtonKind {
    Primary,
    Secondary,
}

/// One event emitted toward the surface, in emission order: motion first,
/// then primary button edges, then secondary button edges.
#[derive(Clone, Copy, PartialEq, Eq, Structural, Debug)]
pub enum Event {
    /// Pointer motion to a pixel position, in whole pixels.
    Motion { x: i64, y: i64 },
    /// A button edge.
    Button { kind: ButtonKind, pressed: bool },
}

// ---------------------------------------------------------------------------
// Active-actor arbitration
// ---------------------------------------------------------------------------

/// Whether a sample may drive the surface this frame: it maps onto the
/// surface now and was already hovering on the previous frame.
pub open spec fn candidate(s: InputSample, prev_hover: Seq<u64>, g: SurfaceGeometry) -> bool {
    sample_coord_spec(s, g) is Some && prev_hover.contains(s.id)
}

/// The scan for the active sample from position `i`, keeping the best found
/// so far: the first candidate with the least distance wins.
pub open spec fn active_from(
    samples: Seq<InputSample>,
    i: int,
    best: Option<InputSample>,
    prev_hover: Seq<u64>,
    g: SurfaceGeometry,
) -> Option<InputSample>
    decreases samples.len() - i,
{
    if i < 0 || i >= samples.len() {
        best
    } else {
        let s = samples[i];
        let better = match best {
            None => candidate(s, prev_hover, g),
            Some(b) => candidate(s, prev_hover, g) && s.distance < b.distance,
        };
        active_from(samples, i + 1, if better { Some(s) } else { best }, prev_hover, g)
    }
}

/// The sample driving the surface this frame, if any.
pub open spec fn active_actor(samples: Seq<InputSample>, prev_hover: Seq<u64>, g: SurfaceGeometry)
    -> Option<InputSample> {
    active_from(samples, 0, None, prev_hover, g)
}

/// What the scan's answer means: a returned sample is a candidate from the
/// frame (or the carried-in best) and none of the frame's candidates is
/// nearer; no answer means no candidates at all.
pub proof fn lemma_active_props(
    samples: Seq<InputSample>,
    i: int,
    best: Option<InputSample>,
    prev_hover: Seq<u64>,
    g: SurfaceGeometry,
)
    requires
        0 <= i <= samples.len(),
        best matches Some(b) ==> candidate(b, prev_hover, g),
    ensures
        ({
            let r = active_from(samples, i, best, prev_hover, g);
            &&& (r is None ==> best is None && forall|k: int|
                i <= k < samples.len() ==> !candidate(#[trigger] samples[k], prev_hover, g))
            &&& (r matches Some(a) ==> candidate(a, prev_hover, g)
                && (best == Some(a) || exists|k: int|
                    i <= k < samples.len() && samples[k] == a)
                && (forall|k: int| i <= k < samples.len()
                    && candidate(#[trigger] samples[k], prev_hover, g)
                    ==> a.distance <= samples[k].distance)
                && (best matches Some(b) ==> a.distance <= b.distance))
        }),
    decreases samples.len() - i,
{
    if i < samples.len() {
        let s = samples[i];
        let better = match best {
            None => candidate(s, prev_hover, g),
            Some(b) => candidate(s, prev_hover, g) && s.distance < b.distance,
        };
        let next = if better { Some(s) } else { best };
        lemma_active_props(samples, i + 1, next, prev_hover, g);
    }
}

// ---------------------------------------------------------------------------
// Frame events
// ---------------------------------------------------------------------------

/// Identities hovering this frame, in sample order.
pub open spec fn hover_now(samples: Seq<InputSample>, g: SurfaceGeometry) -> Seq<u64> {
    qualifying_ids(&HoverQualify { geo: g }, samples)
}

/// Identities with a pressed primary click this frame.
pub open spec fn primary_now(samples: Seq<InputSample>) -> Seq<u64> {
    qualifying_ids(&PrimaryClickQualify {}, samples)
}

/// Identities with a pressed secondary click this frame.
pub open spec fn secondary_now(samples: Seq<InputSample>) -> Seq<u64> {
    qualifying_ids(&SecondaryClickQualify {}, samples)
}

/// A held button is released the frame its holder's click rule stops
/// qualifying, wherever the holder is by then.
pub open spec fn button_released(now: Seq<u64>, pressed: Option<u64>) -> bool {
    match pressed {
        Some(p) => !now.contains(p),
        None => false,
    }
}

/// A button is pressed when the active sample's click rule began qualifying
/// this frame and the button is free (or freed this very frame).
pub open spec fn button_pressed_now(
    active: Option<InputSample>,
    now: Seq<u64>,
    before: Seq<u64>,
    pressed: Option<u64>,
) -> bool {
    match active {
        Some(a) => (pressed is None || button_released(now, pressed))
            && now.contains(a.id) && !before.contains(a.id),
        None => false,
    }
}

/// Who holds the button once the frame's edges are emitted.
pub open spec fn button_holder_after(
    active: Option<InputSample>,
    now: Seq<u64>,
    before: Seq<u64>,
    pressed: Option<u64>,
) -> Option<u64> {
    if button_pressed_now(active, now, before, pressed) {
        match active {
            Some(a) => Some(a.id),
            None => None,
        }
    } else if button_released(now, pressed) {
        None
    } else {
        pressed
    }
}

/// The edge events one button emits in a frame: a release, then a press.
pub open spec fn button_events(
    kind: ButtonKind,
    active: Option<InputSample>,
    now: Seq<u64>,
    before: Seq<u64>,
    pressed: Option<u64>,
) -> Seq<Event> {
    let ups: Seq<Event> = if button_released(now, pressed) {
        seq![Event::Button { kind, pressed: false }]
    } else {
        Seq::empty()
    };
    let downs: Seq<Event> = if button_pressed_now(active, now, before, pressed) {
        seq![Event::Button { kind, pressed: true }]
    } else {
        Seq::empty()
    };
    ups + downs
}

/// The motion event a frame emits: the active sample's coordinate scaled to
/// pixels, every frame an active sample exists.
pub open spec fn motion_events(active: Option<InputSample>, g: SurfaceGeometry) -> Seq<Event> {
    match active {
        Some(a) => match sample_coord_spec(a, g) {
            Some(uv) => seq![Event::Motion {
                x: (uv.0 * g.pixel_width / (SCALE as int)) as i64,
                y: (uv.1 * g.pixel_height / (SCALE as int)) as i64,
            }],
            None => Seq::empty(),
        },
        None => Seq::empty(),
    }
}

/// Everything one frame emits, in order: motion, primary edges, secondary
/// edges.
pub open spec fn frame_events(
    samples: Seq<InputSample>,
    hover_before: Seq<u64>,
    prim_before: Seq<u64>,
    sec_before: Seq<u64>,
    pressed_p: Option<u64>,
    pressed_s: Option<u64>,
    g: SurfaceGeometry,
) -> Seq<Event> {
    let active = active_actor(samples, hover_before, g);
    motion_events(active, g)
        + button_events(ButtonKind::Primary, active, primary_now(samples), prim_before, pressed_p)
        + button_events(ButtonKind::Secondary, active, secondary_now(samples), sec_before, pressed_s)
}

// ---------------------------------------------------------------------------
// The dispatcher
// ---------------------------------------------------------------------------

/// The interactive surface's input dispatcher: its shape, the three action
/// trackers, and which source holds each button.
pub struct Ring {
    /// The surface's immutable shape.
    pub geo: SurfaceGeometry,
    /// Who hovers.
    pub hover: ActionTracker,
    /// Who holds "select".
    pub primary: ActionTracker,
    /// Who holds "context".
    pub secondary: ActionTracker,
    /// The source whose primary press was forwarded and not yet released.
    pub pressed_primary: Option<u64>,
    /// The source whose secondary press was forwarded and not yet released.
    pub pressed_secondary: Option<u64>,
}

impl Ring {
    /// The shape is valid, the trackers are duplicate-free, and a held
    /// button's holder still qualifies for its click.
    pub open spec fn wf(self) -> bool {
        &&& self.geo.wf()
        &&& self.hover.wf()
        &&& self.primary.wf()
        &&& self.secondary.wf()
        &&& match self.pressed_primary {
            Some(p) => self.primary.current@.contains(p),
            None => true,
        }
        &&& match self.pressed_secondary {
            Some(p) => self.secondary.current@.contains(p),
            None => true,
        }
    }

    /// A dispatcher before its first frame.
    pub fn new(geo: SurfaceGeometry) -> (r: Self)
        requires
            geo.wf(),
        ensures
            r.wf(),
            r.geo == geo,
            r.hover.current@ == Seq::<u64>::empty(),
            r.primary.current@ == Seq::<u64>::empty(),
            r.secondary.current@ == Seq::<u64>::empty(),
            r.pressed_primary is None,
            r.pressed_secondary is None,
    {
        Ring {
            geo,
            hover: ActionTracker::new(),
            primary: ActionTracker::new(),
            secondary: ActionTracker::new(),
            pressed_primary: None,
            pressed_secondary: None,
        }
    }

    /// One frame: updates the three trackers from the sample list, selects
    /// the active source under the hysteresis rule, and returns the events
    /// the surface receives, in emission order.
    pub fn update(&mut self, samples: &Vec<InputSample>) -> (events: Vec<Event>)
        requires
            old(self).wf(),
            samples_wf(samples@),
            distinct_ids(samples@),
        ensures
            final(self).wf(),
            final(self).geo == old(self).geo,
            final(self).hover.current@ == hover_now(samples@, old(self).geo),
            final(self).primary.current@ == primary_now(samples@),
            final(self).secondary.current@ == secondary_now(samples@),
            final(self).pressed_primary == button_holder_after(
                active_actor(samples@, old(self).hover.current@, old(self).geo),
                primary_now(samples@), old(self).primary.current@,
                old(self).pressed_primary),
            final(self).pressed_secondary == button_holder_after(
                active_actor(samples@, old(self).hover.current@, old(self).geo),
                secondary_now(samples@), old(self).secondary.current@,
                old(self).pressed_secondary),
            events@ == frame_events(samples@, old(self).hover.current@,
                old(self).primary.current@, old(self).secondary.current@,
                old(self).pressed_primary, old(self).pressed_secondary, old(self).geo),
    {
        let ghost pre_hover = self.hover.current@;
        let ghost pre_prim = self.primary.current@;
        let ghost pre_sec = self.secondary.current@;
        let hover_rule = HoverQualify { geo: self.geo };

        // Arbitration reads this frame's mapping and the previous frame's
        // hover set, which the hover tracker still holds here.
        let mut best: Option<InputSample> = None;
        let mut i: usize = 0;
        while i < samples.len()
            invariant
                0 <= i <= samples@.len(),
                samples_wf(samples@),
                hover_rule.geo == self.geo,
                self.geo.wf(),
                self.hover.current@ == pre_hover,
                best matches Some(b) ==> candidate(b, pre_hover, self.geo),
                active_from(samples@, i as int, best, pre_hover, self.geo)
                    == active_actor(samples@, pre_hover, self.geo),
            decreases samples@.len() - i,
        {
            let s = samples[i];
            proof {
                assert(samples@[i as int] == s);
            }
            let maps = hover_rule.qualifies(&s);
            let is_cand = maps && ids_contain(self.hover.currently_acting(), s.id);
            let better = is_cand && (match &best {
                None => true,
                Some(b) => s.distance < b.distance,
            });
            if better {
                best = Some(s);
            }
            i += 1;
        }
        proof {
            lemma_active_props(samples@, 0, None, pre_hover, self.geo);
        }

        self.hover.update(&hover_rule, samples);
        self.primary.update(&PrimaryClickQualify {}, samples);
        self.secondary.update(&SecondaryClickQualify {}, samples);

        let ghost active = active_actor(samples@, pre_hover, self.geo);
        let mut events: Vec<Event> = Vec::new();

        // Motion: the active sample's coordinate, scaled to whole pixels.
        match &best {
            Some(a) => {
                let coord = match &a.kind {
                    InputKind::RayPointer { origin, direction } =>
                        map_pointer_screen_coords(*origin, *direction, self.geo),
                    InputKind::HandPoint { palm } =>
                        map_point_screen_coords(*palm, self.geo),
                    InputKind::TipPoint { position } =>
                        map_point_screen_coords(*position, self.geo),
                };
                match coord {
                    Some(c) => {
                        proof {
                            lemma_abs_mul_le(c.u as int, self.geo.pixel_width as int,
                                SCALE as int, WIDTH_MAX as int);
                            lemma_div_below(c.u as int * (self.geo.pixel_width as int),
                                SCALE as int, 2_000_000_000_000_000);
                            lemma_abs_mul_le(c.v as int, self.geo.pixel_height as int,
                                SCALE as int, 100_000);
                            lemma_div_below(c.v as int * (self.geo.pixel_height as int),
                                SCALE as int, 200_000);
                            assert(c.u as int * (self.geo.pixel_width as int) >= 0)
                                by (nonlinear_arith)
                                requires c.u as int >= 0, self.geo.pixel_width as int >= 0;
                            assert(c.v as int * (self.geo.pixel_height as int) >= 0)
                                by (nonlinear_arith)
                                requires c.v as int >= 0, self.geo.pixel_height as int >= 0;
                        }
                        let px = div_nn((c.u as i128) * (self.geo.pixel_width as i128),
                            SCALE as i128);
                        let py = div_nn((c.v as i128) * (self.geo.pixel_height as i128),
                            SCALE as i128);
                        events.push(Event::Motion { x: px as i64, y: py as i64 });
                    },
                    None => {
                        proof {
                            assert(false);
                        }
                    },
                }
            },
            None => {},
        }
        proof {
            assert(events@ =~= motion_events(active, self.geo));
        }

        // Primary button: release first, then press.
        let ghost after_motion = events@;
        let released_p = match self.pressed_primary {
            Some(p) => !ids_contain(self.primary.currently_acting(), p),
            None => false,
        };
        if released_p {
            events.push(Event::Button { kind: ButtonKind::Primary, pressed: false });
        }
        let free_p = match self.pressed_primary {
            None => true,
            Some(_) => released_p,
        };
        let down_p = free_p && (match &best {
            Some(a) => ids_contain(self.primary.started_acting(), a.id),
            None => false,
        });
        proof {
            match best {
                Some(a) => {
                    lemma_except_member(self.primary.current@, pre_prim, a.id);
                },
                None => {},
            }
        }
        if down_p {
            events.push(Event::Button { kind: ButtonKind::Primary, pressed: true });
            match &best {
                Some(a) => {
                    self.pressed_primary = Some(a.id);
                },
                None => {},
            }
        } else if released_p {
            self.pressed_primary = None;
        }
        proof {
            assert(events@ =~= after_motion + button_events(
                ButtonKind::Primary, active, primary_now(samples@), pre_prim,
                old(self).pressed_primary));
        }

        // Secondary button: release first, then press.
        let ghost after_primary = events@;
        let released_s = match self.pressed_secondary {
            Some(p) => !ids_contain(self.secondary.currently_acting(), p),
            None => false,
        };
        if released_s {
            events.push(Event::Button { kind: ButtonKind::Secondary, pressed: false });
        }
        let free_s = match self.pressed_secondary {
            None => true,
            Some(_) => released_s,
        };
        let down_s = free_s && (match &best {
            Some(a) => ids_contain(self.secondary.started_acting(), a.id),
            None => false,
        });
        proof {
            match best {
                Some(a) => {
                    lemma_except_member(self.secondary.current@, pre_sec, a.id);
                },
                None => {},
            }
        }
        if down_s {
            events.push(Event::Button { kind: ButtonKind::Secondary, pressed: true });
            match &best {
                Some(a) => {
                    self.pressed_secondary = Some(a.id);
                },
                None => {},
            }
        } else if released_s {
            self.pressed_secondary = None;
        }
        proof {
            assert(events@ =~= after_primary + button_events(
                ButtonKind::Secondary, active, secondary_now(samples@), pre_sec,
                old(self).pressed_secondary));
            assert(events@ =~= frame_events(samples@, pre_hover, pre_prim, pre_sec,
                old(self).pressed_primary, old(self).pressed_secondary, old(self).geo));
        }
        events
    }
}

// ---------------------------------------------------------------------------
// Arbitration and button laws
// ---------------------------------------------------------------------------

/// Hysteresis: two sources that begin hovering in the same frame leave the
/// surface without an active actor that frame; on the next frame, both still
/// hovering, the nearer one takes control.
pub proof fn lemma_hysteresis(s1: InputSample, s2: InputSample, g: SurfaceGeometry)
    requires
        sample_coord_spec(s1, g) is Some,
        sample_coord_spec(s2, g) is Some,
        s1.distance < s2.distance,
        s1.id != s2.id,
    ensures
        active_actor(seq![s1, s2], Seq::<u64>::empty(), g) is None,
        active_actor(seq![s1, s2], hover_now(seq![s1, s2], g), g) == Some(s1),
{
    let ss = seq![s1, s2];
    let none_prev = Seq::<u64>::empty();
    assert(!none_prev.contains(s1.id));
    assert(!none_prev.contains(s2.id));
    assert(active_from(ss, 0, None, none_prev, g)
        == active_from(ss, 1, None, none_prev, g));
    assert(active_from(ss, 1, None, none_prev, g)
        == active_from(ss, 2, None, none_prev, g));
    assert(active_from(ss, 2, None, none_prev, g) is None);

    let rule = HoverQualify { geo: g };
    let h = hover_now(ss, g);
    assert(ss.drop_last() =~= seq![s1]);
    assert(seq![s1].drop_last() =~= Seq::<InputSample>::empty());
    assert(qualifying_ids(&rule, Seq::<InputSample>::empty()) =~= Seq::<u64>::empty());
    assert(qualifying_ids(&rule, seq![s1]) =~= seq![s1.id]);
    assert(h =~= seq![s1.id, s2.id]);
    assert(h.contains(s1.id)) by {
        assert(h[0] == s1.id);
    }
    assert(h.contains(s2.id)) by {
        assert(h[1] == s2.id);
    }
    assert(candidate(s1, h, g));
    assert(candidate(s2, h, g));
    assert(active_from(ss, 0, None, h, g) == active_from(ss, 1, Some(s1), h, g));
    assert(active_from(ss, 1, Some(s1), h, g) == active_from(ss, 2, Some(s1), h, g));
    assert(active_from(ss, 2, Some(s1), h, g) == Some(s1));
}

/// A click transition on the active source emits exactly one press: none
/// while the click is unpressed, one on the frame the click begins, and none
/// on a later frame while the click stays held -- whoever is active then.
pub proof fn lemma_click_once(
    kind: ButtonKind,
    a: InputSample,
    now0: Seq<u64>,
    before0: Seq<u64>,
    now1: Seq<u64>,
    before1: Seq<u64>,
    now2: Seq<u64>,
    active2: Option<InputSample>,
)
    requires
        !now0.contains(a.id),
        now1.contains(a.id),
        !before1.contains(a.id),
        now2.contains(a.id),
    ensures
        button_events(kind, Some(a), now0, before0, None) == Seq::<Event>::empty(),
        button_holder_after(Some(a), now0, before0, None) is None,
        button_events(kind, Some(a), now1, before1, None)
            == seq![Event::Button { kind, pressed: true }],
        button_holder_after(Some(a), now1, before1, None) == Some(a.id),
        button_events(kind, active2, now2, now1, Some(a.id)) == Seq::<Event>::empty(),
        button_holder_after(active2, now2, now1, Some(a.id)) == Some(a.id),
{
    assert(button_events(kind, Some(a), now0, before0, None)
        =~= Seq::<Event>::empty());
    assert(button_events(kind, Some(a), now1, before1, None)
        =~= seq![Event::Button { kind, pressed: true }]);
    assert(!button_released(now2, Some(a.id)));
    assert(!button_pressed_now(active2, now2, now1, Some(a.id)));
    assert(button_events(kind, active2, now2, now1, Some(a.id))
        =~= Seq::<Event>::empty());
}

/// A frame in which no sample maps onto the surface has no active actor and
/// emits no motion, whatever hovered before.
pub proof fn lemma_off_surface_no_motion(
    samples: Seq<InputSample>,
    prev_hover: Seq<u64>,
    g: SurfaceGeometry,
)
    requires
        forall|k: int| 0 <= k < samples.len()
            ==> !(sample_coord_spec(#[trigger] samples[k], g) is Some),
    ensures
        active_actor(samples, prev_hover, g) is None,
        motion_events(active_actor(samples, prev_hover, g), g) == Seq::<Event>::empty(),
{
    lemma_active_props(samples, 0, None, prev_hover, g);
    match active_actor(samples, prev_hover, g) {
        Some(a) => {
            let k = choose|k: int| 0 <= k < samples.len() && samples[k] == a;
            assert(!candidate(samples[k], prev_hover, g));
            assert(false);
        },
        None => {},
    }
}

/// A held button is released on the frame its holder's click rule stops
/// qualifying -- which can lag the hover loss -- and not before.
pub proof fn lemma_held_release(kind: ButtonKind, p: u64, now: Seq<u64>, before: Seq<u64>)
    ensures
        !now.contains(p) ==> button_events(kind, None, now, before, Some(p))
            == seq![Event::Button { kind, pressed: false }],
        !now.contains(p) ==> button_holder_after(None, now, before, Some(p)) is None,
        now.contains(p) ==> button_events(kind, None, now, before, Some(p))
            == Seq::<Event>::empty(),
        now.contains(p) ==> button_holder_after(None, now, before, Some(p)) == Some(p),
{
    if !now.contains(p) {
        assert(button_events(kind, None, now, before, Some(p))
            =~= seq![Event::Button { kind, pressed: false }]);
    } else {
        assert(button_events(kind, None, now, before, Some(p))
            =~= Seq::<Event>::empty());
    }
}

} // verus!
