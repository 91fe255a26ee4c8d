//! Per-frame action tracking: which samples qualify for an action, and who
//! started or stopped qualifying relative to the previous frame.
//!
//! A tracker keeps only the previous frame's qualifying identities; each
//! frame it re-evaluates its rule over the full sample list and derives the
//! two difference sets.  Three rules exist: hovering over the surface, a
//! pressed primary click, and a pressed secondary click.

use vstd::prelude::*;
use crate::input::{InputSample, InputKind, sample_wf, samples_wf, distinct_ids};
use crate::geometry::{
    SurfaceGeometry, map_ray_spec, map_point_spec, map_pointer_screen_coords,
    map_point_screen_coords,
};

verus! {

/// Where a sample's reading lands on the surface: rays by intersection,
/// hands and tips by direct point mapping.
pub open spec fn sample_coord_spec(s: InputSample, g: SurfaceGeometry) -> Option<(int, int)> {
    match s.kind {
        InputKind::RayPointer { origin, direction } => map_ray_spec(origin, direction, g),
        InputKind::HandPoint { palm } => map_point_spec(
            palm.x as int, palm.y as int, palm.z as int, g),
        InputKind::TipPoint { position } => map_point_spec(
            position.x as int, position.y as int, position.z as int, g),
    }
}

/// A per-action qualifying rule, with its executable test pinned to its
/// specification.
pub trait Qualify: Sized {
    /// Whether the sample qualifies for this action this frame.
    spec fn spec_qualifies(&self, s: InputSample) -> bool;

    /// What the rule needs of its own configuration.
    spec fn rule_wf(&self) -> bool;

    /// Evaluates the rule on one sample.
    fn qualifies(&self, s: &InputSample) -> (r: bool)
        requires
            self.rule_wf(),
            sample_wf(*s),
        ensures
            r == self.spec_qualifies(*s);
}

/// Hover: the sample's reading maps onto the surface.
pub struct HoverQualify {
    pub geo: SurfaceGeometry,
}

impl Qualify for HoverQualify {
    open spec fn spec_qualifies(&self, s: InputSample) -> bool {
        sample_coord_spec(s, self.geo) is Some
    }

    open spec fn rule_wf(&self) -> bool {
        self.geo.wf()
    }

    fn qualifies(&self, s: &InputSample) -> (r: bool) {
        match &s.kind {
            InputKind::RayPointer { origin, direction } => {
                map_pointer_screen_coords(*origin, *direction, self.geo).is_some()
            },
            InputKind::HandPoint { palm } => {
                map_point_screen_coords(*palm, self.geo).is_some()
            },
            InputKind::TipPoint { position } => {
                map_point_screen_coords(*position, self.geo).is_some()
            },
        }
    }
}

/// Primary click: a ray pointer whose "select" axis is pressed.  Only ray
/// pointers carry click intent.
pub struct PrimaryClickQualify {}

impl Qualify for PrimaryClickQualify {
    open spec fn spec_qualifies(&self, s: InputSample) -> bool {
        s.kind is RayPointer && s.select > 0
    }

    open spec fn rule_wf(&self) -> bool {
        true
    }

    fn qualifies(&self, s: &InputSample) -> (r: bool) {
        match &s.kind {
            InputKind::RayPointer { .. } => s.select > 0,
            _ => false,
        }
    }
}

/// Secondary click: a ray pointer whose "context" axis is pressed.
pub struct SecondaryClickQualify {}

impl Qualify for SecondaryClickQualify {
    open spec fn spec_qualifies(&self, s: InputSample) -> bool {
        s.kind is RayPointer && s.context > 0
    }

    open spec fn rule_wf(&self) -> bool {
        true
    }

    fn qualifies(&self, s: &InputSample) -> (r: bool) {
        match &s.kind {
            InputKind::RayPointer { .. } => s.context > 0,
            _ => false,
        }
    }
}

/// Identities of the samples the rule accepts, in sample order.
pub open spec fn qualifying_ids<P: Qualify>(rule: &P, samples: Seq<InputSample>) -> Seq<u64>
    decreases samples.len(),
{
    if samples.len() == 0 {
        Seq::empty()
    } else {
        let pre = qualifying_ids(rule, samples.drop_last());
        if rule.spec_qualifies(samples.last()) {
            pre.push(samples.last().id)
        } else {
            pre
        }
    }
}

/// The identities of `from` that do not appear in `out`, keeping order.
pub open spec fn ids_except(from: Seq<u64>, out: Seq<u64>) -> Seq<u64>
    decreases from.len(),
{
    if from.len() == 0 {
        Seq::empty()
    } else {
        let pre = ids_except(from.drop_last(), out);
        if out.contains(from.last()) {
            pre
        } else {
            pre.push(from.last())
        }
    }
}

/// No identity appears twice.
pub open spec fn distinct_seq(s: Seq<u64>) -> bool {
    forall|i: int, j: int| 0 <= i < j < s.len() ==> s[i] != s[j]
}

/// An identity qualifies exactly when one of the samples carries it and the
/// rule accepts that sample.
pub proof fn lemma_qualifying_member<P: Qualify>(rule: &P, samples: Seq<InputSample>, id: u64)
    ensures
        qualifying_ids(rule, samples).contains(id) <==> exists|i: int|
            0 <= i < samples.len() && samples[i].id == id
                && rule.spec_qualifies(samples[i]),
    decreases samples.len(),
{
    if samples.len() > 0 {
        lemma_qualifying_member(rule, samples.drop_last(), id);
        let pre = qualifying_ids(rule, samples.drop_last());
        let all = qualifying_ids(rule, samples);
        if rule.spec_qualifies(samples.last()) {
            assert(all == pre.push(samples.last().id));
            if all.contains(id) {
                let j = choose|j: int| 0 <= j < all.len() && all[j] == id;
                if j < pre.len() {
                    assert(pre.contains(id));
                } else {
                    assert(id == samples.last().id);
                    assert(samples[samples.len() - 1].id == id
                        && rule.spec_qualifies(samples[samples.len() - 1]));
                }
            }
            if exists|i: int| 0 <= i < samples.len() && samples[i].id == id
                && rule.spec_qualifies(samples[i]) {
                let i = choose|i: int| 0 <= i < samples.len() && samples[i].id == id
                    && rule.spec_qualifies(samples[i]);
                if i < samples.len() - 1 {
                    assert(samples.drop_last()[i] == samples[i]);
                    assert(pre.contains(id));
                    let j = choose|j: int| 0 <= j < pre.len() && pre[j] == id;
                    assert(all[j] == id);
                } else {
                    assert(all[all.len() - 1] == id);
                }
            }
        } else {
            assert(all == pre);
            if exists|i: int| 0 <= i < samples.len() && samples[i].id == id
                && rule.spec_qualifies(samples[i]) {
                let i = choose|i: int| 0 <= i < samples.len() && samples[i].id == id
                    && rule.spec_qualifies(samples[i]);
                assert(i < samples.len() - 1);
                assert(samples.drop_last()[i] == samples[i]);
                assert(pre.contains(id));
            }
            if all.contains(id) {
                let j = choose|j: int| 0 <= j < pre.len() && pre[j] == id;
                let i = choose|i: int| 0 <= i < samples.drop_last().len()
                    && samples.drop_last()[i].id == id
                    && rule.spec_qualifies(samples.drop_last()[i]);
                assert(samples[i] == samples.drop_last()[i]);
            }
        }
    }
}

/// An identity survives the difference exactly when it is in `from` and not
/// in `out`.
pub proof fn lemma_except_member(from: Seq<u64>, out: Seq<u64>, id: u64)
    ensures
        ids_except(from, out).contains(id) <==> from.contains(id) && !out.contains(id),
    decreases from.len(),
{
    if from.len() > 0 {
        lemma_except_member(from.drop_last(), out, id);
        let pre = ids_except(from.drop_last(), out);
        let all = ids_except(from, out);
        if from.contains(id) && !out.contains(id) {
            let i = choose|i: int| 0 <= i < from.len() && from[i] == id;
            if i < from.len() - 1 {
                assert(from.drop_last()[i] == id);
                assert(from.drop_last().contains(id));
                assert(pre.contains(id));
                let j = choose|j: int| 0 <= j < pre.len() && pre[j] == id;
                assert(all[j] == id);
            } else {
                assert(from.last() == id);
                assert(all.last() == id);
            }
        }
        if all.contains(id) {
            let j = choose|j: int| 0 <= j < all.len() && all[j] == id;
            if out.contains(from.last()) {
                assert(pre[j] == id);
                let i = choose|i: int| 0 <= i < from.drop_last().len()
                    && from.drop_last()[i] == id;
                assert(from[i] == id);
            } else {
                if j < pre.len() {
                    assert(pre.contains(id));
                    let i = choose|i: int| 0 <= i < from.drop_last().len()
                        && from.drop_last()[i] == id;
                    assert(from[i] == id);
                } else {
                    assert(from.last() == id);
                    assert(from.contains(id));
                }
            }
        }
    }
}

/// No identity both starts and stops an action in one frame.
pub proof fn lemma_no_start_and_stop(now: Seq<u64>, before: Seq<u64>, id: u64)
    ensures
        !(ids_except(now, before).contains(id) && ids_except(before, now).contains(id)),
{
    lemma_except_member(now, before, id);
    lemma_except_member(before, now, id);
}

/// Qualifying identities inherit the frame's distinctness.
pub proof fn lemma_qualifying_distinct<P: Qualify>(rule: &P, samples: Seq<InputSample>)
    requires
        distinct_ids(samples),
    ensures
        distinct_seq(qualifying_ids(rule, samples)),
    decreases samples.len(),
{
    if samples.len() > 0 {
        assert(distinct_ids(samples.drop_last())) by {
            assert(forall|i: int, j: int| 0 <= i < j < samples.drop_last().len()
                ==> samples.drop_last()[i] == samples[i]
                    && samples.drop_last()[j] == samples[j]);
        }
        lemma_qualifying_distinct(rule, samples.drop_last());
        let pre = qualifying_ids(rule, samples.drop_last());
        if rule.spec_qualifies(samples.last()) {
            if pre.contains(samples.last().id) {
                lemma_qualifying_member(rule, samples.drop_last(), samples.last().id);
                let i = choose|i: int| 0 <= i < samples.drop_last().len()
                    && samples.drop_last()[i].id == samples.last().id
                    && rule.spec_qualifies(samples.drop_last()[i]);
                assert(samples[i].id == samples[samples.len() - 1].id);
                assert(false);
            }
            assert(forall|i: int, j: int|
                0 <= i < j < pre.push(samples.last().id).len()
                    && j < pre.len()
                ==> pre.push(samples.last().id)[i] != pre.push(samples.last().id)[j]);
        }
    }
}

/// The per-frame state of one tracked action.
pub struct ActionTracker {
    /// Identities qualifying this frame, in sample order.
    pub current: Vec<u64>,
    /// Identities qualifying now that did not qualify last frame.
    pub started: Vec<u64>,
    /// Identities that qualified last frame and no longer do.
    pub stopped: Vec<u64>,
}

/// Whether a vector of identities holds one.
pub fn ids_contain(v: &Vec<u64>, id: u64) -> (r: bool)
    ensures
        r == v@.contains(id),
{
    let mut k: usize = 0;
    while k < v.len()
        invariant
            0 <= k <= v@.len(),
            forall|m: int| 0 <= m < k ==> v@[m] != id,
        decreases v@.len() - k,
    {
        if v[k] == id {
            return true;
        }
        k += 1;
    }
    false
}

impl ActionTracker {
    /// A tracker before its first frame: nothing qualifies, nothing changed.
    pub fn new() -> (t: Self)
        ensures
            t.current@ == Seq::<u64>::empty(),
            t.started@ == Seq::<u64>::empty(),
            t.stopped@ == Seq::<u64>::empty(),
            t.wf(),
    {
        ActionTracker { current: Vec::new(), started: Vec::new(), stopped: Vec::new() }
    }

    /// The tracker never holds an identity twice.
    pub open spec fn wf(self) -> bool {
        distinct_seq(self.current@)
    }

    /// One frame: evaluates the rule over every sample; the accepted
    /// identities replace `current`, and `started` and `stopped` hold the
    /// two differences against the previous frame.
    pub fn update<P: Qualify>(&mut self, rule: &P, samples: &Vec<InputSample>)
        requires
            rule.rule_wf(),
            samples_wf(samples@),
            distinct_ids(samples@),
            old(self).wf(),
        ensures
            final(self).current@ == qualifying_ids(rule, samples@),
            final(self).started@ == ids_except(final(self).current@, old(self).current@),
            final(self).stopped@ == ids_except(old(self).current@, final(self).current@),
            final(self).wf(),
    {
        let mut now: Vec<u64> = Vec::new();
        let mut i: usize = 0;
        while i < samples.len()
            invariant
                0 <= i <= samples@.len(),
                now@ == qualifying_ids(rule, samples@.take(i as int)),
                rule.rule_wf(),
                samples_wf(samples@),
            decreases samples@.len() - i,
        {
            let s = &samples[i];
            proof {
                assert(sample_wf(samples@[i as int]));
                assert(samples@.take(i as int + 1).drop_last() =~= samples@.take(i as int));
                assert(samples@.take(i as int + 1).last() == samples@[i as int]);
            }
            if rule.qualifies(s) {
                now.push(s.id);
            }
            i += 1;
        }
        proof {
            assert(samples@.take(samples@.len() as int) =~= samples@);
            lemma_qualifying_distinct(rule, samples@);
        }
        let started = except_of(&now, &self.current);
        let stopped = except_of(&self.current, &now);
        self.current = now;
        self.started = started;
        self.stopped = stopped;
    }

    /// The identities qualifying this frame, in sample order.
    pub fn currently_acting(&self) -> (v: &Vec<u64>)
        ensures
            v@ == self.current@,
    {
        &self.current
    }

    /// The identities that began qualifying this frame.
    pub fn started_acting(&self) -> (v: &Vec<u64>)
        ensures
            v@ == self.started@,
    {
        &self.started
    }

    /// The identities that stopped qualifying this frame.
    pub fn stopped_acting(&self) -> (v: &Vec<u64>)
        ensures
            v@ == self.stopped@,
    {
        &self.stopped
    }
}

/// The identities of `from` that do not appear in `out`, keeping order.
fn except_of(from: &Vec<u64>, out: &Vec<u64>) -> (r: Vec<u64>)
    ensures
        r@ == ids_except(from@, out@),
{
    let mut r: Vec<u64> = Vec::new();
    let mut i: usize = 0;
    while i < from.len()
        invariant
            0 <= i <= from@.len(),
            r@ == ids_except(from@.take(i as int), out@),
        decreases from@.len() - i,
    {
        proof {
            assert(from@.take(i as int + 1).drop_last() =~= from@.take(i as int));
            assert(from@.take(i as int + 1).last() == from@[i as int]);
        }
        if !ids_contain(out, from[i]) {
            r.push(from[i]);
        }
        i += 1;
    }
    proof {
        assert(from@.take(from@.len() as int) =~= from@);
    }
    r
}

} // verus!
