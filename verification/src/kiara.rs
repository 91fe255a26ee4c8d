//! The item handler: holds at most one wrapped panel item at a time and
//! drives its dispatcher once per frame.

use vstd::prelude::*;
use crate::geometry::SurfaceGeometry;
use crate::input::{InputSample, samples_wf, distinct_ids};
use crate::ring::{Ring, Event, frame_events};

verus! {

/// The command-line options the program accepts: the command line the hosted
/// compositor is launched with.
pub struct Cli {
    pub niri_launch: Vec<String>,
}

/// Wraps at most one panel item, keyed by the identifier the host gave it.
pub struct Kiara {
    /// The wrapped item's identifier and its dispatcher, once one arrived.
    pub ring: Option<(u64, Ring)>,
}

impl Kiara {
    /// Starts with no wrapped item.
    pub fn new() -> (k: Self)
        ensures
            k.ring is None,
            k.wf(),
    {
        Kiara { ring: None }
    }

    /// The held dispatcher, if any, is well formed.
    pub open spec fn wf(self) -> bool {
        match self.ring {
            Some(pair) => pair.1.wf(),
            None => true,
        }
    }

    /// Wraps a newly-arrived item; while one is held, later arrivals are
    /// ignored.
    pub fn add_item(&mut self, uid: u64, geo: SurfaceGeometry)
        requires
            old(self).wf(),
            geo.wf(),
        ensures
            final(self).wf(),
            old(self).ring is Some ==> final(self).ring == old(self).ring,
            old(self).ring is None ==> (final(self).ring matches Some(pair)
                && pair.0 == uid
                && pair.1.geo == geo
                && pair.1.hover.current@ == Seq::<u64>::empty()
                && pair.1.primary.current@ == Seq::<u64>::empty()
                && pair.1.secondary.current@ == Seq::<u64>::empty()
                && pair.1.pressed_primary is None
                && pair.1.pressed_secondary is None),
    {
        if self.ring.is_none() {
            self.ring = Some((uid, Ring::new(geo)));
        }
    }

    /// Releases the held item when the identifier matches; other identifiers
    /// are ignored.
    pub fn remove_item(&mut self, uid: u64)
        requires
            old(self).wf(),
        ensures
            final(self).wf(),
            match old(self).ring {
                Some(pair) => if pair.0 == uid {
                    final(self).ring is None
                } else {
                    final(self).ring == old(self).ring
                },
                None => final(self).ring is None,
            },
    {
        let matches_uid = match &self.ring {
            Some(pair) => pair.0 == uid,
            None => false,
        };
        if matches_uid {
            self.ring = None;
        }
    }

    /// One frame tick: drives the held dispatcher, if any, and returns what
    /// it emitted toward the surface.
    pub fn frame(&mut self, samples: &Vec<InputSample>) -> (events: Vec<Event>)
        requires
            old(self).wf(),
            samples_wf(samples@),
            distinct_ids(samples@),
        ensures
            final(self).wf(),
            match old(self).ring {
                None => final(self).ring is None && events@ == Seq::<Event>::empty(),
                Some(pair) => final(self).ring matches Some(q) && q.0 == pair.0
                    && events@ == frame_events(samples@,
                        pair.1.hover.current@, pair.1.primary.current@,
                        pair.1.secondary.current@, pair.1.pressed_primary,
                        pair.1.pressed_secondary, pair.1.geo),
            },
    {
        match &mut self.ring {
            Some(pair) => pair.1.update(samples),
            None => Vec::new(),
        }
    }
}

} // verus!
