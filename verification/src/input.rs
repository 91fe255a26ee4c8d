//! The data a frame of tracked input delivers, in the crate's own fixed-point
//! terms.
//!
//! Every sample carries a stable identity, the distance used for
//! nearest-wins arbitration, the two datamap axes the dispatcher reads
//! ("select" and "context"), and the 3D reading of its source.

use vstd::prelude::*;
use crate::fixed::{SCALE, COORD_MAX};

verus! {

/// A 3D position or direction in fixed-point world coordinates.
#[derive(Clone, Copy, PartialEq, Eq, Structural, Debug)]
pub struct Vec3Fx {
    pub x: i64,
    pub y: i64,
    pub z: i64,
}

/// A normalized surface coordinate: `u` wraps the angular axis and lies in
/// `[0, SCALE)`; `v` runs top-to-bottom and lies in `[0, SCALE]`.
#[derive(Clone, Copy, PartialEq, Eq, Structural, Debug)]
pub struct SurfaceCoord {
    pub u: i64,
    pub v: i64,
}

/// What kind of tracked source produced a sample, with its 3D reading.
#[derive(Clone, Copy, PartialEq, Eq, Structural, Debug)]
pub enum InputKind {
    /// A handheld pointer: a ray from `origin` along the unit-length
    /// `direction`.
    RayPointer { origin: Vec3Fx, direction: Vec3Fx },
    /// A tracked hand, read at the palm.
    HandPoint { palm: Vec3Fx },
    /// A fingertip or stylus tip.
    TipPoint { position: Vec3Fx },
}

/// One tracked input source, as delivered for the current frame.
#[derive(Clone, Copy, PartialEq, Eq, Structural, Debug)]
pub struct InputSample {
    /// Stable identity of the physical source, unique within a frame.
    pub id: u64,
    /// Distance from the source to the surface; smaller wins arbitration.
    pub distance: i64,
    /// The "select" axis of the sample's datamap; a value above zero is a
    /// pressed primary button.  Read for ray pointers only.
    pub select: i64,
    /// The "context" axis of the sample's datamap; a value above zero is a
    /// pressed secondary button.  Read for ray pointers only.
    pub context: i64,
    /// The source's 3D reading this frame.
    pub kind: InputKind,
}

/// A position stays within the coordinate range the library accepts.
pub open spec fn position_wf(v: Vec3Fx) -> bool {
    &&& -COORD_MAX <= v.x <= COORD_MAX
    &&& -COORD_MAX <= v.y <= COORD_MAX
    &&& -COORD_MAX <= v.z <= COORD_MAX
}

/// A direction is unit length, so each component is at most one unit.
pub open spec fn direction_wf(v: Vec3Fx) -> bool {
    &&& -SCALE <= v.x <= SCALE
    &&& -SCALE <= v.y <= SCALE
    &&& -SCALE <= v.z <= SCALE
}

/// The sample's 3D reading stays within the accepted ranges.
pub open spec fn sample_wf(s: InputSample) -> bool {
    match s.kind {
        InputKind::RayPointer { origin, direction } => position_wf(origin)
            && direction_wf(direction),
        InputKind::HandPoint { palm } => position_wf(palm),
        InputKind::TipPoint { position } => position_wf(position),
    }
}

/// Every sample of the frame is well formed.
pub open spec fn samples_wf(samples: Seq<InputSample>) -> bool {
    forall|i: int| 0 <= i < samples.len() ==> sample_wf(#[trigger] samples[i])
}

/// No two samples of a frame share an identity.
pub open spec fn distinct_ids(samples: Seq<InputSample>) -> bool {
    forall|i: int, j: int| 0 <= i < j < samples.len()
        ==> samples[i].id != samples[j].id
}

} // verus!
