//! Dispatcher tests: hysteresis, click edges, release on leaving the
//! surface, and the tracker's frame-over-frame differences.

use kiara::geometry::SurfaceGeometry;
use kiara::input::{InputSample, InputKind, Vec3Fx};
use kiara::ring::{Ring, Event, ButtonKind};
use kiara::tracker::{ActionTracker, PrimaryClickQualify};
use kiara::kiara::{Kiara, Cli};

fn geo() -> SurfaceGeometry {
    SurfaceGeometry::new(2_000_000, 1_000_000, 360, 1080)
}

/// A pointer aimed at the cylinder from z = 5, at height `y`.
fn pointer(id: u64, distance: i64, select: i64, context: i64, y: i64) -> InputSample {
    InputSample {
        id,
        distance,
        select,
        context,
        kind: InputKind::RayPointer {
            origin: Vec3Fx { x: 0, y, z: 5_000_000 },
            direction: Vec3Fx { x: 0, y: 0, z: -1_000_000 },
        },
    }
}

/// The same pointer turned away from the surface: it maps to nothing.
fn pointer_away(id: u64, distance: i64, select: i64) -> InputSample {
    InputSample {
        id,
        distance,
        select,
        context: 0,
        kind: InputKind::RayPointer {
            origin: Vec3Fx { x: 0, y: 0, z: 5_000_000 },
            direction: Vec3Fx { x: 0, y: 0, z: 1_000_000 },
        },
    }
}

// The pointer above crosses the seam at u = 0; at y = 0 it lands at
// v = 500_000, pixel (0, 540); at y = 200_000 at v = 300_000, pixel (0, 324).

#[test]
fn hysteresis_two_new_hovers() {
    let mut ring = Ring::new(geo());
    let s1 = pointer(1, 1_000_000, 0, 0, 0);
    let s2 = pointer(2, 2_000_000, 0, 0, 200_000);
    // both begin hovering this frame: nobody drives yet
    let ev1 = ring.update(&vec![s1, s2]);
    assert!(ev1.is_empty());
    // next frame the nearer one drives
    let ev2 = ring.update(&vec![s1, s2]);
    assert_eq!(ev2, vec![Event::Motion { x: 0, y: 540 }]);
}

#[test]
fn nearest_candidate_wins() {
    let mut ring = Ring::new(geo());
    let far = pointer(1, 2_000_000, 0, 0, 0);
    let near = pointer(2, 1_000_000, 0, 0, 200_000);
    ring.update(&vec![far, near]);
    let ev = ring.update(&vec![far, near]);
    assert_eq!(ev, vec![Event::Motion { x: 0, y: 324 }]);
}

#[test]
fn equal_distance_keeps_sample_order() {
    let mut ring = Ring::new(geo());
    let s1 = pointer(1, 1_000_000, 0, 0, 0);
    let s2 = pointer(2, 1_000_000, 0, 0, 200_000);
    ring.update(&vec![s1, s2]);
    let ev = ring.update(&vec![s1, s2]);
    assert_eq!(ev, vec![Event::Motion { x: 0, y: 540 }]);
}

#[test]
fn click_edge_emits_one_press() {
    let mut ring = Ring::new(geo());
    let idle = pointer(7, 1_000_000, 0, 0, 0);
    let held = pointer(7, 1_000_000, 1_000_000, 0, 0);
    assert!(ring.update(&vec![idle]).is_empty());
    assert_eq!(ring.update(&vec![idle]), vec![Event::Motion { x: 0, y: 540 }]);
    // select goes 0 -> 1: exactly one press, after the motion
    assert_eq!(ring.update(&vec![held]), vec![
        Event::Motion { x: 0, y: 540 },
        Event::Button { kind: ButtonKind::Primary, pressed: true },
    ]);
    // select stays 1: no further press
    assert_eq!(ring.update(&vec![held]), vec![Event::Motion { x: 0, y: 540 }]);
    // select back to 0: the release
    assert_eq!(ring.update(&vec![idle]), vec![
        Event::Motion { x: 0, y: 540 },
        Event::Button { kind: ButtonKind::Primary, pressed: false },
    ]);
}

#[test]
fn secondary_click_edges() {
    let mut ring = Ring::new(geo());
    let idle = pointer(7, 1_000_000, 0, 0, 0);
    let held = pointer(7, 1_000_000, 0, 1_000_000, 0);
    ring.update(&vec![idle]);
    ring.update(&vec![idle]);
    assert_eq!(ring.update(&vec![held]), vec![
        Event::Motion { x: 0, y: 540 },
        Event::Button { kind: ButtonKind::Secondary, pressed: true },
    ]);
    assert_eq!(ring.update(&vec![idle]), vec![
        Event::Motion { x: 0, y: 540 },
        Event::Button { kind: ButtonKind::Secondary, pressed: false },
    ]);
}

#[test]
fn leaving_surface_stops_motion_and_lags_release() {
    let mut ring = Ring::new(geo());
    let idle = pointer(3, 1_000_000, 0, 0, 0);
    let held = pointer(3, 1_000_000, 1_000_000, 0, 0);
    ring.update(&vec![idle]);
    ring.update(&vec![idle]);
    ring.update(&vec![held]); // press forwarded
    // the pointer leaves the surface but keeps select pressed: no motion,
    // and the release lags while the click rule still qualifies
    let off_held = pointer_away(3, 1_000_000, 1_000_000);
    assert!(ring.update(&vec![off_held]).is_empty());
    // select drops off-surface: the release is emitted that frame
    let off_idle = pointer_away(3, 1_000_000, 0);
    assert_eq!(ring.update(&vec![off_idle]), vec![
        Event::Button { kind: ButtonKind::Primary, pressed: false },
    ]);
    assert!(ring.update(&vec![off_idle]).is_empty());
}

#[test]
fn vanished_holder_is_released() {
    let mut ring = Ring::new(geo());
    let idle = pointer(4, 1_000_000, 0, 0, 0);
    let held = pointer(4, 1_000_000, 1_000_000, 0, 0);
    ring.update(&vec![idle]);
    ring.update(&vec![idle]);
    ring.update(&vec![held]);
    // the source disappears entirely: its click stops qualifying
    assert_eq!(ring.update(&vec![]), vec![
        Event::Button { kind: ButtonKind::Primary, pressed: false },
    ]);
}

#[test]
fn hand_drives_motion_but_not_buttons() {
    let mut ring = Ring::new(geo());
    let hand = InputSample {
        id: 9,
        distance: 500_000,
        select: 1_000_000,
        context: 0,
        kind: InputKind::HandPoint { palm: Vec3Fx { x: 0, y: 0, z: -2_000_000 } },
    };
    assert!(ring.update(&vec![hand]).is_empty());
    // a hand's datamap carries no click intent, select notwithstanding
    assert_eq!(ring.update(&vec![hand]), vec![Event::Motion { x: 6785, y: 540 }]);
}

#[test]
fn tip_maps_like_a_point() {
    let mut ring = Ring::new(geo());
    let tip = InputSample {
        id: 10,
        distance: 400_000,
        select: 0,
        context: 0,
        kind: InputKind::TipPoint { position: Vec3Fx { x: 2_000_000, y: 0, z: 0 } },
    };
    ring.update(&vec![tip]);
    // u = 750_000 -> x pixel = 750_000 * 13571 / 1_000_000 = 10178
    assert_eq!(ring.update(&vec![tip]), vec![Event::Motion { x: 10178, y: 540 }]);
}

#[test]
fn non_active_click_is_ignored() {
    let mut ring = Ring::new(geo());
    let near_idle = pointer(1, 1_000_000, 0, 0, 0);
    let far_clicking = pointer(2, 2_000_000, 1_000_000, 0, 200_000);
    ring.update(&vec![near_idle, far_clicking]);
    // the far source clicks, but only the active (near) source is heard
    assert_eq!(ring.update(&vec![near_idle, far_clicking]),
        vec![Event::Motion { x: 0, y: 540 }]);
}

#[test]
fn tracker_diffs_frame_over_frame() {
    let mut t = ActionTracker::new();
    let rule = PrimaryClickQualify {};
    t.update(&rule, &vec![pointer(1, 0, 1_000_000, 0, 0), pointer(2, 0, 0, 0, 0)]);
    assert_eq!(t.currently_acting(), &vec![1u64]);
    assert_eq!(t.started_acting(), &vec![1u64]);
    assert!(t.stopped_acting().is_empty());
    t.update(&rule, &vec![pointer(2, 0, 1_000_000, 0, 0)]);
    assert_eq!(t.currently_acting(), &vec![2u64]);
    assert_eq!(t.started_acting(), &vec![2u64]);
    assert_eq!(t.stopped_acting(), &vec![1u64]);
}

#[test]
fn kiara_holds_one_item() {
    let mut k = Kiara::new();
    assert!(k.frame(&vec![]).is_empty());
    k.add_item(11, geo());
    k.add_item(12, geo());
    assert_eq!(k.ring.as_ref().expect("an item is held").0, 11);
    k.remove_item(12);
    assert!(k.ring.is_some());
    k.remove_item(11);
    assert!(k.ring.is_none());
}

#[test]
fn kiara_forwards_frames() {
    let mut k = Kiara::new();
    k.add_item(20, geo());
    let s = pointer(5, 1_000_000, 0, 0, 0);
    assert!(k.frame(&vec![s]).is_empty());
    assert_eq!(k.frame(&vec![s]), vec![Event::Motion { x: 0, y: 540 }]);
}

#[test]
fn cli_carries_the_launch_command() {
    let c = Cli { niri_launch: vec!["waybar".to_string()] };
    assert_eq!(c.niri_launch.len(), 1);
}
