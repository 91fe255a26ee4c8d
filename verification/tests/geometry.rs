//! Geometry tests: exact fixed-point expectations for the intersection and
//! unwrap functions, plus float-reconstructed round trips.

use kiara::fixed::SCALE;
use kiara::geometry::{ray_circle_closest_intersection, map_point_screen_coords,
    map_pointer_screen_coords, SurfaceGeometry};
use kiara::input::{Vec3Fx, SurfaceCoord};

fn geo() -> SurfaceGeometry {
    // radius 2, height 1, full circle, 1080 pixels tall
    SurfaceGeometry::new(2_000_000, 1_000_000, 360, 1080)
}

#[test]
fn derived_pixel_width() {
    let g = geo();
    // arc = 2 * pi * 2 = 12.566372 units; aspect 12.566372; width 13571 px
    assert_eq!(g.pixel_width, 13571);
    assert_eq!(g.pixel_height, 1080);
}

#[test]
fn aimed_ray_hits_at_distance_minus_radius() {
    // origin 3 units right of center, unit ray aimed at the center
    let t = ray_circle_closest_intersection(3_000_000, 0, -1_000_000, 0, 2_000_000);
    assert_eq!(t, Some(1_000_000));
}

#[test]
fn aimed_ray_various_radii() {
    for (p, r) in [(5_000_000i64, 1_000_000i64), (2_500_000, 2_000_000), (900_000, 100_000)] {
        let t = ray_circle_closest_intersection(p, 0, -1_000_000, 0, r);
        assert_eq!(t, Some(p - r));
    }
}

#[test]
fn missing_ray_returns_none() {
    // from (3, 3), moving along +x: the carrier line misses the circle
    let t = ray_circle_closest_intersection(3_000_000, 3_000_000, 1_000_000, 0, 2_000_000);
    assert_eq!(t, None);
}

#[test]
fn ray_pointing_away_returns_none() {
    // both roots behind the origin
    let t = ray_circle_closest_intersection(3_000_000, 0, 1_000_000, 0, 2_000_000);
    assert_eq!(t, None);
}

#[test]
fn ray_from_inside_uses_larger_root() {
    let t = ray_circle_closest_intersection(0, 0, -1_000_000, 0, 2_000_000);
    assert_eq!(t, Some(2_000_000));
}

#[test]
fn point_mapping_compass_anchors() {
    let g = geo();
    // front of the cylinder: u is half a turn
    assert_eq!(map_point_screen_coords(Vec3Fx { x: 0, y: 0, z: -2_000_000 }, g),
        Some(SurfaceCoord { u: 500_000, v: 500_000 }));
    // right
    assert_eq!(map_point_screen_coords(Vec3Fx { x: 2_000_000, y: 0, z: 0 }, g),
        Some(SurfaceCoord { u: 750_000, v: 500_000 }));
    // behind: the seam, u wraps to zero
    assert_eq!(map_point_screen_coords(Vec3Fx { x: 0, y: 0, z: 2_000_000 }, g),
        Some(SurfaceCoord { u: 0, v: 500_000 }));
    // left
    assert_eq!(map_point_screen_coords(Vec3Fx { x: -2_000_000, y: 0, z: 0 }, g),
        Some(SurfaceCoord { u: 250_000, v: 500_000 }));
    // front-right diagonal: an eighth of a turn past the front
    assert_eq!(map_point_screen_coords(Vec3Fx { x: 2_000_000, y: 0, z: -2_000_000 }, g),
        Some(SurfaceCoord { u: 625_000, v: 500_000 }));
}

#[test]
fn vertical_extent_bounds() {
    let g = geo();
    // just over half the height, above and below: no mapping
    assert_eq!(map_point_screen_coords(Vec3Fx { x: 0, y: 500_001, z: -2_000_000 }, g), None);
    assert_eq!(map_point_screen_coords(Vec3Fx { x: 0, y: -500_001, z: -2_000_000 }, g), None);
    // exactly the rims: top is v = 0, bottom is v = SCALE
    assert_eq!(map_point_screen_coords(Vec3Fx { x: 0, y: 500_000, z: -2_000_000 }, g),
        Some(SurfaceCoord { u: 500_000, v: 0 }));
    assert_eq!(map_point_screen_coords(Vec3Fx { x: 0, y: -500_000, z: -2_000_000 }, g),
        Some(SurfaceCoord { u: 500_000, v: SCALE }));
}

#[test]
fn point_mapping_is_deterministic() {
    let g = geo();
    let p = Vec3Fx { x: 1_234_567, y: 111_111, z: -1_373_737 };
    let first = map_point_screen_coords(p, g);
    let second = map_point_screen_coords(p, g);
    assert!(first.is_some());
    assert_eq!(first, second);
}

#[test]
fn ray_mapping_exact_behind_seam() {
    let g = geo();
    // from z = 5 straight along -z: first crossing at z = 2, the seam
    let r = map_pointer_screen_coords(
        Vec3Fx { x: 0, y: 200_000, z: 5_000_000 },
        Vec3Fx { x: 0, y: 0, z: -1_000_000 },
        g,
    );
    assert_eq!(r, Some(SurfaceCoord { u: 0, v: 300_000 }));
}

#[test]
fn axis_parallel_ray_maps_to_nothing() {
    let g = geo();
    let r = map_pointer_screen_coords(
        Vec3Fx { x: 0, y: -3_000_000, z: 0 },
        Vec3Fx { x: 0, y: 1_000_000, z: 0 },
        g,
    );
    assert_eq!(r, None);
}

#[test]
fn ray_crossing_above_rim_maps_to_nothing() {
    let g = geo();
    // hits the circle in projection, but a full unit above the top rim
    let r = map_pointer_screen_coords(
        Vec3Fx { x: 0, y: 1_500_000, z: 5_000_000 },
        Vec3Fx { x: 0, y: 0, z: -1_000_000 },
        g,
    );
    assert_eq!(r, None);
}

fn reconstruct(u: f64, v: f64, radius: f64, height: f64) -> Vec3Fx {
    let angle = (u - 0.5) * 2.0 * std::f64::consts::PI;
    let x = radius * angle.sin();
    let z = -radius * angle.cos();
    let y = height / 2.0 - v * height;
    Vec3Fx {
        x: (x * SCALE as f64).round() as i64,
        y: (y * SCALE as f64).round() as i64,
        z: (z * SCALE as f64).round() as i64,
    }
}

#[test]
fn round_trip_tolerance() {
    let g = geo();
    for (u, v) in [(0.3f64, 0.25f64), (0.05, 0.9), (0.62, 0.5), (0.875, 0.1)] {
        let p = reconstruct(u, v, 2.0, 1.0);
        let got = map_point_screen_coords(p, g).expect("reconstructed point must map");
        let du = (got.u as f64 / SCALE as f64 - u).abs();
        let du = du.min(1.0 - du);
        let dv = (got.v as f64 / SCALE as f64 - v).abs();
        assert!(du < 0.002, "u off by {du} at ({u}, {v})");
        assert!(dv < 0.0001, "v off by {dv} at ({u}, {v})");
    }
}

#[test]
fn angular_coordinate_tracks_atan2() {
    let g = geo();
    for (x, z) in [(1.5f64, -1.0f64), (-0.7, -1.8), (1.9, 0.3), (-1.2, 1.1), (0.4, 1.9)] {
        let p = Vec3Fx {
            x: (x * SCALE as f64).round() as i64,
            y: 0,
            z: (z * SCALE as f64).round() as i64,
        };
        let got = map_point_screen_coords(p, g).expect("point within the height maps");
        let expected = (x.atan2(-z) + std::f64::consts::PI)
            / (2.0 * std::f64::consts::PI);
        let mut du = (got.u as f64 / SCALE as f64 - expected).abs();
        du = du.min(1.0 - du);
        assert!(du < 0.002, "u off by {du} at ({x}, {z})");
    }
}

#[test]
fn vertical_coordinate_with_odd_height() {
    // height 0.999999: v floors
    let g = SurfaceGeometry::new(2_000_000, 999_999, 360, 1080);
    let got = map_point_screen_coords(Vec3Fx { x: 0, y: 250_000, z: -2_000_000 }, g)
        .expect("within the height");
    // (999_999 - 500_000) * SCALE / (2 * 999_999) = 249_999.87.. -> 249_999
    assert_eq!(got.v, 249_999);
}

#[test]
fn vertical_round_trip_exact_at_unit_height() {
    let g = geo(); // height is exactly one unit
    for v in [0i64, 1, 3, 250_000, 500_000, 999_999, 1_000_000] {
        // reconstruct the height the coordinate names, then map it back
        let y = (g.height as i128 * (SCALE as i128 - 2 * v as i128)
            / (2 * SCALE as i128)) as i64;
        let got = map_point_screen_coords(Vec3Fx { x: 0, y, z: -2_000_000 }, g)
            .expect("reconstructed height is within the extent");
        assert_eq!(got.v, v);
    }
}

#[test]
fn aimed_ray_with_shorter_projection() {
    // direction magnitude 0.6: the parametric distance scales accordingly
    let t = ray_circle_closest_intersection(3_000_000, 0, -600_000, 0, 2_000_000);
    // (p - r) * SCALE / d = 1_000_000 * 1_000_000 / 600_000
    assert_eq!(t, Some(1_666_666));
}
