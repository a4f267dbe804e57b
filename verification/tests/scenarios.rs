//! Scenario tests for the lofting pipeline on concrete rings.

use lofter::loft::{Loft, LoftVertex, Triangle};
use lofter::sketch::{Offset3, PolarPos, SketchDescriptor};
use lofter::{LoftOptions, Lofter};

/// 50 degrees in angle units.
const TOL_50_DEG: u32 = 596523235;
/// 25 degrees in angle units.
const TOL_25_DEG: u32 = 298261617;

const DEG_90: u32 = 0x4000_0000;
const DEG_180: u32 = 0x8000_0000;
const DEG_270: u32 = 0xC000_0000;
const DEG_120: u32 = 1431655765;
const DEG_240: u32 = 2863311531;

fn ring(angles: &[u32], z: i64) -> SketchDescriptor {
    let mut vertices = Vec::new();
    for &angle in angles {
        vertices.push(PolarPos { angle, radius: 65536, z: 0 });
    }
    SketchDescriptor {
        vertices,
        relative_position: Offset3 { x: 0, y: 0, z },
        rotation: 0,
    }
}

fn square(z: i64) -> SketchDescriptor {
    ring(&[0, DEG_90, DEG_180, DEG_270], z)
}

fn triangle_ring(z: i64) -> SketchDescriptor {
    ring(&[0, DEG_120, DEG_240], z)
}

fn all_edges(loft: &Loft) -> Vec<(LoftVertex, LoftVertex)> {
    let mut edges = Vec::new();
    match loft {
        Loft::Sectioned { sections } => {
            for section in sections {
                for e in &section.loft_edges {
                    edges.push((e.lower, e.upper));
                }
            }
        }
        Loft::Fallback { loft_edges } => {
            for e in loft_edges {
                edges.push((e.lower, e.upper));
            }
        }
    }
    edges
}

fn is_direct(e: &(LoftVertex, LoftVertex)) -> bool {
    matches!(e.0, LoftVertex::SketchVertex(_)) && matches!(e.1, LoftVertex::SketchVertex(_))
}

/// Number of triangles the tri/quad decision rule assigns to an edge cycle.
fn expected_triangles(edges: &[(LoftVertex, LoftVertex)]) -> usize {
    let n = edges.len();
    let mut count = 0;
    for k in 0..n {
        let prev = edges[k];
        let cur = edges[(k + 1) % n];
        if prev.0 == cur.0 || prev.1 == cur.1 {
            count += 1;
        } else {
            count += 2;
        }
    }
    count
}

#[test]
fn two_squares_loft_to_four_direct_edges_and_eight_triangles() {
    let mut lofter = Lofter { sketches: Vec::new(), loft_maps: Vec::new() };
    lofter.push_sketch(&square(0));
    lofter.push_sketch(&square(65536));
    lofter.loft(&LoftOptions { max_radial_edge_angle: TOL_50_DEG });

    assert_eq!(lofter.loft_maps.len(), 1);
    let edges = all_edges(&lofter.loft_maps[0]);
    assert_eq!(edges.len(), 4);
    assert!(edges.iter().all(is_direct));

    let buffer = lofter.triangle_buffer();
    assert_eq!(buffer.len(), 8);
}

#[test]
fn default_lofter_is_two_lofted_squares() {
    let lofter = Lofter::default();
    assert_eq!(lofter.sketches.len(), 2);
    assert_eq!(lofter.loft_maps.len(), 1);
    let edges = all_edges(&lofter.loft_maps[0]);
    assert_eq!(edges.len(), 4);
    assert!(edges.iter().all(is_direct));
    assert_eq!(lofter.triangle_buffer().len(), 8);
}

#[test]
fn triangle_against_square_interpolates() {
    let mut lofter = Lofter { sketches: Vec::new(), loft_maps: Vec::new() };
    lofter.push_sketch(&triangle_ring(0));
    lofter.push_sketch(&square(65536));
    lofter.loft(&LoftOptions { max_radial_edge_angle: TOL_25_DEG });

    let edges = all_edges(&lofter.loft_maps[0]);
    assert!(edges.iter().any(|e| !is_direct(e)), "expected an interpolated vertex");

    let buffer = lofter.triangle_buffer();
    assert_eq!(buffer.len(), expected_triangles(&edges));
}

#[test]
fn generous_tolerance_gives_only_direct_edges() {
    let mut lofter = Lofter { sketches: Vec::new(), loft_maps: Vec::new() };
    lofter.push_sketch(&triangle_ring(0));
    lofter.push_sketch(&square(65536));
    lofter.loft(&LoftOptions { max_radial_edge_angle: u32::MAX });

    assert!(matches!(lofter.loft_maps[0], Loft::Sectioned { .. }));
    let edges = all_edges(&lofter.loft_maps[0]);
    assert!(edges.len() > 0);
    assert!(edges.iter().all(is_direct));
}

#[test]
fn zero_tolerance_misaligned_rings_fall_back() {
    let mut lofter = Lofter { sketches: Vec::new(), loft_maps: Vec::new() };
    // Rotated angles never coincide between the two rings.
    lofter.push_sketch(&ring(&[119304647, 1550960471, 2982616295], 0));
    lofter.push_sketch(&square(65536));
    lofter.loft(&LoftOptions { max_radial_edge_angle: 0 });

    assert!(matches!(lofter.loft_maps[0], Loft::Fallback { .. }));
    let edges = all_edges(&lofter.loft_maps[0]);
    assert!(edges.len() > 0);
    // Expanding the degenerate loft must not panic either.
    let _ = lofter.triangle_buffer();
}

#[test]
fn direct_edges_stay_within_tolerance() {
    let tolerances = [0u32, TOL_25_DEG, TOL_50_DEG, u32::MAX];
    for &tol in &tolerances {
        let mut lofter = Lofter { sketches: Vec::new(), loft_maps: Vec::new() };
        lofter.push_sketch(&triangle_ring(0));
        lofter.push_sketch(&square(65536));
        lofter.loft(&LoftOptions { max_radial_edge_angle: tol });

        let lower = &lofter.sketches[0];
        let upper = &lofter.sketches[1];
        for (a, b) in all_edges(&lofter.loft_maps[0]) {
            if let (LoftVertex::SketchVertex(ia), LoftVertex::SketchVertex(ib)) = (a, b) {
                let err = lofter::angle::radial_error(
                    lower.rotated_angle(ia),
                    upper.rotated_angle(ib),
                );
                assert!(err <= tol, "direct edge error {} above tolerance {}", err, tol);
            }
        }
    }
}

#[test]
fn sections_partition_both_rings() {
    let mut lofter = Lofter { sketches: Vec::new(), loft_maps: Vec::new() };
    lofter.push_sketch(&triangle_ring(0));
    lofter.push_sketch(&square(65536));
    lofter.loft(&LoftOptions { max_radial_edge_angle: TOL_50_DEG });

    let Loft::Sectioned { sections } = &lofter.loft_maps[0] else {
        panic!("expected a sectioned loft");
    };
    assert!(sections.len() > 0);

    for side in 0..2 {
        let sketch = &lofter.sketches[side];
        let n = sketch.vertex_order.len();
        let pos = |id: u32| sketch.vertex_order.iter().position(|&v| v == id).unwrap();
        let mut total_steps = 0usize;
        for (k, section) in sections.iter().enumerate() {
            let range = if side == 0 {
                section.sketch_vertex_ranges.lower
            } else {
                section.sketch_vertex_ranges.upper
            };
            let next = &sections[(k + 1) % sections.len()];
            let next_range = if side == 0 {
                next.sketch_vertex_ranges.lower
            } else {
                next.sketch_vertex_ranges.upper
            };
            // Consecutive sections chain end-to-start.
            assert_eq!(range.range.1, next_range.range.0);
            total_steps += if range.covers_entire_sketch {
                n
            } else {
                (pos(range.range.1) + n - pos(range.range.0)) % n
            };
        }
        // The arcs together walk the ring exactly once.
        assert_eq!(total_steps, n);
    }
}

#[test]
fn relofting_is_idempotent() {
    let mut lofter = Lofter { sketches: Vec::new(), loft_maps: Vec::new() };
    lofter.push_sketch(&triangle_ring(0));
    lofter.push_sketch(&square(65536));
    let options = LoftOptions { max_radial_edge_angle: TOL_25_DEG };

    lofter.loft(&options);
    let first: Vec<(usize, Triangle)> = lofter.triangle_buffer();
    lofter.loft(&options);
    let second = lofter.triangle_buffer();

    assert_eq!(first, second);
}

#[test]
fn rotating_a_sketch_keeps_connectivity_until_relofted() {
    let mut lofter = Lofter { sketches: Vec::new(), loft_maps: Vec::new() };
    lofter.push_sketch(&triangle_ring(0));
    lofter.push_sketch(&square(65536));
    lofter.loft(&LoftOptions { max_radial_edge_angle: TOL_25_DEG });

    let before = lofter.triangle_buffer();
    lofter.set_sketch_rotation(1, DEG_90);

    // The stored transform did change, so world positions change ...
    assert_eq!(lofter.sketch_rotation(1), Some(DEG_90));
    assert_eq!(lofter.sketches[1].rotated_angle(0), DEG_90);

    // ... but the triangle connectivity is untouched until `loft` runs again.
    let after = lofter.triangle_buffer();
    assert_eq!(before, after);
}

#[test]
fn single_vertex_rings_loft_to_one_section() {
    let mut lofter = Lofter { sketches: Vec::new(), loft_maps: Vec::new() };
    lofter.push_sketch(&ring(&[0], 0));
    lofter.push_sketch(&ring(&[DEG_90], 65536));
    lofter.loft(&LoftOptions { max_radial_edge_angle: u32::MAX });
    let Loft::Sectioned { sections } = &lofter.loft_maps[0] else {
        panic!("expected a sectioned loft");
    };
    assert_eq!(sections.len(), 1);
    let _ = lofter.triangle_buffer();
}

#[test]
fn empty_stack_and_single_sketch_produce_no_lofts() {
    let mut lofter = Lofter { sketches: Vec::new(), loft_maps: Vec::new() };
    lofter.loft(&LoftOptions::default());
    assert_eq!(lofter.loft_maps.len(), 0);
    assert_eq!(lofter.triangle_buffer().len(), 0);

    lofter.push_sketch(&square(0));
    lofter.loft(&LoftOptions::default());
    assert_eq!(lofter.loft_maps.len(), 0);
}

#[test]
fn three_stacked_sketches_produce_two_lofts() {
    let mut lofter = Lofter { sketches: Vec::new(), loft_maps: Vec::new() };
    lofter.push_sketch(&square(0));
    lofter.push_sketch(&triangle_ring(65536));
    lofter.push_sketch(&square(131072));
    lofter.loft(&LoftOptions::default());
    assert_eq!(lofter.loft_maps.len(), 2);
    let buffer = lofter.triangle_buffer();
    assert!(buffer.iter().any(|(pair, _)| *pair == 0));
    assert!(buffer.iter().any(|(pair, _)| *pair == 1));
}
