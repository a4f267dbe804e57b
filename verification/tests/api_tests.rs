//! Unit tests for angle arithmetic, pairs, vertex ranges, candidates, and
//! the sketch-stack accessors.

use lofter::angle::{radial_error, rotated, signed_angle};
use lofter::range::SketchVertexRange;
use lofter::sketch::{Offset3, PolarPos, Sketch, SketchDescriptor, VertexId};
use lofter::util::SketchPair;
use lofter::{edge_candidates, sorted_by_radial_error, EdgeCandidate, LoftOptions, Lofter};

const DEG_90: u32 = 0x4000_0000;
const DEG_180: u32 = 0x8000_0000;
const DEG_270: u32 = 0xC000_0000;

fn descriptor(angles: &[u32]) -> SketchDescriptor {
    let mut vertices = Vec::new();
    for &angle in angles {
        vertices.push(PolarPos { angle, radius: 65536, z: 0 });
    }
    SketchDescriptor {
        vertices,
        relative_position: Offset3 { x: 0, y: 0, z: 0 },
        rotation: 0,
    }
}

#[test]
fn radial_error_is_the_shorter_way_around() {
    assert_eq!(radial_error(0, 0), 0);
    assert_eq!(radial_error(0, DEG_90), DEG_90);
    assert_eq!(radial_error(DEG_90, 0), DEG_90);
    assert_eq!(radial_error(0, DEG_270), DEG_90);
    assert_eq!(radial_error(DEG_270, 0), DEG_90);
    assert_eq!(radial_error(0, DEG_180), DEG_180);
    assert_eq!(radial_error(10, u32::MAX - 9), 20);
}

#[test]
fn signed_angle_is_positive_counter_clockwise() {
    assert_eq!(signed_angle(0, DEG_90), DEG_90 as i64);
    assert_eq!(signed_angle(DEG_90, 0), -(DEG_90 as i64));
    assert_eq!(signed_angle(DEG_270, 0), DEG_90 as i64);
    assert_eq!(signed_angle(0, DEG_180), -(DEG_180 as i64));
    assert_eq!(signed_angle(5, 5), 0);
}

#[test]
fn rotation_wraps_exactly() {
    assert_eq!(rotated(DEG_270, DEG_180), DEG_90);
    assert_eq!(rotated(DEG_90, 0), DEG_90);
    assert_eq!(rotated(u32::MAX, 1), 0);
}

#[test]
fn sketch_pair_operations() {
    let pair = SketchPair::new(1u32, 2u32);
    assert_eq!(pair.lower, 1);
    assert_eq!(pair.upper, 2);

    let splat = SketchPair::splat(7u32);
    assert_eq!(splat.lower, 7);
    assert_eq!(splat.upper, 7);

    let refs = pair.as_ref();
    assert_eq!(*refs.lower, 1);
    assert_eq!(*refs.upper, 2);

    let mut pair2 = pair;
    let muts = pair2.as_mut();
    *muts.lower = 10;
    assert_eq!(pair2.lower, 10);

    let mapped = pair.map(|x| x * 3);
    assert_eq!(mapped.lower, 3);
    assert_eq!(mapped.upper, 6);

    let items = pair.iter();
    assert_eq!(items.len(), 2);
    assert_eq!(*items[0], 1);
    assert_eq!(*items[1], 2);

    let zipped = pair.zip(SketchPair::new("a", "b"));
    assert_eq!(zipped.lower, (1, "a"));
    assert_eq!(zipped.upper, (2, "b"));
}

#[test]
fn vertex_range_entire_and_split() {
    let whole = SketchVertexRange::entire(2);
    assert!(whole.covers_entire_sketch);
    assert_eq!(whole.range, (2, 2));

    // Splitting a whole-ring range at its own anchor keeps the full lap as
    // the first part and a single vertex as the second.
    let (full, single) = whole.split_at(2);
    assert!(full.covers_entire_sketch);
    assert!(!single.covers_entire_sketch);
    assert_eq!(single.range, (2, 2));

    // Splitting anywhere else yields two partial arcs meeting at the vertex.
    let (before, after) = whole.split_at(0);
    assert!(!before.covers_entire_sketch);
    assert!(!after.covers_entire_sketch);
    assert_eq!(before.range, (2, 0));
    assert_eq!(after.range, (0, 2));
}

#[test]
fn vertex_range_walks_the_sketch_in_order() {
    let sketch = Sketch::from_descriptor(&descriptor(&[0, DEG_90, DEG_180, DEG_270]));

    let whole = SketchVertexRange::entire(1);
    // A whole-ring range wraps around and names its anchor twice.
    assert_eq!(whole.vertices_in(&sketch), vec![1, 2, 3, 0, 1]);
    assert_eq!(whole.arc_steps(&sketch), 4);

    let (before, after) = whole.split_at(3);
    assert_eq!(before.vertices_in(&sketch), vec![1, 2, 3]);
    assert_eq!(after.vertices_in(&sketch), vec![3, 0, 1]);
    assert_eq!(before.arc_steps(&sketch) + after.arc_steps(&sketch), 4);

    assert!(before.contains_vertex(&sketch, 2));
    assert!(!before.contains_vertex(&sketch, 0));
    assert!(after.contains_vertex(&sketch, 0));
}

#[test]
fn candidates_cover_all_pairs_in_row_order() {
    let lower = Sketch::from_descriptor(&descriptor(&[0, DEG_90]));
    let upper = Sketch::from_descriptor(&descriptor(&[DEG_90, DEG_180]));
    let cands = edge_candidates(SketchPair::new(&lower, &upper));

    assert_eq!(cands.len(), 4);
    assert_eq!((cands[0].vertices.lower, cands[0].vertices.upper), (0, 0));
    assert_eq!((cands[1].vertices.lower, cands[1].vertices.upper), (0, 1));
    assert_eq!((cands[2].vertices.lower, cands[2].vertices.upper), (1, 0));
    assert_eq!((cands[3].vertices.lower, cands[3].vertices.upper), (1, 1));
    assert_eq!(cands[0].radial_error, DEG_90);
    assert_eq!(cands[1].radial_error, DEG_180);
    assert_eq!(cands[2].radial_error, 0);
    assert_eq!(cands[3].radial_error, DEG_90);
}

#[test]
fn sort_is_stable_for_equal_errors() {
    let mk = |err: u32, lower: VertexId, upper: VertexId| EdgeCandidate {
        radial_error: err,
        vertices: SketchPair::new(lower, upper),
    };
    let sorted = sorted_by_radial_error(vec![
        mk(5, 0, 0),
        mk(1, 1, 1),
        mk(5, 2, 2),
        mk(0, 3, 3),
        mk(1, 4, 4),
    ]);
    let order: Vec<(u32, VertexId)> = sorted
        .iter()
        .map(|c| (c.radial_error, c.vertices.lower))
        .collect();
    assert_eq!(order, vec![(0, 3), (1, 1), (1, 4), (5, 0), (5, 2)]);
}

#[test]
fn sketch_accessors_and_out_of_range_behavior() {
    let mut lofter = Lofter { sketches: Vec::new(), loft_maps: Vec::new() };
    lofter.push_sketch(&descriptor(&[0, DEG_90, DEG_180]));

    // In-range lookups.
    let vertices = lofter.vertices(0).unwrap();
    assert_eq!(vertices.len(), 3);
    assert_eq!(vertices[1].0, 1);
    assert_eq!(vertices[1].1.angle, DEG_90);
    assert_eq!(
        lofter.get_vertex(0, 2),
        Some(PolarPos { angle: DEG_180, radius: 65536, z: 0 })
    );
    assert_eq!(lofter.sketch_rotation(0), Some(0));
    assert_eq!(
        lofter.sketch_relative_position(0),
        Some(Offset3 { x: 0, y: 0, z: 0 })
    );

    // Out-of-range lookups are absent results, not failures.
    assert!(lofter.vertices(1).is_none());
    assert!(lofter.get_vertex(0, 9).is_none());
    assert!(lofter.get_vertex(5, 0).is_none());
    assert!(lofter.sketch_rotation(3).is_none());
    assert!(lofter.sketch_relative_position(3).is_none());

    // Out-of-range mutations are silently ignored.
    lofter.set_sketch_rotation(7, DEG_90);
    lofter.set_sketch_relative_position(7, Offset3 { x: 1, y: 1, z: 1 });
    lofter.set_vertex(0, 9, PolarPos { angle: 1, radius: 1, z: 1 });
    assert_eq!(lofter.sketch_rotation(0), Some(0));
    assert_eq!(lofter.get_vertex(0, 0), Some(PolarPos { angle: 0, radius: 65536, z: 0 }));

    // In-range mutations land.
    lofter.set_sketch_rotation(0, DEG_270);
    assert_eq!(lofter.sketch_rotation(0), Some(DEG_270));
    lofter.set_sketch_relative_position(0, Offset3 { x: 4, y: 5, z: 6 });
    assert_eq!(
        lofter.sketch_relative_position(0),
        Some(Offset3 { x: 4, y: 5, z: 6 })
    );
    lofter.set_vertex(0, 1, PolarPos { angle: DEG_270, radius: 10, z: 3 });
    assert_eq!(
        lofter.get_vertex(0, 1),
        Some(PolarPos { angle: DEG_270, radius: 10, z: 3 })
    );

    // The editing placeholders leave everything unchanged.
    lofter.insert_vertex(0, (0, 1));
    lofter.remove_vertex(0, 1);
    assert_eq!(lofter.vertices(0).unwrap().len(), 3);
}

#[test]
fn sketch_stack_insert_and_remove() {
    let mut lofter = Lofter { sketches: Vec::new(), loft_maps: Vec::new() };
    lofter.push_sketch(&descriptor(&[0]));
    lofter.push_sketch(&descriptor(&[DEG_180]));
    lofter.insert_sketch(1, &descriptor(&[DEG_90]));

    assert_eq!(lofter.sketches.len(), 3);
    assert_eq!(lofter.get_vertex(0, 0).unwrap().angle, 0);
    assert_eq!(lofter.get_vertex(1, 0).unwrap().angle, DEG_90);
    assert_eq!(lofter.get_vertex(2, 0).unwrap().angle, DEG_180);

    lofter.remove_sketch(1);
    assert_eq!(lofter.sketches.len(), 2);
    assert_eq!(lofter.get_vertex(1, 0).unwrap().angle, DEG_180);
}

#[test]
fn default_options_use_fifty_degrees() {
    let options = LoftOptions::default();
    assert_eq!(options.max_radial_edge_angle, 596523235);
    // 50 degrees of a full 2^32-unit turn, rounded down.
    assert_eq!(options.max_radial_edge_angle as u64, 50 * (1u64 << 32) / 360);
}
