//! End-to-end run mirroring a host that supplies Cartesian float sketches,
//! lofts them, and dumps the resulting mesh as OBJ-style text.

use glam::{Vec2, Vec3};
use lofter::loft::LoftVertex;
use lofter::sketch::{Offset3, PolarPos, SketchDescriptor};
use lofter::{LoftOptions, Lofter};

/// Fixed-point scale shared with the polar coordinates.
const SCALE: f32 = 65536.0;

fn to_polar(v: Vec3) -> PolarPos {
    let planar = Vec2::new(v.x, v.y);
    let mut turns = planar.to_angle() as f64 / std::f64::consts::TAU;
    if turns < 0.0 {
        turns += 1.0;
    }
    PolarPos {
        angle: (turns * 4294967296.0) as u32,
        radius: (planar.length() * SCALE) as u64,
        z: (v.z * SCALE) as i64,
    }
}

fn to_descriptor(vertices: &[Vec3], relative_position: Vec3) -> SketchDescriptor {
    SketchDescriptor {
        vertices: vertices.iter().map(|&v| to_polar(v)).collect(),
        relative_position: Offset3 {
            x: (relative_position.x * SCALE) as i64,
            y: (relative_position.y * SCALE) as i64,
            z: (relative_position.z * SCALE) as i64,
        },
        rotation: 0,
    }
}

fn angle_to_radians(angle: u32) -> f32 {
    (angle as f64 / 4294967296.0 * std::f64::consts::TAU) as f32
}

fn vertex_world_position(lofter: &Lofter, sketch_index: usize, vertex: LoftVertex) -> Vec3 {
    let sketch = &lofter.sketches[sketch_index];
    let rotation = sketch.rotation;
    let planar_point = |id: u32| -> Vec2 {
        let p = lofter.get_vertex(sketch_index, id).unwrap();
        let theta = angle_to_radians(lofter::angle::rotated(p.angle, rotation));
        Vec2::from_angle(theta) * (p.radius as f32 / SCALE)
    };
    let z_of = |id: u32| -> f32 { lofter.get_vertex(sketch_index, id).unwrap().z as f32 / SCALE };
    let (planar, z) = match vertex {
        LoftVertex::SketchVertex(id) => (planar_point(id), z_of(id)),
        LoftVertex::SketchEdge { edge_start, edge_end, target_angle } => {
            // The synthetic point is where the chord from the edge's start to
            // its end crosses the target direction.
            let a = planar_point(edge_start);
            let b = planar_point(edge_end);
            let dir = Vec2::from_angle(angle_to_radians(target_angle));
            let denominator = dir.perp_dot(b - a);
            let t = if denominator.abs() < 1e-12 {
                0.0
            } else {
                (dir.perp_dot(-a) / denominator).clamp(0.0, 1.0)
            };
            (a + (b - a) * t, z_of(edge_start) + (z_of(edge_end) - z_of(edge_start)) * t)
        }
    };
    let offset = lofter.sketch_relative_position(sketch_index).unwrap();
    Vec3::new(
        planar.x + offset.x as f32 / SCALE,
        planar.y + offset.y as f32 / SCALE,
        z + offset.z as f32 / SCALE,
    )
}

#[test]
fn integration() {
    let mut lofter = Lofter::default();

    lofter.push_sketch(&to_descriptor(
        &[
            Vec3::new(1., 0., 0.),
            Vec3::new(0., 1., 0.),
            Vec3::new(-1., -1., 0.),
        ],
        Vec3::ZERO,
    ));

    lofter.push_sketch(&to_descriptor(
        &[
            Vec3::new(1., 0., 0.),
            Vec3::new(0., 1., 0.),
            Vec3::new(-1., 0., 0.),
            Vec3::new(0., -1., 0.),
        ],
        Vec3::new(0., 0., 1.),
    ));

    lofter.loft(&LoftOptions {
        // 5 degrees, in angle units.
        max_radial_edge_angle: 59652323,
    });

    let vb = lofter.triangle_buffer();
    assert!(vb.len() > 0);

    let mut obj_string = String::new();
    let mut i: usize = 1;

    for (pair_index, triangle) in &vb {
        for point in [triangle.a, triangle.b, triangle.c] {
            let sketch_index = if point.on_upper {
                pair_index + 1
            } else {
                *pair_index
            };
            let world = vertex_world_position(&lofter, sketch_index, point.vertex);
            obj_string.push_str("v ");
            for axis in world.to_array() {
                obj_string.push_str(&axis.to_string());
                obj_string.push(' ');
            }
            obj_string.push('\n');
        }

        obj_string.push_str("f ");
        for _ in 0..3 {
            obj_string.push_str(&i.to_string());
            i += 1;
            obj_string.push(' ');
        }
        obj_string.push('\n');
    }

    println!("{obj_string}");
}
