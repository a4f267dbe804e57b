//! Sketches: ordered, ID-addressed polygonal cross-sections of the loft.

use vstd::prelude::*;
use crate::angle::{spec_rotated, rotated, TURN};

verus! {

/// Identifies one vertex of one sketch. Stable within the sketch: assigned
/// sequentially at construction and never reused.
pub type VertexId = u32;

/// A vertex position in polar form about the stacking axis: the direction in
/// the perpendicular plane (`angle`, in angle units), the distance from the
/// axis (`radius`), and the height along the axis (`z`). Radius and height are
/// fixed-point integers at a scale the host chooses; the loft logic reads only
/// the angle.
#[derive(Clone, Copy, Debug, PartialEq, Eq, Structural)]
pub struct PolarPos {
    pub angle: u32,
    pub radius: u64,
    pub z: i64,
}

/// A fixed-point offset per axis, at a scale the host chooses.
#[derive(Clone, Copy, Debug, PartialEq, Eq, Structural)]
pub struct Offset3 {
    pub x: i64,
    pub y: i64,
    pub z: i64,
}

/// A simplified sketch data structure, used by callers to insert initial
/// sketches. Vertices are listed in counter-clockwise traversal order.
pub struct SketchDescriptor {
    pub vertices: Vec<PolarPos>,
    pub relative_position: Offset3,
    pub rotation: u32,
}

/// One cross-section of the loft: an arena of vertex positions addressed by
/// stable `VertexId`, an explicit counter-clockwise traversal order, and the
/// sketch's rigid transform (offset, rotation about the stacking axis).
pub struct Sketch {
    /// Arena of vertex positions, indexed by `VertexId`. `None` marks an id
    /// that holds no vertex. Ids stay stable on insertion and removal, unlike
    /// indices into the order list.
    pub vertex_map: Vec<Option<PolarPos>>,
    /// The order of vertices, in CCW order.
    pub vertex_order: Vec<VertexId>,
    /// The relative offset from the previous sketch in the loft, or from the
    /// origin if this is the bottommost sketch.
    pub relative_position: Offset3,
    /// Rotation about the stacking axis, in angle units.
    pub rotation: u32,
}

/// The sketch a descriptor constructs: vertex `k` of the descriptor holds id
/// `k`, traversal order follows the descriptor, and the transform is copied.
pub open spec fn spec_described_sketch(s: Sketch, d: SketchDescriptor) -> bool {
    &&& s.wf()
    &&& s.n() == d.vertices@.len()
    &&& s.vertex_map@.len() == d.vertices@.len()
    &&& s.vertex_order@ == Seq::new(d.vertices@.len(), |k: int| k as VertexId)
    &&& forall|k: int|
        0 <= k < d.vertices@.len() ==> #[trigger] s.vertex_map@[k] == Some(d.vertices@[k])
    &&& s.relative_position == d.relative_position
    &&& s.rotation == d.rotation
}

impl Sketch {
    /// The traversal order and the arena agree: the order is a permutation of
    /// the arena's occupied ids.
    pub open spec fn wf(self) -> bool {
        &&& self.vertex_order@.len() < 0x4000_0000
        &&& forall|k: int|
            0 <= k < self.vertex_order@.len() ==> {
                &&& #[trigger] self.vertex_order@[k] < self.vertex_map@.len()
                &&& self.vertex_map@[self.vertex_order@[k] as int] is Some
            }
        &&& forall|j: int, k: int|
            0 <= j < k < self.vertex_order@.len() ==> #[trigger] self.vertex_order@[j]
                != #[trigger] self.vertex_order@[k]
        &&& forall|id: int|
            0 <= id < self.vertex_map@.len() && #[trigger] self.vertex_map@[id] is Some
                ==> self.vertex_order@.contains(id as VertexId)
    }

    /// Number of vertices on the ring.
    pub open spec fn n(self) -> int {
        self.vertex_order@.len() as int
    }

    pub open spec fn contains_id(self, id: VertexId) -> bool {
        self.vertex_order@.contains(id)
    }

    /// The raw position stored for an id the sketch contains.
    pub open spec fn pos_of(self, id: VertexId) -> PolarPos {
        self.vertex_map@[id as int]->Some_0
    }

    /// The direction of a vertex after applying the sketch's rotation; all
    /// angular computations use this.
    pub open spec fn rotated_angle_of(self, id: VertexId) -> int {
        spec_rotated(self.pos_of(id).angle as int, self.rotation as int)
    }

    /// The index in the traversal order at which an id stands.
    pub open spec fn spec_index_of(self, id: VertexId) -> int {
        choose|k: int| 0 <= k < self.n() && self.vertex_order@[k] == id
    }

    pub proof fn lemma_index_of(self, id: VertexId)
        requires
            self.wf(),
            self.contains_id(id),
        ensures
            0 <= self.spec_index_of(id) < self.n(),
            self.vertex_order@[self.spec_index_of(id)] == id,
            forall|k: int|
                0 <= k < self.n() && self.vertex_order@[k] == id ==> k == self.spec_index_of(id),
    {
        let w = choose|k: int| 0 <= k < self.n() && self.vertex_order@[k] == id;
        assert(exists|k: int| 0 <= k < self.n() && self.vertex_order@[k] == id) by {
            let j = self.vertex_order@.index_of(id);
            assert(self.vertex_order@.contains(id));
        }
    }

    /// Rotated angles stay inside one turn.
    pub proof fn lemma_rotated_angle_in_range(self, id: VertexId)
        ensures
            0 <= self.rotated_angle_of(id) < TURN,
    {
    }

    /// Builds a sketch from a descriptor: vertex `k` of the descriptor gets id
    /// `k`, and the traversal order lists the ids in the given order.
    pub fn from_descriptor(value: &SketchDescriptor) -> (s: Sketch)
        requires
            value.vertices@.len() < 0x4000_0000,
        ensures
            spec_described_sketch(s, *value),
    {
        let n = value.vertices.len();
        let mut vertex_map: Vec<Option<PolarPos>> = Vec::new();
        let mut vertex_order: Vec<VertexId> = Vec::new();

        let mut i: usize = 0;
        while i < n
            invariant
                i <= n,
                n == value.vertices@.len(),
                n < 0x4000_0000,
                vertex_map@.len() == i,
                vertex_order@.len() == i,
                forall|k: int|
                    0 <= k < i ==> #[trigger] vertex_map@[k] == Some(value.vertices@[k]),
                forall|k: int| 0 <= k < i ==> #[trigger] vertex_order@[k] == k as VertexId,
            decreases n - i,
        {
            vertex_map.push(Some(value.vertices[i]));
            vertex_order.push(i as VertexId);
            i += 1;
        }

        let s = Sketch {
            vertex_map,
            vertex_order,
            relative_position: value.relative_position,
            rotation: value.rotation,
        };

        proof {
            assert(s.vertex_order@ =~= Seq::new(value.vertices@.len(), |k: int| k as VertexId));
            assert forall|id: int|
                0 <= id < s.vertex_map@.len() && #[trigger] s.vertex_map@[id] is Some implies s
                .vertex_order@.contains(id as VertexId) by {
                assert(s.vertex_order@[id] == id as VertexId);
            }
        }
        s
    }

    /// The rotated direction of a vertex the sketch contains.
    pub fn rotated_angle(&self, id: VertexId) -> (r: u32)
        requires
            self.wf(),
            self.contains_id(id),
        ensures
            r == self.rotated_angle_of(id),
    {
        proof {
            self.lemma_index_of(id);
        }
        let p = self.vertex_map[id as usize].unwrap();
        rotated(p.angle, self.rotation)
    }

    /// The index in the traversal order at which an id stands.
    pub fn index_of(&self, id: VertexId) -> (k: usize)
        requires
            self.wf(),
            self.contains_id(id),
        ensures
            k == self.spec_index_of(id),
    {
        proof {
            self.lemma_index_of(id);
        }
        let n = self.vertex_order.len();
        let mut k: usize = 0;
        loop
            invariant
                k < n,
                n == self.n(),
                self.wf(),
                self.contains_id(id),
                forall|j: int| 0 <= j < k ==> self.vertex_order@[j] != id,
            decreases n - k,
        {
            if self.vertex_order[k] == id {
                proof {
                    self.lemma_index_of(id);
                }
                return k;
            }
            k += 1;
            proof {
                if k == n {
                    let w = self.spec_index_of(id);
                    self.lemma_index_of(id);
                    assert(false);
                }
            }
        }
    }
}

} // verus!
