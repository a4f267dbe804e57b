//! Contiguous arcs of a sketch's cyclic traversal order.

use vstd::prelude::*;
use crate::sketch::{Sketch, VertexId};

verus! {

/// A range of vertices from one sketch, forming one side of a "section". The
/// range may encompass the entirety of the sketch (in which case it belongs to
/// the only section in the loft), it may span an edge or a series of edges, or
/// it may contain only a single vertex.
#[derive(Clone, Copy, Debug)]
pub struct SketchVertexRange {
    /// Range of vertices in the original sketch covered by this arc, both
    /// endpoints included.
    pub range: (VertexId, VertexId),
    /// This field disambiguates the case where the range values are the same.
    /// When they are the same, it could mean that the range covers only a
    /// single vertex, or the range covers the entirety of the sketch.
    pub covers_entire_sketch: bool,
}

/// Wraps an index reached by walking at most one turn past the end of the
/// order list back to its start.
pub open spec fn cyc(n: int, i: int) -> int {
    if i < n {
        i
    } else {
        i - n
    }
}

impl SketchVertexRange {
    /// A whole-ring range never names two distinct endpoints.
    pub open spec fn wf(self) -> bool {
        self.covers_entire_sketch ==> self.range.0 == self.range.1
    }

    /// Both endpoints stand in the sketch's traversal order.
    pub open spec fn valid_for(self, s: Sketch) -> bool {
        &&& self.wf()
        &&& s.contains_id(self.range.0)
        &&& s.contains_id(self.range.1)
    }

    /// How many cyclic steps along the traversal order lead from the range's
    /// start to its end: a full lap for a whole-ring range, none for a single
    /// vertex.
    pub open spec fn arc_len(self, s: Sketch) -> int {
        if self.covers_entire_sketch {
            s.n()
        } else {
            let a = s.spec_index_of(self.range.0);
            let b = s.spec_index_of(self.range.1);
            if b >= a {
                b - a
            } else {
                b - a + s.n()
            }
        }
    }

    /// The ids the range visits, in traversal order: from its start vertex,
    /// cyclically, through its end vertex. A whole-ring range ends where it
    /// began, naming its anchor twice.
    pub open spec fn seq_of(self, s: Sketch) -> Seq<VertexId> {
        let a = s.spec_index_of(self.range.0);
        Seq::new((self.arc_len(s) + 1) as nat, |k: int| s.vertex_order@[cyc(s.n(), a + k)])
    }

    pub open spec fn spec_contains(self, s: Sketch, v: VertexId) -> bool {
        self.seq_of(s).contains(v)
    }

    /// Mirror of `split_at`.
    pub open spec fn spec_split_at(self, vertex: VertexId) -> (Self, Self) {
        if self.covers_entire_sketch && self.range.0 == self.range.1 && self.range.1 == vertex {
            (
                self,
                SketchVertexRange { range: self.range, covers_entire_sketch: false },
            )
        } else {
            (
                SketchVertexRange {
                    range: (self.range.0, vertex),
                    covers_entire_sketch: false,
                },
                SketchVertexRange {
                    range: (vertex, self.range.1),
                    covers_entire_sketch: false,
                },
            )
        }
    }

    /// An arc is at most one full lap long.
    pub proof fn lemma_arc_len_bounds(self, s: Sketch)
        requires
            s.wf(),
            self.valid_for(s),
        ensures
            0 <= self.arc_len(s) <= s.n(),
    {
        s.lemma_index_of(self.range.0);
        s.lemma_index_of(self.range.1);
    }

    /// Every id the range visits stands in the sketch's traversal order.
    pub proof fn lemma_seq_of_ids(self, s: Sketch)
        requires
            s.wf(),
            self.valid_for(s),
        ensures
            forall|k: int|
                0 <= k < self.seq_of(s).len() ==> s.contains_id(#[trigger] self.seq_of(s)[k]),
    {
        s.lemma_index_of(self.range.0);
        assert forall|k: int| 0 <= k < self.seq_of(s).len() implies s.contains_id(
            #[trigger] self.seq_of(s)[k],
        ) by {
            let a = s.spec_index_of(self.range.0);
            let idx = cyc(s.n(), a + k);
            assert(s.vertex_order@[idx] == self.seq_of(s)[k]);
        }
    }

    /// The range that covers the whole ring, anchored at one vertex.
    pub fn entire(range_start_and_end: VertexId) -> (r: Self)
        ensures
            r.range.0 == range_start_and_end,
            r.range.1 == range_start_and_end,
            r.covers_entire_sketch,
            r.wf(),
    {
        Self { range: (range_start_and_end, range_start_and_end), covers_entire_sketch: true }
    }

    /// Splits the range in two at a vertex it contains: the arc from the old
    /// start to the vertex, and the arc from the vertex to the old end. A
    /// whole-ring range split at its own anchor keeps the full lap as the
    /// first part and yields the anchor alone as the second.
    pub fn split_at(self, vertex: VertexId) -> (r: (Self, Self))
        ensures
            r == self.spec_split_at(vertex),
    {
        if self.covers_entire_sketch && self.range.0 == self.range.1 && self.range.1 == vertex {
            // One range still covers the whole sketch while the other
            // encompasses only a single vertex.
            let mut other = self;
            other.covers_entire_sketch = false;

            // Always return the full range as tuple 0, for easier checks.
            (self, other)
        } else {
            (
                Self { range: (self.range.0, vertex), covers_entire_sketch: false },
                Self { range: (vertex, self.range.1), covers_entire_sketch: false },
            )
        }
    }

    /// How many cyclic steps lead from the range's start to its end; the
    /// range visits one more vertex than this.
    pub fn arc_steps(&self, s: &Sketch) -> (r: usize)
        requires
            s.wf(),
            self.valid_for(*s),
        ensures
            r == self.arc_len(*s),
    {
        let n = s.vertex_order.len();
        if self.covers_entire_sketch {
            n
        } else {
            let a = s.index_of(self.range.0);
            let b = s.index_of(self.range.1);
            if b >= a {
                b - a
            } else {
                b + n - a
            }
        }
    }

    /// Materializes the ids the range visits, in traversal order.
    pub fn vertices_in(&self, s: &Sketch) -> (r: Vec<VertexId>)
        requires
            s.wf(),
            self.valid_for(*s),
        ensures
            r@ == self.seq_of(*s),
    {
        proof {
            s.lemma_index_of(self.range.0);
        }
        let n = s.vertex_order.len();
        let a = s.index_of(self.range.0);
        let steps = self.arc_steps(s);
        let mut r: Vec<VertexId> = Vec::new();
        let mut k: usize = 0;
        while k <= steps
            invariant
                s.wf(),
                self.valid_for(*s),
                n == s.n(),
                a == s.spec_index_of(self.range.0),
                0 <= a < n,
                steps == self.arc_len(*s),
                steps <= n,
                k <= steps + 1,
                r@.len() == k,
                forall|j: int| 0 <= j < k ==> #[trigger] r@[j] == self.seq_of(*s)[j],
            decreases steps + 1 - k,
        {
            let idx = if a + k < n {
                a + k
            } else {
                a + k - n
            };
            r.push(s.vertex_order[idx]);
            k += 1;
        }
        proof {
            assert(r@ =~= self.seq_of(*s));
        }
        r
    }

    /// Whether the range visits the given vertex.
    pub fn contains_vertex(&self, s: &Sketch, v: VertexId) -> (r: bool)
        requires
            s.wf(),
            self.valid_for(*s),
        ensures
            r == self.spec_contains(*s, v),
    {
        proof {
            s.lemma_index_of(self.range.0);
        }
        let n = s.vertex_order.len();
        let a = s.index_of(self.range.0);
        let steps = self.arc_steps(s);
        let mut k: usize = 0;
        while k <= steps
            invariant
                s.wf(),
                self.valid_for(*s),
                n == s.n(),
                a == s.spec_index_of(self.range.0),
                0 <= a < n,
                steps == self.arc_len(*s),
                steps <= n,
                k <= steps + 1,
                forall|j: int| 0 <= j < k ==> #[trigger] self.seq_of(*s)[j] != v,
            decreases steps + 1 - k,
        {
            let idx = if a + k < n {
                a + k
            } else {
                a + k - n
            };
            if s.vertex_order[idx] == v {
                proof {
                    assert(self.seq_of(*s)[k as int] == v);
                }
                return true;
            }
            k += 1;
        }
        proof {
            if self.spec_contains(*s, v) {
                let j = choose|j: int| 0 <= j < self.seq_of(*s).len() && self.seq_of(*s)[j] == v;
                assert(false);
            }
        }
        false
    }
}

} // verus!
