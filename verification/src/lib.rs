//! Connects a stack of ordered polygonal cross-sections ("sketches") into a
//! single triangulated surface, a loft. For each adjacent pair of sketches the
//! builder decides which vertices correspond, bounding the angular mismatch of
//! every direct connecting edge and marking synthetic interpolated vertices
//! where no acceptable pairing exists.
//!
//! All directions are measured in exact integer angle units (see [`angle`]);
//! hosts working in radians or floating-point coordinates convert at the
//! boundary.

pub mod angle;
pub mod laws;
pub mod loft;
pub mod range;
pub mod sketch;
pub mod util;

use vstd::prelude::*;
use crate::angle::{radial_error, spec_radial_error};
use crate::loft::{
    spec_build, spec_ranges_valid, spec_try_split, spec_loft_triangles, Loft, LoftBuilder,
    Triangle,
};
use crate::range::SketchVertexRange;
use crate::sketch::{spec_described_sketch, Sketch, SketchDescriptor, VertexId, PolarPos, Offset3};
use crate::util::SketchPair;

verus! {

/// The default tolerance: 50 degrees, in angle units.
pub const DEFAULT_MAX_RADIAL_EDGE_ANGLE: u32 = 596523235;

pub struct LoftOptions {
    /// The maximum radial angle mismatch a direct vertex-to-vertex edge may
    /// have, in angle units.
    pub max_radial_edge_angle: u32,
}

impl Default for LoftOptions {
    fn default() -> (r: Self)
        ensures
            r.max_radial_edge_angle == DEFAULT_MAX_RADIAL_EDGE_ANGLE,
    {
        Self { max_radial_edge_angle: DEFAULT_MAX_RADIAL_EDGE_ANGLE }
    }
}

/// One candidate pairing of a lower-ring vertex with an upper-ring vertex.
#[derive(Clone, Copy, Debug)]
pub struct EdgeCandidate {
    /// The radial angle difference, about the stacking axis, of the two
    /// rotated vertices.
    pub radial_error: u32,
    pub vertices: SketchPair<VertexId>,
}

/// The candidate pairing of the `i`-th lower vertex with the `j`-th upper
/// vertex, by traversal order.
pub open spec fn spec_candidate(lo: Sketch, up: Sketch, i: int, j: int) -> EdgeCandidate {
    EdgeCandidate {
        radial_error: spec_radial_error(
            lo.rotated_angle_of(lo.vertex_order@[i]),
            up.rotated_angle_of(up.vertex_order@[j]),
        ) as u32,
        vertices: SketchPair { lower: lo.vertex_order@[i], upper: up.vertex_order@[j] },
    }
}

/// All candidates of the first `i` lower vertices, row by row.
pub open spec fn spec_candidate_rows(lo: Sketch, up: Sketch, i: int) -> Seq<EdgeCandidate>
    decreases i,
    when i >= 0
{
    if i <= 0 {
        Seq::empty()
    } else {
        spec_candidate_rows(lo, up, i - 1) + Seq::new(
            up.n() as nat,
            |j: int| spec_candidate(lo, up, i - 1, j),
        )
    }
}

/// All combinations of vertices between two sketches, in row order.
pub open spec fn spec_candidates(lo: Sketch, up: Sketch) -> Seq<EdgeCandidate> {
    spec_candidate_rows(lo, up, lo.n())
}

/// A candidate names only vertices its sketches contain.
pub open spec fn spec_candidate_valid(c: EdgeCandidate, lo: Sketch, up: Sketch) -> bool {
    &&& lo.contains_id(c.vertices.lower)
    &&& up.contains_id(c.vertices.upper)
}

pub proof fn lemma_candidate_rows_valid(lo: Sketch, up: Sketch, i: int)
    requires
        0 <= i <= lo.n(),
    ensures
        forall|k: int|
            0 <= k < spec_candidate_rows(lo, up, i).len() ==> spec_candidate_valid(
                #[trigger] spec_candidate_rows(lo, up, i)[k],
                lo,
                up,
            ),
    decreases i,
{
    if i > 0 {
        lemma_candidate_rows_valid(lo, up, i - 1);
        let prev = spec_candidate_rows(lo, up, i - 1);
        let row = Seq::new(up.n() as nat, |j: int| spec_candidate(lo, up, i - 1, j));
        assert forall|k: int|
            0 <= k < spec_candidate_rows(lo, up, i).len() implies spec_candidate_valid(
            #[trigger] spec_candidate_rows(lo, up, i)[k],
            lo,
            up,
        ) by {
            if k < prev.len() {
                assert(spec_candidate_rows(lo, up, i)[k] == prev[k]);
            } else {
                let j = k - prev.len();
                assert(spec_candidate_rows(lo, up, i)[k] == row[j]);
                assert(lo.contains_id(lo.vertex_order@[i - 1]));
                assert(up.contains_id(up.vertex_order@[j]));
            }
        }
    }
}

/// Returns a vector of all combinations of vertices between two sketches.
pub fn edge_candidates(sketches: SketchPair<&Sketch>) -> (r: Vec<EdgeCandidate>)
    requires
        sketches.lower.wf(),
        sketches.upper.wf(),
    ensures
        r@ == spec_candidates(*sketches.lower, *sketches.upper),
{
    let lo = sketches.lower;
    let up = sketches.upper;
    let n = lo.vertex_order.len();
    let m = up.vertex_order.len();

    let mut r: Vec<EdgeCandidate> = Vec::new();
    let mut i: usize = 0;
    while i < n
        invariant
            lo.wf(),
            up.wf(),
            n == lo.n(),
            m == up.n(),
            0 <= i <= n,
            r@ == spec_candidate_rows(*lo, *up, i as int),
        decreases n - i,
    {
        let ghost row_base = r@;
        let a = lo.vertex_order[i];
        proof {
            assert(lo.contains_id(a));
        }
        let angle_a = lo.rotated_angle(a);
        let mut j: usize = 0;
        while j < m
            invariant
                lo.wf(),
                up.wf(),
                n == lo.n(),
                m == up.n(),
                0 <= i < n,
                0 <= j <= m,
                a == lo.vertex_order@[i as int],
                angle_a == lo.rotated_angle_of(a),
                row_base == spec_candidate_rows(*lo, *up, i as int),
                r@ == row_base + Seq::new(j as nat, |t: int| spec_candidate(*lo, *up, i as int, t)),
            decreases m - j,
        {
            let b = up.vertex_order[j];
            proof {
                assert(up.contains_id(b));
            }
            let angle_b = up.rotated_angle(b);
            r.push(
                EdgeCandidate {
                    radial_error: radial_error(angle_a, angle_b),
                    vertices: SketchPair { lower: a, upper: b },
                },
            );
            j += 1;
            proof {
                assert(r@ =~= row_base + Seq::new(
                    j as nat,
                    |t: int| spec_candidate(*lo, *up, i as int, t),
                ));
            }
        }
        i += 1;
        proof {
            assert(Seq::new(m as nat, |t: int| spec_candidate(*lo, *up, i - 1, t)) =~= Seq::new(
                up.n() as nat,
                |t: int| spec_candidate(*lo, *up, i - 1, t),
            ));
            assert(r@ == spec_candidate_rows(*lo, *up, i as int));
        }
    }
    r
}

/// Candidates stand in ascending order of radial error.
pub open spec fn spec_sorted_by_error(s: Seq<EdgeCandidate>) -> bool {
    forall|a: int, b: int|
        0 <= a <= b < s.len() ==> (#[trigger] s[a]).radial_error <= (#[trigger] s[b]).radial_error
}

/// Inserts a candidate after every already-placed candidate of equal or
/// smaller error, so that candidates of equal error keep their encounter
/// order.
pub open spec fn spec_insert_sorted(s: Seq<EdgeCandidate>, x: EdgeCandidate) -> Seq<EdgeCandidate>
    decreases s.len(),
{
    if s.len() == 0 {
        seq![x]
    } else if x.radial_error < s.last().radial_error {
        spec_insert_sorted(s.drop_last(), x).push(s.last())
    } else {
        s.push(x)
    }
}

/// Stable sort of the candidate list by ascending radial error: ties keep
/// their encounter order, so the carving below is deterministic.
pub open spec fn spec_sort_candidates(s: Seq<EdgeCandidate>) -> Seq<EdgeCandidate>
    decreases s.len(),
{
    if s.len() == 0 {
        Seq::empty()
    } else {
        spec_insert_sorted(spec_sort_candidates(s.drop_last()), s.last())
    }
}

proof fn lemma_insert_sorted_props(s: Seq<EdgeCandidate>, x: EdgeCandidate)
    requires
        spec_sorted_by_error(s),
    ensures
        spec_insert_sorted(s, x).len() == s.len() + 1,
        spec_sorted_by_error(spec_insert_sorted(s, x)),
        forall|k: int|
            0 <= k < spec_insert_sorted(s, x).len() ==> #[trigger] spec_insert_sorted(s, x)[k] == x
                || s.contains(spec_insert_sorted(s, x)[k]),
    decreases s.len(),
{
    let res = spec_insert_sorted(s, x);
    if s.len() == 0 {
        assert(res[0] == x);
    } else if x.radial_error < s.last().radial_error {
        let d = s.drop_last();
        assert(spec_sorted_by_error(d)) by {
            assert(forall|a: int, b: int|
                0 <= a <= b < d.len() ==> (#[trigger] d[a]).radial_error
                    <= (#[trigger] d[b]).radial_error) by {
                assert(forall|t: int| 0 <= t < d.len() ==> #[trigger] d[t] == s[t]);
            }
        }
        lemma_insert_sorted_props(d, x);
        let rd = spec_insert_sorted(d, x);
        assert(res == rd.push(s.last()));
        assert forall|k: int| 0 <= k < res.len() implies #[trigger] res[k] == x || s.contains(
            res[k],
        ) by {
            if k < rd.len() {
                assert(res[k] == rd[k]);
                if rd[k] != x {
                    assert(d.contains(rd[k]));
                    let t = choose|t: int| 0 <= t < d.len() && d[t] == rd[k];
                    assert(s[t] == rd[k]);
                }
            } else {
                assert(res[k] == s.last());
                assert(s[s.len() - 1] == s.last());
            }
        }
        assert forall|a: int, b: int| 0 <= a <= b < res.len() implies (
        #[trigger] res[a]).radial_error <= (#[trigger] res[b]).radial_error by {
            if b < rd.len() {
            } else {
                // `b` names the old last element; everything placed before it
                // is either `x` or an element of the shorter prefix.
                assert(res[b] == s.last());
                if a < rd.len() {
                    if rd[a] == x {
                    } else {
                        assert(d.contains(rd[a]));
                        let t = choose|t: int| 0 <= t < d.len() && d[t] == rd[a];
                        assert(s[t].radial_error <= s.last().radial_error);
                    }
                }
            }
        }
    } else {
        assert(res == s.push(x));
        assert forall|a: int, b: int| 0 <= a <= b < res.len() implies (
        #[trigger] res[a]).radial_error <= (#[trigger] res[b]).radial_error by {
            if b == s.len() {
                if a < s.len() {
                    assert(s[a].radial_error <= s.last().radial_error);
                }
            }
        }
        assert forall|k: int| 0 <= k < res.len() implies #[trigger] res[k] == x || s.contains(
            res[k],
        ) by {
            if k < s.len() {
                assert(s[k] == res[k]);
            }
        }
    }
}

pub proof fn lemma_sort_candidates_props(s: Seq<EdgeCandidate>)
    ensures
        spec_sort_candidates(s).len() == s.len(),
        spec_sorted_by_error(spec_sort_candidates(s)),
        forall|k: int|
            0 <= k < spec_sort_candidates(s).len() ==> s.contains(
                #[trigger] spec_sort_candidates(s)[k],
            ),
    decreases s.len(),
{
    if s.len() > 0 {
        let d = s.drop_last();
        lemma_sort_candidates_props(d);
        lemma_insert_sorted_props(spec_sort_candidates(d), s.last());
        assert forall|k: int| 0 <= k < spec_sort_candidates(s).len() implies s.contains(
            #[trigger] spec_sort_candidates(s)[k],
        ) by {
            let y = spec_sort_candidates(s)[k];
            if y == s.last() {
                assert(s[s.len() - 1] == y);
            } else {
                assert(spec_sort_candidates(d).contains(y) || y == s.last());
                if spec_sort_candidates(d).contains(y) {
                    let t = choose|t: int|
                        0 <= t < spec_sort_candidates(d).len() && spec_sort_candidates(d)[t] == y;
                    assert(d.contains(y));
                    let w = choose|w: int| 0 <= w < d.len() && d[w] == y;
                    assert(s[w] == y);
                }
            }
        }
    }
}

proof fn lemma_insert_sorted_at(s: Seq<EdgeCandidate>, x: EdgeCandidate, j: int)
    requires
        spec_sorted_by_error(s),
        0 <= j <= s.len(),
        forall|t: int| j <= t < s.len() ==> x.radial_error < (#[trigger] s[t]).radial_error,
        j > 0 ==> s[j - 1].radial_error <= x.radial_error,
    ensures
        spec_insert_sorted(s, x) == s.insert(j, x),
    decreases s.len(),
{
    if s.len() == 0 {
        assert(spec_insert_sorted(s, x) =~= s.insert(0, x));
    } else if j == s.len() {
        assert(spec_insert_sorted(s, x) =~= s.insert(j, x));
    } else {
        let d = s.drop_last();
        assert(spec_sorted_by_error(d)) by {
            assert(forall|t: int| 0 <= t < d.len() ==> #[trigger] d[t] == s[t]);
        }
        assert(x.radial_error < s.last().radial_error) by {
            assert(s[s.len() - 1] == s.last());
        }
        lemma_insert_sorted_at(d, x, j);
        assert(spec_insert_sorted(d, x).push(s.last()) =~= s.insert(j, x));
    }
}

/// Sorts the candidates by ascending radial error, keeping candidates of
/// equal error in their encounter order.
pub fn sorted_by_radial_error(v: Vec<EdgeCandidate>) -> (r: Vec<EdgeCandidate>)
    ensures
        r@ == spec_sort_candidates(v@),
{
    let n = v.len();
    let mut out: Vec<EdgeCandidate> = Vec::new();
    let mut idx: usize = 0;
    while idx < n
        invariant
            n == v@.len(),
            0 <= idx <= n,
            out@ == spec_sort_candidates(v@.subrange(0, idx as int)),
        decreases n - idx,
    {
        let x = v[idx];
        let mut j: usize = out.len();
        while j > 0 && x.radial_error < out[j - 1].radial_error
            invariant
                0 <= j <= out@.len(),
                forall|t: int|
                    j <= t < out@.len() ==> x.radial_error < (#[trigger] out@[t]).radial_error,
            decreases j,
        {
            j -= 1;
        }
        let ghost pre = out@;
        out.insert(j, x);
        idx += 1;
        proof {
            lemma_sort_candidates_props(v@.subrange(0, idx - 1));
            lemma_insert_sorted_at(pre, x, j as int);
            assert(v@.subrange(0, idx as int).drop_last() =~= v@.subrange(0, idx - 1));
            assert(v@.subrange(0, idx as int).last() == v@[idx - 1]);
        }
    }
    proof {
        assert(v@.subrange(0, n as int) =~= v@);
    }
    out
}

/// The greedy carving: processes ranked candidates from `k` on, splitting
/// while each candidate's error stays within tolerance; the ranked list is
/// truncated at the first excess, since it is sorted ascending.
pub open spec fn spec_split_fold(
    sections: Seq<SketchPair<SketchVertexRange>>,
    lo: Sketch,
    up: Sketch,
    cands: Seq<EdgeCandidate>,
    tol: u32,
    k: int,
) -> Seq<SketchPair<SketchVertexRange>>
    decreases cands.len() - k,
    when 0 <= k
{
    if k >= cands.len() {
        sections
    } else if cands[k].radial_error > tol {
        sections
    } else {
        spec_split_fold(
            spec_try_split(sections, lo, up, cands[k].vertices),
            lo,
            up,
            cands,
            tol,
            k + 1,
        )
    }
}

/// The loft of one sketch pair: candidates ranked by error, carved greedily
/// into sections within tolerance, each section resolved by the merge sweep;
/// with no section at all, the degenerate full-ring edge list.
pub open spec fn spec_loft_sketches(lo: Sketch, up: Sketch, tol: u32) -> crate::loft::LoftView {
    let cands = spec_sort_candidates(spec_candidates(lo, up));
    let sections = spec_split_fold(Seq::empty(), lo, up, cands, tol, 0);
    spec_build(sections, lo, up, tol)
}

/// Builds the loft connecting one adjacent pair of sketches.
pub fn loft_sketches(sketches: SketchPair<&Sketch>, options: &LoftOptions) -> (r: Loft)
    requires
        sketches.lower.wf(),
        sketches.upper.wf(),
        sketches.lower.n() > 0,
        sketches.upper.n() > 0,
    ensures
        r@ == spec_loft_sketches(*sketches.lower, *sketches.upper, options.max_radial_edge_angle),
{
    let mut loft_map_builder = LoftBuilder::new();

    // Get edge candidates, which are all combinations of vertices between
    // sketches, and sort them by increasing radial error.
    let edge_cands = edge_candidates(sketches);
    let edge_cands = sorted_by_radial_error(edge_cands);

    let ghost scands = edge_cands@;
    proof {
        lemma_sort_candidates_props(spec_candidates(*sketches.lower, *sketches.upper));
        lemma_candidate_rows_valid(*sketches.lower, *sketches.upper, sketches.lower.n());
        assert forall|k: int| 0 <= k < scands.len() implies spec_candidate_valid(
            #[trigger] scands[k],
            *sketches.lower,
            *sketches.upper,
        ) by {
            assert(spec_candidates(*sketches.lower, *sketches.upper).contains(scands[k]));
            let t = choose|t: int|
                0 <= t < spec_candidates(*sketches.lower, *sketches.upper).len()
                    && spec_candidates(*sketches.lower, *sketches.upper)[t] == scands[k];
        }
    }

    let max_radial_error = options.max_radial_edge_angle;

    // Iterate edge candidates, taking edges as long as they are valid, until
    // radial error > max error.
    let n = edge_cands.len();
    let mut k: usize = 0;
    while k < n
        invariant
            n == scands.len(),
            0 <= k <= n,
            edge_cands@ == scands,
            sketches.lower.wf(),
            sketches.upper.wf(),
            forall|t: int|
                0 <= t < scands.len() ==> spec_candidate_valid(
                    #[trigger] scands[t],
                    *sketches.lower,
                    *sketches.upper,
                ),
            spec_ranges_valid(
                loft_map_builder.sections@,
                *sketches.lower,
                *sketches.upper,
            ),
            spec_split_fold(
                Seq::empty(),
                *sketches.lower,
                *sketches.upper,
                scands,
                max_radial_error,
                0,
            ) == spec_split_fold(
                loft_map_builder.sections@,
                *sketches.lower,
                *sketches.upper,
                scands,
                max_radial_error,
                k as int,
            ),
        ensures
            spec_ranges_valid(
                loft_map_builder.sections@,
                *sketches.lower,
                *sketches.upper,
            ),
            loft_map_builder.sections@ == spec_split_fold(
                Seq::empty(),
                *sketches.lower,
                *sketches.upper,
                scands,
                max_radial_error,
                0,
            ),
        decreases n - k,
    {
        let edge_candidate = &edge_cands[k];
        if edge_candidate.radial_error > max_radial_error {
            break ;
        }
        loft_map_builder.try_split_section(sketches, edge_candidate.vertices);
        k += 1;
    }

    // Resolve sections.
    loft_map_builder.build(sketches, max_radial_error)
}

/// Radius used by the default lofter's unit squares, in fixed-point units.
pub const UNIT_RADIUS: u64 = 65536;

/// Stacking offset between the default lofter's two sketches.
pub const DEFAULT_STACK_OFFSET: i64 = 196608;

/// The top-level lofter: an ordered stack of sketches, and the loft cached
/// for each adjacent pair. `loft` must be called explicitly to (re)build the
/// cached lofts after the sketches change.
pub struct Lofter {
    pub sketches: Vec<Sketch>,
    /// Mappings for each pair of sketches. There will always be one-fewer
    /// mappings than the number of sketches (and none for an empty stack).
    pub loft_maps: Vec<Loft>,
}

impl Lofter {
    /// Every sketch is well formed and has at least one vertex.
    pub open spec fn sketches_wf(self) -> bool {
        forall|k: int|
            0 <= k < self.sketches@.len() ==> (#[trigger] self.sketches@[k]).wf()
                && self.sketches@[k].n() > 0
    }

    /// The cached lofts are exactly those of the current sketches at the
    /// given tolerance.
    pub open spec fn lofted(self, tol: u32) -> bool {
        &&& self.loft_maps@.len() == if self.sketches@.len() == 0 {
            0int
        } else {
            self.sketches@.len() - 1
        }
        &&& forall|k: int|
            0 <= k < self.loft_maps@.len() ==> (#[trigger] self.loft_maps@[k])@
                == spec_loft_sketches(self.sketches@[k], self.sketches@[k + 1], tol)
    }

    /// Appends a sketch at the top of the stack.
    pub fn push_sketch(&mut self, sketch: &SketchDescriptor)
        requires
            sketch.vertices@.len() < 0x4000_0000,
        ensures
            final(self).sketches@.len() == old(self).sketches@.len() + 1,
            forall|k: int|
                0 <= k < old(self).sketches@.len() ==> final(self).sketches@[k] == old(
                    self,
                ).sketches@[k],
            spec_described_sketch(final(self).sketches@.last(), *sketch),
            final(self).loft_maps == old(self).loft_maps,
    {
        let sketch_index = self.sketches.len();
        self.insert_sketch(sketch_index, sketch);
    }

    /// Inserts a sketch at the given stack index, shifting the sketches above
    /// it up.
    pub fn insert_sketch(&mut self, sketch_index: usize, sketch: &SketchDescriptor)
        requires
            sketch_index <= old(self).sketches@.len(),
            sketch.vertices@.len() < 0x4000_0000,
        ensures
            final(self).sketches@.len() == old(self).sketches@.len() + 1,
            forall|k: int|
                0 <= k < sketch_index ==> final(self).sketches@[k] == old(self).sketches@[k],
            spec_described_sketch(final(self).sketches@[sketch_index as int], *sketch),
            forall|k: int|
                sketch_index < k < final(self).sketches@.len() ==> final(self).sketches@[k] == old(
                    self,
                ).sketches@[k - 1],
            final(self).loft_maps == old(self).loft_maps,
    {
        let s = Sketch::from_descriptor(sketch);
        self.sketches.insert(sketch_index, s);
    }

    /// Removes the sketch at the given stack index, shifting the sketches
    /// above it down.
    pub fn remove_sketch(&mut self, sketch_index: usize)
        requires
            sketch_index < old(self).sketches@.len(),
        ensures
            final(self).sketches@ == old(self).sketches@.remove(sketch_index as int),
            final(self).loft_maps == old(self).loft_maps,
    {
        self.sketches.remove(sketch_index);
    }

    /// The rotation of a sketch about the stacking axis, in angle units, or
    /// `None` for an out-of-range index.
    pub fn sketch_rotation(&self, sketch_index: usize) -> (r: Option<u32>)
        ensures
            match r {
                Option::Some(a) => sketch_index < self.sketches@.len() && a
                    == self.sketches@[sketch_index as int].rotation,
                Option::None => sketch_index >= self.sketches@.len(),
            },
    {
        if sketch_index < self.sketches.len() {
            Some(self.sketches[sketch_index].rotation)
        } else {
            None
        }
    }

    /// Sets the rotation of a sketch about the stacking axis; an out-of-range
    /// index is silently ignored.
    pub fn set_sketch_rotation(&mut self, sketch_index: usize, rotation: u32)
        ensures
            final(self).loft_maps == old(self).loft_maps,
            sketch_index < old(self).sketches@.len() ==> final(self).sketches@ == old(
                self,
            ).sketches@.update(
                sketch_index as int,
                Sketch { rotation, ..old(self).sketches@[sketch_index as int] },
            ),
            sketch_index >= old(self).sketches@.len() ==> final(self).sketches@ == old(
                self,
            ).sketches@,
    {
        if sketch_index >= self.sketches.len() {
            return ;
        }
        let ghost pre = self.sketches@;
        let mut s = self.sketches.remove(sketch_index);
        s.rotation = rotation;
        self.sketches.insert(sketch_index, s);
        proof {
            assert(self.sketches@ =~= pre.update(
                sketch_index as int,
                Sketch { rotation, ..pre[sketch_index as int] },
            ));
        }
    }

    /// The relative offset of a sketch, or `None` for an out-of-range index.
    pub fn sketch_relative_position(&self, sketch_index: usize) -> (r: Option<Offset3>)
        ensures
            match r {
                Option::Some(p) => sketch_index < self.sketches@.len() && p
                    == self.sketches@[sketch_index as int].relative_position,
                Option::None => sketch_index >= self.sketches@.len(),
            },
    {
        if sketch_index < self.sketches.len() {
            Some(self.sketches[sketch_index].relative_position)
        } else {
            None
        }
    }

    /// Sets the relative offset of a sketch; an out-of-range index is
    /// silently ignored.
    pub fn set_sketch_relative_position(&mut self, sketch_index: usize, relative_position: Offset3)
        ensures
            final(self).loft_maps == old(self).loft_maps,
            sketch_index < old(self).sketches@.len() ==> final(self).sketches@ == old(
                self,
            ).sketches@.update(
                sketch_index as int,
                Sketch { relative_position, ..old(self).sketches@[sketch_index as int] },
            ),
            sketch_index >= old(self).sketches@.len() ==> final(self).sketches@ == old(
                self,
            ).sketches@,
    {
        if sketch_index >= self.sketches.len() {
            return ;
        }
        let ghost pre = self.sketches@;
        let mut s = self.sketches.remove(sketch_index);
        s.relative_position = relative_position;
        self.sketches.insert(sketch_index, s);
        proof {
            assert(self.sketches@ =~= pre.update(
                sketch_index as int,
                Sketch { relative_position, ..pre[sketch_index as int] },
            ));
        }
    }

    /// Reserved for future sketch editing; currently leaves the lofter
    /// unchanged.
    pub fn insert_vertex(&mut self, sketch_index: usize, between_vertices: (VertexId, VertexId))
        ensures
            *final(self) == *old(self),
    {
    }

    /// Reserved for future sketch editing; currently leaves the lofter
    /// unchanged.
    pub fn remove_vertex(&mut self, sketch_index: usize, vertex_id: VertexId)
        ensures
            *final(self) == *old(self),
    {
    }

    /// Returns all vertices of a sketch with their raw positions, in CCW
    /// order, or `None` for an out-of-range index.
    pub fn vertices(&self, sketch_index: usize) -> (r: Option<Vec<(VertexId, PolarPos)>>)
        requires
            self.sketches_wf(),
        ensures
            match r {
                Option::Some(v) => {
                    let s = self.sketches@[sketch_index as int];
                    &&& sketch_index < self.sketches@.len()
                    &&& v@.len() == s.n()
                    &&& forall|k: int|
                        0 <= k < s.n() ==> #[trigger] v@[k] == (
                            s.vertex_order@[k],
                            s.pos_of(s.vertex_order@[k]),
                        )
                },
                Option::None => sketch_index >= self.sketches@.len(),
            },
    {
        if sketch_index >= self.sketches.len() {
            return None;
        }
        let s = &self.sketches[sketch_index];
        let n = s.vertex_order.len();
        let mut v: Vec<(VertexId, PolarPos)> = Vec::new();
        let mut k: usize = 0;
        while k < n
            invariant
                s == &self.sketches@[sketch_index as int],
                s.wf(),
                n == s.n(),
                0 <= k <= n,
                v@.len() == k,
                forall|t: int|
                    0 <= t < k ==> #[trigger] v@[t] == (
                        s.vertex_order@[t],
                        s.pos_of(s.vertex_order@[t]),
                    ),
            decreases n - k,
        {
            let id = s.vertex_order[k];
            let p = s.vertex_map[id as usize].unwrap();
            v.push((id, p));
            k += 1;
        }
        Some(v)
    }

    /// The raw position stored for a vertex, or `None` when the sketch index
    /// or vertex id is unknown.
    pub fn get_vertex(&self, sketch_index: usize, vertex_id: VertexId) -> (r: Option<PolarPos>)
        ensures
            match r {
                Option::Some(p) => sketch_index < self.sketches@.len() && (vertex_id as int)
                    < self.sketches@[sketch_index as int].vertex_map@.len()
                    && self.sketches@[sketch_index as int].vertex_map@[vertex_id as int]
                    == Option::Some(p),
                Option::None => sketch_index >= self.sketches@.len() || (vertex_id as int)
                    >= self.sketches@[sketch_index as int].vertex_map@.len()
                    || self.sketches@[sketch_index as int].vertex_map@[vertex_id as int] is None,
            },
    {
        if sketch_index >= self.sketches.len() {
            return None;
        }
        let s = &self.sketches[sketch_index];
        if (vertex_id as usize) >= s.vertex_map.len() {
            return None;
        }
        s.vertex_map[vertex_id as usize]
    }

    /// Sets the raw position of a vertex; an unknown sketch index or vertex
    /// id is silently ignored.
    pub fn set_vertex(&mut self, sketch_index: usize, vertex_id: VertexId, position: PolarPos)
        ensures
            final(self).loft_maps == old(self).loft_maps,
            final(self).sketches@.len() == old(self).sketches@.len(),
            ({
                let s = old(self).sketches@[sketch_index as int];
                if sketch_index < old(self).sketches@.len() && (vertex_id as int)
                    < s.vertex_map@.len() && s.vertex_map@[vertex_id as int] is Some {
                    final(self).sketches@ == old(self).sketches@.update(
                        sketch_index as int,
                        Sketch {
                            vertex_map: final(self).sketches@[sketch_index as int].vertex_map,
                            ..s
                        },
                    ) && final(self).sketches@[sketch_index as int].vertex_map@
                        == s.vertex_map@.update(vertex_id as int, Option::Some(position))
                } else {
                    final(self).sketches@ == old(self).sketches@
                }
            }),
            old(self).sketches_wf() ==> final(self).sketches_wf(),
    {
        if sketch_index >= self.sketches.len() {
            return ;
        }
        let ghost pre = self.sketches@;
        let mut s = self.sketches.remove(sketch_index);
        let found = (vertex_id as usize) < s.vertex_map.len() && s.vertex_map[vertex_id
            as usize].is_some();
        if found {
            s.vertex_map.set(vertex_id as usize, Some(position));
        }
        self.sketches.insert(sketch_index, s);
        proof {
            if found {
                assert(self.sketches@ =~= pre.update(
                    sketch_index as int,
                    Sketch {
                        vertex_map: self.sketches@[sketch_index as int].vertex_map,
                        ..pre[sketch_index as int]
                    },
                ));
            } else {
                assert(self.sketches@ =~= pre);
            }
            if old(self).sketches_wf() {
                assert forall|k: int|
                    0 <= k < self.sketches@.len() implies (#[trigger] self.sketches@[k]).wf()
                    && self.sketches@[k].n() > 0 by {
                    if k != sketch_index {
                        assert(self.sketches@[k] == pre[k]);
                    }
                }
            }
        }
    }

    /// Create (or recreate) the loft shape.
    pub fn loft(&mut self, options: &LoftOptions)
        requires
            old(self).sketches_wf(),
        ensures
            final(self).sketches == old(self).sketches,
            final(self).lofted(options.max_radial_edge_angle),
    {
        let mut loft_maps: Vec<Loft> = Vec::new();
        let n = self.sketches.len();
        let mut k: usize = 0;
        while n > 0 && k < n - 1
            invariant
                self.sketches == old(self).sketches,
                self.sketches_wf(),
                n == self.sketches@.len(),
                0 <= k,
                n == 0 ==> k == 0,
                n > 0 ==> k <= n - 1,
                loft_maps@.len() == k,
                forall|t: int|
                    0 <= t < k ==> (#[trigger] loft_maps@[t])@ == spec_loft_sketches(
                        self.sketches@[t],
                        self.sketches@[t + 1],
                        options.max_radial_edge_angle,
                    ),
            decreases n - k,
        {
            let loft = loft_sketches(
                SketchPair::new(&self.sketches[k], &self.sketches[k + 1]),
                options,
            );
            loft_maps.push(loft);
            k += 1;
        }
        self.loft_maps = loft_maps;
    }

    /// Returns the flattened triangle list of every cached loft. Each
    /// triangle is tagged with the index of its sketch pair: its lower ring
    /// is `sketches[k]`, its upper ring `sketches[k + 1]`. The list depends
    /// only on the cached lofts, never on the sketches' current transforms.
    pub fn triangle_buffer(&self) -> (r: Vec<(usize, Triangle)>)
        ensures
            r@ == spec_triangle_buffer(self.loft_maps@, 0),
    {
        let mut r: Vec<(usize, Triangle)> = Vec::new();
        let n = self.loft_maps.len();
        let mut k: usize = 0;
        while k < n
            invariant
                n == self.loft_maps@.len(),
                0 <= k <= n,
                spec_triangle_buffer(self.loft_maps@, 0) == r@ + spec_triangle_buffer(
                    self.loft_maps@,
                    k as int,
                ),
            decreases n - k,
        {
            let tris = self.loft_maps[k].build_triangle_list();
            let m = tris.len();
            let ghost tagged = spec_loft_triangles(self.loft_maps@[k as int]@).map_values(
                |t: Triangle| (k as usize, t),
            );
            proof {
                assert(tagged.subrange(0, m as int) =~= tagged);
                assert(r@ + (tagged + spec_triangle_buffer(self.loft_maps@, k as int + 1)) =~= r@
                    + tagged.subrange(0, m as int) + spec_triangle_buffer(
                    self.loft_maps@,
                    k as int + 1,
                ));
            }
            let mut t: usize = 0;
            while t < m
                invariant
                    n == self.loft_maps@.len(),
                    0 <= k < n,
                    m == tris@.len(),
                    0 <= t <= m,
                    tris@ == spec_loft_triangles(self.loft_maps@[k as int]@),
                    tagged == spec_loft_triangles(self.loft_maps@[k as int]@).map_values(
                        |x: Triangle| (k as usize, x),
                    ),
                    tagged.len() == m,
                    spec_triangle_buffer(self.loft_maps@, 0) == r@ + tagged.subrange(
                        t as int,
                        m as int,
                    ) + spec_triangle_buffer(self.loft_maps@, k as int + 1),
                decreases m - t,
            {
                let ghost pre = r@;
                r.push((k, tris[t]));
                t += 1;
                proof {
                    assert(tagged[t - 1] == (k as usize, tris@[t - 1]));
                    assert(tagged.subrange(t - 1, m as int) =~= seq![tagged[t - 1]]
                        + tagged.subrange(t as int, m as int));
                    assert(pre + tagged.subrange(t - 1, m as int) + spec_triangle_buffer(
                        self.loft_maps@,
                        k as int + 1,
                    ) =~= r@ + tagged.subrange(t as int, m as int) + spec_triangle_buffer(
                        self.loft_maps@,
                        k as int + 1,
                    ));
                }
            }
            k += 1;
            proof {
                assert(tagged.subrange(m as int, m as int) =~= Seq::<(usize, Triangle)>::empty());
                assert(r@ + Seq::<(usize, Triangle)>::empty() + spec_triangle_buffer(
                    self.loft_maps@,
                    k as int,
                ) =~= r@ + spec_triangle_buffer(self.loft_maps@, k as int));
            }
        }
        r
    }
}

/// The triangles of every loft from pair index `k` on, each tagged with its
/// pair index.
pub open spec fn spec_triangle_buffer(maps: Seq<Loft>, k: int) -> Seq<(usize, Triangle)>
    decreases maps.len() - k,
    when 0 <= k
{
    if k >= maps.len() {
        Seq::empty()
    } else {
        spec_loft_triangles(maps[k]@).map_values(|t: Triangle| (k as usize, t))
            + spec_triangle_buffer(maps, k + 1)
    }
}

impl Default for Lofter {
    /// A lofter holding two aligned unit squares, one stacked above the
    /// other, already lofted at the default tolerance.
    fn default() -> (r: Self)
        ensures
            r.sketches_wf(),
            r.sketches@.len() == 2,
            r.lofted(DEFAULT_MAX_RADIAL_EDGE_ANGLE),
    {
        let mut lofter = Lofter { sketches: Vec::new(), loft_maps: Vec::new() };

        let mut lower_vertices: Vec<PolarPos> = Vec::new();
        lower_vertices.push(PolarPos { angle: 0, radius: UNIT_RADIUS, z: 0 });
        lower_vertices.push(PolarPos { angle: 0x4000_0000, radius: UNIT_RADIUS, z: 0 });
        lower_vertices.push(PolarPos { angle: 0x8000_0000, radius: UNIT_RADIUS, z: 0 });
        lower_vertices.push(PolarPos { angle: 0xC000_0000, radius: UNIT_RADIUS, z: 0 });

        let mut upper_vertices: Vec<PolarPos> = Vec::new();
        upper_vertices.push(PolarPos { angle: 0, radius: UNIT_RADIUS, z: 0 });
        upper_vertices.push(PolarPos { angle: 0x4000_0000, radius: UNIT_RADIUS, z: 0 });
        upper_vertices.push(PolarPos { angle: 0x8000_0000, radius: UNIT_RADIUS, z: 0 });
        upper_vertices.push(PolarPos { angle: 0xC000_0000, radius: UNIT_RADIUS, z: 0 });

        lofter.push_sketch(
            &SketchDescriptor {
                vertices: lower_vertices,
                relative_position: Offset3 { x: 0, y: 0, z: 0 },
                rotation: 0,
            },
        );
        lofter.push_sketch(
            &SketchDescriptor {
                vertices: upper_vertices,
                relative_position: Offset3 { x: 0, y: 0, z: DEFAULT_STACK_OFFSET },
                rotation: 0,
            },
        );

        let options = LoftOptions::default();
        lofter.loft(&options);
        lofter
    }
}

} // verus!
