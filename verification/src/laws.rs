//! Laws of the lofting algorithm, stated and proved over the same spec
//! functions that the executable functions' contracts use.

use vstd::prelude::*;
use crate::angle::{
    lemma_error_bounds, spec_radial_error, HALF_TURN,
};
use crate::loft::{
    spec_all_loft_edges, spec_edge_at, spec_find_section, spec_loft_edge_cycle, spec_loft_edges,
    spec_ranges_valid, spec_resolved_sections, spec_try_split, LoftVertex, LoftView,
};
use crate::range::SketchVertexRange;
use crate::sketch::{Sketch, VertexId};
use crate::util::SketchPair;
use crate::{
    spec_candidate, spec_candidate_rows, spec_candidate_valid, spec_candidates,
    spec_loft_sketches, spec_sort_candidates, spec_split_fold, spec_triangle_buffer, EdgeCandidate,
    Lofter,
};

verus! {

/// A direct vertex-to-vertex edge pairs two rotated vertices whose radial
/// error is within the tolerance; mixed and interpolated edges are
/// unconstrained here.
pub open spec fn spec_edge_within_tolerance(
    e: SketchPair<LoftVertex>,
    lo: Sketch,
    up: Sketch,
    tol: u32,
) -> bool {
    match (e.lower, e.upper) {
        (LoftVertex::SketchVertex(a), LoftVertex::SketchVertex(b)) => spec_radial_error(
            lo.rotated_angle_of(a),
            up.rotated_angle_of(b),
        ) <= tol,
        _ => true,
    }
}

/// A direct vertex-to-vertex edge, with no interpolated endpoint.
pub open spec fn spec_edge_direct(e: SketchPair<LoftVertex>) -> bool {
    e.lower is SketchVertex && e.upper is SketchVertex
}

/// Every edge the merge sweep emits is within tolerance when direct; and
/// with a tolerance of at least half a turn, every emitted edge is direct.
pub proof fn lemma_sweep_edge_props(
    l: Seq<VertexId>,
    u: Seq<VertexId>,
    lo: Sketch,
    up: Sketch,
    tol: u32,
    i: int,
    j: int,
)
    requires
        0 <= i < l.len(),
        0 <= j < u.len(),
    ensures
        forall|k: int|
            0 <= k < spec_loft_edges(l, u, lo, up, tol, i, j).len() ==> spec_edge_within_tolerance(
                #[trigger] spec_loft_edges(l, u, lo, up, tol, i, j)[k],
                lo,
                up,
                tol,
            ),
        HALF_TURN <= tol ==> forall|k: int|
            0 <= k < spec_loft_edges(l, u, lo, up, tol, i, j).len() ==> spec_edge_direct(
                #[trigger] spec_loft_edges(l, u, lo, up, tol, i, j)[k],
            ),
    decreases l.len() - i + u.len() - j,
{
    let res = spec_loft_edges(l, u, lo, up, tol, i, j);
    let has_l = i + 1 < l.len();
    let has_u = j + 1 < u.len();
    if !has_l && !has_u {
    } else {
        let e = spec_edge_at(l, u, lo, up, tol, i, j);
        let al = lo.rotated_angle_of(l[i]);
        let au = up.rotated_angle_of(u[j]);
        lo.lemma_rotated_angle_in_range(l[i]);
        up.lemma_rotated_angle_in_range(u[j]);
        lemma_error_bounds(al, au);
        assert(spec_edge_within_tolerance(e, lo, up, tol));
        assert(HALF_TURN <= tol ==> spec_edge_direct(e));
        if has_l && !has_u {
            lemma_sweep_edge_props(l, u, lo, up, tol, i + 1, j);
            assert(res == seq![e] + spec_loft_edges(l, u, lo, up, tol, i + 1, j));
        } else if !has_l && has_u {
            lemma_sweep_edge_props(l, u, lo, up, tol, i, j + 1);
            assert(res == seq![e] + spec_loft_edges(l, u, lo, up, tol, i, j + 1));
        } else {
            let d = crate::angle::spec_signed_angle(
                lo.rotated_angle_of(l[i + 1]),
                up.rotated_angle_of(u[j + 1]),
            );
            let mag = if d >= 0 {
                d
            } else {
                -d
            };
            if mag <= tol {
                assert(res == seq![e]);
            } else if d > 0 {
                lemma_sweep_edge_props(l, u, lo, up, tol, i + 1, j);
                assert(res == seq![e] + spec_loft_edges(l, u, lo, up, tol, i + 1, j));
            } else {
                lemma_sweep_edge_props(l, u, lo, up, tol, i, j + 1);
                assert(res == seq![e] + spec_loft_edges(l, u, lo, up, tol, i, j + 1));
            }
        }
    }
}

/// The edge properties above carry from each resolved section to the
/// concatenated edge cycle of a sectioned loft.
proof fn lemma_resolved_edge_props(
    ranges: Seq<SketchPair<SketchVertexRange>>,
    lo: Sketch,
    up: Sketch,
    tol: u32,
    k: int,
)
    requires
        lo.wf(),
        up.wf(),
        spec_ranges_valid(ranges, lo, up),
        0 <= k <= ranges.len(),
    ensures
        forall|t: int|
            0 <= t < spec_all_loft_edges(spec_resolved_sections(ranges, lo, up, tol), k).len()
                ==> spec_edge_within_tolerance(
                #[trigger] spec_all_loft_edges(spec_resolved_sections(ranges, lo, up, tol), k)[t],
                lo,
                up,
                tol,
            ),
        HALF_TURN <= tol ==> forall|t: int|
            0 <= t < spec_all_loft_edges(spec_resolved_sections(ranges, lo, up, tol), k).len()
                ==> spec_edge_direct(
                #[trigger] spec_all_loft_edges(spec_resolved_sections(ranges, lo, up, tol), k)[t],
            ),
    decreases ranges.len() - k,
{
    let sections = spec_resolved_sections(ranges, lo, up, tol);
    if k < ranges.len() {
        lemma_resolved_edge_props(ranges, lo, up, tol, k + 1);
        let rp = ranges[k];
        rp.lower.lemma_arc_len_bounds(lo);
        rp.upper.lemma_arc_len_bounds(up);
        let sl = rp.lower.seq_of(lo);
        let su = rp.upper.seq_of(up);
        lemma_sweep_edge_props(sl, su, lo, up, tol, 0, 0);
        assert(sections[k].loft_edges == spec_loft_edges(sl, su, lo, up, tol, 0, 0));
        assert(spec_all_loft_edges(sections, k) == sections[k].loft_edges + spec_all_loft_edges(
            sections,
            k + 1,
        ));
    }
}

/// A found section index lies in range and its ranges contain the candidate
/// vertices.
proof fn lemma_find_section_some(
    sections: Seq<SketchPair<SketchVertexRange>>,
    lo: Sketch,
    up: Sketch,
    cand: SketchPair<VertexId>,
    k0: int,
)
    requires
        0 <= k0,
    ensures
        match spec_find_section(sections, lo, up, cand, k0) {
            Option::Some(k) => k0 <= k < sections.len() && sections[k].lower.spec_contains(
                lo,
                cand.lower,
            ) && sections[k].upper.spec_contains(up, cand.upper),
            Option::None => true,
        },
    decreases sections.len() - k0,
{
    if k0 < sections.len() {
        if !(sections[k0].lower.spec_contains(lo, cand.lower) && sections[k0].upper.spec_contains(
            up,
            cand.upper,
        )) {
            lemma_find_section_some(sections, lo, up, cand, k0 + 1);
        }
    }
}

/// One carving step preserves the validity of every section range.
proof fn lemma_try_split_valid(
    sections: Seq<SketchPair<SketchVertexRange>>,
    lo: Sketch,
    up: Sketch,
    cand: SketchPair<VertexId>,
)
    requires
        spec_ranges_valid(sections, lo, up),
        lo.contains_id(cand.lower),
        up.contains_id(cand.upper),
    ensures
        spec_ranges_valid(spec_try_split(sections, lo, up, cand), lo, up),
{
    let res = spec_try_split(sections, lo, up, cand);
    if sections.len() == 0 {
        assert(res[0].lower.valid_for(lo) && res[0].upper.valid_for(up));
    } else {
        match spec_find_section(sections, lo, up, cand, 0) {
            Option::None => {
            },
            Option::Some(k) => {
                lemma_find_section_some(sections, lo, up, cand, 0);
                let parts = crate::loft::spec_split_ranges(sections[k], cand, lo, up);
                assert(sections[k].lower.valid_for(lo) && sections[k].upper.valid_for(up));
                assert(parts.0.lower.valid_for(lo) && parts.0.upper.valid_for(up));
                assert(parts.1.lower.valid_for(lo) && parts.1.upper.valid_for(up));
                assert forall|t: int| 0 <= t < res.len() implies (#[trigger] res[t]).lower.valid_for(
                    lo,
                ) && res[t].upper.valid_for(up) by {
                    if t < k {
                        assert(res[t] == sections[t]);
                    } else if t == k {
                        assert(res[t] == parts.0);
                    } else if t == k + 1 {
                        assert(res[t] == parts.1);
                    } else {
                        assert(res[t] == sections[t - 1]);
                    }
                }
            },
        }
    }
}

/// Carving preserves the validity of every section range, as long as each
/// processed candidate names vertices its sketches contain.
proof fn lemma_split_fold_valid(
    sections: Seq<SketchPair<SketchVertexRange>>,
    lo: Sketch,
    up: Sketch,
    cands: Seq<EdgeCandidate>,
    tol: u32,
    k: int,
)
    requires
        0 <= k,
        spec_ranges_valid(sections, lo, up),
        forall|t: int| 0 <= t < cands.len() ==> spec_candidate_valid(#[trigger] cands[t], lo, up),
    ensures
        spec_ranges_valid(spec_split_fold(sections, lo, up, cands, tol, k), lo, up),
    decreases cands.len() - k,
{
    if k < cands.len() && cands[k].radial_error <= tol {
        assert(spec_candidate_valid(cands[k], lo, up));
        lemma_try_split_valid(sections, lo, up, cands[k].vertices);
        lemma_split_fold_valid(
            spec_try_split(sections, lo, up, cands[k].vertices),
            lo,
            up,
            cands,
            tol,
            k + 1,
        );
    }
}

/// Carving never empties a non-empty section list.
proof fn lemma_split_fold_keeps_sections(
    sections: Seq<SketchPair<SketchVertexRange>>,
    lo: Sketch,
    up: Sketch,
    cands: Seq<EdgeCandidate>,
    tol: u32,
    k: int,
)
    requires
        0 <= k,
        sections.len() > 0,
    ensures
        spec_split_fold(sections, lo, up, cands, tol, k).len() > 0,
    decreases cands.len() - k,
{
    if k < cands.len() && cands[k].radial_error <= tol {
        let stepped = spec_try_split(sections, lo, up, cands[k].vertices);
        assert(stepped.len() > 0);
        lemma_split_fold_keeps_sections(stepped, lo, up, cands, tol, k + 1);
    }
}

/// The candidate of some vertex index pair whose lower index is below `i`.
pub open spec fn spec_is_candidate_of(c: EdgeCandidate, lo: Sketch, up: Sketch, i: int) -> bool {
    exists|a: int, b: int|
        0 <= a < i && 0 <= b < up.n() && c == #[trigger] spec_candidate(lo, up, a, b)
}

/// Every candidate row element is the candidate of one vertex index pair.
proof fn lemma_candidate_rows_elements(lo: Sketch, up: Sketch, i: int)
    requires
        0 <= i,
    ensures
        forall|k: int|
            0 <= k < spec_candidate_rows(lo, up, i).len() ==> spec_is_candidate_of(
                #[trigger] spec_candidate_rows(lo, up, i)[k],
                lo,
                up,
                i,
            ),
    decreases i,
{
    if i > 0 {
        lemma_candidate_rows_elements(lo, up, i - 1);
        let prev = spec_candidate_rows(lo, up, i - 1);
        let row = Seq::new(up.n() as nat, |j: int| spec_candidate(lo, up, i - 1, j));
        assert(spec_candidate_rows(lo, up, i) == prev + row);
        assert forall|k: int|
            0 <= k < spec_candidate_rows(lo, up, i).len() implies spec_is_candidate_of(
            #[trigger] spec_candidate_rows(lo, up, i)[k],
            lo,
            up,
            i,
        ) by {
            if k < prev.len() {
                assert(spec_candidate_rows(lo, up, i)[k] == spec_candidate_rows(lo, up, i - 1)[k]);
                assert(spec_is_candidate_of(spec_candidate_rows(lo, up, i - 1)[k], lo, up, i - 1));
                let (a, b) = choose|a: int, b: int|
                    0 <= a < i - 1 && 0 <= b < up.n() && spec_candidate_rows(lo, up, i - 1)[k]
                        == spec_candidate(lo, up, a, b);
                assert(spec_candidate_rows(lo, up, i)[k] == spec_candidate(lo, up, a, b));
            } else {
                let b = k - prev.len();
                assert(0 <= b < row.len());
                assert(spec_candidate_rows(lo, up, i)[k] == row[b]);
                assert(spec_candidate_rows(lo, up, i)[k] == spec_candidate(lo, up, i - 1, b));
            }
        }
    }
}

/// The candidate list of the first `i` lower vertices has `i` full rows.
proof fn lemma_candidate_rows_len(lo: Sketch, up: Sketch, i: int)
    requires
        0 <= i,
    ensures
        spec_candidate_rows(lo, up, i).len() == i * up.n(),
    decreases i,
{
    vstd::arithmetic::mul::lemma_mul_basics(up.n());
    if i > 0 {
        lemma_candidate_rows_len(lo, up, i - 1);
        vstd::arithmetic::mul::lemma_mul_is_distributive_add_other_way(up.n(), i - 1, 1);
        assert((i - 1) * up.n() + up.n() == i * up.n());
    } else {
        assert(i * up.n() == 0);
    }
}

/// LAW: for all sketch pairs and every tolerance, every direct
/// vertex-to-vertex edge the loft emits pairs two rotated vertices whose
/// radial error is within the tolerance.
pub proof fn lemma_loft_direct_edges_within_tolerance(lo: Sketch, up: Sketch, tol: u32)
    requires
        lo.wf(),
        up.wf(),
        lo.n() > 0,
        up.n() > 0,
    ensures
        forall|k: int|
            0 <= k < spec_loft_edge_cycle(spec_loft_sketches(lo, up, tol)).len()
                ==> spec_edge_within_tolerance(
                #[trigger] spec_loft_edge_cycle(spec_loft_sketches(lo, up, tol))[k],
                lo,
                up,
                tol,
            ),
{
    lemma_loft_edge_props(lo, up, tol);
}

/// LAW: re-lofting with a tolerance of at least half a turn (the largest
/// possible radial error) yields a sectioned loft whose every connecting
/// edge is a direct vertex-to-vertex edge: no interpolated vertices.
pub proof fn lemma_generous_tolerance_all_direct(lo: Sketch, up: Sketch, tol: u32)
    requires
        lo.wf(),
        up.wf(),
        lo.n() > 0,
        up.n() > 0,
        HALF_TURN <= tol,
    ensures
        spec_loft_sketches(lo, up, tol) is Sectioned,
        forall|k: int|
            0 <= k < spec_loft_edge_cycle(spec_loft_sketches(lo, up, tol)).len()
                ==> spec_edge_direct(
                #[trigger] spec_loft_edge_cycle(spec_loft_sketches(lo, up, tol))[k],
            ),
{
    let cands = spec_sort_candidates(spec_candidates(lo, up));
    crate::lemma_sort_candidates_props(spec_candidates(lo, up));
    lemma_candidate_rows_len(lo, up, lo.n());
    assert(lo.n() * up.n() > 0) by (nonlinear_arith)
        requires
            lo.n() > 0,
            up.n() > 0,
    ;
    assert(cands.len() > 0);

    // The first ranked candidate's error cannot exceed half a turn, so the
    // carving accepts at least one candidate and produces a section.
    lemma_candidate_rows_elements(lo, up, lo.n());
    assert(spec_candidates(lo, up).contains(cands[0]));
    let t = choose|t: int|
        0 <= t < spec_candidates(lo, up).len() && spec_candidates(lo, up)[t] == cands[0];
    assert(spec_is_candidate_of(spec_candidates(lo, up)[t], lo, up, lo.n()));
    let (a, b) = choose|a: int, b: int|
        0 <= a < lo.n() && 0 <= b < up.n() && cands[0] == #[trigger] spec_candidate(lo, up, a, b);
    lo.lemma_rotated_angle_in_range(lo.vertex_order@[a]);
    up.lemma_rotated_angle_in_range(up.vertex_order@[b]);
    lemma_error_bounds(
        lo.rotated_angle_of(lo.vertex_order@[a]),
        up.rotated_angle_of(up.vertex_order@[b]),
    );
    assert(cands[0].radial_error <= tol);

    let first = spec_try_split(Seq::empty(), lo, up, cands[0].vertices);
    assert(first.len() == 1);
    lemma_split_fold_keeps_sections(first, lo, up, cands, tol, 1);
    assert(spec_split_fold(Seq::empty(), lo, up, cands, tol, 0) == spec_split_fold(
        first,
        lo,
        up,
        cands,
        tol,
        1,
    ));
    lemma_loft_edge_props(lo, up, tol);
}

/// LAW (restricted): with a tolerance of at least half a turn, two
/// single-vertex rings loft to exactly one section. With more vertices the
/// carving splits at every accepted candidate, so the sectioned loft of a
/// generous tolerance generally holds more than one section; only its
/// all-direct-edges half holds universally.
pub proof fn lemma_generous_tolerance_single_vertex_rings_one_section(
    lo: Sketch,
    up: Sketch,
    tol: u32,
)
    requires
        lo.wf(),
        up.wf(),
        lo.n() == 1,
        up.n() == 1,
        HALF_TURN <= tol,
    ensures
        spec_loft_sketches(lo, up, tol) matches LoftView::Sectioned { sections } ==> sections.len()
            == 1,
{
    let cands = spec_sort_candidates(spec_candidates(lo, up));
    crate::lemma_sort_candidates_props(spec_candidates(lo, up));
    lemma_candidate_rows_len(lo, up, 1);
    vstd::arithmetic::mul::lemma_mul_basics(up.n());
    assert(cands.len() == 1);
    lemma_candidate_rows_elements(lo, up, 1);
    assert(spec_candidates(lo, up).contains(cands[0]));
    let t = choose|t: int|
        0 <= t < spec_candidates(lo, up).len() && spec_candidates(lo, up)[t] == cands[0];
    assert(spec_is_candidate_of(spec_candidates(lo, up)[t], lo, up, 1));
    let (a, b) = choose|a: int, b: int|
        0 <= a < 1 && 0 <= b < up.n() && cands[0] == #[trigger] spec_candidate(lo, up, a, b);
    lo.lemma_rotated_angle_in_range(lo.vertex_order@[a]);
    up.lemma_rotated_angle_in_range(up.vertex_order@[b]);
    lemma_error_bounds(
        lo.rotated_angle_of(lo.vertex_order@[a]),
        up.rotated_angle_of(up.vertex_order@[b]),
    );
    assert(cands[0].radial_error <= tol);
    let first = spec_try_split(Seq::empty(), lo, up, cands[0].vertices);
    assert(spec_split_fold(Seq::empty(), lo, up, cands, tol, 0) == spec_split_fold(
        first,
        lo,
        up,
        cands,
        tol,
        1,
    ));
    assert(spec_split_fold(first, lo, up, cands, tol, 1) == first);
    assert(first.len() == 1);
}

/// The edge cycle of the loft of any sketch pair is within tolerance where
/// direct, and all direct when the tolerance spans every possible error.
proof fn lemma_loft_edge_props(lo: Sketch, up: Sketch, tol: u32)
    requires
        lo.wf(),
        up.wf(),
        lo.n() > 0,
        up.n() > 0,
    ensures
        forall|k: int|
            0 <= k < spec_loft_edge_cycle(spec_loft_sketches(lo, up, tol)).len()
                ==> spec_edge_within_tolerance(
                #[trigger] spec_loft_edge_cycle(spec_loft_sketches(lo, up, tol))[k],
                lo,
                up,
                tol,
            ),
        HALF_TURN <= tol ==> forall|k: int|
            0 <= k < spec_loft_edge_cycle(spec_loft_sketches(lo, up, tol)).len()
                ==> spec_edge_direct(
                #[trigger] spec_loft_edge_cycle(spec_loft_sketches(lo, up, tol))[k],
            ),
{
    let cands = spec_sort_candidates(spec_candidates(lo, up));
    crate::lemma_sort_candidates_props(spec_candidates(lo, up));
    crate::lemma_candidate_rows_valid(lo, up, lo.n());
    assert forall|k: int| 0 <= k < cands.len() implies spec_candidate_valid(
        #[trigger] cands[k],
        lo,
        up,
    ) by {
        assert(spec_candidates(lo, up).contains(cands[k]));
        let t = choose|t: int|
            0 <= t < spec_candidates(lo, up).len() && spec_candidates(lo, up)[t] == cands[k];
    }
    let sections = spec_split_fold(Seq::empty(), lo, up, cands, tol, 0);
    lemma_split_fold_valid(Seq::empty(), lo, up, cands, tol, 0);
    if sections.len() == 0 {
        let whole_lower = SketchVertexRange {
            range: (lo.vertex_order@[0], lo.vertex_order@[0]),
            covers_entire_sketch: true,
        };
        let whole_upper = SketchVertexRange {
            range: (up.vertex_order@[0], up.vertex_order@[0]),
            covers_entire_sketch: true,
        };
        assert(lo.contains_id(lo.vertex_order@[0]));
        assert(up.contains_id(up.vertex_order@[0]));
        whole_lower.lemma_arc_len_bounds(lo);
        whole_upper.lemma_arc_len_bounds(up);
        lemma_sweep_edge_props(
            whole_lower.seq_of(lo),
            whole_upper.seq_of(up),
            lo,
            up,
            tol,
            0,
            0,
        );
    } else {
        lemma_resolved_edge_props(sections, lo, up, tol, 0);
    }
}

/// LAW: re-lofting with tolerance zero two rings whose rotated vertices
/// never share a direction falls back to the degenerate single edge list.
pub proof fn lemma_zero_tolerance_misaligned_falls_back(lo: Sketch, up: Sketch)
    requires
        forall|a: int, b: int|
            0 <= a < lo.n() && 0 <= b < up.n() ==> lo.rotated_angle_of(
                #[trigger] lo.vertex_order@[a],
            ) != up.rotated_angle_of(#[trigger] up.vertex_order@[b]),
    ensures
        spec_loft_sketches(lo, up, 0) is Fallback,
{
    let cands = spec_sort_candidates(spec_candidates(lo, up));
    crate::lemma_sort_candidates_props(spec_candidates(lo, up));
    lemma_candidate_rows_elements(lo, up, lo.n());
    if cands.len() > 0 {
        assert(spec_candidates(lo, up).contains(cands[0]));
        let t = choose|t: int|
            0 <= t < spec_candidates(lo, up).len() && spec_candidates(lo, up)[t] == cands[0];
        assert(spec_is_candidate_of(spec_candidates(lo, up)[t], lo, up, lo.n()));
        let (a, b) = choose|a: int, b: int|
            0 <= a < lo.n() && 0 <= b < up.n() && cands[0] == #[trigger] spec_candidate(
                lo,
                up,
                a,
                b,
            );
        lo.lemma_rotated_angle_in_range(lo.vertex_order@[a]);
        up.lemma_rotated_angle_in_range(up.vertex_order@[b]);
        lemma_error_bounds(
            lo.rotated_angle_of(lo.vertex_order@[a]),
            up.rotated_angle_of(up.vertex_order@[b]),
        );
        assert(cands[0].radial_error > 0);
        assert(spec_split_fold(Seq::empty(), lo, up, cands, 0, 0) == Seq::<
            SketchPair<SketchVertexRange>,
        >::empty());
    }
}

/// The index after `k` in a cyclic list of the given length.
pub open spec fn spec_next_idx(len: int, k: int) -> int {
    if k + 1 == len {
        0
    } else {
        k + 1
    }
}

/// Sum of the lower-ring arc steps of all sections from index `k` on.
pub open spec fn spec_arc_sum_lower(
    ranges: Seq<SketchPair<SketchVertexRange>>,
    s: Sketch,
    k: int,
) -> int
    decreases ranges.len() - k,
    when 0 <= k
{
    if k >= ranges.len() {
        0
    } else {
        ranges[k].lower.arc_len(s) + spec_arc_sum_lower(ranges, s, k + 1)
    }
}

/// Sum of the upper-ring arc steps of all sections from index `k` on.
pub open spec fn spec_arc_sum_upper(
    ranges: Seq<SketchPair<SketchVertexRange>>,
    s: Sketch,
    k: int,
) -> int
    decreases ranges.len() - k,
    when 0 <= k
{
    if k >= ranges.len() {
        0
    } else {
        ranges[k].upper.arc_len(s) + spec_arc_sum_upper(ranges, s, k + 1)
    }
}

/// Consecutive sections chain end-to-start cyclically, on both rings.
pub open spec fn spec_sections_chained(ranges: Seq<SketchPair<SketchVertexRange>>) -> bool {
    forall|k: int|
        0 <= k < ranges.len() ==> {
            &&& (#[trigger] ranges[k]).lower.range.1 == ranges[spec_next_idx(
                ranges.len() as int,
                k,
            )].lower.range.0
            &&& ranges[k].upper.range.1 == ranges[spec_next_idx(ranges.len() as int, k)].upper.range.0
        }
}

/// The partition property: on each ring, consecutive sections chain
/// end-to-start cyclically, and their arcs together walk the ring exactly
/// once, with no gaps and no overlaps beyond the shared boundary vertices.
pub open spec fn spec_sections_partition(
    ranges: Seq<SketchPair<SketchVertexRange>>,
    lo: Sketch,
    up: Sketch,
) -> bool {
    &&& ranges.len() > 0
    &&& spec_sections_chained(ranges)
    &&& spec_arc_sum_lower(ranges, lo, 0) == lo.n()
    &&& spec_arc_sum_upper(ranges, up, 0) == up.n()
}

/// Replacing one link of a cyclic chain by two links that keep its outer
/// endpoints and meet in the middle keeps the list chained.
proof fn lemma_chain_after_replace(
    old: Seq<SketchPair<SketchVertexRange>>,
    new: Seq<SketchPair<SketchVertexRange>>,
    k: int,
)
    requires
        0 <= k < old.len(),
        new.len() == old.len() + 1,
        forall|t: int| 0 <= t < k ==> #[trigger] new[t] == old[t],
        forall|t: int| k + 1 < t < new.len() ==> #[trigger] new[t] == old[t - 1],
        spec_sections_chained(old),
        new[k].lower.range.0 == old[k].lower.range.0,
        new[k].lower.range.1 == new[k + 1].lower.range.0,
        new[k + 1].lower.range.1 == old[k].lower.range.1,
        new[k].upper.range.0 == old[k].upper.range.0,
        new[k].upper.range.1 == new[k + 1].upper.range.0,
        new[k + 1].upper.range.1 == old[k].upper.range.1,
    ensures
        spec_sections_chained(new),
{
    let old_len = old.len() as int;
    let new_len = new.len() as int;
    assert forall|t: int| 0 <= t < new_len implies {
        &&& (#[trigger] new[t]).lower.range.1 == new[spec_next_idx(new_len, t)].lower.range.0
        &&& new[t].upper.range.1 == new[spec_next_idx(new_len, t)].upper.range.0
    } by {
        let nt = spec_next_idx(new_len, t);
        if t < k {
            assert(new[t] == old[t]);
            assert(old[t].lower.range.1 == old[spec_next_idx(old_len, t)].lower.range.0);
            assert(old[t].upper.range.1 == old[spec_next_idx(old_len, t)].upper.range.0);
            if t + 1 == k {
                assert(spec_next_idx(old_len, t) == k);
            } else {
                assert(spec_next_idx(old_len, t) == t + 1);
                assert(new[nt] == old[t + 1]);
            }
        } else if t == k {
        } else if t == k + 1 {
            assert(old[k].lower.range.1 == old[spec_next_idx(old_len, k)].lower.range.0);
            assert(old[k].upper.range.1 == old[spec_next_idx(old_len, k)].upper.range.0);
            if k + 1 == old_len {
                assert(nt == 0);
                assert(spec_next_idx(old_len, k) == 0);
                if k == 0 {
                } else {
                    assert(new[0] == old[0]);
                }
            } else {
                assert(nt == k + 2);
                assert(new[nt] == old[k + 1]);
                assert(spec_next_idx(old_len, k) == k + 1);
            }
        } else {
            assert(new[t] == old[t - 1]);
            assert(old[t - 1].lower.range.1 == old[spec_next_idx(old_len, t - 1)].lower.range.0);
            assert(old[t - 1].upper.range.1 == old[spec_next_idx(old_len, t - 1)].upper.range.0);
            if t == new_len - 1 {
                assert(nt == 0);
                assert(spec_next_idx(old_len, t - 1) == 0);
                if k == 0 {
                } else {
                    assert(new[0] == old[0]);
                }
            } else {
                assert(nt == t + 1);
                assert(new[nt] == old[t]);
                assert(spec_next_idx(old_len, t - 1) == t);
            }
        }
    }
}

/// Splitting a range at a vertex it visits divides its arc exactly: the two
/// parts' arcs add up to the original arc.
proof fn lemma_split_at_arc_sum(range: SketchVertexRange, s: Sketch, c: VertexId)
    requires
        s.wf(),
        range.valid_for(s),
        range.spec_contains(s, c),
    ensures
        range.spec_split_at(c).0.arc_len(s) + range.spec_split_at(c).1.arc_len(s)
            == range.arc_len(s),
        range.spec_split_at(c).0.valid_for(s),
        range.spec_split_at(c).1.valid_for(s),
{
    let n = s.n();
    let parts = range.spec_split_at(c);
    s.lemma_index_of(range.range.0);
    s.lemma_index_of(range.range.1);
    range.lemma_seq_of_ids(s);
    let t = choose|t: int|
        0 <= t < range.seq_of(s).len() && range.seq_of(s)[t] == c;
    assert(s.contains_id(c));
    s.lemma_index_of(c);
    let a0 = s.spec_index_of(range.range.0);
    let e0 = s.spec_index_of(range.range.1);
    let x = s.spec_index_of(c);
    assert(s.vertex_order@[crate::range::cyc(n, a0 + t)] == c);
    assert(x == crate::range::cyc(n, a0 + t));
    if range.covers_entire_sketch && range.range.0 == range.range.1 && range.range.1 == c {
        // The whole-ring part keeps the full lap; the other part is a single
        // vertex contributing no steps.
    } else {
        assert(parts.0.arc_len(s) + parts.1.arc_len(s) == range.arc_len(s)) by {
            if range.covers_entire_sketch {
                // A full lap split away from its anchor: the two partial arcs
                // wrap once around the ring between them.
                assert(c != range.range.0);
                assert(x != a0);
            } else {
                assert(t <= range.arc_len(s));
            }
        }
    }
}

/// Replacing one section by two whose arcs add to the original's leaves the
/// suffix sums beyond the replacement unchanged.
proof fn lemma_arc_sum_suffix(
    old: Seq<SketchPair<SketchVertexRange>>,
    new: Seq<SketchPair<SketchVertexRange>>,
    lo: Sketch,
    up: Sketch,
    k: int,
    j: int,
)
    requires
        0 <= k < old.len(),
        new == old.subrange(0, k) + seq![new[k], new[k + 1]] + old.subrange(k + 1, old.len() as int),
        k < j <= old.len(),
    ensures
        spec_arc_sum_lower(new, lo, j + 1) == spec_arc_sum_lower(old, lo, j),
        spec_arc_sum_upper(new, up, j + 1) == spec_arc_sum_upper(old, up, j),
    decreases old.len() - j,
{
    if j < old.len() {
        assert(new[j + 1] == old[j]);
        lemma_arc_sum_suffix(old, new, lo, up, k, j + 1);
    }
}

/// Replacing one section by two whose arcs add to the original's preserves
/// the total arc sums.
proof fn lemma_arc_sum_replace(
    old: Seq<SketchPair<SketchVertexRange>>,
    new: Seq<SketchPair<SketchVertexRange>>,
    lo: Sketch,
    up: Sketch,
    k: int,
    j: int,
)
    requires
        0 <= j <= k < old.len(),
        new == old.subrange(0, k) + seq![new[k], new[k + 1]] + old.subrange(k + 1, old.len() as int),
        new[k].lower.arc_len(lo) + new[k + 1].lower.arc_len(lo) == old[k].lower.arc_len(lo),
        new[k].upper.arc_len(up) + new[k + 1].upper.arc_len(up) == old[k].upper.arc_len(up),
    ensures
        spec_arc_sum_lower(new, lo, j) == spec_arc_sum_lower(old, lo, j),
        spec_arc_sum_upper(new, up, j) == spec_arc_sum_upper(old, up, j),
    decreases k - j,
{
    if j == k {
        lemma_arc_sum_suffix(old, new, lo, up, k, k + 1);
        assert(spec_arc_sum_lower(new, lo, k + 1) == new[k + 1].lower.arc_len(lo)
            + spec_arc_sum_lower(new, lo, k + 2));
        assert(spec_arc_sum_lower(new, lo, k) == new[k].lower.arc_len(lo) + spec_arc_sum_lower(
            new,
            lo,
            k + 1,
        ));
        assert(spec_arc_sum_upper(new, up, k + 1) == new[k + 1].upper.arc_len(up)
            + spec_arc_sum_upper(new, up, k + 2));
        assert(spec_arc_sum_upper(new, up, k) == new[k].upper.arc_len(up) + spec_arc_sum_upper(
            new,
            up,
            k + 1,
        ));
    } else {
        assert(new[j] == old[j]);
        lemma_arc_sum_replace(old, new, lo, up, k, j + 1);
    }
}

/// The two halves of a split section keep its outer endpoints, meet at the
/// candidate, and divide its arcs exactly, on both rings and in every
/// branch of the swap logic.
#[verifier::rlimit(50)]
proof fn lemma_split_ranges_parts(
    sec: SketchPair<SketchVertexRange>,
    cand: SketchPair<VertexId>,
    lo: Sketch,
    up: Sketch,
)
    requires
        lo.wf(),
        up.wf(),
        sec.lower.valid_for(lo),
        sec.upper.valid_for(up),
        sec.lower.spec_contains(lo, cand.lower),
        sec.upper.spec_contains(up, cand.upper),
    ensures
        ({
            let parts = crate::loft::spec_split_ranges(sec, cand, lo, up);
            &&& parts.0.lower.range.0 == sec.lower.range.0
            &&& parts.0.lower.range.1 == parts.1.lower.range.0
            &&& parts.1.lower.range.1 == sec.lower.range.1
            &&& parts.0.upper.range.0 == sec.upper.range.0
            &&& parts.0.upper.range.1 == parts.1.upper.range.0
            &&& parts.1.upper.range.1 == sec.upper.range.1
            &&& parts.0.lower.arc_len(lo) + parts.1.lower.arc_len(lo) == sec.lower.arc_len(lo)
            &&& parts.0.upper.arc_len(up) + parts.1.upper.arc_len(up) == sec.upper.arc_len(up)
            &&& parts.0.lower.valid_for(lo)
            &&& parts.1.lower.valid_for(lo)
            &&& parts.0.upper.valid_for(up)
            &&& parts.1.upper.valid_for(up)
        }),
{
    lemma_split_at_arc_sum(sec.lower, lo, cand.lower);
    lemma_split_at_arc_sum(sec.upper, up, cand.upper);
}

/// One carving step preserves the partition property.
#[verifier::rlimit(100)]
proof fn lemma_try_split_partition(
    sections: Seq<SketchPair<SketchVertexRange>>,
    lo: Sketch,
    up: Sketch,
    cand: SketchPair<VertexId>,
)
    requires
        lo.wf(),
        up.wf(),
        spec_ranges_valid(sections, lo, up),
        lo.contains_id(cand.lower),
        up.contains_id(cand.upper),
        sections.len() == 0 || spec_sections_partition(sections, lo, up),
    ensures
        spec_sections_partition(spec_try_split(sections, lo, up, cand), lo, up),
{
    let res = spec_try_split(sections, lo, up, cand);
    if sections.len() == 0 {
        assert(res[0].lower.arc_len(lo) == lo.n());
        assert(res[0].upper.arc_len(up) == up.n());
        assert(spec_arc_sum_lower(res, lo, 1) == 0);
        assert(spec_arc_sum_upper(res, up, 1) == 0);
    } else {
        match spec_find_section(sections, lo, up, cand, 0) {
            Option::None => {
            },
            Option::Some(k) => {
                lemma_find_section_some(sections, lo, up, cand, 0);
                let old_len = sections.len() as int;
                let sec = sections[k];
                let parts = crate::loft::spec_split_ranges(sec, cand, lo, up);
                lemma_split_ranges_parts(sec, cand, lo, up);

                assert(res == sections.subrange(0, k) + seq![parts.0, parts.1]
                    + sections.subrange(k + 1, old_len));
                assert(res[k] == parts.0 && res[k + 1] == parts.1);
                assert(res.len() == old_len + 1);
                assert(forall|t: int| 0 <= t < k ==> #[trigger] res[t] == sections[t]);
                assert(forall|t: int|
                    k + 1 < t < res.len() ==> #[trigger] res[t] == sections[t - 1]);
                lemma_arc_sum_replace(sections, res, lo, up, k, 0);
                lemma_chain_after_replace(sections, res, k);
            },
        }
    }
}

/// The carving keeps the partition property from its first section on.
#[verifier::rlimit(100)]
proof fn lemma_split_fold_partition(
    sections: Seq<SketchPair<SketchVertexRange>>,
    lo: Sketch,
    up: Sketch,
    cands: Seq<EdgeCandidate>,
    tol: u32,
    k: int,
)
    requires
        lo.wf(),
        up.wf(),
        0 <= k,
        spec_ranges_valid(sections, lo, up),
        forall|t: int| 0 <= t < cands.len() ==> spec_candidate_valid(#[trigger] cands[t], lo, up),
        sections.len() == 0 || spec_sections_partition(sections, lo, up),
    ensures
        spec_split_fold(sections, lo, up, cands, tol, k).len() == 0 || spec_sections_partition(
            spec_split_fold(sections, lo, up, cands, tol, k),
            lo,
            up,
        ),
    decreases cands.len() - k,
{
    if k < cands.len() && cands[k].radial_error <= tol {
        assert(spec_candidate_valid(cands[k], lo, up));
        lemma_try_split_valid(sections, lo, up, cands[k].vertices);
        lemma_try_split_partition(sections, lo, up, cands[k].vertices);
        lemma_split_fold_partition(
            spec_try_split(sections, lo, up, cands[k].vertices),
            lo,
            up,
            cands,
            tol,
            k + 1,
        );
    }
}

/// LAW: when the loft is sectioned, its sections' range pairs, read in
/// order, partition each ring's traversal order: consecutive sections chain
/// end-to-start cyclically, and the arcs together cover each ring exactly
/// once.
pub proof fn lemma_sections_partition(lo: Sketch, up: Sketch, tol: u32)
    requires
        lo.wf(),
        up.wf(),
        lo.n() > 0,
        up.n() > 0,
    ensures
        spec_loft_sketches(lo, up, tol) matches LoftView::Sectioned { sections }
            ==> spec_sections_partition(
            sections.map_values(|s: crate::loft::LoftSectionView| s.sketch_vertex_ranges),
            lo,
            up,
        ),
{
    let cands = spec_sort_candidates(spec_candidates(lo, up));
    crate::lemma_sort_candidates_props(spec_candidates(lo, up));
    crate::lemma_candidate_rows_valid(lo, up, lo.n());
    assert forall|k: int| 0 <= k < cands.len() implies spec_candidate_valid(
        #[trigger] cands[k],
        lo,
        up,
    ) by {
        assert(spec_candidates(lo, up).contains(cands[k]));
        let t = choose|t: int|
            0 <= t < spec_candidates(lo, up).len() && spec_candidates(lo, up)[t] == cands[k];
    }
    let ranges = spec_split_fold(Seq::empty(), lo, up, cands, tol, 0);
    lemma_split_fold_partition(Seq::empty(), lo, up, cands, tol, 0);
    if ranges.len() > 0 {
        let sections = spec_resolved_sections(ranges, lo, up, tol);
        assert(sections.map_values(|s: crate::loft::LoftSectionView| s.sketch_vertex_ranges)
            =~= ranges);
    }
}

/// Triangle buffers agree wherever the cached lofts agree as models.
proof fn lemma_triangle_buffer_congruent(ma: Seq<crate::loft::Loft>, mb: Seq<crate::loft::Loft>, k: int)
    requires
        0 <= k,
        ma.len() == mb.len(),
        forall|t: int| 0 <= t < ma.len() ==> (#[trigger] ma[t])@ == mb[t]@,
    ensures
        spec_triangle_buffer(ma, k) == spec_triangle_buffer(mb, k),
    decreases ma.len() - k,
{
    if k < ma.len() {
        lemma_triangle_buffer_congruent(ma, mb, k + 1);
    }
}

/// LAW: re-lofting is idempotent. Two lofters holding equal sketches, each
/// lofted at the same tolerance, expand to equal triangle buffers; lofting
/// again with unchanged rings and tolerance can therefore not change the
/// extracted geometry.
pub proof fn lemma_recompute_idempotent(a: Lofter, b: Lofter, tol: u32)
    requires
        a.sketches@ == b.sketches@,
        a.lofted(tol),
        b.lofted(tol),
    ensures
        spec_triangle_buffer(a.loft_maps@, 0) == spec_triangle_buffer(b.loft_maps@, 0),
{
    assert forall|t: int| 0 <= t < a.loft_maps@.len() implies (#[trigger] a.loft_maps@[t])@
        == b.loft_maps@[t]@ by {
        assert(a.loft_maps@[t]@ == spec_loft_sketches(a.sketches@[t], a.sketches@[t + 1], tol));
        assert(b.loft_maps@[t]@ == spec_loft_sketches(b.sketches@[t], b.sketches@[t + 1], tol));
    }
    lemma_triangle_buffer_congruent(a.loft_maps@, b.loft_maps@, 0);
}

/// LAW: the triangle buffer's connectivity depends only on the cached
/// lofts. Changing any sketch's rotation or offset without re-lofting, as
/// `set_sketch_rotation` and `set_sketch_relative_position` do, leaves the
/// extracted triangle list unchanged.
pub proof fn lemma_transforms_do_not_affect_triangles(a: Lofter, b: Lofter)
    requires
        a.loft_maps == b.loft_maps,
    ensures
        spec_triangle_buffer(a.loft_maps@, 0) == spec_triangle_buffer(b.loft_maps@, 0),
{
}

} // verus!
