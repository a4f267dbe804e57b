//! Lofts: resolved connections between two adjacent sketches, and their
//! expansion into a triangle list.

use vstd::prelude::*;
use crate::angle::{spec_radial_error, spec_signed_angle, radial_error, signed_angle};
use crate::range::SketchVertexRange;
use crate::sketch::{Sketch, VertexId};
use crate::util::SketchPair;

verus! {

/// A vertex used to form the loft mesh. A loft vertex may lie along the edge
/// of a sketch, i.e. it might not be present in the original set of sketch
/// vertices.
#[derive(Clone, Copy, Debug, PartialEq, Eq, Structural)]
pub enum LoftVertex {
    /// A loft vertex at the same position as a sketch's vertex.
    SketchVertex(VertexId),
    /// A loft vertex which lies along a sketch's edge, at the point where
    /// that edge crosses the direction `target_angle` (in angle units, after
    /// the sketch's rotation). The edge runs between two adjacent sketch
    /// vertices.
    SketchEdge { edge_start: VertexId, edge_end: VertexId, target_angle: u32 },
}

/// A "section" of a loft connects a range of vertices from one sketch to a
/// range of vertices in another sketch.
#[derive(Debug)]
pub struct LoftSection {
    /// Ranges of vertices that this section covers in the original sketches.
    pub sketch_vertex_ranges: SketchPair<SketchVertexRange>,
    /// All edges between sketches in this section, sorted in CCW order.
    pub loft_edges: Vec<SketchPair<LoftVertex>>,
}

/// A loft describes how two sketches are connected: normally as a list of
/// sections partitioning both rings, or as a single degenerate edge list when
/// no candidate pairing ever met the tolerance.
#[derive(Debug)]
pub enum Loft {
    Sectioned { sections: Vec<LoftSection> },
    Fallback { loft_edges: Vec<SketchPair<LoftVertex>> },
}

/// Mathematical model of a section.
pub struct LoftSectionView {
    pub sketch_vertex_ranges: SketchPair<SketchVertexRange>,
    pub loft_edges: Seq<SketchPair<LoftVertex>>,
}

/// Mathematical model of a loft.
pub enum LoftView {
    Sectioned { sections: Seq<LoftSectionView> },
    Fallback { loft_edges: Seq<SketchPair<LoftVertex>> },
}

impl View for LoftSection {
    type V = LoftSectionView;

    open spec fn view(&self) -> LoftSectionView {
        LoftSectionView {
            sketch_vertex_ranges: self.sketch_vertex_ranges,
            loft_edges: self.loft_edges@,
        }
    }
}

impl View for Loft {
    type V = LoftView;

    open spec fn view(&self) -> LoftView {
        match self {
            Loft::Sectioned { sections } => LoftView::Sectioned {
                sections: sections@.map_values(|s: LoftSection| s@),
            },
            Loft::Fallback { loft_edges } => LoftView::Fallback { loft_edges: loft_edges@ },
        }
    }
}

/// All section ranges name only vertices their sketches contain.
pub open spec fn spec_ranges_valid(
    sections: Seq<SketchPair<SketchVertexRange>>,
    lo: Sketch,
    up: Sketch,
) -> bool {
    forall|k: int|
        0 <= k < sections.len() ==> (#[trigger] sections[k]).lower.valid_for(lo)
            && sections[k].upper.valid_for(up)
}

/// The first section, from index `k` on, whose two ranges contain both
/// candidate vertices; `None` when the vertices lie in no common section.
pub open spec fn spec_find_section(
    sections: Seq<SketchPair<SketchVertexRange>>,
    lo: Sketch,
    up: Sketch,
    cand: SketchPair<VertexId>,
    k: int,
) -> Option<int>
    decreases sections.len() - k,
    when 0 <= k
{
    if k >= sections.len() {
        None
    } else if sections[k].lower.spec_contains(lo, cand.lower) && sections[k].upper.spec_contains(
        up,
        cand.upper,
    ) {
        Some(k)
    } else {
        spec_find_section(sections, lo, up, cand, k + 1)
    }
}

/// Splits both of a section's ranges at the candidate vertices. When one
/// ring's first part still covers that whole ring while the other ring was
/// split into a real arc of one step, the whole-ring part is moved to the
/// second new section so that both new sections read in traversal order.
pub open spec fn spec_split_ranges(
    ranges: SketchPair<SketchVertexRange>,
    cand: SketchPair<VertexId>,
    lo: Sketch,
    up: Sketch,
) -> (SketchPair<SketchVertexRange>, SketchPair<SketchVertexRange>) {
    let sl = ranges.lower.spec_split_at(cand.lower);
    let su = ranges.upper.spec_split_at(cand.upper);
    if sl.0.covers_entire_sketch && su.0.arc_len(up) == 1 {
        (
            SketchPair { lower: sl.1, upper: su.0 },
            SketchPair { lower: sl.0, upper: su.1 },
        )
    } else if su.0.covers_entire_sketch && sl.0.arc_len(lo) == 1 {
        (
            SketchPair { lower: sl.0, upper: su.1 },
            SketchPair { lower: sl.1, upper: su.0 },
        )
    } else {
        (
            SketchPair { lower: sl.0, upper: su.0 },
            SketchPair { lower: sl.1, upper: su.1 },
        )
    }
}

/// One step of the greedy section carving. The first candidate creates a
/// single section covering the entirety of both rings; a later candidate
/// splits the section containing both of its vertices in two, in place, and
/// is rejected (a silent no-op) when no single section contains both.
pub open spec fn spec_try_split(
    sections: Seq<SketchPair<SketchVertexRange>>,
    lo: Sketch,
    up: Sketch,
    cand: SketchPair<VertexId>,
) -> Seq<SketchPair<SketchVertexRange>> {
    if sections.len() == 0 {
        seq![
            SketchPair {
                lower: SketchVertexRange {
                    range: (cand.lower, cand.lower),
                    covers_entire_sketch: true,
                },
                upper: SketchVertexRange {
                    range: (cand.upper, cand.upper),
                    covers_entire_sketch: true,
                },
            },
        ]
    } else {
        match spec_find_section(sections, lo, up, cand, 0) {
            Option::None => sections,
            Option::Some(k) => {
                let parts = spec_split_ranges(sections[k], cand, lo, up);
                sections.subrange(0, k) + seq![parts.0, parts.1] + sections.subrange(
                    k + 1,
                    sections.len() as int,
                )
            },
        }
    }
}

/// The connecting edge the merge sweep emits when the current vertices are
/// `l[i]` and `u[j]`: a direct vertex-to-vertex edge when their angular error
/// is within tolerance, else a mixed edge that pins the angularly leading
/// vertex and synthesizes a point at its direction on the lagging ring's
/// outgoing edge. When the lagging ring has no outgoing edge left in its
/// range, the synthesized point degenerates to the lagging vertex's own
/// zero-length edge, clamped defensively rather than emitted as a direct
/// edge that would overshoot the tolerance.
pub open spec fn spec_edge_at(
    l: Seq<VertexId>,
    u: Seq<VertexId>,
    lo: Sketch,
    up: Sketch,
    tol: u32,
    i: int,
    j: int,
) -> SketchPair<LoftVertex> {
    let al = lo.rotated_angle_of(l[i]);
    let au = up.rotated_angle_of(u[j]);
    if spec_radial_error(al, au) <= tol {
        SketchPair { lower: LoftVertex::SketchVertex(l[i]), upper: LoftVertex::SketchVertex(u[j]) }
    } else if spec_signed_angle(al, au) < 0 {
        // The lower vertex leads counter-clockwise: pin it and interpolate on
        // the upper ring's outgoing edge.
        if j + 1 < u.len() {
            SketchPair {
                lower: LoftVertex::SketchVertex(l[i]),
                upper: LoftVertex::SketchEdge {
                    edge_start: u[j],
                    edge_end: u[j + 1],
                    target_angle: al as u32,
                },
            }
        } else {
            SketchPair {
                lower: LoftVertex::SketchVertex(l[i]),
                upper: LoftVertex::SketchEdge {
                    edge_start: u[j],
                    edge_end: u[j],
                    target_angle: al as u32,
                },
            }
        }
    } else {
        // The upper vertex leads: pin it and interpolate on the lower ring.
        if i + 1 < l.len() {
            SketchPair {
                lower: LoftVertex::SketchEdge {
                    edge_start: l[i],
                    edge_end: l[i + 1],
                    target_angle: au as u32,
                },
                upper: LoftVertex::SketchVertex(u[j]),
            }
        } else {
            SketchPair {
                lower: LoftVertex::SketchEdge {
                    edge_start: l[i],
                    edge_end: l[i],
                    target_angle: au as u32,
                },
                upper: LoftVertex::SketchVertex(u[j]),
            }
        }
    }
}

/// The edges the merge sweep emits from current position `(i, j)` onward,
/// walking the two id sequences in lockstep. While either sequence has a
/// vertex left to peek, one edge is emitted for the current pair; then the
/// sweep advances the only ring with vertices left, or, when both have some,
/// stops if the two next vertices already pair within tolerance and otherwise
/// advances the angularly lagging ring.
pub open spec fn spec_loft_edges(
    l: Seq<VertexId>,
    u: Seq<VertexId>,
    lo: Sketch,
    up: Sketch,
    tol: u32,
    i: int,
    j: int,
) -> Seq<SketchPair<LoftVertex>>
    decreases l.len() - i + u.len() - j,
    when 0 <= i < l.len() && 0 <= j < u.len()
{
    let has_l = i + 1 < l.len();
    let has_u = j + 1 < u.len();
    if !has_l && !has_u {
        Seq::empty()
    } else {
        let e = spec_edge_at(l, u, lo, up, tol, i, j);
        if has_l && !has_u {
            seq![e] + spec_loft_edges(l, u, lo, up, tol, i + 1, j)
        } else if !has_l && has_u {
            seq![e] + spec_loft_edges(l, u, lo, up, tol, i, j + 1)
        } else {
            let d = spec_signed_angle(
                lo.rotated_angle_of(l[i + 1]),
                up.rotated_angle_of(u[j + 1]),
            );
            let mag = if d >= 0 {
                d
            } else {
                -d
            };
            if mag <= tol {
                // The next two vertices can form a valid edge: the arc is
                // fully resolved.
                seq![e]
            } else if d > 0 {
                seq![e] + spec_loft_edges(l, u, lo, up, tol, i + 1, j)
            } else {
                seq![e] + spec_loft_edges(l, u, lo, up, tol, i, j + 1)
            }
        }
    }
}

/// Initializes the "physical" loft vertices and edges from a section's vertex
/// ranges, by the merge sweep described at `spec_loft_edges`.
pub fn build_loft_edges(
    sketch_vertex_ranges: SketchPair<SketchVertexRange>,
    sketches: SketchPair<&Sketch>,
    max_radial_error: u32,
) -> (r: Vec<SketchPair<LoftVertex>>)
    requires
        sketches.lower.wf(),
        sketches.upper.wf(),
        sketch_vertex_ranges.lower.valid_for(*sketches.lower),
        sketch_vertex_ranges.upper.valid_for(*sketches.upper),
    ensures
        r@ == spec_loft_edges(
            sketch_vertex_ranges.lower.seq_of(*sketches.lower),
            sketch_vertex_ranges.upper.seq_of(*sketches.upper),
            *sketches.lower,
            *sketches.upper,
            max_radial_error,
            0,
            0,
        ),
{
    let ghost gl = sketch_vertex_ranges.lower.seq_of(*sketches.lower);
    let ghost gu = sketch_vertex_ranges.upper.seq_of(*sketches.upper);
    proof {
        sketch_vertex_ranges.lower.lemma_seq_of_ids(*sketches.lower);
        sketch_vertex_ranges.upper.lemma_seq_of_ids(*sketches.upper);
        sketch_vertex_ranges.lower.lemma_arc_len_bounds(*sketches.lower);
        sketch_vertex_ranges.upper.lemma_arc_len_bounds(*sketches.upper);
    }

    let lvs = sketch_vertex_ranges.lower.vertices_in(sketches.lower);
    let uvs = sketch_vertex_ranges.upper.vertices_in(sketches.upper);

    let mut loft_edges: Vec<SketchPair<LoftVertex>> = Vec::new();
    let mut i: usize = 0;
    let mut j: usize = 0;

    loop
        invariant_except_break
            spec_loft_edges(gl, gu, *sketches.lower, *sketches.upper, max_radial_error, 0, 0)
                == loft_edges@ + spec_loft_edges(
                gl,
                gu,
                *sketches.lower,
                *sketches.upper,
                max_radial_error,
                i as int,
                j as int,
            ),
        invariant
            sketches.lower.wf(),
            sketches.upper.wf(),
            lvs@ == gl,
            uvs@ == gu,
            0 <= i < lvs@.len(),
            0 <= j < uvs@.len(),
            lvs@.len() <= 0x4000_0001,
            uvs@.len() <= 0x4000_0001,
            forall|k: int| 0 <= k < gl.len() ==> sketches.lower.contains_id(#[trigger] gl[k]),
            forall|k: int| 0 <= k < gu.len() ==> sketches.upper.contains_id(#[trigger] gu[k]),
        ensures
            loft_edges@ == spec_loft_edges(
                gl,
                gu,
                *sketches.lower,
                *sketches.upper,
                max_radial_error,
                0,
                0,
            ),
        decreases lvs@.len() - i + uvs@.len() - j,
    {
        let has_l = i + 1 < lvs.len();
        let has_u = j + 1 < uvs.len();
        if !has_l && !has_u {
            break ;
        }
        let al = sketches.lower.rotated_angle(lvs[i]);
        let au = sketches.upper.rotated_angle(uvs[j]);

        // If the current vertices can form a valid edge (within the allowed
        // radial error), create the edge; otherwise pin the leading vertex
        // and interpolate on the lagging ring's outgoing edge.
        let e: SketchPair<LoftVertex> = if radial_error(al, au) <= max_radial_error {
            SketchPair {
                lower: LoftVertex::SketchVertex(lvs[i]),
                upper: LoftVertex::SketchVertex(uvs[j]),
            }
        } else if signed_angle(al, au) < 0 {
            if has_u {
                SketchPair {
                    lower: LoftVertex::SketchVertex(lvs[i]),
                    upper: LoftVertex::SketchEdge {
                        edge_start: uvs[j],
                        edge_end: uvs[j + 1],
                        target_angle: al,
                    },
                }
            } else {
                SketchPair {
                    lower: LoftVertex::SketchVertex(lvs[i]),
                    upper: LoftVertex::SketchEdge {
                        edge_start: uvs[j],
                        edge_end: uvs[j],
                        target_angle: al,
                    },
                }
            }
        } else {
            if has_l {
                SketchPair {
                    lower: LoftVertex::SketchEdge {
                        edge_start: lvs[i],
                        edge_end: lvs[i + 1],
                        target_angle: au,
                    },
                    upper: LoftVertex::SketchVertex(uvs[j]),
                }
            } else {
                SketchPair {
                    lower: LoftVertex::SketchEdge {
                        edge_start: lvs[i],
                        edge_end: lvs[i],
                        target_angle: au,
                    },
                    upper: LoftVertex::SketchVertex(uvs[j]),
                }
            }
        };
        proof {
            assert(e == spec_edge_at(
                gl,
                gu,
                *sketches.lower,
                *sketches.upper,
                max_radial_error,
                i as int,
                j as int,
            ));
        }
        loft_edges.push(e);

        // Advance the vertex iterator of one of the sketches.
        if has_l && !has_u {
            i += 1;
        } else if !has_l && has_u {
            j += 1;
        } else {
            let nl = sketches.lower.rotated_angle(lvs[i + 1]);
            let nu = sketches.upper.rotated_angle(uvs[j + 1]);
            let d = signed_angle(nl, nu);
            let mag = if d >= 0 {
                d
            } else {
                -d
            };
            if mag <= max_radial_error as i64 {
                // The next two vertices can form a valid edge: the end of the
                // section is reached.
                break ;
            }
            if d > 0 {
                i += 1;
            } else {
                j += 1;
            }
        }
    }

    loft_edges
}

/// Accumulates the greedy section carving for one sketch pair; `build`
/// resolves the carved ranges into a loft.
pub struct LoftBuilder {
    /// The ranges of the sections carved so far, in CCW traversal order.
    pub sections: Vec<SketchPair<SketchVertexRange>>,
}

impl LoftBuilder {
    pub fn new() -> (r: Self)
        ensures
            r.sections@.len() == 0,
    {
        Self { sections: Vec::new() }
    }

    /// Returns the index of the section containing both edge candidate
    /// vertices. If the vertices lie in two different sections, the edge
    /// candidate is invalid and `None` is returned.
    fn edge_candidate_section_index(
        &self,
        sketches: SketchPair<&Sketch>,
        edge_candidate_vertices: SketchPair<VertexId>,
    ) -> (r: Option<usize>)
        requires
            sketches.lower.wf(),
            sketches.upper.wf(),
            spec_ranges_valid(self.sections@, *sketches.lower, *sketches.upper),
        ensures
            match r {
                Option::Some(k) => k < self.sections@.len() && spec_find_section(
                    self.sections@,
                    *sketches.lower,
                    *sketches.upper,
                    edge_candidate_vertices,
                    0,
                ) == Option::Some(k as int),
                Option::None => spec_find_section(
                    self.sections@,
                    *sketches.lower,
                    *sketches.upper,
                    edge_candidate_vertices,
                    0,
                ) is None,
            },
    {
        let n = self.sections.len();
        let mut k: usize = 0;
        while k < n
            invariant
                n == self.sections@.len(),
                0 <= k <= n,
                sketches.lower.wf(),
                sketches.upper.wf(),
                spec_ranges_valid(self.sections@, *sketches.lower, *sketches.upper),
                spec_find_section(
                    self.sections@,
                    *sketches.lower,
                    *sketches.upper,
                    edge_candidate_vertices,
                    0,
                ) == spec_find_section(
                    self.sections@,
                    *sketches.lower,
                    *sketches.upper,
                    edge_candidate_vertices,
                    k as int,
                ),
            decreases n - k,
        {
            let section = &self.sections[k];
            if section.lower.contains_vertex(sketches.lower, edge_candidate_vertices.lower)
                && section.upper.contains_vertex(sketches.upper, edge_candidate_vertices.upper) {
                return Some(k);
            }
            k += 1;
        }
        None
    }

    /// Splits, or subdivides, a section into two different sections, creating
    /// an edge formed by the two passed-in vertices. If no sections exist
    /// yet, this creates a single section encompassing the entirety of both
    /// sketches.
    ///
    /// If the passed-in vertices lie in two different sections, the split is
    /// invalid, and the function returns without modifying the loft.
    pub fn try_split_section(
        &mut self,
        sketches: SketchPair<&Sketch>,
        edge_candidate_vertices: SketchPair<VertexId>,
    )
        requires
            sketches.lower.wf(),
            sketches.upper.wf(),
            sketches.lower.contains_id(edge_candidate_vertices.lower),
            sketches.upper.contains_id(edge_candidate_vertices.upper),
            spec_ranges_valid(old(self).sections@, *sketches.lower, *sketches.upper),
        ensures
            final(self).sections@ == spec_try_split(
                old(self).sections@,
                *sketches.lower,
                *sketches.upper,
                edge_candidate_vertices,
            ),
            spec_ranges_valid(final(self).sections@, *sketches.lower, *sketches.upper),
    {
        // Check if this is the first split.
        if self.sections.len() == 0 {
            // Create an initial section encompassing the entirety of the
            // sketches.
            let initial_section = SketchPair {
                lower: SketchVertexRange::entire(edge_candidate_vertices.lower),
                upper: SketchVertexRange::entire(edge_candidate_vertices.upper),
            };
            self.sections.push(initial_section);
            return ;
        }

        // Make sure the edge candidate vertices lie within the same section.
        // If they don't, this is not a valid split.
        let section_index = match self.edge_candidate_section_index(
            sketches,
            edge_candidate_vertices,
        ) {
            Option::Some(k) => k,
            Option::None => {
                // Invalid split.
                return ;
            },
        };

        // Split the section by removing it and inserting two new sections.
        let ghost old_sections = self.sections@;
        let section = self.sections.remove(section_index);

        let split_lower = section.lower.split_at(edge_candidate_vertices.lower);
        let split_upper = section.upper.split_at(edge_candidate_vertices.upper);

        proof {
            assert(old_sections[section_index as int].lower.valid_for(*sketches.lower));
        }

        // If the lower range split still covers the whole sketch, check
        // whether the lower parts must be swapped to match the upper splits,
        // and the same the other way around.
        let lower_whole = split_lower.0.covers_entire_sketch;
        let upper_whole = split_upper.0.covers_entire_sketch;
        let new_sections: (SketchPair<SketchVertexRange>, SketchPair<SketchVertexRange>) = if lower_whole
            && split_upper.0.arc_steps(sketches.upper) == 1 {
            (
                SketchPair { lower: split_lower.1, upper: split_upper.0 },
                SketchPair { lower: split_lower.0, upper: split_upper.1 },
            )
        } else if upper_whole && split_lower.0.arc_steps(sketches.lower) == 1 {
            (
                SketchPair { lower: split_lower.0, upper: split_upper.1 },
                SketchPair { lower: split_lower.1, upper: split_upper.0 },
            )
        } else {
            (
                SketchPair { lower: split_lower.0, upper: split_upper.0 },
                SketchPair { lower: split_lower.1, upper: split_upper.1 },
            )
        };

        // Insert both parts where the split section stood, so that sections
        // remain sorted in CCW order.
        self.sections.insert(section_index, new_sections.0);
        self.sections.insert(section_index + 1, new_sections.1);

        proof {
            assert(self.sections@ =~= spec_try_split(
                old_sections,
                *sketches.lower,
                *sketches.upper,
                edge_candidate_vertices,
            ));
        }
    }

    /// Resolves every carved section through the merge sweep; with no carved
    /// section at all, falls back to a single full-ring correspondence
    /// anchored at each ring's first vertex.
    pub fn build(self, sketches: SketchPair<&Sketch>, max_radial_error: u32) -> (r: Loft)
        requires
            sketches.lower.wf(),
            sketches.upper.wf(),
            sketches.lower.n() > 0,
            sketches.upper.n() > 0,
            spec_ranges_valid(self.sections@, *sketches.lower, *sketches.upper),
        ensures
            r@ == spec_build(self.sections@, *sketches.lower, *sketches.upper, max_radial_error),
    {
        if self.sections.len() == 0 {
            let anchor_lower = sketches.lower.vertex_order[0];
            let anchor_upper = sketches.upper.vertex_order[0];
            proof {
                assert(sketches.lower.vertex_order@[0] == anchor_lower);
                assert(sketches.lower.contains_id(anchor_lower));
                assert(sketches.upper.vertex_order@[0] == anchor_upper);
                assert(sketches.upper.contains_id(anchor_upper));
            }
            let sketch_vertex_ranges = SketchPair {
                lower: SketchVertexRange::entire(anchor_lower),
                upper: SketchVertexRange::entire(anchor_upper),
            };
            let loft_edges = build_loft_edges(sketch_vertex_ranges, sketches, max_radial_error);
            Loft::Fallback { loft_edges }
        } else {
            let n = self.sections.len();
            let mut sections: Vec<LoftSection> = Vec::new();
            let mut k: usize = 0;
            while k < n
                invariant
                    n == self.sections@.len(),
                    0 <= k <= n,
                    sketches.lower.wf(),
                    sketches.upper.wf(),
                    spec_ranges_valid(self.sections@, *sketches.lower, *sketches.upper),
                    sections@.len() == k,
                    forall|t: int|
                        0 <= t < k ==> #[trigger] sections@[t]@ == spec_resolved_sections(
                            self.sections@,
                            *sketches.lower,
                            *sketches.upper,
                            max_radial_error,
                        )[t],
                decreases n - k,
            {
                let sketch_vertex_ranges = self.sections[k];
                let loft_edges = build_loft_edges(
                    sketch_vertex_ranges,
                    sketches,
                    max_radial_error,
                );
                sections.push(LoftSection { sketch_vertex_ranges, loft_edges });
                k += 1;
            }
            let r = Loft::Sectioned { sections };
            proof {
                assert(r@->Sectioned_sections =~= spec_resolved_sections(
                    self.sections@,
                    *sketches.lower,
                    *sketches.upper,
                    max_radial_error,
                ));
            }
            r
        }
    }
}

/// The sections of a carving, each resolved through the merge sweep.
pub open spec fn spec_resolved_sections(
    ranges: Seq<SketchPair<SketchVertexRange>>,
    lo: Sketch,
    up: Sketch,
    tol: u32,
) -> Seq<LoftSectionView> {
    ranges.map_values(
        |rp: SketchPair<SketchVertexRange>| LoftSectionView {
            sketch_vertex_ranges: rp,
            loft_edges: spec_loft_edges(rp.lower.seq_of(lo), rp.upper.seq_of(up), lo, up, tol, 0, 0),
        },
    )
}

/// The loft a carving resolves to: its sections, or the degenerate full-ring
/// edge list when the carving is empty.
pub open spec fn spec_build(
    ranges: Seq<SketchPair<SketchVertexRange>>,
    lo: Sketch,
    up: Sketch,
    tol: u32,
) -> LoftView {
    if ranges.len() == 0 {
        let whole = SketchPair {
            lower: SketchVertexRange {
                range: (lo.vertex_order@[0], lo.vertex_order@[0]),
                covers_entire_sketch: true,
            },
            upper: SketchVertexRange {
                range: (up.vertex_order@[0], up.vertex_order@[0]),
                covers_entire_sketch: true,
            },
        };
        LoftView::Fallback {
            loft_edges: spec_loft_edges(
                whole.lower.seq_of(lo),
                whole.upper.seq_of(up),
                lo,
                up,
                tol,
                0,
                0,
            ),
        }
    } else {
        LoftView::Sectioned { sections: spec_resolved_sections(ranges, lo, up, tol) }
    }
}

/// One corner of an output triangle: a loft vertex, tagged with the side of
/// the sketch pair it resolves against.
#[derive(Clone, Copy, Debug, PartialEq, Eq, Structural)]
pub struct TrianglePoint {
    pub on_upper: bool,
    pub vertex: LoftVertex,
}

/// One triangle of the loft surface, in emission order.
#[derive(Clone, Copy, Debug, PartialEq, Eq, Structural)]
pub struct Triangle {
    pub a: TrianglePoint,
    pub b: TrianglePoint,
    pub c: TrianglePoint,
}

pub open spec fn spec_lower_point(v: LoftVertex) -> TrianglePoint {
    TrianglePoint { on_upper: false, vertex: v }
}

pub open spec fn spec_upper_point(v: LoftVertex) -> TrianglePoint {
    TrianglePoint { on_upper: true, vertex: v }
}

/// The triangles one consecutive pair of connecting edges contributes: a
/// single triangle when the two edges share a vertex on either ring, else two
/// triangles forming a quad.
pub open spec fn spec_pair_triangles(
    prev: SketchPair<LoftVertex>,
    cur: SketchPair<LoftVertex>,
) -> Seq<Triangle> {
    if prev.lower == cur.lower {
        seq![
            Triangle {
                a: spec_upper_point(prev.upper),
                b: spec_lower_point(cur.lower),
                c: spec_upper_point(cur.upper),
            },
        ]
    } else if prev.upper == cur.upper {
        seq![
            Triangle {
                a: spec_upper_point(prev.upper),
                b: spec_lower_point(prev.lower),
                c: spec_lower_point(cur.lower),
            },
        ]
    } else {
        seq![
            Triangle {
                a: spec_upper_point(prev.upper),
                b: spec_lower_point(prev.lower),
                c: spec_lower_point(cur.lower),
            },
            Triangle {
                a: spec_upper_point(prev.upper),
                b: spec_lower_point(cur.lower),
                c: spec_upper_point(cur.upper),
            },
        ]
    }
}

/// The triangles of an edge list walked as a cyclic sequence, from pair
/// `(edges[k], edges[k + 1])` on; the last edge pairs with the first.
pub open spec fn spec_edge_cycle_triangles(
    edges: Seq<SketchPair<LoftVertex>>,
    k: int,
) -> Seq<Triangle>
    decreases edges.len() - k,
    when 0 <= k
{
    if k >= edges.len() {
        Seq::empty()
    } else {
        let next = if k + 1 == edges.len() {
            edges[0]
        } else {
            edges[k + 1]
        };
        spec_pair_triangles(edges[k], next) + spec_edge_cycle_triangles(edges, k + 1)
    }
}

/// The connecting edges of all sections from index `k` on, concatenated in
/// traversal order.
pub open spec fn spec_all_loft_edges(sections: Seq<LoftSectionView>, k: int) -> Seq<
    SketchPair<LoftVertex>,
>
    decreases sections.len() - k,
    when 0 <= k
{
    if k >= sections.len() {
        Seq::empty()
    } else {
        sections[k].loft_edges + spec_all_loft_edges(sections, k + 1)
    }
}

/// The full edge cycle of a loft: every section's edges concatenated in
/// traversal order, or the fallback edge list.
pub open spec fn spec_loft_edge_cycle(loft: LoftView) -> Seq<SketchPair<LoftVertex>> {
    match loft {
        LoftView::Sectioned { sections } => spec_all_loft_edges(sections, 0),
        LoftView::Fallback { loft_edges } => loft_edges,
    }
}

/// The triangle list a loft expands to.
pub open spec fn spec_loft_triangles(loft: LoftView) -> Seq<Triangle> {
    spec_edge_cycle_triangles(spec_loft_edge_cycle(loft), 0)
}

impl Loft {
    /// Flattens the loft's connecting edges into one cyclic list.
    fn edge_cycle(&self) -> (r: Vec<SketchPair<LoftVertex>>)
        ensures
            r@ == spec_loft_edge_cycle(self@),
    {
        let mut edges: Vec<SketchPair<LoftVertex>> = Vec::new();
        match self {
            Loft::Fallback { loft_edges } => {
                let n = loft_edges.len();
                let mut k: usize = 0;
                while k < n
                    invariant
                        n == loft_edges@.len(),
                        0 <= k <= n,
                        edges@ == loft_edges@.subrange(0, k as int),
                    decreases n - k,
                {
                    edges.push(loft_edges[k]);
                    k += 1;
                }
                proof {
                    assert(edges@ =~= loft_edges@);
                }
            },
            Loft::Sectioned { sections } => {
                let ghost model = sections@.map_values(|s: LoftSection| s@);
                let n = sections.len();
                let mut k: usize = 0;
                while k < n
                    invariant
                        n == sections@.len(),
                        0 <= k <= n,
                        model == sections@.map_values(|s: LoftSection| s@),
                        spec_all_loft_edges(model, 0) == edges@ + spec_all_loft_edges(
                            model,
                            k as int,
                        ),
                    decreases n - k,
                {
                    let section_edges = &sections[k].loft_edges;
                    let m = section_edges.len();
                    proof {
                        assert(section_edges@ == model[k as int].loft_edges);
                        assert(section_edges@.subrange(0, m as int) =~= section_edges@);
                        assert(edges@ + (section_edges@ + spec_all_loft_edges(model, k as int + 1))
                            =~= edges@ + section_edges@.subrange(0, m as int)
                            + spec_all_loft_edges(model, k as int + 1));
                    }
                    let mut t: usize = 0;
                    while t < m
                        invariant
                            m == section_edges@.len(),
                            0 <= t <= m,
                            n == sections@.len(),
                            0 <= k < n,
                            model == sections@.map_values(|s: LoftSection| s@),
                            section_edges@ == model[k as int].loft_edges,
                            spec_all_loft_edges(model, 0) == edges@ + section_edges@.subrange(
                                t as int,
                                m as int,
                            ) + spec_all_loft_edges(model, k as int + 1),
                        decreases m - t,
                    {
                        let ghost pre = edges@;
                        edges.push(section_edges[t]);
                        t += 1;
                        proof {
                            assert(section_edges@.subrange(t - 1, m as int) =~= seq![
                                section_edges@[t - 1],
                            ] + section_edges@.subrange(t as int, m as int));
                            assert(pre + section_edges@.subrange(t - 1, m as int)
                                + spec_all_loft_edges(model, k as int + 1) =~= edges@
                                + section_edges@.subrange(t as int, m as int)
                                + spec_all_loft_edges(model, k as int + 1));
                        }
                    }
                    k += 1;
                    proof {
                        assert(section_edges@.subrange(m as int, m as int) =~= Seq::<
                            SketchPair<LoftVertex>,
                        >::empty());
                        assert(edges@ + Seq::<SketchPair<LoftVertex>>::empty()
                            + spec_all_loft_edges(model, k as int) =~= edges@
                            + spec_all_loft_edges(model, k as int));
                    }
                }
                proof {
                    assert(spec_all_loft_edges(model, n as int) =~= Seq::<
                        SketchPair<LoftVertex>,
                    >::empty());
                    assert(edges@ + Seq::<SketchPair<LoftVertex>>::empty() =~= edges@);
                }
            },
        }
        edges
    }

    /// Generates the loft's triangle list: each cyclically consecutive pair
    /// of connecting edges contributes one triangle where it shares a vertex
    /// on either ring, else two triangles forming a quad.
    pub fn build_triangle_list(&self) -> (r: Vec<Triangle>)
        ensures
            r@ == spec_loft_triangles(self@),
    {
        let edges = self.edge_cycle();
        let n = edges.len();
        let mut r: Vec<Triangle> = Vec::new();
        let mut k: usize = 0;
        while k < n
            invariant
                n == edges@.len(),
                0 <= k <= n,
                edges@ == spec_loft_edge_cycle(self@),
                spec_edge_cycle_triangles(edges@, 0) == r@ + spec_edge_cycle_triangles(
                    edges@,
                    k as int,
                ),
            decreases n - k,
        {
            let prev = edges[k];
            let cur = if k + 1 == n {
                edges[0]
            } else {
                edges[k + 1]
            };
            if prev.lower == cur.lower {
                r.push(
                    Triangle {
                        a: TrianglePoint { on_upper: true, vertex: prev.upper },
                        b: TrianglePoint { on_upper: false, vertex: cur.lower },
                        c: TrianglePoint { on_upper: true, vertex: cur.upper },
                    },
                );
            } else if prev.upper == cur.upper {
                r.push(
                    Triangle {
                        a: TrianglePoint { on_upper: true, vertex: prev.upper },
                        b: TrianglePoint { on_upper: false, vertex: prev.lower },
                        c: TrianglePoint { on_upper: false, vertex: cur.lower },
                    },
                );
            } else {
                r.push(
                    Triangle {
                        a: TrianglePoint { on_upper: true, vertex: prev.upper },
                        b: TrianglePoint { on_upper: false, vertex: prev.lower },
                        c: TrianglePoint { on_upper: false, vertex: cur.lower },
                    },
                );
                r.push(
                    Triangle {
                        a: TrianglePoint { on_upper: true, vertex: prev.upper },
                        b: TrianglePoint { on_upper: false, vertex: cur.lower },
                        c: TrianglePoint { on_upper: true, vertex: cur.upper },
                    },
                );
            }
            k += 1;
        }
        r
    }
}

} // verus!
