//! The graph engine: hits become nodes of a segment graph whose edges run
//! from a hit towards lower modules; weights propagate along edges; each
//! root segment contributes the shortest of its depth-first paths as a
//! track; an optional pass kills short clones and ghosts.

use vstd::prelude::*;
use crate::event_model::{
    build_modules, copy_hit_vec, copy_i64_vec, lemma_prefix_le, Event, Hit, Track,
};
use crate::geometry::{
    compatible_in_x, compatible_in_y, spec_compatible, spec_compatible_x, spec_compatible_y,
    spec_tolerant, tolerant, Fraction,
};
use crate::track_following::{desc_ids, lemma_desc_distinct, seq_geometry_ok};

verus! {

/// A directed edge of the segment graph, from `h0` on a higher module to
/// `h1` on a lower one.
#[derive(Clone, Copy, Debug)]
pub struct Segment {
    pub h0: Hit,
    pub h1: Hit,
    pub weight: usize,
    pub segment_number: usize,
    pub root_segment: bool,
}

impl Segment {
    pub fn new(h0: Hit, h1: Hit, seg_number: usize) -> (r: Segment)
        ensures
            r.h0 == h0,
            r.h1 == h1,
            r.weight == 0,
            r.segment_number == seg_number,
            !r.root_segment,
    {
        Segment { h0, h1, weight: 0, segment_number: seg_number, root_segment: false }
    }
}

/// Graph track finder.
#[derive(Clone, Copy, Debug)]
pub struct GraphDFS {
    pub max_slopes: (Fraction, Fraction),
    pub max_tolerance: (Fraction, Fraction),
    pub max_scatter: Fraction,
    pub minimum_root_weight: usize,
    pub weight_assignment_iterations: usize,
    pub allowed_skip_modules: usize,
    pub allow_cross_track: bool,
    pub clone_ghost_killing: bool,
}

/// The invariants of the built segment graph: segments are numbered by
/// their index; both endpoints are bounded, well-formed, slope-compatible
/// hits with strictly descending ids; every edge goes to a smaller index,
/// connects chained segments, and passes the tolerance test.
pub open spec fn graph_ok(
    g: GraphDFS,
    segments: Seq<Segment>,
    compat: Seq<Vec<usize>>,
) -> bool {
    &&& compat.len() == segments.len()
    &&& forall|i: int|
        0 <= i < segments.len() ==> {
            &&& (#[trigger] segments[i]).segment_number == i
            &&& segments[i].h0.wf()
            &&& segments[i].h1.wf()
            &&& segments[i].h1.id < segments[i].h0.id
            &&& spec_compatible(g.max_slopes.0, g.max_slopes.1, segments[i].h0, segments[i].h1)
        }
    &&& forall|i: int, k: int|
        #![trigger compat[i]@[k]]
        0 <= i < segments.len() && 0 <= k < compat[i]@.len() ==> {
            &&& compat[i]@[k] < i
            &&& segments[compat[i]@[k] as int].h0.id == segments[i].h1.id
            &&& segments[compat[i]@[k] as int].h0 == segments[i].h1
            &&& spec_tolerant(
                g.max_tolerance.0,
                g.max_tolerance.1,
                g.max_scatter,
                segments[i].h0,
                segments[i].h1,
                segments[compat[i]@[k] as int].h1,
            )
        }
}

impl GraphDFS {
    pub open spec fn wf(self) -> bool {
        &&& self.max_slopes.0.wf()
        &&& self.max_slopes.1.wf()
        &&& self.max_tolerance.0.wf()
        &&& self.max_tolerance.1.wf()
        &&& self.max_scatter.wf()
    }

    /// Every track this engine emits satisfies this predicate: at least
    /// three hits, no repeated hit, and the slope and tolerance tests hold
    /// along the whole sequence.
    pub open spec fn track_ok(self, t: Track) -> bool {
        &&& t.hits.len() >= 3
        &&& desc_ids(t.hits@)
        &&& crate::event_model::distinct_ids(t.hits@)
        &&& seq_geometry_ok(
            self.max_slopes.0,
            self.max_slopes.1,
            self.max_tolerance.0,
            self.max_tolerance.1,
            self.max_scatter,
            t.hits@,
        )
    }

    /// Builds the engine; absent parameters fall back to the defaults
    /// (slopes 7/10, tolerances 2/5, scatter 2/5, minimum root weight 1,
    /// two weight passes, one skippable module, cross-track seeding and
    /// clone killing enabled).
    pub fn new(
        max_slopes: Option<(Fraction, Fraction)>,
        max_tolerance: Option<(Fraction, Fraction)>,
        max_scatter: Option<Fraction>,
        minimum_root_weight: Option<usize>,
        weight_assignment_iterations: Option<usize>,
        allowed_skip_modules: Option<usize>,
        allow_cross_track: Option<bool>,
        clone_ghost_killing: Option<bool>,
    ) -> (r: GraphDFS)
        requires
            max_slopes matches Some(s) ==> s.0.wf() && s.1.wf(),
            max_tolerance matches Some(t) ==> t.0.wf() && t.1.wf(),
            max_scatter matches Some(m) ==> m.wf(),
        ensures
            r.wf(),
            r.max_slopes == (if max_slopes is Some { max_slopes->0 } else {
                (Fraction { num: 7, den: 10 }, Fraction { num: 7, den: 10 })
            }),
            r.max_tolerance == (if max_tolerance is Some { max_tolerance->0 } else {
                (Fraction { num: 2, den: 5 }, Fraction { num: 2, den: 5 })
            }),
            r.max_scatter == (if max_scatter is Some { max_scatter->0 } else {
                Fraction { num: 2, den: 5 }
            }),
            r.minimum_root_weight == (if minimum_root_weight is Some {
                minimum_root_weight->0 as int
            } else {
                1
            }),
            r.weight_assignment_iterations == (if weight_assignment_iterations is Some {
                weight_assignment_iterations->0 as int
            } else {
                2
            }),
            r.allowed_skip_modules == (if allowed_skip_modules is Some {
                allowed_skip_modules->0 as int
            } else {
                1
            }),
            r.allow_cross_track == (if allow_cross_track is Some { allow_cross_track->0 } else {
                true
            }),
            r.clone_ghost_killing == (if clone_ghost_killing is Some {
                clone_ghost_killing->0
            } else {
                true
            }),
    {
        GraphDFS {
            max_slopes: match max_slopes {
                Some(s) => s,
                None => (Fraction { num: 7, den: 10 }, Fraction { num: 7, den: 10 }),
            },
            max_tolerance: match max_tolerance {
                Some(t) => t,
                None => (Fraction { num: 2, den: 5 }, Fraction { num: 2, den: 5 }),
            },
            max_scatter: match max_scatter {
                Some(m) => m,
                None => Fraction { num: 2, den: 5 },
            },
            minimum_root_weight: match minimum_root_weight {
                Some(v) => v,
                None => 1,
            },
            weight_assignment_iterations: match weight_assignment_iterations {
                Some(v) => v,
                None => 2,
            },
            allowed_skip_modules: match allowed_skip_modules {
                Some(v) => v,
                None => 1,
            },
            allow_cross_track: match allow_cross_track {
                Some(v) => v,
                None => true,
            },
            clone_ghost_killing: match clone_ghost_killing {
                Some(v) => v,
                None => true,
            },
        }
    }

    /// Slope compatibility in x alone.
    pub fn are_compatible_in_x(&self, hit0: &Hit, hit1: &Hit) -> (r: bool)
        requires
            self.wf(),
            hit0.wf(),
            hit1.wf(),
        ensures
            r == spec_compatible_x(self.max_slopes.0, *hit0, *hit1),
    {
        compatible_in_x(&self.max_slopes.0, hit0, hit1)
    }

    /// Slope compatibility in y alone.
    pub fn are_compatible_in_y(&self, hit0: &Hit, hit1: &Hit) -> (r: bool)
        requires
            self.wf(),
            hit0.wf(),
            hit1.wf(),
        ensures
            r == spec_compatible_y(self.max_slopes.1, *hit0, *hit1),
    {
        compatible_in_y(&self.max_slopes.1, hit0, hit1)
    }

    /// Slope compatibility in both coordinates.
    pub fn are_compatible(&self, hit0: &Hit, hit1: &Hit) -> (r: bool)
        requires
            self.wf(),
            hit0.wf(),
            hit1.wf(),
        ensures
            r == spec_compatible(self.max_slopes.0, self.max_slopes.1, *hit0, *hit1),
    {
        self.are_compatible_in_x(hit0, hit1) && self.are_compatible_in_y(hit0, hit1)
    }

    /// The three-hit scatter tolerance test.
    pub fn check_tolerance(&self, hit0: &Hit, hit1: &Hit, hit2: &Hit) -> (r: bool)
        requires
            self.wf(),
            hit0.wf(),
            hit1.wf(),
            hit2.wf(),
        ensures
            r == spec_tolerant(
                self.max_tolerance.0,
                self.max_tolerance.1,
                self.max_scatter,
                *hit0,
                *hit1,
                *hit2,
            ),
    {
        tolerant(
            &self.max_tolerance.0,
            &self.max_tolerance.1,
            &self.max_scatter,
            hit0,
            hit1,
            hit2,
        )
    }

    /// Two chained segments are compatible when the extension of the
    /// first through its endpoint to the second's far hit stays within
    /// tolerance.
    pub fn are_segments_compatible(&self, seg0: &Segment, seg1: &Segment) -> (r: bool)
        requires
            self.wf(),
            seg0.h0.wf(),
            seg0.h1.wf(),
            seg1.h1.wf(),
        ensures
            r == spec_tolerant(
                self.max_tolerance.0,
                self.max_tolerance.1,
                self.max_scatter,
                seg0.h0,
                seg0.h1,
                seg1.h1,
            ),
    {
        self.check_tolerance(&seg0.h0, &seg0.h1, &seg1.h1)
    }

    /// Reorders the hits of each module range by ascending x (a stable
    /// insertion sort), refreshing the module views.  Positions and ids
    /// keep to their module ranges, so the result remains a well-formed
    /// working copy.
    pub fn order_hits(&self, event: &mut Event)
        requires
            old(event).wf_shuffled(),
        ensures
            final(event).wf_shuffled(),
            final(event).module_prefix_sum@ == old(event).module_prefix_sum@,
            final(event).modules.len() == old(event).modules.len(),
            final(event).hits.len() == old(event).hits.len(),
    {
        let nmod = event.modules.len();
        let ghost prefix = event.module_prefix_sum@;
        let mut hits = copy_hit_vec(&event.hits);
        let mut m: usize = 0;
        while m < nmod
            invariant
                m <= nmod,
                prefix == event.module_prefix_sum@,
                event.wf_shuffled(),
                nmod == event.modules.len(),
                hits.len() == event.hits.len(),
                forall|i: int|
                    0 <= i < hits.len() ==> {
                        &&& (#[trigger] hits@[i]).wf()
                        &&& crate::event_model::hit_module_consistent(
                            prefix,
                            nmod as int,
                            hits@[i],
                            i,
                        )
                        &&& crate::event_model::hit_id_in_own_module(
                            prefix,
                            nmod as int,
                            hits@[i],
                        )
                    },
            decreases nmod - m,
        {
            proof {
                lemma_prefix_le(prefix, m + 1 as int, nmod as int);
            }
            let start = event.module_prefix_sum[m];
            let end = event.module_prefix_sum[m + 1];
            let mut i: usize = if start < end {
                start + 1
            } else {
                end
            };
            while i < end
                invariant
                    start <= i <= end || (start == end && i == end),
                    start < end ==> start < i,
                    end <= hits.len(),
                    prefix == event.module_prefix_sum@,
                    nmod == event.modules.len(),
                    m < nmod,
                    prefix.len() == nmod + 1,
                    forall|k: int| 0 <= k < nmod ==> #[trigger] prefix[k] <= prefix[k + 1],
                    prefix[m as int] == start,
                    prefix[m + 1 as int] == end,
                    hits.len() == event.hits.len(),
                    forall|q: int|
                        0 <= q < hits.len() ==> {
                            &&& (#[trigger] hits@[q]).wf()
                            &&& crate::event_model::hit_module_consistent(
                                prefix,
                                nmod as int,
                                hits@[q],
                                q,
                            )
                            &&& crate::event_model::hit_id_in_own_module(
                                prefix,
                                nmod as int,
                                hits@[q],
                            )
                        },
                decreases end - i,
            {
                let mut j: usize = i;
                while j > start && hits[j - 1].x > hits[j].x
                    invariant
                        start <= j <= i < end,
                        end <= hits.len(),
                        prefix == event.module_prefix_sum@,
                        nmod == event.modules.len(),
                        m < nmod,
                        prefix.len() == nmod + 1,
                        forall|k: int| 0 <= k < nmod ==> #[trigger] prefix[k] <= prefix[k + 1],
                        prefix[m as int] == start,
                        prefix[m + 1 as int] == end,
                        hits.len() == event.hits.len(),
                        forall|q: int|
                            0 <= q < hits.len() ==> {
                                &&& (#[trigger] hits@[q]).wf()
                                &&& crate::event_model::hit_module_consistent(
                                    prefix,
                                    nmod as int,
                                    hits@[q],
                                    q,
                                )
                                &&& crate::event_model::hit_id_in_own_module(
                                    prefix,
                                    nmod as int,
                                    hits@[q],
                                )
                            },
                    decreases j,
                {
                    let a = hits[j - 1];
                    let b = hits[j];
                    hits.set(j - 1, b);
                    hits.set(j, a);
                    proof {
                        crate::event_model::lemma_consistent_module(
                            prefix,
                            nmod as int,
                            a,
                            j - 1 as int,
                            m as int,
                        );
                        crate::event_model::lemma_consistent_module(
                            prefix,
                            nmod as int,
                            b,
                            j as int,
                            m as int,
                        );
                        assert forall|q: int| 0 <= q < hits.len() implies {
                            &&& (#[trigger] hits@[q]).wf()
                            &&& crate::event_model::hit_module_consistent(
                                prefix,
                                nmod as int,
                                hits@[q],
                                q,
                            )
                            &&& crate::event_model::hit_id_in_own_module(
                                prefix,
                                nmod as int,
                                hits@[q],
                            )
                        } by {
                            if q == j - 1 {
                                assert(hits@[q] == b);
                                assert(prefix[m as int] <= q < prefix[m + 1 as int]);
                            } else if q == j {
                                assert(hits@[q] == a);
                                assert(prefix[m as int] <= q < prefix[m + 1 as int]);
                            }
                        }
                    }
                    j = j - 1;
                }
                i = i + 1;
            }
            m = m + 1;
        }
        let old_zs = copy_zs(&event.module_zs);
        let mut zs_sized: Vec<Vec<i64>> = Vec::new();
        let mut mm: usize = 0;
        while mm < nmod
            invariant
                mm <= nmod,
                zs_sized.len() == mm,
            decreases nmod - mm,
        {
            if mm < old_zs.len() {
                zs_sized.push(copy_i64_vec(&old_zs[mm]));
            } else {
                zs_sized.push(Vec::new());
            }
            mm = mm + 1;
        }
        let modules = build_modules(&event.module_prefix_sum, &hits, &zs_sized);
        event.hits = hits;
        event.modules = modules;
        event.module_zs = zs_sized;
    }
}

/// Copies the per-module z lists.
fn copy_zs(v: &Vec<Vec<i64>>) -> (r: Vec<Vec<i64>>)
    ensures
        r.len() == v.len(),
{
    let mut out: Vec<Vec<i64>> = Vec::new();
    let mut i: usize = 0;
    while i < v.len()
        invariant
            i <= v.len(),
            out.len() == i,
        decreases v.len() - i,
    {
        out.push(copy_i64_vec(&v[i]));
        i = i + 1;
    }
    out
}

/// A field-for-field copy of an event.
pub fn copy_event(event: &Event) -> (r: Event)
    requires
        event.wf_shuffled(),
    ensures
        r.wf_shuffled(),
        r.module_prefix_sum@ == event.module_prefix_sum@,
        r.hits@ == event.hits@,
        r.modules.len() == event.modules.len(),
        r.number_of_hits == event.number_of_hits,
{
    let description = clone_str(&event.description);
    let module_prefix_sum = copy_usize_vec(&event.module_prefix_sum);
    let hits = copy_hit_vec(&event.hits);
    let module_zs = copy_zs(&event.module_zs);
    let ghost nmod = event.modules.len();
    proof {
        lemma_prefix_le(event.module_prefix_sum@, 0, nmod as int);
    }
    let mut zs_sized: Vec<Vec<i64>> = Vec::new();
    let mut m: usize = 0;
    while m < event.modules.len()
        invariant
            m <= event.modules.len(),
            zs_sized.len() == m,
            event.wf_shuffled(),
        decreases event.modules.len() - m,
    {
        if m < module_zs.len() {
            zs_sized.push(copy_i64_vec(&module_zs[m]));
        } else {
            zs_sized.push(Vec::new());
        }
        m = m + 1;
    }
    let modules = build_modules(&module_prefix_sum, &hits, &zs_sized);
    Event {
        description,
        module_prefix_sum,
        number_of_hits: event.number_of_hits,
        module_zs: zs_sized,
        hits,
        modules,
    }
}

/// Copies a string.
fn clone_str(s: &String) -> (r: String)
    ensures
        r@ == s@,
{
    s.clone()
}

/// Copies a vector of indices.
pub fn copy_usize_vec(v: &Vec<usize>) -> (r: Vec<usize>)
    ensures
        r@ == v@,
{
    let mut out: Vec<usize> = Vec::new();
    let mut i: usize = 0;
    while i < v.len()
        invariant
            i <= v.len(),
            out@ == v@.subrange(0, i as int),
        decreases v.len() - i,
    {
        out.push(v[i]);
        proof {
            assert(out@ =~= v@.subrange(0, i + 1 as int));
        }
        i = i + 1;
    }
    proof {
        assert(out@ =~= v@);
    }
    out
}

/// What a candidate window promises: a bounded slice of hit positions,
/// all strictly before `p` by id, and all x-compatible with the hit at
/// `p`.
pub open spec fn window_ok(g: GraphDFS, hits: Seq<Hit>, p: int, s: int, e: int) -> bool {
    &&& 0 <= s <= e <= hits.len()
    &&& e <= p
    &&& forall|q: int|
        s <= q < e ==> (#[trigger] hits[q]).id < hits[p].id && spec_compatible_x(
            g.max_slopes.0,
            hits[p],
            hits[q],
        )
}

impl GraphDFS {
    /// For every hit, computes the candidate windows on the target
    /// modules below it: on each target module, the first contiguous run
    /// of x-compatible hits.  Hits of modules 0 and 1, and all hits when
    /// fewer than three modules exist, get no windows.
    #[verifier::rlimit(100)]
    #[verifier::spinoff_prover]
    pub fn fill_candidates(&self, event: &Event) -> (r: Vec<Vec<(usize, usize, usize)>>)
        requires
            self.wf(),
            event.wf_shuffled(),
        ensures
            r.len() == event.hits.len(),
            forall|p: int, w: int|
                #![trigger r@[p]@[w]]
                0 <= p < r.len() && 0 <= w < r@[p]@.len() ==> window_ok(
                    *self,
                    event.hits@,
                    p,
                    r@[p]@[w].1 as int,
                    r@[p]@[w].2 as int,
                ),
            event.modules.len() < 3 ==> forall|p: int|
                0 <= p < r.len() ==> (#[trigger] r@[p])@.len() == 0,
    {
        let nhits = event.hits.len();
        let nmod = event.modules.len();
        let mut cands: Vec<Vec<(usize, usize, usize)>> = Vec::new();
        let mut p: usize = 0;
        while p < nhits
            invariant
                p <= nhits,
                cands.len() == p,
                forall|q: int| 0 <= q < p ==> (#[trigger] cands@[q])@.len() == 0,
            decreases nhits - p,
        {
            cands.push(Vec::new());
            p = p + 1;
        }
        if nmod < 3 {
            return cands;
        }
        let factor: usize = if self.allow_cross_track {
            1
        } else {
            2
        };
        let mut step: usize = 0;
        while step < nmod - 2
            invariant
                self.wf(),
                event.wf_shuffled(),
                nhits == event.hits.len(),
                nmod == event.modules.len(),
                nmod >= 3,
                1 <= factor <= 2,
                step <= nmod - 2,
                cands.len() == nhits,
                forall|q: int, w: int|
                    #![trigger cands@[q]@[w]]
                    0 <= q < cands.len() && 0 <= w < cands@[q]@.len() ==> window_ok(
                        *self,
                        event.hits@,
                        q,
                        cands@[q]@[w].1 as int,
                        cands@[q]@[w].2 as int,
                    ),
            decreases nmod - 2 - step,
        {
            let mi = nmod - 1 - step;
            proof {
                lemma_prefix_le(event.module_prefix_sum@, mi + 1 as int, nmod as int);
            }
            let m_start = event.module_prefix_sum[mi];
            let m_end = event.module_prefix_sum[mi + 1];
            let mut p: usize = m_start;
            while p < m_end
                invariant
                    self.wf(),
                    event.wf_shuffled(),
                    nhits == event.hits.len(),
                    nmod == event.modules.len(),
                    nmod >= 3,
                    1 <= factor <= 2,
                    2 <= mi < nmod,
                    event.module_prefix_sum@[mi as int] == m_start,
                    event.module_prefix_sum@[mi + 1 as int] == m_end,
                    m_start <= p <= m_end,
                    m_end <= nhits,
                    cands.len() == nhits,
                    forall|q: int, w: int|
                        #![trigger cands@[q]@[w]]
                        0 <= q < cands.len() && 0 <= w < cands@[q]@.len() ==> window_ok(
                            *self,
                            event.hits@,
                            q,
                            cands@[q]@[w].1 as int,
                            cands@[q]@[w].2 as int,
                        ),
                decreases m_end - p,
            {
                let h0 = event.hits[p];
                let mut windows: Vec<(usize, usize, usize)> = Vec::new();
                let kcap: usize = if self.allowed_skip_modules >= nmod {
                    nmod
                } else {
                    self.allowed_skip_modules + 1
                };
                let mut k: usize = 0;
                while k < kcap
                    invariant
                        kcap <= nmod,
                        self.wf(),
                        event.wf_shuffled(),
                        nhits == event.hits.len(),
                        nmod == event.modules.len(),
                        1 <= factor <= 2,
                        2 <= mi < nmod,
                        event.module_prefix_sum@[mi as int] == m_start,
                        event.module_prefix_sum@[mi + 1 as int] == m_end,
                        m_start <= p < m_end,
                        m_end <= nhits,
                        h0 == event.hits@[p as int],
                        forall|w: int|
                            0 <= w < windows@.len() ==> window_ok(
                                *self,
                                event.hits@,
                                p as int,
                                (#[trigger] windows@[w]).1 as int,
                                windows@[w].2 as int,
                            ),
                    decreases kcap - k,
                {
                    proof {
                        assert((factor as int) * ((k as int) + 1) >= 1 && (factor as int) * ((
                        k as int) + 1) <= 2 * (u64::MAX as int) + 2) by (nonlinear_arith)
                            requires
                                1 <= factor as int <= 2,
                                0 <= k as int <= u64::MAX as int,
                        ;
                    }
                    let t_off128: u128 = (factor as u128) * ((k as u128) + 1);
                    if t_off128 <= mi as u128 {
                        let t_off = t_off128 as usize;
                        let target = mi - t_off;
                        proof {
                            lemma_prefix_le(
                                event.module_prefix_sum@,
                                target + 1 as int,
                                mi as int,
                            );
                        }
                        let t_start = event.module_prefix_sum[target];
                        let t_end = event.module_prefix_sum[target + 1];
                        let mut begin_found = false;
                        let mut end_found = false;
                        let mut ws: usize = 0;
                        let mut we: usize = 0;
                        let mut q: usize = t_start;
                        while q < t_end
                            invariant
                                self.wf(),
                                event.wf_shuffled(),
                                nhits == event.hits.len(),
                                nmod == event.modules.len(),
                                target < mi < nmod,
                                event.module_prefix_sum@[target as int] == t_start,
                                event.module_prefix_sum@[target + 1 as int] == t_end,
                                t_start <= q <= t_end,
                                t_end <= nhits,
                                p < nhits,
                                h0 == event.hits@[p as int],
                                !begin_found ==> !end_found && ws == 0 && we == 0,
                                begin_found ==> t_start <= ws <= we <= q,
                                begin_found && !end_found ==> we == q && ws < we,
                                begin_found ==> forall|q2: int|
                                    ws <= q2 < we ==> spec_compatible_x(
                                        self.max_slopes.0,
                                        event.hits@[p as int],
                                        #[trigger] event.hits@[q2],
                                    ),
                            decreases t_end - q,
                        {
                            let h1 = event.hits[q];
                            let c = self.are_compatible_in_x(&h0, &h1);
                            if !begin_found && c {
                                ws = q;
                                we = q + 1;
                                begin_found = true;
                            } else if begin_found && !end_found {
                                if !c {
                                    end_found = true;
                                } else {
                                    we = q + 1;
                                }
                            }
                            q = q + 1;
                        }
                        if begin_found && !end_found {
                            we = t_end;
                        }
                        if begin_found {
                            proof {
                                lemma_prefix_le(
                                    event.module_prefix_sum@,
                                    target + 1 as int,
                                    mi as int,
                                );
                                assert forall|q2: int| ws <= q2 < we implies (
                                #[trigger] event.hits@[q2]).id < event.hits@[p as int].id by {
                                    event.lemma_position_module(target as int, q2);
                                    event.lemma_position_module(mi as int, p as int);
                                }
                            }
                            windows.push((target, ws, we));
                        }
                    }
                    k = k + 1;
                }
                let ghost pre = cands@;
                cands.set(p, windows);
                proof {
                    assert forall|q2: int, w: int|
                        #![trigger cands@[q2]@[w]]
                        0 <= q2 < cands.len() && 0 <= w < cands@[q2]@.len() implies window_ok(
                        *self,
                        event.hits@,
                        q2,
                        cands@[q2]@[w].1 as int,
                        cands@[q2]@[w].2 as int,
                    ) by {
                        if q2 != p {
                            assert(cands@[q2] == pre[q2]);
                        }
                    }
                }
                p = p + 1;
            }
            step = step + 1;
        }
        cands
    }
}


/// Monotone index sequences: earlier entries never exceed later ones.
pub open spec fn asc_le(s: Seq<usize>) -> bool {
    forall|k: int| 0 <= k < s.len() - 1 ==> s[k] <= #[trigger] s[k + 1]
}

/// In a monotone sequence, earlier entries are bounded by later ones.
pub proof fn lemma_asc_le(s: Seq<usize>, i: int, j: int)
    requires
        asc_le(s),
        0 <= i <= j < s.len(),
    ensures
        s[i] <= s[j],
    decreases j - i,
{
    if i < j {
        if i + 1 == j {
            assert(s[i] <= s[i + 1]);
        } else {
            lemma_asc_le(s, i + 1, j);
        }
    }
}

/// One segment entry of the graph under construction: numbered by its
/// index, not yet a root, created from the hit at position `hp` (below
/// `bound`), with a well-formed compatible pair of hits.
pub open spec fn seg_entry_ok(
    g: GraphDFS,
    seg: Segment,
    s: int,
    hp: usize,
    hits: Seq<Hit>,
    bound: int,
) -> bool {
    &&& seg.segment_number == s
    &&& !seg.root_segment
    &&& seg.weight == 0
    &&& (hp as int) < bound
    &&& (hp as int) < hits.len()
    &&& seg.h0 == hits[hp as int]
    &&& seg.h0.wf()
    &&& seg.h1.wf()
    &&& seg.h1.id < seg.h0.id
    &&& spec_compatible(g.max_slopes.0, g.max_slopes.1, seg.h0, seg.h1)
}

/// All segments built so far are in order.
pub open spec fn segs_ok(
    g: GraphDFS,
    segs: Seq<Segment>,
    h0pos: Seq<usize>,
    hits: Seq<Hit>,
    bound: int,
) -> bool {
    &&& segs.len() == h0pos.len()
    &&& forall|s: int|
        0 <= s < segs.len() ==> seg_entry_ok(g, #[trigger] segs[s], s, h0pos[s], hits, bound)
}

/// The reverse index is consistent: entry `a` lists segments whose far
/// hit sits at position `a`, all created from later positions.
pub open spec fn outer_ok(
    segs: Seq<Segment>,
    h0pos: Seq<usize>,
    outer: Seq<Vec<usize>>,
    hits: Seq<Hit>,
) -> bool {
    forall|a: int, b: int|
        #![trigger outer[a]@[b]]
        0 <= a < outer.len() && 0 <= b < outer[a]@.len() ==> {
            &&& outer[a]@[b] < segs.len()
            &&& segs[outer[a]@[b] as int].h1 == hits[a]
            &&& h0pos[outer[a]@[b] as int] > a
        }
}

/// The successor lists are consistent: every successor has a smaller
/// index, chains onto its predecessor, and passes the tolerance test.
pub open spec fn compat_ok(g: GraphDFS, segs: Seq<Segment>, compat: Seq<Vec<usize>>) -> bool {
    forall|a: int, k: int|
        #![trigger compat[a]@[k]]
        0 <= a < segs.len() && a < compat.len() && 0 <= k < compat[a]@.len() ==> {
            &&& compat[a]@[k] < a
            &&& segs[compat[a]@[k] as int].h0 == segs[a].h1
            &&& segs[compat[a]@[k] as int].h0.id == segs[a].h1.id
            &&& spec_tolerant(
                g.max_tolerance.0,
                g.max_tolerance.1,
                g.max_scatter,
                segs[a].h0,
                segs[a].h1,
                segs[compat[a]@[k] as int].h1,
            )
        }
}

/// Adding one segment preserves the construction invariants.
proof fn lemma_segs_push(
    g: GraphDFS,
    segs: Seq<Segment>,
    h0pos: Seq<usize>,
    hits: Seq<Hit>,
    bound: int,
    seg: Segment,
    hp: usize,
)
    requires
        segs_ok(g, segs, h0pos, hits, bound),
        seg_entry_ok(g, seg, segs.len() as int, hp, hits, bound),
        asc_le(h0pos),
        forall|s: int| 0 <= s < h0pos.len() ==> #[trigger] h0pos[s] <= hp,
    ensures
        segs_ok(g, segs.push(seg), h0pos.push(hp), hits, bound),
        asc_le(h0pos.push(hp)),
{
    let segs2 = segs.push(seg);
    let h2 = h0pos.push(hp);
    assert forall|s: int| 0 <= s < segs2.len() implies seg_entry_ok(
        g,
        #[trigger] segs2[s],
        s,
        h2[s],
        hits,
        bound,
    ) by {
        if s < segs.len() {
            assert(segs2[s] == segs[s]);
            assert(h2[s] == h0pos[s]);
        } else {
            assert(segs2[s] == seg);
            assert(h2[s] == hp);
        }
    }
    assert forall|k: int| 0 <= k < h2.len() - 1 implies h2[k] <= #[trigger] h2[k + 1] by {
        if k + 1 < h0pos.len() {
            assert(h2[k] == h0pos[k]);
            assert(h2[k + 1] == h0pos[k + 1]);
        } else {
            assert(h2[k] == h0pos[k]);
            assert(h2[k + 1] == hp);
        }
    }
}

impl GraphDFS {
    /// Builds the segment graph from the candidate windows: a segment for
    /// every window member that is also y-compatible, a per-hit list of
    /// the segments ending on that hit, the per-segment successor lists,
    /// and the ascending list of segments with at least one successor.
    #[verifier::rlimit(100)]
    #[verifier::spinoff_prover]
    pub fn populate_segments(&self, event: &Event, candidates: &Vec<Vec<(usize, usize, usize)>>)
        -> (r: (Vec<Segment>, Vec<Vec<usize>>, Vec<Vec<usize>>, Vec<usize>))
        requires
            self.wf(),
            event.wf_shuffled(),
            candidates.len() == event.hits.len(),
            forall|p: int, w: int|
                #![trigger candidates@[p]@[w]]
                0 <= p < candidates.len() && 0 <= w < candidates@[p]@.len() ==> window_ok(
                    *self,
                    event.hits@,
                    p,
                    candidates@[p]@[w].1 as int,
                    candidates@[p]@[w].2 as int,
                ),
        ensures
            graph_ok(*self, r.0@, r.2@),
            r.1.len() == event.hits.len(),
            forall|i: int|
                0 <= i < r.0.len() ==> !(#[trigger] r.0@[i]).root_segment && r.0@[i].weight == 0,
            (forall|p: int| 0 <= p < candidates.len() ==> (#[trigger] candidates@[p])@.len() == 0)
                ==> r.0.len() == 0,
            forall|k: int|
                0 <= k < r.3.len() ==> #[trigger] r.3@[k] < r.0.len() && r.2@[r.3@[k] as int]@.len()
                    > 0,
            forall|k1: int, k2: int| 0 <= k1 < k2 < r.3.len() ==> r.3@[k1] < r.3@[k2],
            forall|i: int|
                0 <= i < r.0.len() && (#[trigger] r.2@[i])@.len() > 0
                    ==> crate::validator_event::seq_contains_usize(r.3@, i),
            event.hits.len() == 0 ==> r.0.len() == 0,
    {
        let nhits = event.hits.len();
        let ghost hits = event.hits@;
        let mut segments: Vec<Segment> = Vec::new();
        let mut h0pos: Vec<usize> = Vec::new();
        let mut outer: Vec<Vec<usize>> = Vec::new();
        let mut q: usize = 0;
        while q < nhits
            invariant
                q <= nhits,
                outer.len() == q,
                forall|a: int| 0 <= a < q ==> (#[trigger] outer@[a])@.len() == 0,
            decreases nhits - q,
        {
            outer.push(Vec::new());
            q = q + 1;
        }

        let mut p: usize = 0;
        while p < nhits
            invariant
                self.wf(),
                event.wf_shuffled(),
                hits == event.hits@,
                nhits == event.hits.len(),
                candidates.len() == nhits,
                forall|p2: int, w: int|
                    #![trigger candidates@[p2]@[w]]
                    0 <= p2 < candidates.len() && 0 <= w < candidates@[p2]@.len() ==> window_ok(
                        *self,
                        hits,
                        p2,
                        candidates@[p2]@[w].1 as int,
                        candidates@[p2]@[w].2 as int,
                    ),
                p <= nhits,
                outer.len() == nhits,
                segs_ok(*self, segments@, h0pos@, hits, p as int),
                asc_le(h0pos@),
                forall|s: int| 0 <= s < h0pos@.len() ==> #[trigger] h0pos@[s] < p,
                outer_ok(segments@, h0pos@, outer@, hits),
                (forall|p2: int|
                    0 <= p2 < candidates.len() ==> (#[trigger] candidates@[p2])@.len() == 0)
                    ==> segments.len() == 0,
            decreases nhits - p,
        {
            let h0 = event.hits[p];
            let windows = &candidates[p];
            let mut w: usize = 0;
            while w < windows.len()
                invariant
                    self.wf(),
                    event.wf_shuffled(),
                    hits == event.hits@,
                    nhits == event.hits.len(),
                    candidates.len() == nhits,
                    windows == &candidates[p as int],
                    p < nhits,
                    h0 == hits[p as int],
                    forall|w2: int|
                        0 <= w2 < windows@.len() ==> window_ok(
                            *self,
                            hits,
                            p as int,
                            (#[trigger] windows@[w2]).1 as int,
                            windows@[w2].2 as int,
                        ),
                    w <= windows.len(),
                    outer.len() == nhits,
                    (forall|p2: int|
                        0 <= p2 < candidates.len() ==> (#[trigger] candidates@[p2])@.len() == 0)
                        ==> segments.len() == 0,
                    segs_ok(*self, segments@, h0pos@, hits, p + 1 as int),
                    asc_le(h0pos@),
                    forall|s: int| 0 <= s < h0pos@.len() ==> #[trigger] h0pos@[s] <= p,
                    outer_ok(segments@, h0pos@, outer@, hits),
                decreases windows.len() - w,
            {
                let window = windows[w];
                let ws = window.1;
                let we = window.2;
                let mut q: usize = ws;
                while q < we
                    invariant
                        self.wf(),
                        event.wf_shuffled(),
                        hits == event.hits@,
                        nhits == event.hits.len(),
                        p < nhits,
                        h0 == hits[p as int],
                        window_ok(*self, hits, p as int, ws as int, we as int),
                        ws <= q <= we,
                        outer.len() == nhits,
                        w < windows.len(),
                        windows == &candidates[p as int],
                        candidates.len() == nhits,
                        (forall|p2: int|
                            0 <= p2 < candidates.len() ==> (#[trigger] candidates@[p2])@.len()
                                == 0) ==> segments.len() == 0,
                        segs_ok(*self, segments@, h0pos@, hits, p + 1 as int),
                        asc_le(h0pos@),
                        forall|s: int| 0 <= s < h0pos@.len() ==> #[trigger] h0pos@[s] <= p,
                        outer_ok(segments@, h0pos@, outer@, hits),
                    decreases we - q,
                {
                    let h1 = event.hits[q];
                    if self.are_compatible_in_y(&h0, &h1) {
                        let idx = segments.len();
                        let seg = Segment::new(h0, h1, idx);
                        let ghost pre_segs = segments@;
                        let ghost pre_h0pos = h0pos@;
                        let ghost pre_outer = outer@;
                        proof {
                            lemma_segs_push(
                                *self,
                                pre_segs,
                                pre_h0pos,
                                hits,
                                p + 1 as int,
                                seg,
                                p as usize,
                            );
                        }
                        segments.push(seg);
                        h0pos.push(p);
                        let mut olist = take_vec(&mut outer, q);
                        olist.push(idx);
                        put_vec(&mut outer, q, olist);
                        proof {
                            assert forall|a: int, b: int|
                                #![trigger outer@[a]@[b]]
                                0 <= a < outer@.len() && 0 <= b < outer@[a]@.len() implies {
                                &&& outer@[a]@[b] < segments@.len()
                                &&& segments@[outer@[a]@[b] as int].h1 == hits[a]
                                &&& h0pos@[outer@[a]@[b] as int] > a
                            } by {
                                if a == q && b == pre_outer[a]@.len() {
                                    assert(outer@[a]@[b] == idx);
                                    assert(segments@[idx as int] == seg);
                                    assert(h0pos@[idx as int] == p);
                                } else {
                                    if a == q {
                                        assert(outer@[a]@[b] == pre_outer[a]@[b]);
                                    } else {
                                        assert(outer@[a] == pre_outer[a]);
                                        assert(outer@[a]@[b] == pre_outer[a]@[b]);
                                    }
                                    let s0 = pre_outer[a]@[b];
                                    assert(segments@[s0 as int] == pre_segs[s0 as int]);
                                    assert(h0pos@[s0 as int] == pre_h0pos[s0 as int]);
                                }
                            }
                        }
                    }
                    q = q + 1;
                }
                w = w + 1;
            }
            p = p + 1;
        }

        proof {
            if nhits == 0 && h0pos@.len() > 0 {
                assert(h0pos@[0] < 0);
            }
        }

        // Link compatible chained segments: a successor of a segment ends
        // where that segment begins and stays within tolerance.
        let nsegs = segments.len();
        let mut compat: Vec<Vec<usize>> = Vec::new();
        let mut i: usize = 0;
        while i < nsegs
            invariant
                i <= nsegs,
                compat.len() == i,
                forall|a: int| 0 <= a < i ==> (#[trigger] compat@[a])@.len() == 0,
            decreases nsegs - i,
        {
            compat.push(Vec::new());
            i = i + 1;
        }
        let mut sidx: usize = 0;
        while sidx < nsegs
            invariant
                self.wf(),
                event.wf_shuffled(),
                hits == event.hits@,
                nhits == event.hits.len(),
                nsegs == segments.len(),
                outer.len() == nhits,
                compat.len() == nsegs,
                sidx <= nsegs,
                segs_ok(*self, segments@, h0pos@, hits, nhits + 1 as int),
                asc_le(h0pos@),
                outer_ok(segments@, h0pos@, outer@, hits),
                compat_ok(*self, segments@, compat@),
            decreases nsegs - sidx,
        {
            let hp = h0pos[sidx];
            let seg = segments[sidx];
            let olist_len = outer[hp].len();
            let mut b: usize = 0;
            while b < olist_len
                invariant
                    self.wf(),
                    event.wf_shuffled(),
                    hits == event.hits@,
                    nhits == event.hits.len(),
                    nsegs == segments.len(),
                    outer.len() == nhits,
                    compat.len() == nsegs,
                    sidx < nsegs,
                    hp == h0pos@[sidx as int],
                    hp < nhits,
                    seg == segments@[sidx as int],
                    olist_len == outer@[hp as int]@.len(),
                    b <= olist_len,
                    segs_ok(*self, segments@, h0pos@, hits, nhits + 1 as int),
                    asc_le(h0pos@),
                    outer_ok(segments@, h0pos@, outer@, hits),
                    compat_ok(*self, segments@, compat@),
                decreases olist_len - b,
            {
                let s0 = outer[hp][b];
                let seg0 = segments[s0];
                if self.are_segments_compatible(&seg0, &seg) {
                    proof {
                        assert(h0pos@[s0 as int] > hp);
                        if s0 <= sidx {
                            lemma_asc_le(h0pos@, s0 as int, sidx as int);
                            assert(false);
                        }
                    }
                    let ghost pre_compat = compat@;
                    let mut clist = take_vec(&mut compat, s0);
                    clist.push(sidx);
                    put_vec(&mut compat, s0, clist);
                    proof {
                        assert forall|a: int, k: int|
                            #![trigger compat@[a]@[k]]
                            0 <= a < segments@.len() && a < compat@.len() && 0 <= k < compat@[
                        a]@.len() implies {
                            &&& compat@[a]@[k] < a
                            &&& segments@[compat@[a]@[k] as int].h0 == segments@[a].h1
                            &&& segments@[compat@[a]@[k] as int].h0.id == segments@[a].h1.id
                            &&& spec_tolerant(
                                self.max_tolerance.0,
                                self.max_tolerance.1,
                                self.max_scatter,
                                segments@[a].h0,
                                segments@[a].h1,
                                segments@[compat@[a]@[k] as int].h1,
                            )
                        } by {
                            if a == s0 && k == pre_compat[a]@.len() {
                                assert(compat@[a]@[k] == sidx);
                                assert(segments@[sidx as int].h0 == hits[hp as int]);
                                assert(segments@[s0 as int].h1 == hits[hp as int]);
                            } else {
                                if a == s0 {
                                    assert(compat@[a]@[k] == pre_compat[a]@[k]);
                                } else {
                                    assert(compat@[a] == pre_compat[a]);
                                    assert(compat@[a]@[k] == pre_compat[a]@[k]);
                                }
                            }
                        }
                    }
                }
                b = b + 1;
            }
            sidx = sidx + 1;
        }

        // Segments with at least one successor, ascending.
        let mut populated: Vec<usize> = Vec::new();
        let mut i: usize = 0;
        while i < nsegs
            invariant
                nsegs == segments.len(),
                compat.len() == nsegs,
                i <= nsegs,
                forall|k: int|
                    0 <= k < populated.len() ==> #[trigger] populated@[k] < i && compat@[
                    populated@[k] as int]@.len() > 0,
                forall|k1: int, k2: int|
                    0 <= k1 < k2 < populated.len() ==> populated@[k1] < populated@[k2],
                forall|a: int|
                    0 <= a < i && (#[trigger] compat@[a])@.len() > 0
                        ==> crate::validator_event::seq_contains_usize(populated@, a),
            decreases nsegs - i,
        {
            let ghost pre = populated@;
            if compat[i].len() > 0 {
                populated.push(i);
            }
            proof {
                assert forall|a: int|
                    0 <= a < i + 1 && (#[trigger] compat@[a])@.len() > 0
                        implies crate::validator_event::seq_contains_usize(populated@, a) by {
                    if a < i {
                        let k = choose|k: int| 0 <= k < pre.len() && pre[k] == a;
                        assert(populated@[k] == a);
                    } else {
                        assert(populated@[populated@.len() - 1] == a);
                    }
                }
            }
            i = i + 1;
        }
        (segments, outer, compat, populated)
    }
}

/// Takes a list out of a vector slot, leaving an empty one.
fn take_vec(v: &mut Vec<Vec<usize>>, i: usize) -> (r: Vec<usize>)
    requires
        i < old(v).len(),
    ensures
        r@ == old(v)@[i as int]@,
        final(v).len() == old(v).len(),
        forall|a: int| 0 <= a < old(v).len() && a != i ==> final(v)@[a] == old(v)@[a],
{
    let r = copy_usize_vec(&v[i]);
    v.set(i, Vec::new());
    r
}

/// Puts a list back into a vector slot.
fn put_vec(v: &mut Vec<Vec<usize>>, i: usize, val: Vec<usize>)
    requires
        i < old(v).len(),
    ensures
        final(v).len() == old(v).len(),
        final(v)@[i as int]@ == val@,
        forall|a: int| 0 <= a < old(v).len() && a != i ==> final(v)@[a] == old(v)@[a],
{
    v.set(i, val);
}


/// What weight propagation guarantees over the populated segments after
/// the final pass: every edge drops the weight by at least one, and the
/// drop is exactly one towards some successor.
pub open spec fn weights_ok(segs: Seq<Segment>, compat: Seq<Vec<usize>>, pop: Seq<usize>) -> bool {
    forall|k: int|
        0 <= k < pop.len() ==> {
            &&& (forall|m: int|
                0 <= m < compat[pop[k] as int]@.len() ==> (#[trigger] segs[compat[pop[k] as int]@[
                m] as int]).weight + 1 <= segs[pop[k] as int].weight)
            &&& (compat[pop[k] as int]@.len() > 0 ==> exists|m: int|
                0 <= m < compat[pop[k] as int]@.len() && (#[trigger] segs[compat[
                pop[k] as int]@[m] as int]).weight + 1 == segs[pop[k] as int].weight)
        }
}

impl GraphDFS {
    /// Runs the configured number of weight passes over the populated
    /// segments in ascending order — each sets a segment's weight to one
    /// more than its successors' maximum — then marks every populated
    /// segment a root and clears the mark from every successor.
    ///
    /// After at least one pass, along every edge out of a populated
    /// segment the weight drops by at least one, and by exactly one
    /// towards some successor; every root is a populated segment.
    #[verifier::rlimit(100)]
    #[verifier::spinoff_prover]
    pub fn assign_weights_and_populate_roots(
        &self,
        segments: &mut Vec<Segment>,
        compat: &Vec<Vec<usize>>,
        populated: &Vec<usize>,
    )
        requires
            compat.len() == old(segments).len(),
            forall|i: int|
                0 <= i < old(segments).len() ==> (#[trigger] old(segments)@[i]).segment_number
                    == i && old(segments)@[i].weight <= i && !old(segments)@[i].root_segment,
            forall|i: int, k: int|
                #![trigger compat@[i]@[k]]
                0 <= i < old(segments).len() && 0 <= k < compat@[i]@.len() ==> compat@[i]@[k] < i,
            forall|k: int|
                0 <= k < populated.len() ==> #[trigger] populated@[k] < old(segments).len()
                    && compat@[populated@[k] as int]@.len() > 0,
            forall|k1: int, k2: int|
                0 <= k1 < k2 < populated.len() ==> populated@[k1] < populated@[k2],
        ensures
            final(segments).len() == old(segments).len(),
            forall|i: int|
                0 <= i < final(segments).len() ==> {
                    &&& (#[trigger] final(segments)@[i]).h0 == old(segments)@[i].h0
                    &&& final(segments)@[i].h1 == old(segments)@[i].h1
                    &&& final(segments)@[i].segment_number == i
                },
            self.weight_assignment_iterations >= 1 ==> weights_ok(
                final(segments)@,
                compat@,
                populated@,
            ),
            forall|i: int|
                0 <= i < final(segments).len() && (#[trigger] final(segments)@[i]).root_segment
                    ==> crate::validator_event::seq_contains_usize(populated@, i),
    {
        let ghost orig = segments@;
        let iters = self.weight_assignment_iterations;
        let mut it: usize = 1;
        while it < iters
            invariant
                compat.len() == segments.len(),
                segments.len() == orig.len(),
                forall|i: int|
                    0 <= i < segments.len() ==> {
                        &&& (#[trigger] segments@[i]).segment_number == i
                        &&& segments@[i].h0 == orig[i].h0
                        &&& segments@[i].h1 == orig[i].h1
                        &&& !segments@[i].root_segment
                        &&& segments@[i].weight <= i
                    },
                forall|i: int, k: int|
                    #![trigger compat@[i]@[k]]
                    0 <= i < segments.len() && 0 <= k < compat@[i]@.len() ==> compat@[i]@[k] < i,
                forall|k: int|
                    0 <= k < populated.len() ==> #[trigger] populated@[k] < segments.len()
                        && compat@[populated@[k] as int]@.len() > 0,
            decreases iters - it,
        {
            self.weight_pass(segments, compat, populated);
            it = it + 1;
        }
        if iters >= 1 {
            self.weight_pass_final(segments, compat, populated);
        }

        // Mark all populated segments as roots.
        let mut k: usize = 0;
        while k < populated.len()
            invariant
                compat.len() == segments.len(),
                segments.len() == orig.len(),
                k <= populated.len(),
                forall|i: int, k2: int|
                    #![trigger compat@[i]@[k2]]
                    0 <= i < segments.len() && 0 <= k2 < compat@[i]@.len() ==> compat@[i]@[k2] < i,
                forall|k2: int|
                    0 <= k2 < populated.len() ==> #[trigger] populated@[k2] < segments.len(),
                forall|i: int|
                    0 <= i < segments.len() ==> {
                        &&& (#[trigger] segments@[i]).segment_number == i
                        &&& segments@[i].h0 == orig[i].h0
                        &&& segments@[i].h1 == orig[i].h1
                    },
                forall|i: int|
                    0 <= i < segments.len() && (#[trigger] segments@[i]).root_segment
                        ==> crate::validator_event::seq_contains_usize(populated@, i),
                weights_ok(segments@, compat@, populated@) || !(
                self.weight_assignment_iterations >= 1),
            decreases populated.len() - k,
        {
            let i = populated[k];
            let mut seg = segments[i];
            seg.root_segment = true;
            let ghost pre = segments@;
            segments.set(i, seg);
            proof {
                assert(crate::validator_event::seq_contains_usize(populated@, i as int)) by {
                    assert(populated@[k as int] == i);
                }
                if weights_ok(pre, compat@, populated@) {
                    lemma_weights_preserved(segments@, pre, compat@, populated@);
                }
            }
            k = k + 1;
        }

        // Clear the root mark from every successor of a populated segment.
        let mut k: usize = 0;
        while k < populated.len()
            invariant
                compat.len() == segments.len(),
                segments.len() == orig.len(),
                k <= populated.len(),
                forall|k2: int|
                    0 <= k2 < populated.len() ==> #[trigger] populated@[k2] < segments.len(),
                forall|i: int, k2: int|
                    #![trigger compat@[i]@[k2]]
                    0 <= i < segments.len() && 0 <= k2 < compat@[i]@.len() ==> compat@[i]@[k2] < i,
                forall|i: int|
                    0 <= i < segments.len() ==> {
                        &&& (#[trigger] segments@[i]).segment_number == i
                        &&& segments@[i].h0 == orig[i].h0
                        &&& segments@[i].h1 == orig[i].h1
                    },
                forall|i: int|
                    0 <= i < segments.len() && (#[trigger] segments@[i]).root_segment
                        ==> crate::validator_event::seq_contains_usize(populated@, i),
                weights_ok(segments@, compat@, populated@) || !(
                self.weight_assignment_iterations >= 1),
            decreases populated.len() - k,
        {
            let i = populated[k];
            let clist_len = compat[i].len();
            let mut m: usize = 0;
            while m < clist_len
                invariant
                    compat.len() == segments.len(),
                    segments.len() == orig.len(),
                    k < populated.len(),
                    i == populated@[k as int],
                    i < segments.len(),
                    clist_len == compat@[i as int]@.len(),
                    m <= clist_len,
                    forall|k2: int|
                        0 <= k2 < populated.len() ==> #[trigger] populated@[k2] < segments.len(),
                    forall|i2: int, k2: int|
                        #![trigger compat@[i2]@[k2]]
                        0 <= i2 < segments.len() && 0 <= k2 < compat@[i2]@.len() ==> compat@[
                        i2]@[k2] < i2,
                    forall|i2: int|
                        0 <= i2 < segments.len() ==> {
                            &&& (#[trigger] segments@[i2]).segment_number == i2
                            &&& segments@[i2].h0 == orig[i2].h0
                            &&& segments@[i2].h1 == orig[i2].h1
                        },
                    forall|i2: int|
                        0 <= i2 < segments.len() && (#[trigger] segments@[i2]).root_segment
                            ==> crate::validator_event::seq_contains_usize(populated@, i2),
                    weights_ok(segments@, compat@, populated@) || !(
                    self.weight_assignment_iterations >= 1),
                decreases clist_len - m,
            {
                let j = compat[i][m];
                let mut seg = segments[j];
                seg.root_segment = false;
                let ghost pre = segments@;
                segments.set(j, seg);
                proof {
                    if weights_ok(pre, compat@, populated@) {
                        lemma_weights_preserved(segments@, pre, compat@, populated@);
                    }
                }
                m = m + 1;
            }
            k = k + 1;
        }
    }

    /// One weight pass without the final-pass guarantees.
    fn weight_pass(
        &self,
        segments: &mut Vec<Segment>,
        compat: &Vec<Vec<usize>>,
        populated: &Vec<usize>,
    )
        requires
            compat.len() == old(segments).len(),
            forall|i: int|
                0 <= i < old(segments).len() ==> (#[trigger] old(segments)@[i]).segment_number
                    == i && old(segments)@[i].weight <= i && !old(segments)@[i].root_segment,
            forall|i: int, k: int|
                #![trigger compat@[i]@[k]]
                0 <= i < old(segments).len() && 0 <= k < compat@[i]@.len() ==> compat@[i]@[k] < i,
            forall|k: int|
                0 <= k < populated.len() ==> #[trigger] populated@[k] < old(segments).len()
                    && compat@[populated@[k] as int]@.len() > 0,
        ensures
            final(segments).len() == old(segments).len(),
            forall|i: int|
                0 <= i < final(segments).len() ==> {
                    &&& (#[trigger] final(segments)@[i]).segment_number == i
                    &&& final(segments)@[i].h0 == old(segments)@[i].h0
                    &&& final(segments)@[i].h1 == old(segments)@[i].h1
                    &&& !final(segments)@[i].root_segment
                    &&& final(segments)@[i].weight <= i
                },
    {
        let ghost orig = segments@;
        let mut k: usize = 0;
        while k < populated.len()
            invariant
                compat.len() == segments.len(),
                segments.len() == orig.len(),
                k <= populated.len(),
                forall|i: int|
                    0 <= i < segments.len() ==> {
                        &&& (#[trigger] segments@[i]).segment_number == i
                        &&& segments@[i].h0 == orig[i].h0
                        &&& segments@[i].h1 == orig[i].h1
                        &&& !segments@[i].root_segment
                        &&& segments@[i].weight <= i
                    },
                forall|i: int, k2: int|
                    #![trigger compat@[i]@[k2]]
                    0 <= i < segments.len() && 0 <= k2 < compat@[i]@.len() ==> compat@[i]@[k2] < i,
                forall|k2: int|
                    0 <= k2 < populated.len() ==> #[trigger] populated@[k2] < segments.len()
                        && compat@[populated@[k2] as int]@.len() > 0,
            decreases populated.len() - k,
        {
            let i = populated[k];
            let mx = self.max_successor_weight(segments, compat, i);
            let mut seg = segments[i];
            seg.weight = mx + 1;
            let ghost pre = segments@;
            segments.set(i, seg);
            proof {
                assert forall|i2: int| 0 <= i2 < segments.len() implies {
                    &&& (#[trigger] segments@[i2]).segment_number == i2
                    &&& segments@[i2].h0 == orig[i2].h0
                    &&& segments@[i2].h1 == orig[i2].h1
                    &&& !segments@[i2].root_segment
                    &&& segments@[i2].weight <= i2
                } by {
                    if i2 != i {
                        assert(segments@[i2] == pre[i2]);
                    }
                }
            }
            k = k + 1;
        }
    }

    /// The final weight pass, establishing the per-edge guarantees.
    #[verifier::rlimit(100)]
    #[verifier::spinoff_prover]
    fn weight_pass_final(
        &self,
        segments: &mut Vec<Segment>,
        compat: &Vec<Vec<usize>>,
        populated: &Vec<usize>,
    )
        requires
            compat.len() == old(segments).len(),
            forall|i: int|
                0 <= i < old(segments).len() ==> (#[trigger] old(segments)@[i]).segment_number
                    == i && old(segments)@[i].weight <= i && !old(segments)@[i].root_segment,
            forall|i: int, k: int|
                #![trigger compat@[i]@[k]]
                0 <= i < old(segments).len() && 0 <= k < compat@[i]@.len() ==> compat@[i]@[k] < i,
            forall|k: int|
                0 <= k < populated.len() ==> #[trigger] populated@[k] < old(segments).len()
                    && compat@[populated@[k] as int]@.len() > 0,
            forall|k1: int, k2: int|
                0 <= k1 < k2 < populated.len() ==> populated@[k1] < populated@[k2],
        ensures
            final(segments).len() == old(segments).len(),
            forall|i: int|
                0 <= i < final(segments).len() ==> {
                    &&& (#[trigger] final(segments)@[i]).segment_number == i
                    &&& final(segments)@[i].h0 == old(segments)@[i].h0
                    &&& final(segments)@[i].h1 == old(segments)@[i].h1
                    &&& !final(segments)@[i].root_segment
                    &&& final(segments)@[i].weight <= i
                },
            weights_ok(final(segments)@, compat@, populated@),
    {
        let ghost orig = segments@;
        let mut k: usize = 0;
        while k < populated.len()
            invariant
                compat.len() == segments.len(),
                segments.len() == orig.len(),
                k <= populated.len(),
                forall|i: int|
                    0 <= i < segments.len() ==> {
                        &&& (#[trigger] segments@[i]).segment_number == i
                        &&& segments@[i].h0 == orig[i].h0
                        &&& segments@[i].h1 == orig[i].h1
                        &&& !segments@[i].root_segment
                        &&& segments@[i].weight <= i
                    },
                forall|i: int, k2: int|
                    #![trigger compat@[i]@[k2]]
                    0 <= i < segments.len() && 0 <= k2 < compat@[i]@.len() ==> compat@[i]@[k2] < i,
                forall|k2: int|
                    0 <= k2 < populated.len() ==> #[trigger] populated@[k2] < segments.len()
                        && compat@[populated@[k2] as int]@.len() > 0,
                forall|k1: int, k2: int|
                    0 <= k1 < k2 < populated.len() ==> populated@[k1] < populated@[k2],
                forall|k2: int|
                    0 <= k2 < k ==> {
                        &&& (forall|m: int|
                            0 <= m < compat@[populated@[k2] as int]@.len() ==> (
                            #[trigger] segments@[compat@[populated@[k2] as int]@[m] as int]).weight
                                + 1 <= segments@[populated@[k2] as int].weight)
                        &&& (compat@[populated@[k2] as int]@.len() > 0 ==> exists|m: int|
                            0 <= m < compat@[populated@[k2] as int]@.len() && (
                            #[trigger] segments@[compat@[populated@[k2] as int]@[m] as int]).weight
                                + 1 == segments@[populated@[k2] as int].weight)
                    },
            decreases populated.len() - k,
        {
            let i = populated[k];
            let mx = self.max_successor_weight(segments, compat, i);
            let mut seg = segments[i];
            seg.weight = mx + 1;
            let ghost pre = segments@;
            segments.set(i, seg);
            proof {
                assert forall|k2: int| 0 <= k2 < k + 1 implies {
                    &&& (forall|m: int|
                        0 <= m < compat@[populated@[k2] as int]@.len() ==> (
                        #[trigger] segments@[compat@[populated@[k2] as int]@[m] as int]).weight
                            + 1 <= segments@[populated@[k2] as int].weight)
                    &&& (compat@[populated@[k2] as int]@.len() > 0 ==> exists|m: int|
                        0 <= m < compat@[populated@[k2] as int]@.len() && (
                        #[trigger] segments@[compat@[populated@[k2] as int]@[m] as int]).weight
                            + 1 == segments@[populated@[k2] as int].weight)
                } by {
                    let i2 = populated@[k2] as int;
                    if k2 < k {
                        assert(i2 < i) by {
                            if populated@[k2] >= populated@[k as int] {
                                assert(false);
                            }
                        }
                        assert(segments@[i2] == pre[i2]);
                        assert forall|m: int|
                            0 <= m < compat@[i2]@.len() implies (#[trigger] segments@[compat@[
                        i2]@[m] as int]).weight + 1 <= segments@[i2].weight by {
                            assert(compat@[i2]@[m] < i2 < i);
                            assert(segments@[compat@[i2]@[m] as int] == pre[compat@[i2]@[
                            m] as int]);
                        }
                        if compat@[i2]@.len() > 0 {
                            let m0 = choose|m: int|
                                0 <= m < compat@[i2]@.len() && (#[trigger] pre[compat@[i2]@[
                                m] as int]).weight + 1 == pre[i2].weight;
                            assert(segments@[compat@[i2]@[m0] as int] == pre[compat@[i2]@[
                            m0] as int]);
                            assert(segments@[compat@[i2]@[m0] as int].weight + 1 == segments@[
                            i2].weight);
                        }
                    } else {
                        assert(i2 == i);
                        assert forall|m: int|
                            0 <= m < compat@[i2]@.len() implies (#[trigger] segments@[compat@[
                        i2]@[m] as int]).weight + 1 <= segments@[i2].weight by {
                            assert(compat@[i2]@[m] < i2);
                            assert(segments@[compat@[i2]@[m] as int] == pre[compat@[i2]@[
                            m] as int]);
                            assert(pre[compat@[i2]@[m] as int].weight <= mx);
                        }
                        let m0 = choose|m: int|
                            0 <= m < compat@[i as int]@.len() && (#[trigger] pre[compat@[
                            i as int]@[m] as int]).weight == mx;
                        assert(segments@[compat@[i2]@[m0] as int] == pre[compat@[i2]@[
                        m0] as int]);
                        assert(segments@[compat@[i2]@[m0] as int].weight + 1 == segments@[
                        i2].weight);
                    }
                }
            }
            k = k + 1;
        }
    }

    /// The largest successor weight of segment `i` (zero without
    /// successors).
    fn max_successor_weight(
        &self,
        segments: &Vec<Segment>,
        compat: &Vec<Vec<usize>>,
        i: usize,
    ) -> (mx: usize)
        requires
            compat.len() == segments.len(),
            i < segments.len(),
            forall|i2: int|
                0 <= i2 < segments.len() ==> (#[trigger] segments@[i2]).weight <= i2,
            forall|i2: int, k: int|
                #![trigger compat@[i2]@[k]]
                0 <= i2 < segments.len() && 0 <= k < compat@[i2]@.len() ==> compat@[i2]@[k] < i2,
        ensures
            mx < i || (mx == 0 && i == 0),
            mx <= i,
            forall|m: int|
                0 <= m < compat@[i as int]@.len() ==> (#[trigger] segments@[compat@[i as int]@[
                m] as int]).weight <= mx,
            compat@[i as int]@.len() > 0 ==> exists|m: int|
                0 <= m < compat@[i as int]@.len() && (#[trigger] segments@[compat@[i as int]@[
                m] as int]).weight == mx,
    {
        let clist_len = compat[i].len();
        let mut mx: usize = 0;
        let mut m: usize = 0;
        while m < clist_len
            invariant
                compat.len() == segments.len(),
                i < segments.len(),
                clist_len == compat@[i as int]@.len(),
                m <= clist_len,
                forall|i2: int|
                    0 <= i2 < segments.len() ==> (#[trigger] segments@[i2]).weight <= i2,
                forall|i2: int, k: int|
                    #![trigger compat@[i2]@[k]]
                    0 <= i2 < segments.len() && 0 <= k < compat@[i2]@.len() ==> compat@[i2]@[k]
                        < i2,
                mx == 0 || exists|m2: int|
                    0 <= m2 < m && (#[trigger] segments@[compat@[i as int]@[m2] as int]).weight
                        == mx,
                m > 0 ==> exists|m2: int|
                    0 <= m2 < m && (#[trigger] segments@[compat@[i as int]@[m2] as int]).weight
                        == mx,
                forall|m2: int|
                    0 <= m2 < m ==> (#[trigger] segments@[compat@[i as int]@[m2] as int]).weight
                        <= mx,
                mx == 0 || mx < i,
            decreases clist_len - m,
        {
            let j = compat[i][m];
            let w = segments[j].weight;
            if w > mx {
                mx = w;
            }
            proof {
                if segments@[compat@[i as int]@[m as int] as int].weight == mx {
                    assert(exists|m2: int|
                        0 <= m2 < m + 1 && (#[trigger] segments@[compat@[i as int]@[
                        m2] as int]).weight == mx);
                }
            }
            m = m + 1;
        }
        mx
    }
}

/// Weights and root marks can change, but an update that preserves every
/// weight preserves the weight guarantees.
proof fn lemma_weights_preserved(
    cur: Seq<Segment>,
    pre: Seq<Segment>,
    compat: Seq<Vec<usize>>,
    pop: Seq<usize>,
)
    requires
        cur.len() == pre.len(),
        compat.len() == pre.len(),
        forall|i: int| 0 <= i < cur.len() ==> (#[trigger] cur[i]).weight == pre[i].weight,
        forall|k: int| 0 <= k < pop.len() ==> #[trigger] pop[k] < pre.len(),
        forall|i: int, k: int|
            #![trigger compat[i]@[k]]
            0 <= i < pre.len() && 0 <= k < compat[i]@.len() ==> compat[i]@[k] < i,
        weights_ok(pre, compat, pop),
    ensures
        weights_ok(cur, compat, pop),
{
    assert forall|k: int| 0 <= k < pop.len() implies {
        &&& (forall|m: int|
            0 <= m < compat[pop[k] as int]@.len() ==> (#[trigger] cur[compat[pop[k] as int]@[
            m] as int]).weight + 1 <= cur[pop[k] as int].weight)
        &&& (compat[pop[k] as int]@.len() > 0 ==> exists|m: int|
            0 <= m < compat[pop[k] as int]@.len() && (#[trigger] cur[compat[pop[k] as int]@[
            m] as int]).weight + 1 == cur[pop[k] as int].weight)
    } by {
        let i = pop[k] as int;
        assert forall|m: int|
            0 <= m < compat[i]@.len() implies (#[trigger] cur[compat[i]@[m] as int]).weight + 1
            <= cur[i].weight by {
            assert(pre[compat[i]@[m] as int].weight + 1 <= pre[i].weight);
        }
        if compat[i]@.len() > 0 {
            let m0 = choose|m: int|
                0 <= m < compat[i]@.len() && (#[trigger] pre[compat[i]@[m] as int]).weight + 1
                    == pre[i].weight;
            assert(cur[compat[i]@[m0] as int].weight + 1 == cur[i].weight);
        }
    }
}


/// What one depth-first path from a segment satisfies: it starts at the
/// segment's far hit, and prefixing the segment's near hit yields a
/// strictly descending, well-formed, geometry-respecting hit chain.
pub open spec fn dfs_path_ok(g: GraphDFS, seg: Segment, path: Seq<Hit>) -> bool {
    &&& path.len() >= 1
    &&& path[0] == seg.h1
    &&& forall|q: int| 0 <= q < path.len() ==> (#[trigger] path[q]).wf()
    &&& desc_ids(seq![seg.h0] + path)
    &&& seq_geometry_ok(
        g.max_slopes.0,
        g.max_slopes.1,
        g.max_tolerance.0,
        g.max_tolerance.1,
        g.max_scatter,
        seq![seg.h0] + path,
    )
}

/// Prefixing a chain with a hit that is compatible with its head and
/// within tolerance of its first two entries keeps the track invariants.
proof fn lemma_chain_prepend(
    h: Hit,
    chain: Seq<Hit>,
    sx: Fraction,
    sy: Fraction,
    tx: Fraction,
    ty: Fraction,
    ms: Fraction,
)
    requires
        chain.len() >= 2,
        desc_ids(chain),
        seq_geometry_ok(sx, sy, tx, ty, ms, chain),
        h.id > chain[0].id,
        crate::geometry::spec_compatible(sx, sy, h, chain[0]),
        spec_tolerant(tx, ty, ms, h, chain[0], chain[1]),
    ensures
        desc_ids(seq![h] + chain),
        seq_geometry_ok(sx, sy, tx, ty, ms, seq![h] + chain),
{
    let s = seq![h] + chain;
    assert(s[0] == h);
    assert forall|k: int| 0 <= k < s.len() - 1 implies s[k].id > #[trigger] s[k + 1].id by {
        if k == 0 {
            assert(s[1] == chain[0]);
        } else {
            assert(s[k] == chain[k - 1]);
            assert(s[k + 1] == chain[k]);
            assert(chain[k - 1].id > chain[k - 1 + 1].id);
        }
    }
    assert(s[1] == chain[0]);
    assert forall|k: int| 2 <= k < s.len() implies spec_tolerant(
        tx,
        ty,
        ms,
        s[k - 2],
        s[k - 1],
        #[trigger] s[k],
    ) by {
        if k == 2 {
            assert(s[2] == chain[1]);
        } else {
            assert(s[k] == chain[k - 1]);
            assert(s[k - 1] == chain[k - 2]);
            assert(s[k - 2] == chain[k - 3]);
            assert(spec_tolerant(tx, ty, ms, chain[k - 3], chain[k - 2], chain[k - 1]));
        }
    }
}

impl GraphDFS {
    /// Depth-first enumeration of the hit chains reachable from a
    /// segment: a segment without successors yields its far hit; one with
    /// successors yields, for every successor path, the far hit followed
    /// by that path.  At least one path always comes back, and two-hit or
    /// longer paths come back from populated segments.
    #[verifier::rlimit(100)]
    #[verifier::spinoff_prover]
    pub fn dfs(&self, idx: usize, segments: &Vec<Segment>, compat: &Vec<Vec<usize>>) -> (r: Vec<
        Vec<Hit>,
    >)
        requires
            self.wf(),
            graph_ok(*self, segments@, compat@),
            idx < segments.len(),
        ensures
            r.len() >= 1,
            forall|pi: int|
                0 <= pi < r.len() ==> dfs_path_ok(*self, segments@[idx as int], (#[trigger] r@[
                pi])@),
            compat@[idx as int]@.len() > 0 ==> forall|pi: int|
                0 <= pi < r.len() ==> (#[trigger] r@[pi])@.len() >= 2,
        decreases idx,
    {
        let seg = segments[idx];
        let clist_len = compat[idx].len();
        if clist_len == 0 {
            let mut path: Vec<Hit> = Vec::new();
            path.push(seg.h1);
            let mut result: Vec<Vec<Hit>> = Vec::new();
            proof {
                assert(path@ =~= seq![seg.h1]);
                let ext = seq![seg.h0] + path@;
                assert(ext.len() == 2);
                assert(ext[0] == seg.h0);
                assert(ext[1] == seg.h1);
                assert(desc_ids(ext));
                assert(seq_geometry_ok(
                    self.max_slopes.0,
                    self.max_slopes.1,
                    self.max_tolerance.0,
                    self.max_tolerance.1,
                    self.max_scatter,
                    ext,
                ));
            }
            result.push(path);
            result
        } else {
            let mut result: Vec<Vec<Hit>> = Vec::new();
            let mut k: usize = 0;
            while k < clist_len
                invariant
                    self.wf(),
                    graph_ok(*self, segments@, compat@),
                    idx < segments.len(),
                    seg == segments@[idx as int],
                    clist_len == compat@[idx as int]@.len(),
                    clist_len > 0,
                    k <= clist_len,
                    k > 0 ==> result.len() >= 1,
                    forall|pi: int|
                        0 <= pi < result.len() ==> dfs_path_ok(
                            *self,
                            segments@[idx as int],
                            (#[trigger] result@[pi])@,
                        ) && result@[pi]@.len() >= 2,
                decreases clist_len - k,
            {
                let j = compat[idx][k];
                let sub = self.dfs(j, segments, compat);
                let mut pi: usize = 0;
                while pi < sub.len()
                    invariant
                        self.wf(),
                        graph_ok(*self, segments@, compat@),
                        idx < segments.len(),
                        seg == segments@[idx as int],
                        clist_len == compat@[idx as int]@.len(),
                        k < clist_len,
                        j == compat@[idx as int]@[k as int],
                        j < segments.len(),
                        sub.len() >= 1,
                        forall|p2: int|
                            0 <= p2 < sub.len() ==> dfs_path_ok(
                                *self,
                                segments@[j as int],
                                (#[trigger] sub@[p2])@,
                            ),
                        pi <= sub.len(),
                        k > 0 || pi > 0 ==> result.len() >= 1,
                        forall|p2: int|
                            0 <= p2 < result.len() ==> dfs_path_ok(
                                *self,
                                segments@[idx as int],
                                (#[trigger] result@[p2])@,
                            ) && result@[p2]@.len() >= 2,
                    decreases sub.len() - pi,
                {
                    let subpath = &sub[pi];
                    let mut np: Vec<Hit> = Vec::new();
                    np.push(seg.h1);
                    let mut t: usize = 0;
                    while t < subpath.len()
                        invariant
                            t <= subpath.len(),
                            subpath == &sub[pi as int],
                            pi < sub.len(),
                            np@ == seq![seg.h1] + subpath@.subrange(0, t as int),
                        decreases subpath.len() - t,
                    {
                        np.push(subpath[t]);
                        proof {
                            assert(np@ =~= seq![seg.h1] + subpath@.subrange(0, t + 1 as int));
                        }
                        t = t + 1;
                    }
                    proof {
                        assert(subpath@.subrange(0, subpath@.len() as int) =~= subpath@);
                        assert(np@ == seq![seg.h1] + subpath@);
                        // The successor's extended chain is the new path.
                        let subchain = seq![segments@[j as int].h0] + subpath@;
                        assert(segments@[j as int].h0 == seg.h1);
                        assert(subchain =~= np@);
                        assert(subchain.len() >= 2);
                        assert(subchain[0] == seg.h1);
                        assert(subchain[1] == subpath@[0]);
                        assert(subpath@[0] == segments@[j as int].h1);
                        lemma_chain_prepend(
                            seg.h0,
                            subchain,
                            self.max_slopes.0,
                            self.max_slopes.1,
                            self.max_tolerance.0,
                            self.max_tolerance.1,
                            self.max_scatter,
                        );
                        assert(seq![seg.h0] + np@ =~= seq![seg.h0] + subchain);
                        assert forall|q: int| 0 <= q < np@.len() implies (
                        #[trigger] np@[q]).wf() by {
                            if q == 0 {
                                assert(np@[q] == seg.h1);
                            } else {
                                assert(np@[q] == subpath@[q - 1]);
                            }
                        }
                    }
                    result.push(np);
                    pi = pi + 1;
                }
                k = k + 1;
            }
            result
        }
    }

    /// True when no hit of a track with more than three hits carries the
    /// id.
    pub open spec fn long_has_id(tracks: Seq<Track>, id: int) -> bool {
        exists|i: int, k: int|
            0 <= i < tracks.len() && 0 <= k < tracks[i].hits.len() && tracks[i].hits.len() > 3
                && (#[trigger] tracks[i].hits@[k]).id == id
    }

    /// A track survives pruning when it is long, or shares no hit with
    /// any long track.
    pub open spec fn keep_track(tracks: Seq<Track>, t: Track) -> bool {
        t.hits.len() > 3 || forall|k: int|
            0 <= k < t.hits.len() ==> !GraphDFS::long_has_id(tracks, (#[trigger] t.hits@[k]).id
                as int)
    }

    /// The kept tracks, in order.
    pub open spec fn prune_seq(ts: Seq<Track>, all: Seq<Track>) -> Seq<Track>
        decreases ts.len(),
    {
        if ts.len() == 0 {
            Seq::empty()
        } else {
            let rest = GraphDFS::prune_seq(ts.drop_last(), all);
            if GraphDFS::keep_track(all, ts.last()) {
                rest.push(ts.last())
            } else {
                rest
            }
        }
    }

    /// Clone and ghost killing: drops every track of at most three hits
    /// that shares a hit with a track of more than three hits.
    #[verifier::rlimit(100)]
    #[verifier::spinoff_prover]
    pub fn prune_short_tracks(&self, tracks: Vec<Track>) -> (r: Vec<Track>)
        ensures
            r@ == GraphDFS::prune_seq(tracks@, tracks@),
            forall|k: int|
                0 <= k < r.len() ==> exists|i: int|
                    0 <= i < tracks.len() && #[trigger] r@[k] == tracks@[i],
    {
        // Ids of the hits of long tracks.
        let mut used_ids: Vec<usize> = Vec::new();
        let mut i: usize = 0;
        while i < tracks.len()
            invariant
                i <= tracks.len(),
                forall|id: int|
                    crate::validator_event::seq_contains_usize(used_ids@, id) <==> exists|
                    i2: int,
                    k: int,
                |
                    0 <= i2 < i && 0 <= k < tracks@[i2].hits.len() && tracks@[i2].hits.len() > 3
                        && (#[trigger] tracks@[i2].hits@[k]).id == id,
            decreases tracks.len() - i,
        {
            let t = &tracks[i];
            if t.hits.len() > 3 {
                let mut h: usize = 0;
                while h < t.hits.len()
                    invariant
                        t == &tracks[i as int],
                        i < tracks.len(),
                        t.hits.len() > 3,
                        h <= t.hits.len(),
                        forall|id: int|
                            crate::validator_event::seq_contains_usize(used_ids@, id) <==> (
                            exists|i2: int, k: int|
                                0 <= i2 < i && 0 <= k < tracks@[i2].hits.len() && tracks@[
                                i2].hits.len() > 3 && (#[trigger] tracks@[i2].hits@[k]).id == id)
                                || (exists|k: int|
                                0 <= k < h && (#[trigger] t.hits@[k]).id == id),
                    decreases t.hits.len() - h,
                {
                    let id = t.hits[h].id;
                    let ghost pre = used_ids@;
                    if !crate::track_following::contains_usize(&used_ids, id) {
                        used_ids.push(id);
                    }
                    proof {
                        assert forall|id2: int|
                            crate::validator_event::seq_contains_usize(used_ids@, id2) <==> (
                            exists|i2: int, k: int|
                                0 <= i2 < i && 0 <= k < tracks@[i2].hits.len() && tracks@[
                                i2].hits.len() > 3 && (#[trigger] tracks@[i2].hits@[k]).id == id2)
                                || (exists|k: int|
                                0 <= k < h + 1 && (#[trigger] t.hits@[k]).id == id2) by {
                            if used_ids@ != pre {
                                crate::validator_helper::lemma_contains_push(pre, id, id2);
                            }
                            if id2 == id {
                                assert(t.hits@[h as int].id == id2);
                            }
                        }
                    }
                    h = h + 1;
                }
            }
            i = i + 1;
        }

        // Keep long tracks, and short ones whose hits are all unused.
        let ghost all = tracks@;
        let mut rest = tracks;
        let mut out: Vec<Track> = Vec::new();
        let ghost total = all.len();
        let mut i: usize = 0;
        while rest.len() > 0
            invariant
                all.len() <= usize::MAX,
                i <= all.len(),
                rest@ == all.subrange(i as int, all.len() as int),
                forall|id: int|
                    crate::validator_event::seq_contains_usize(used_ids@, id)
                        <==> GraphDFS::long_has_id(all, id),
                out@ == GraphDFS::prune_seq(all.subrange(0, i as int), all),
                forall|k: int|
                    0 <= k < out.len() ==> exists|i2: int|
                        0 <= i2 < all.len() && #[trigger] out@[k] == all[i2],
            decreases rest.len(),
        {
            proof {
                assert(rest@.len() == all.len() - i);
                assert(i < all.len());
                assert(all.subrange(0, i + 1 as int).drop_last() =~= all.subrange(0, i as int));
                assert(all.subrange(0, i + 1 as int).last() == all[i as int]);
                assert(rest@[0] == all[i as int]);
            }
            let t = rest.remove(0);
            proof {
                assert(rest@ =~= all.subrange(i + 1 as int, all.len() as int));
                assert(t == all[i as int]);
            }
            let keep: bool;
            if t.hits.len() > 3 {
                keep = true;
            } else {
                let mut shares = false;
                let mut h: usize = 0;
                while h < t.hits.len()
                    invariant
                        h <= t.hits.len(),
                        forall|id: int|
                            crate::validator_event::seq_contains_usize(used_ids@, id)
                                <==> GraphDFS::long_has_id(all, id),
                        shares <==> exists|k: int|
                            0 <= k < h && GraphDFS::long_has_id(
                                all,
                                (#[trigger] t.hits@[k]).id as int,
                            ),
                    decreases t.hits.len() - h,
                {
                    if crate::track_following::contains_usize(&used_ids, t.hits[h].id) {
                        shares = true;
                        proof {
                            assert(GraphDFS::long_has_id(all, t.hits@[h as int].id as int));
                        }
                    }
                    h = h + 1;
                }
                keep = !shares;
                proof {
                    if !shares {
                        assert forall|k: int| 0 <= k < t.hits.len() implies !GraphDFS::long_has_id(
                            all,
                            (#[trigger] t.hits@[k]).id as int,
                        ) by {}
                    }
                }
            }
            if keep {
                out.push(t);
            }
            i = i + 1;
        }
        proof {
            assert(all.subrange(0, all.len() as int) =~= all);
            assert(i as int == all.len());
        }
        out
    }

    /// Runs the engine on an event and returns the found tracks.
    ///
    /// Works on a copy of the event whose hits are reordered by x inside
    /// each module.  Every returned track has at least three hits,
    /// repeats no hit, and satisfies the engine's slope and tolerance
    /// tests along its whole hit sequence.  An event without hits, or
    /// with fewer than three modules, yields no tracks.
    #[verifier::rlimit(100)]
    #[verifier::spinoff_prover]
    pub fn solve(&self, event: &Event) -> (r: Vec<Track>)
        requires
            self.wf(),
            event.wf(),
        ensures
            forall|i: int| 0 <= i < r.len() ==> self.track_ok(#[trigger] r@[i]),
            event.hits.len() == 0 ==> r.len() == 0,
            event.modules.len() < 3 ==> r.len() == 0,
    {
        proof {
            event.lemma_wf_implies_shuffled();
        }
        let mut working = copy_event(event);
        self.order_hits(&mut working);
        let candidates = self.fill_candidates(&working);
        let (segments, _outer, compat, populated) = self.populate_segments(
            &working,
            &candidates,
        );
        let mut segs = segments;
        let ghost pre_segs = segs@;
        self.assign_weights_and_populate_roots(&mut segs, &compat, &populated);
        proof {
            assert(graph_ok(*self, segs@, compat@)) by {
                assert forall|i2: int| 0 <= i2 < segs@.len() implies {
                    &&& (#[trigger] segs@[i2]).segment_number == i2
                    &&& segs@[i2].h0.wf()
                    &&& segs@[i2].h1.wf()
                    &&& segs@[i2].h1.id < segs@[i2].h0.id
                    &&& spec_compatible(
                        self.max_slopes.0,
                        self.max_slopes.1,
                        segs@[i2].h0,
                        segs@[i2].h1,
                    )
                } by {
                    assert(segs@[i2].h0 == pre_segs[i2].h0);
                    assert(segs@[i2].h1 == pre_segs[i2].h1);
                }
                assert forall|i2: int, k: int|
                    #![trigger compat@[i2]@[k]]
                    0 <= i2 < segs@.len() && 0 <= k < compat@[i2]@.len() implies {
                    &&& compat@[i2]@[k] < i2
                    &&& segs@[compat@[i2]@[k] as int].h0.id == segs@[i2].h1.id
                    &&& segs@[compat@[i2]@[k] as int].h0 == segs@[i2].h1
                    &&& spec_tolerant(
                        self.max_tolerance.0,
                        self.max_tolerance.1,
                        self.max_scatter,
                        segs@[i2].h0,
                        segs@[i2].h1,
                        segs@[compat@[i2]@[k] as int].h1,
                    )
                } by {
                    let j = compat@[i2]@[k] as int;
                    assert(segs@[j].h0 == pre_segs[j].h0);
                    assert(segs@[j].h1 == pre_segs[j].h1);
                    assert(segs@[i2].h0 == pre_segs[i2].h0);
                    assert(segs@[i2].h1 == pre_segs[i2].h1);
                }
            }
            assert forall|i2: int|
                0 <= i2 < segs.len() && (#[trigger] segs@[i2]).root_segment implies compat@[
            i2]@.len() > 0 by {
                let k = choose|k: int|
                    0 <= k < populated@.len() && #[trigger] populated@[k] == i2;
            }
        }

        let mut tracks: Vec<Track> = Vec::new();
        let mut i: usize = 0;
        while i < segs.len()
            invariant
                self.wf(),
                graph_ok(*self, segs@, compat@),
                forall|i2: int|
                    0 <= i2 < segs.len() && (#[trigger] segs@[i2]).root_segment ==> compat@[
                    i2]@.len() > 0,
                i <= segs.len(),
                forall|k: int| 0 <= k < tracks.len() ==> self.track_ok(#[trigger] tracks@[k]),
                segs.len() == 0 ==> tracks.len() == 0,
            decreases segs.len() - i,
        {
            let seg = segs[i];
            if seg.root_segment && seg.weight >= self.minimum_root_weight {
                let paths = self.dfs(i, &segs, &compat);
                // The shortest path wins; earlier paths win ties.
                let mut best: usize = 0;
                let mut pi: usize = 1;
                while pi < paths.len()
                    invariant
                        paths.len() >= 1,
                        1 <= pi <= paths.len(),
                        best < pi,
                    decreases paths.len() - pi,
                {
                    if paths[pi].len() < paths[best].len() {
                        best = pi;
                    }
                    pi = pi + 1;
                }
                let selected = &paths[best];
                let mut track_hits: Vec<Hit> = Vec::new();
                track_hits.push(seg.h0);
                let mut t: usize = 0;
                while t < selected.len()
                    invariant
                        t <= selected.len(),
                        selected == &paths[best as int],
                        best < paths.len(),
                        track_hits@ == seq![seg.h0] + selected@.subrange(0, t as int),
                    decreases selected.len() - t,
                {
                    track_hits.push(selected[t]);
                    proof {
                        assert(track_hits@ =~= seq![seg.h0] + selected@.subrange(
                            0,
                            t + 1 as int,
                        ));
                    }
                    t = t + 1;
                }
                proof {
                    assert(selected@.subrange(0, selected@.len() as int) =~= selected@);
                    assert(track_hits@ == seq![seg.h0] + selected@);
                    assert(dfs_path_ok(*self, segs@[i as int], selected@));
                    assert(selected@.len() >= 2);
                    lemma_desc_distinct(track_hits@);
                    assert forall|q: int| 0 <= q < track_hits@.len() implies (
                    #[trigger] track_hits@[q]).wf() by {
                        if q == 0 {
                            assert(track_hits@[q] == seg.h0);
                        } else {
                            assert(track_hits@[q] == selected@[q - 1]);
                        }
                    }
                }
                let track = Track::new(track_hits);
                tracks.push(track);
            }
            i = i + 1;
        }
        proof {
            if tracks@.len() == 0 {
                assert(GraphDFS::prune_seq(tracks@, tracks@).len() == 0);
            }
        }
        if self.clone_ghost_killing {
            let ghost tracks_snap = tracks@;
            let pruned = self.prune_short_tracks(tracks);
            proof {
                assert forall|k: int| 0 <= k < pruned.len() implies self.track_ok(
                    #[trigger] pruned@[k],
                ) by {
                    let i2 = choose|i2: int|
                        0 <= i2 < tracks_snap.len() && #[trigger] pruned@[k] == tracks_snap[i2];
                    assert(self.track_ok(tracks_snap[i2]));
                }
            }
            pruned
        } else {
            tracks
        }
    }
}


} // verus!
