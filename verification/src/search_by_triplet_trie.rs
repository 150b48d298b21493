//! The triplet engine: consecutive module pairs are merged, a best-triplet
//! index is built over each merged module, and a forwarding automaton
//! sweeps the merged modules from high to low, extending seeds through the
//! index or by a direct scatter search, retiring tracks after two
//! consecutive misses.

use vstd::prelude::*;
use crate::event_model::{lemma_prefix_le, Event, Hit, Module, Track};
use crate::geometry::{calculate_scatter, spec_scatter, Fraction, Scatter};

verus! {

/// One row of a triplet-index node: continuing from the node's first hit
/// through `h1`, the best third hit is `h2` with scatter `scatter`.
#[derive(Clone, Copy, Debug)]
pub struct TripletRow {
    pub h1: Hit,
    pub h2: Hit,
    pub scatter: Scatter,
}

/// One node of the triplet index: the rows of first-pair hit `h0`.
#[derive(Clone, Debug)]
pub struct TrieNode {
    pub h0: Hit,
    pub rows: Vec<TripletRow>,
}

/// Triplet track finder.
#[derive(Clone, Copy, Debug)]
pub struct SearchByTripletTrie {
    pub max_scatter: Fraction,
    pub min_track_length: usize,
    pub min_strong_track_length: usize,
    pub allowed_missed_modules: usize,
}

/// The hit is one of the event's hits (identified by its id).
pub open spec fn is_event_hit(e: Event, h: Hit) -> bool {
    h.id < e.hits.len() && h == e.hits[h.id as int]
}

/// The id lies within merged module `m` (raw modules `2m` and `2m + 1`).
pub open spec fn in_merged(e: Event, m: int, id: int) -> bool {
    e.module_prefix_sum@[2 * m] <= id < e.module_prefix_sum@[2 * m + 2]
}

/// The invariant of a live forwarding track before the step over merged
/// index `j`: a sound track whose hits below the current append zone are
/// all flagged; a track whose last hit still sits at or above the zone
/// boundary has strictly descending ids, while one that dropped below it
/// (through a direct-search extension) stays strictly below the narrow
/// bound that keeps it clear of every later append.
pub open spec fn fwd_track_ok(
    g: SearchByTripletTrie,
    e: Event,
    flagged: Seq<usize>,
    t: Track,
    j: int,
) -> bool {
    &&& g.track_ok(e, t)
    &&& crate::track_following::desc_ids(t.hits@) || !(t.hits@.last().id
        >= e.module_prefix_sum@[2 * j - 2]) || j < 2
    &&& forall|k: int|
        0 <= k < t.hits.len() ==> (crate::validator_event::seq_contains_usize(
            flagged,
            (#[trigger] t.hits@[k]).id as int,
        ) || t.hits@[k].id >= e.module_prefix_sum@[2 * j - 2])
    &&& j >= 2 && !(t.hits@.last().id >= e.module_prefix_sum@[2 * j - 2]) ==> (
    t.hits@.last().id as int) < (if t.missed_last_module {
        e.module_prefix_sum@[j] as int
    } else {
        e.module_prefix_sum@[j - 1] as int
    })
}

/// Appending a hit whose id is smaller than the last one keeps ids
/// strictly descending.
pub proof fn lemma_desc_push_hit(s: Seq<Hit>, h: Hit)
    requires
        crate::track_following::desc_ids(s),
        s.len() >= 1,
        h.id < s.last().id,
    ensures
        crate::track_following::desc_ids(s.push(h)),
{
    let s2 = s.push(h);
    assert forall|k: int| 0 <= k < s2.len() - 1 implies s2[k].id > #[trigger] s2[k + 1].id by {
        if k + 1 < s.len() {
            assert(s2[k] == s[k]);
            assert(s2[k + 1] == s[k + 1]);
            assert(s[k].id > s[k + 1].id);
        } else {
            assert(s2[k] == s[s.len() - 1]);
            assert(s2[k + 1] == h);
        }
    }
}

/// Appending a hit whose id appears nowhere keeps the hits distinct.
pub proof fn lemma_distinct_push_hit(s: Seq<Hit>, h: Hit)
    requires
        crate::event_model::distinct_ids(s),
        forall|k: int| 0 <= k < s.len() ==> (#[trigger] s[k]).id != h.id,
    ensures
        crate::event_model::distinct_ids(s.push(h)),
{
    let s2 = s.push(h);
    assert forall|i: int, k: int| 0 <= i < k < s2.len() implies s2[i].id != s2[k].id by {
        if k < s.len() {
            assert(s2[i] == s[i]);
            assert(s2[k] == s[k]);
        } else {
            assert(s2[i] == s[i]);
            assert(s2[k] == h);
        }
    }
}

/// A forwarding-track invariant survives any growth of the flagged set.
pub proof fn lemma_fwd_flag_mono(
    g: SearchByTripletTrie,
    e: Event,
    old_flags: Seq<usize>,
    new_flags: Seq<usize>,
    t: Track,
    j: int,
)
    requires
        fwd_track_ok(g, e, old_flags, t, j),
        forall|v: int|
            crate::validator_event::seq_contains_usize(old_flags, v)
                ==> crate::validator_event::seq_contains_usize(new_flags, v),
    ensures
        fwd_track_ok(g, e, new_flags, t, j),
{
    assert forall|k: int|
        0 <= k < t.hits.len() implies (crate::validator_event::seq_contains_usize(
        new_flags,
        (#[trigger] t.hits@[k]).id as int,
    ) || t.hits@[k].id >= e.module_prefix_sum@[2 * j - 2]) by {
        if crate::validator_event::seq_contains_usize(old_flags, t.hits@[k].id as int) {
        }
    }
}

impl SearchByTripletTrie {
    pub open spec fn wf(self) -> bool {
        self.max_scatter.wf()
    }

    /// The engine's scatter limit as an exact scatter value.
    pub open spec fn scatter_limit(self) -> Scatter {
        Scatter { num: self.max_scatter.num as i128, den: self.max_scatter.den as i128 }
    }

    /// Every track this engine emits satisfies this predicate: at least
    /// three hits, all of them hits of the event, and every consecutive
    /// triple scatters below the limit.
    pub open spec fn track_ok(self, e: Event, t: Track) -> bool {
        &&& t.hits.len() >= 3
        &&& crate::event_model::distinct_ids(t.hits@)
        &&& forall|k: int| 0 <= k < t.hits.len() ==> is_event_hit(e, #[trigger] t.hits@[k])
        &&& forall|k: int|
            2 <= k < t.hits.len() ==> spec_scatter(
                t.hits@[k - 2],
                t.hits@[k - 1],
                #[trigger] t.hits@[k],
            ).spec_lt(self.scatter_limit())
    }

    /// Builds the engine; absent parameters fall back to the defaults
    /// (scatter 1/10, lengths 3 and 4, two tolerated misses).
    pub fn new(
        max_scatter: Option<Fraction>,
        min_track_length: Option<usize>,
        min_strong_track_length: Option<usize>,
        allowed_missed_modules: Option<usize>,
    ) -> (r: SearchByTripletTrie)
        requires
            max_scatter matches Some(m) ==> m.wf(),
        ensures
            r.wf(),
            r.max_scatter == (if max_scatter is Some { max_scatter->0 } else {
                Fraction { num: 1, den: 10 }
            }),
            r.min_track_length == (if min_track_length is Some { min_track_length->0 as int } else {
                3
            }),
            r.min_strong_track_length == (if min_strong_track_length is Some {
                min_strong_track_length->0 as int
            } else {
                4
            }),
            r.allowed_missed_modules == (if allowed_missed_modules is Some {
                allowed_missed_modules->0 as int
            } else {
                2
            }),
    {
        SearchByTripletTrie {
            max_scatter: match max_scatter {
                Some(m) => m,
                None => Fraction { num: 1, den: 10 },
            },
            min_track_length: match min_track_length {
                Some(v) => v,
                None => 3,
            },
            min_strong_track_length: match min_strong_track_length {
                Some(v) => v,
                None => 4,
            },
            allowed_missed_modules: match allowed_missed_modules {
                Some(v) => v,
                None => 2,
            },
        }
    }

    /// The scatter of a triplet.
    pub fn calculate_scatter(&self, h0: &Hit, h1: &Hit, h2: &Hit) -> (r: Scatter)
        requires
            h0.wf(),
            h1.wf(),
            h2.wf(),
        ensures
            r == spec_scatter(*h0, *h1, *h2),
            r.wf(),
    {
        calculate_scatter(h0, h1, h2)
    }

    /// Merges consecutive module pairs: merged module `m` covers the hit
    /// range of raw modules `2m` and `2m + 1` and keeps the first one's z
    /// values.
    pub fn merge_module_pairs(&self, ev: &Event) -> (r: Vec<Module>)
        requires
            ev.wf(),
        ensures
            r.len() == ev.modules.len() / 2,
            forall|m: int|
                0 <= m < r.len() ==> {
                    &&& (#[trigger] r@[m]).module_number == m
                    &&& r@[m].hit_start_index == ev.module_prefix_sum@[2 * m]
                    &&& r@[m].hit_end_index == ev.module_prefix_sum@[2 * m + 2]
                    &&& r@[m].z@ == ev.modules@[2 * m].z@
                    &&& r@[m].wf()
                },
    {
        let npairs = ev.modules.len() / 2;
        let mut out: Vec<Module> = Vec::new();
        let mut m: usize = 0;
        while m < npairs
            invariant
                ev.wf(),
                npairs == ev.modules.len() / 2,
                m <= npairs,
                out.len() == m,
                forall|k: int|
                    0 <= k < m ==> {
                        &&& (#[trigger] out@[k]).module_number == k
                        &&& out@[k].hit_start_index == ev.module_prefix_sum@[2 * k]
                        &&& out@[k].hit_end_index == ev.module_prefix_sum@[2 * k + 2]
                        &&& out@[k].z@ == ev.modules@[2 * k].z@
                        &&& out@[k].wf()
                    },
            decreases npairs - m,
        {
            proof {
                lemma_prefix_le(
                    ev.module_prefix_sum@,
                    2 * m as int,
                    2 * m + 1 as int,
                );
                lemma_prefix_le(
                    ev.module_prefix_sum@,
                    2 * m + 1 as int,
                    2 * m + 2 as int,
                );
                lemma_prefix_le(
                    ev.module_prefix_sum@,
                    2 * m + 2 as int,
                    ev.modules.len() as int,
                );
            }
            let start = ev.module_prefix_sum[2 * m];
            let end = ev.module_prefix_sum[2 * m + 2];
            let zs = crate::event_model::copy_i64_vec(&ev.modules[2 * m].z);
            let md = Module {
                module_number: m,
                z: zs,
                hit_start_index: start,
                hit_end_index: end,
                global_hits: crate::event_model::copy_hit_vec(&ev.hits),
            };
            out.push(md);
            m = m + 1;
        }
        out
    }
}

impl SearchByTripletTrie {
    /// Some third hit of merged module `m2` extends the pair at positions
    /// `(p0, p1)` with a scatter below the limit.
    pub open spec fn pair_has_third(self, e: Event, m2: int, p0: int, p1: int) -> bool {
        exists|p2: int|
            e.module_prefix_sum@[2 * m2] <= p2 < e.module_prefix_sum@[2 * m2 + 2]
                && spec_scatter(e.hits@[p0], e.hits@[p1], #[trigger] e.hits@[p2]).spec_lt(
                self.scatter_limit(),
            )
    }

    /// The hit at position `p0` opens a triplet: some second hit of merged
    /// module `m1` pairs with it and a third hit of merged module `m2`
    /// stays below the scatter limit.
    pub open spec fn hit_has_pair(self, e: Event, m1: int, m2: int, p0: int) -> bool {
        exists|p1: int|
            e.module_prefix_sum@[2 * m1] <= p1 < e.module_prefix_sum@[2 * m1 + 2]
                && #[trigger] self.pair_has_third(e, m2, p0, p1)
    }

    /// The node list covers every hit of merged module `j` that opens a
    /// triplet, each with at least one row.
    pub open spec fn nodes_complete(self, e: Event, nodes: Seq<TrieNode>, j: int) -> bool {
        forall|p0: int|
            e.module_prefix_sum@[2 * j] <= p0 < e.module_prefix_sum@[2 * j + 2]
                && #[trigger] self.hit_has_pair(e, j - 1, j - 2, p0) ==> exists|a: int|
                0 <= a < nodes.len() && (#[trigger] nodes[a]).h0.id == p0 && nodes[a].rows@.len()
                    > 0
    }

    /// Somewhere in the event a merged module opens a triplet under the
    /// scatter limit.
    pub open spec fn seed_exists(self, e: Event) -> bool {
        exists|j: int, p0: int|
            2 <= j < e.modules.len() / 2 && e.module_prefix_sum@[2 * j] <= p0
                < e.module_prefix_sum@[2 * j + 2] && #[trigger] self.hit_has_pair(
                e,
                j - 1,
                j - 2,
                p0,
            )
    }
}

/// One row of a node under merged index `j` is sound: both hits are
/// event hits on the expected merged modules, the recorded scatter is
/// exactly the triplet's scatter, and it lies below the limit.
pub open spec fn trie_row_ok(
    g: SearchByTripletTrie,
    e: Event,
    h0: Hit,
    row: TripletRow,
    j: int,
) -> bool {
    &&& is_event_hit(e, row.h1)
    &&& is_event_hit(e, row.h2)
    &&& in_merged(e, j - 1, row.h1.id as int)
    &&& in_merged(e, j - 2, row.h2.id as int)
    &&& row.scatter == spec_scatter(h0, row.h1, row.h2)
    &&& row.scatter.spec_lt(g.scatter_limit())
    &&& row.scatter.wf()
}

/// One node of the index under merged index `j` is sound: its key is an
/// event hit of merged module `j` and all of its rows are sound.
pub open spec fn trie_node_ok(g: SearchByTripletTrie, e: Event, node: TrieNode, j: int) -> bool {
    &&& is_event_hit(e, node.h0)
    &&& in_merged(e, j, node.h0.id as int)
    &&& forall|b: int|
        0 <= b < node.rows@.len() ==> trie_row_ok(g, e, node.h0, #[trigger] node.rows@[b], j)
}

/// The invariant of the triplet index: every present node is sound for
/// its slot.
pub open spec fn trie_ok(
    g: SearchByTripletTrie,
    e: Event,
    trie: Seq<Option<Vec<TrieNode>>>,
) -> bool {
    forall|j: int, a: int|
        #![trigger trie[j]->0@[a]]
        0 <= j < trie.len() && trie[j] is Some && 0 <= a < trie[j]->0@.len() ==> trie_node_ok(
            g,
            e,
            trie[j]->0@[a],
            j,
        )
}

impl SearchByTripletTrie {
    /// For each pair `(h0, h1)` over two merged modules, finds the third
    /// hit of a lower merged module with the least scatter; pairs whose
    /// best scatter stays under the limit become rows of the result.
    #[verifier::rlimit(100)]
    #[verifier::spinoff_prover]
    pub fn check_best_triplets(&self, event: &Event, m0: usize, m1: usize, m2: usize) -> (r: Vec<
        TrieNode,
    >)
        requires
            self.wf(),
            event.wf(),
            m1 + 1 == m0,
            m2 + 2 == m0,
            2 * m0 + 2 < event.module_prefix_sum.len(),
        ensures
            forall|a: int|
                0 <= a < r.len() ==> trie_node_ok(*self, *event, #[trigger] r@[a], m0 as int),
            self.nodes_complete(*event, r@, m0 as int),
            forall|a: int, q1: int|
                #![trigger r@[a], event.hits@[q1]]
                0 <= a < r.len() && event.module_prefix_sum@[2 * m1] <= q1
                    < event.module_prefix_sum@[2 * m1 + 2] && self.pair_has_third(
                    *event,
                    m2 as int,
                    r@[a].h0.id as int,
                    q1,
                ) ==> exists|b: int|
                    0 <= b < r@[a].rows@.len() && (#[trigger] r@[a].rows@[b]).h1.id == q1,
            forall|a: int, b: int, q: int|
                #![trigger r@[a].rows@[b], event.hits@[q]]
                0 <= a < r.len() && 0 <= b < r@[a].rows@.len() && event.module_prefix_sum@[2
                    * m2] <= q < event.module_prefix_sum@[2 * m2 + 2] ==> {
                    &&& !spec_scatter(r@[a].h0, r@[a].rows@[b].h1, event.hits@[q]).spec_lt(
                        r@[a].rows@[b].scatter,
                    )
                    &&& (q < r@[a].rows@[b].h2.id ==> spec_scatter(
                        r@[a].h0,
                        r@[a].rows@[b].h1,
                        event.hits@[q],
                    ) != r@[a].rows@[b].scatter)
                },
    {
        let s0 = event.module_prefix_sum[2 * m0];
        let e0 = event.module_prefix_sum[2 * m0 + 2];
        let s1 = event.module_prefix_sum[2 * m1];
        let e1 = event.module_prefix_sum[2 * m1 + 2];
        let s2 = event.module_prefix_sum[2 * m2];
        let e2 = event.module_prefix_sum[2 * m2 + 2];
        proof {
            lemma_prefix_le(event.module_prefix_sum@, 2 * m0 as int, 2 * m0 + 1 as int);
            lemma_prefix_le(event.module_prefix_sum@, 2 * m0 + 1 as int, 2 * m0 + 2 as int);
            lemma_prefix_le(
                event.module_prefix_sum@,
                2 * m0 + 2 as int,
                event.modules.len() as int,
            );
            lemma_prefix_le(event.module_prefix_sum@, 2 * m1 as int, 2 * m1 + 1 as int);
            lemma_prefix_le(event.module_prefix_sum@, 2 * m1 + 1 as int, 2 * m1 + 2 as int);
            lemma_prefix_le(
                event.module_prefix_sum@,
                2 * m1 + 2 as int,
                event.modules.len() as int,
            );
            lemma_prefix_le(event.module_prefix_sum@, 2 * m2 as int, 2 * m2 + 1 as int);
            lemma_prefix_le(event.module_prefix_sum@, 2 * m2 + 1 as int, 2 * m2 + 2 as int);
            lemma_prefix_le(
                event.module_prefix_sum@,
                2 * m2 + 2 as int,
                event.modules.len() as int,
            );
        }
        let mut out: Vec<TrieNode> = Vec::new();
        let mut p0: usize = s0;
        while p0 < e0
            invariant
                self.wf(),
                event.wf(),
                m1 + 1 == m0,
                m2 + 2 == m0,
                s0 <= p0 <= e0,
                e0 <= event.hits.len(),
                s1 <= e1 <= event.hits.len(),
                s2 <= e2 <= event.hits.len(),
                event.module_prefix_sum@[2 * m0 as int] == s0,
                event.module_prefix_sum@[2 * m0 + 2 as int] == e0,
                event.module_prefix_sum@[2 * m1 as int] == s1,
                event.module_prefix_sum@[2 * m1 + 2 as int] == e1,
                event.module_prefix_sum@[2 * m2 as int] == s2,
                event.module_prefix_sum@[2 * m2 + 2 as int] == e2,
                forall|a: int|
                    0 <= a < out.len() ==> trie_node_ok(*self, *event, #[trigger] out@[a], m0 as int),
                forall|q0: int|
                    s0 <= q0 < p0 && #[trigger] self.hit_has_pair(
                        *event,
                        m1 as int,
                        m2 as int,
                        q0,
                    ) ==> exists|a: int|
                        0 <= a < out.len() && (#[trigger] out@[a]).h0.id == q0
                            && out@[a].rows@.len() > 0,
                forall|a: int, q1: int|
                    #![trigger out@[a], event.hits@[q1]]
                    0 <= a < out.len() && s1 <= q1 < e1 && self.pair_has_third(
                        *event,
                        m2 as int,
                        out@[a].h0.id as int,
                        q1,
                    ) ==> exists|b: int|
                        0 <= b < out@[a].rows@.len() && (#[trigger] out@[a].rows@[b]).h1.id == q1,
                forall|a: int, b: int, q: int|
                    #![trigger out@[a].rows@[b], event.hits@[q]]
                    0 <= a < out.len() && 0 <= b < out@[a].rows@.len() && s2 <= q < e2 ==> {
                        &&& !spec_scatter(out@[a].h0, out@[a].rows@[b].h1, event.hits@[q]).spec_lt(
                            out@[a].rows@[b].scatter,
                        )
                        &&& (q < out@[a].rows@[b].h2.id ==> spec_scatter(
                            out@[a].h0,
                            out@[a].rows@[b].h1,
                            event.hits@[q],
                        ) != out@[a].rows@[b].scatter)
                    },
            decreases e0 - p0,
        {
            let h0 = event.hits[p0];
            let mut rows: Vec<TripletRow> = Vec::new();
            let mut p1: usize = s1;
            while p1 < e1
                invariant
                    self.wf(),
                    event.wf(),
                    m1 + 1 == m0,
                    m2 + 2 == m0,
                    p0 < e0 <= event.hits.len(),
                    h0 == event.hits@[p0 as int],
                    s1 <= p1 <= e1,
                    e1 <= event.hits.len(),
                    s2 <= e2 <= event.hits.len(),
                    event.module_prefix_sum@[2 * m1 as int] == s1,
                    event.module_prefix_sum@[2 * m1 + 2 as int] == e1,
                    event.module_prefix_sum@[2 * m2 as int] == s2,
                    event.module_prefix_sum@[2 * m2 + 2 as int] == e2,
                    forall|b: int|
                        0 <= b < rows@.len() ==> trie_row_ok(
                            *self,
                            *event,
                            h0,
                            #[trigger] rows@[b],
                            m0 as int,
                        ),
                    s0 <= p0,
                    event.module_prefix_sum@[2 * m0 as int] == s0,
                    forall|q1: int|
                        s1 <= q1 < p1 && #[trigger] self.pair_has_third(
                            *event,
                            m2 as int,
                            p0 as int,
                            q1,
                        ) ==> exists|b: int|
                            0 <= b < rows@.len() && (#[trigger] rows@[b]).h1.id == q1,
                    forall|b: int, q: int|
                        #![trigger rows@[b], event.hits@[q]]
                        0 <= b < rows@.len() && s2 <= q < e2 ==> {
                            &&& !spec_scatter(h0, rows@[b].h1, event.hits@[q]).spec_lt(
                                rows@[b].scatter,
                            )
                            &&& (q < rows@[b].h2.id ==> spec_scatter(h0, rows@[b].h1, event.hits@[q])
                                != rows@[b].scatter)
                        },
                decreases e1 - p1,
            {
                let h1 = event.hits[p1];
                let mut best: Option<(Hit, Scatter)> = None;
                let mut best_scatter = Scatter::from_fraction(&self.max_scatter);
                let mut p2: usize = s2;
                while p2 < e2
                    invariant
                        self.wf(),
                        event.wf(),
                        m1 + 1 == m0,
                        m2 + 2 == m0,
                        p0 < e0 <= event.hits.len(),
                        p1 < e1 <= event.hits.len(),
                        h0 == event.hits@[p0 as int],
                        h1 == event.hits@[p1 as int],
                        s2 <= p2 <= e2,
                        e2 <= event.hits.len(),
                        event.module_prefix_sum@[2 * m2 as int] == s2,
                        event.module_prefix_sum@[2 * m2 + 2 as int] == e2,
                        best_scatter.wf(),
                        best is None ==> best_scatter == Scatter::from_fraction_spec(
                            self.max_scatter,
                        ),
                        best matches Some(bs) ==> {
                            &&& is_event_hit(*event, bs.0)
                            &&& in_merged(*event, m2 as int, bs.0.id as int)
                            &&& bs.1 == spec_scatter(h0, h1, bs.0)
                            &&& bs.1 == best_scatter
                            &&& bs.1.spec_lt(self.scatter_limit())
                            &&& bs.1.wf()
                        },
                        best is None ==> forall|q: int|
                            s2 <= q < p2 ==> !spec_scatter(
                                h0,
                                h1,
                                #[trigger] event.hits@[q],
                            ).spec_lt(self.scatter_limit()),
                        best matches Some(bs) ==> {
                            &&& s2 <= bs.0.id < p2
                            &&& forall|q: int|
                                s2 <= q < p2 ==> !spec_scatter(
                                    h0,
                                    h1,
                                    #[trigger] event.hits@[q],
                                ).spec_lt(bs.1)
                            &&& forall|q: int|
                                s2 <= q < bs.0.id ==> spec_scatter(
                                    h0,
                                    h1,
                                    #[trigger] event.hits@[q],
                                ) != bs.1
                        },
                    decreases e2 - p2,
                {
                    let h2 = event.hits[p2];
                    let sc = self.calculate_scatter(&h0, &h1, &h2);
                    let ghost pre_best = best;
                    let ghost pre_bs = best_scatter;
                    if sc.lt(&best_scatter) {
                        best = Some((h2, sc));
                        best_scatter = sc;
                        proof {
                            if pre_best is Some {
                                crate::geometry::lemma_scatter_lt_trans(
                                    sc,
                                    pre_bs,
                                    self.scatter_limit(),
                                );
                            } else {
                                assert(pre_bs == self.scatter_limit());
                            }
                            // Scanned hits neither beat nor tie the new best.
                            assert forall|q: int| s2 <= q < p2 implies !spec_scatter(
                                h0,
                                h1,
                                #[trigger] event.hits@[q],
                            ).spec_lt(sc) by {
                                if spec_scatter(h0, h1, event.hits@[q]).spec_lt(sc) {
                                    crate::geometry::lemma_scatter_lt_trans(
                                        spec_scatter(h0, h1, event.hits@[q]),
                                        sc,
                                        pre_bs,
                                    );
                                }
                            }
                            assert forall|q: int| s2 <= q < p2 implies spec_scatter(
                                h0,
                                h1,
                                #[trigger] event.hits@[q],
                            ) != sc by {
                                if spec_scatter(h0, h1, event.hits@[q]) == sc {
                                    assert(spec_scatter(h0, h1, event.hits@[q]).spec_lt(pre_bs));
                                }
                            }
                            assert(h2.id == p2);
                        }
                    }
                    p2 = p2 + 1;
                }
                let ghost rows_pre = rows@;
                match best {
                    Some((h2, sc)) => {
                        rows.push(TripletRow { h1, h2, scatter: sc });
                        proof {
                            assert(h1.id == p1);
                            assert(rows@.last().h1 == h1);
                            assert forall|q1: int|
                                s1 <= q1 < p1 + 1 && #[trigger] self.pair_has_third(
                                *event,
                                m2 as int,
                                p0 as int,
                                q1,
                            ) implies exists|b: int|
                                0 <= b < rows@.len() && (#[trigger] rows@[b]).h1.id == q1 by {
                                if q1 == p1 as int {
                                    assert(rows@[rows@.len() - 1].h1.id == q1);
                                } else {
                                    let b0 = choose|b: int|
                                        0 <= b < rows_pre.len() && (#[trigger] rows_pre[b]).h1.id
                                            == q1;
                                    assert(rows@[b0] == rows_pre[b0]);
                                }
                            }
                        }
                    },
                    None => {
                        proof {
                            assert(!self.pair_has_third(
                                *event,
                                m2 as int,
                                p0 as int,
                                p1 as int,
                            )) by {
                                if self.pair_has_third(*event, m2 as int, p0 as int, p1 as int) {
                                    let q = choose|q: int|
                                        event.module_prefix_sum@[2 * (m2 as int)] <= q
                                            < event.module_prefix_sum@[2 * (m2 as int) + 2]
                                            && spec_scatter(
                                            event.hits@[p0 as int],
                                            event.hits@[p1 as int],
                                            #[trigger] event.hits@[q],
                                        ).spec_lt(self.scatter_limit());
                                    assert(!spec_scatter(h0, h1, event.hits@[q]).spec_lt(
                                        self.scatter_limit(),
                                    ));
                                }
                            }
                        }
                    },
                }
                p1 = p1 + 1;
            }
            let ghost grows = rows@;
            let ghost out_pre = out@;
            if rows.len() > 0 {
                out.push(TrieNode { h0, rows });
                proof {
                    assert(h0.id == p0);
                    assert(out@.last().h0 == h0);
                    assert(out@.last().rows@ == grows);
                    assert forall|q0: int|
                        s0 <= q0 < p0 + 1 && #[trigger] self.hit_has_pair(
                        *event,
                        m1 as int,
                        m2 as int,
                        q0,
                    ) implies exists|a: int|
                        0 <= a < out.len() && (#[trigger] out@[a]).h0.id == q0
                            && out@[a].rows@.len() > 0 by {
                        if q0 < p0 {
                            let a0 = choose|a: int|
                                0 <= a < out_pre.len() && (#[trigger] out_pre[a]).h0.id == q0
                                    && out_pre[a].rows@.len() > 0;
                            assert(out@[a0] == out_pre[a0]);
                        } else {
                            assert(out@[out.len() - 1].h0.id == q0);
                        }
                    }
                    assert forall|a: int, q1: int|
                        #![trigger out@[a], event.hits@[q1]]
                        0 <= a < out.len() && s1 <= q1 < e1 && self.pair_has_third(
                        *event,
                        m2 as int,
                        out@[a].h0.id as int,
                        q1,
                    ) implies exists|b: int|
                        0 <= b < out@[a].rows@.len() && (#[trigger] out@[a].rows@[b]).h1.id
                            == q1 by {
                        if a < out.len() - 1 {
                            assert(out@[a] == out_pre[a]);
                        } else {
                            assert(out@[a].h0.id == p0);
                            assert(self.pair_has_third(*event, m2 as int, p0 as int, q1));
                            assert(out@[a].rows@ == grows);
                        }
                    }
                    assert forall|a: int, b: int, q: int|
                        #![trigger out@[a].rows@[b], event.hits@[q]]
                        0 <= a < out.len() && 0 <= b < out@[a].rows@.len() && s2 <= q
                            < e2 implies {
                        &&& !spec_scatter(out@[a].h0, out@[a].rows@[b].h1, event.hits@[q]).spec_lt(
                            out@[a].rows@[b].scatter,
                        )
                        &&& (q < out@[a].rows@[b].h2.id ==> spec_scatter(
                            out@[a].h0,
                            out@[a].rows@[b].h1,
                            event.hits@[q],
                        ) != out@[a].rows@[b].scatter)
                    } by {
                        if a < out.len() - 1 {
                            assert(out@[a] == out_pre[a]);
                        } else {
                            assert(out@[a].rows@ == grows);
                            assert(out@[a].h0 == h0);
                        }
                    }
                }
            } else {
                proof {
                    assert(!self.hit_has_pair(*event, m1 as int, m2 as int, p0 as int)) by {
                        if self.hit_has_pair(*event, m1 as int, m2 as int, p0 as int) {
                            let q1 = choose|q1: int|
                                event.module_prefix_sum@[2 * (m1 as int)] <= q1
                                    < event.module_prefix_sum@[2 * (m1 as int) + 2]
                                    && #[trigger] self.pair_has_third(
                                    *event,
                                    m2 as int,
                                    p0 as int,
                                    q1,
                                );
                            assert(exists|b: int|
                                0 <= b < grows.len() && (#[trigger] grows[b]).h1.id == q1);
                        }
                    }
                    assert forall|q0: int|
                        s0 <= q0 < p0 + 1 && #[trigger] self.hit_has_pair(
                        *event,
                        m1 as int,
                        m2 as int,
                        q0,
                    ) implies exists|a: int|
                        0 <= a < out.len() && (#[trigger] out@[a]).h0.id == q0
                            && out@[a].rows@.len() > 0 by {
                        assert(q0 != p0);
                    }
                }
            }
            p0 = p0 + 1;
        }
        proof {
            assert(self.nodes_complete(*event, out@, m0 as int)) by {
                assert forall|q0: int|
                    event.module_prefix_sum@[2 * (m0 as int)] <= q0 < event.module_prefix_sum@[2
                        * (m0 as int) + 2] && #[trigger] self.hit_has_pair(
                    *event,
                    m0 as int - 1,
                    m0 as int - 2,
                    q0,
                ) implies exists|a: int|
                    0 <= a < out@.len() && (#[trigger] out@[a]).h0.id == q0
                        && out@[a].rows@.len() > 0 by {
                    assert(self.hit_has_pair(*event, m1 as int, m2 as int, q0));
                }
            }
        }
        out
    }
}

impl Scatter {
    /// The value `from_fraction` returns.
    pub open spec fn from_fraction_spec(f: Fraction) -> Scatter {
        Scatter { num: f.num as i128, den: f.den as i128 }
    }
}

/// Finds the row under keys `(a_id, b_id)`: the first node whose first
/// hit has id `a_id`, then its first row whose second hit has id `b_id`.
fn trie_find(nodes: &Vec<TrieNode>, a_id: usize, b_id: usize) -> (r: Option<(Hit, Scatter)>)
    ensures
        r matches Some(hs) ==> exists|a: int, b: int|
            #![trigger nodes@[a].rows@[b]]
            0 <= a < nodes.len() && 0 <= b < nodes@[a].rows@.len() && nodes@[a].h0.id == a_id
                && nodes@[a].rows@[b].h1.id == b_id && hs.0 == nodes@[a].rows@[b].h2 && hs.1
                == nodes@[a].rows@[b].scatter,
{
    let mut a: usize = 0;
    while a < nodes.len()
        invariant
            a <= nodes.len(),
        decreases nodes.len() - a,
    {
        if nodes[a].h0.id == a_id {
            let rows = &nodes[a].rows;
            let mut b: usize = 0;
            while b < rows.len()
                invariant
                    b <= rows.len(),
                    a < nodes.len(),
                    rows == &nodes[a as int].rows,
                    nodes@[a as int].h0.id == a_id,
                decreases rows.len() - b,
            {
                if rows[b].h1.id == b_id {
                    return Some((rows[b].h2, rows[b].scatter));
                }
                b = b + 1;
            }
            return None;
        }
        a = a + 1;
    }
    None
}

impl SearchByTripletTrie {
    /// Builds the triplet index: for every merged module index from the
    /// top down to two, the best triplets over it and the two merged
    /// modules below it.
    pub fn generate_compatible_triplets(&self, event: &Event) -> (r: Vec<Option<Vec<TrieNode>>>)
        requires
            self.wf(),
            event.wf(),
        ensures
            r.len() == event.modules.len() / 2,
            trie_ok(*self, *event, r@),
            event.modules.len() / 2 >= 3 ==> forall|j: int|
                2 <= j < event.modules.len() / 2 ==> (#[trigger] r@[j]) is Some
                    && self.nodes_complete(*event, r@[j]->0@, j),
    {
        let npairs = event.modules.len() / 2;
        let mut trie: Vec<Option<Vec<TrieNode>>> = Vec::new();
        let mut j: usize = 0;
        while j < npairs
            invariant
                j <= npairs,
                trie.len() == j,
                forall|k: int| 0 <= k < j ==> (#[trigger] trie@[k]) is None,
            decreases npairs - j,
        {
            trie.push(None);
            j = j + 1;
        }
        if npairs < 3 {
            return trie;
        }
        let mut step: usize = 0;
        while step < npairs - 2
            invariant
                self.wf(),
                event.wf(),
                npairs == event.modules.len() / 2,
                npairs >= 3,
                step <= npairs - 2,
                trie.len() == npairs,
                trie_ok(*self, *event, trie@),
                forall|j2: int|
                    npairs - 1 - step < j2 <= npairs - 1 ==> (#[trigger] trie@[j2]) is Some
                        && self.nodes_complete(*event, trie@[j2]->0@, j2),
            decreases npairs - 2 - step,
        {
            let j = npairs - 1 - step;
            let nodes = self.check_best_triplets(event, j, j - 1, j - 2);
            let ghost gnodes = nodes@;
            let ghost pre = trie@;
            trie.set(j, Some(nodes));
            proof {
                lemma_trie_update(*self, *event, pre, trie@, gnodes, j as int);
                assert forall|j2: int|
                    npairs - 1 - (step + 1) < j2 <= npairs - 1 implies (#[trigger] trie@[j2]) is Some
                        && self.nodes_complete(*event, trie@[j2]->0@, j2) by {
                    if j2 != j {
                        assert(trie@[j2] == pre[j2]);
                    } else {
                        assert(trie@[j2]->0@ == gnodes);
                    }
                }
            }
            step = step + 1;
        }
        trie
    }

    /// Runs the engine on an event and returns the found tracks.
    ///
    /// Every returned track has at least three hits, all of them hits of
    /// the event, none repeated, and every consecutive hit triple
    /// scatters below the engine's limit.  An event without hits, or
    /// with fewer than six modules (fewer than three merged pairs),
    /// yields no tracks.
    #[verifier::rlimit(100)]
    #[verifier::spinoff_prover]
    pub fn solve(&self, event: &Event) -> (r: Vec<Track>)
        requires
            self.wf(),
            event.wf(),
        ensures
            forall|i: int| 0 <= i < r.len() ==> self.track_ok(*event, #[trigger] r@[i]),
            event.hits.len() == 0 ==> r.len() == 0,
            event.modules.len() < 6 ==> r.len() == 0,
            self.min_strong_track_length <= 4 && self.seed_exists(*event) ==> r.len() > 0,
    {
        let trie = self.generate_compatible_triplets(event);
        let npairs = event.modules.len() / 2;
        let mut flagged: Vec<usize> = Vec::new();
        let mut forwarding: Vec<Track> = Vec::new();
        let mut final_tracks: Vec<Track> = Vec::new();
        let mut weak_tracks: Vec<Track> = Vec::new();
        if npairs < 3 {
            return final_tracks;
        }

        let mut step: usize = 0;
        while step < npairs - 2
            invariant
                self.wf(),
                event.wf(),
                npairs == event.modules.len() / 2,
                npairs >= 3,
                trie.len() == npairs,
                trie_ok(*self, *event, trie@),
                forall|j2: int|
                    2 <= j2 < npairs ==> (#[trigger] trie@[j2]) is Some && self.nodes_complete(
                        *event,
                        trie@[j2]->0@,
                        j2,
                    ),
                step <= npairs - 2,
                forall|i: int|
                    0 <= i < forwarding.len() ==> fwd_track_ok(
                        *self,
                        *event,
                        flagged@,
                        #[trigger] forwarding@[i],
                        npairs - 1 - step,
                    ),
                forall|i: int|
                    0 <= i < final_tracks.len() ==> self.track_ok(
                        *event,
                        #[trigger] final_tracks@[i],
                    ),
                forall|i: int|
                    0 <= i < weak_tracks.len() ==> self.track_ok(
                        *event,
                        #[trigger] weak_tracks@[i],
                    ),
                forwarding.len() == 0 && final_tracks.len() == 0 && weak_tracks.len() == 0
                    ==> flagged@.len() == 0,
                forwarding.len() == 0 && final_tracks.len() == 0 && weak_tracks.len() == 0
                    ==> forall|j2: int, q0: int|
                    npairs - 1 - step < j2 <= npairs - 1 && event.module_prefix_sum@[2 * j2]
                        <= q0 < event.module_prefix_sum@[2 * j2 + 2]
                        ==> !#[trigger] self.hit_has_pair(*event, j2 - 1, j2 - 2, q0),
                self.min_strong_track_length <= 4 && flagged@.len() > 0 ==> final_tracks.len()
                    > 0 || has_strong(*self, forwarding@),
            decreases npairs - 2 - step,
        {
            let j = npairs - 1 - step;
            let ghost had_any = forwarding.len() > 0 || final_tracks.len() > 0
                || weak_tracks.len() > 0;
            let mut next: Vec<Track> = Vec::new();
            while forwarding.len() > 0
                invariant
                    self.wf(),
                    event.wf(),
                    npairs == event.modules.len() / 2,
                    npairs >= 3,
                    trie.len() == npairs,
                    trie_ok(*self, *event, trie@),
                    2 <= j < npairs,
                    forall|i: int|
                        0 <= i < forwarding.len() ==> fwd_track_ok(
                            *self,
                            *event,
                            flagged@,
                            #[trigger] forwarding@[i],
                            j as int,
                        ),
                    forall|i: int|
                        0 <= i < next.len() ==> fwd_track_ok(
                            *self,
                            *event,
                            flagged@,
                            #[trigger] next@[i],
                            j - 1,
                        ),
                    forall|i: int|
                        0 <= i < final_tracks.len() ==> self.track_ok(
                            *event,
                            #[trigger] final_tracks@[i],
                        ),
                    forall|i: int|
                        0 <= i < weak_tracks.len() ==> self.track_ok(
                            *event,
                            #[trigger] weak_tracks@[i],
                        ),
                    !had_any ==> forwarding.len() == 0 && next.len() == 0 && final_tracks.len()
                        == 0 && weak_tracks.len() == 0 && flagged@.len() == 0,
                    had_any ==> forwarding.len() + next.len() + final_tracks.len()
                        + weak_tracks.len() > 0,
                    self.min_strong_track_length <= 4 && flagged@.len() > 0
                        ==> final_tracks.len() > 0 || has_strong(*self, forwarding@)
                        || has_strong(*self, next@),
                decreases forwarding.len(),
            {
                let ghost pre_fwd = forwarding@;
                let mut t = forwarding.remove(0);
                let ghost t0 = pre_fwd[0];
                proof {
                    assert(t == t0);
                    assert(fwd_track_ok(*self, *event, flagged@, t0, j as int));
                    assert(2 * j < event.module_prefix_sum@.len());
                    assert(forwarding@ =~= pre_fwd.subrange(1, pre_fwd.len() as int));
                    if has_strong(*self, pre_fwd) {
                        lemma_strong_after_remove(*self, pre_fwd, forwarding@);
                    }
                }
                let n = t.hits.len();
                let a = t.hits[n - 2];
                let b = t.hits[n - 1];
                let prev_missed = t.missed_last_module;
                proof {
                    assert(is_event_hit(*event, t.hits@[n - 2]));
                    assert(is_event_hit(*event, t.hits@[n - 1]));
                }

                // First branch: extend through the precomputed index.
                let from_index: Option<(Hit, Scatter)> = match &trie[j] {
                    Some(nodes) => trie_find(nodes, a.id, b.id),
                    None => None,
                };
                if let Some((h2, _sc)) = from_index {
                    let ghost flags0 = flagged@;
                    proof {
                        lemma_index_hit(*self, *event, trie@, j as int, a, b, h2, _sc);
                    }
                    t.add_hit(h2);
                    flag_hit(&mut flagged, h2.id);
                    if self.min_strong_track_length >= 1 && t.hits.len()
                        >= self.min_strong_track_length {
                        flag_first(&mut flagged, &t, self.min_strong_track_length - 1);
                    }
                    t.missed_penultimate_module = prev_missed;
                    t.missed_last_module = false;
                    proof {
                        assert forall|v: int|
                            crate::validator_event::seq_contains_usize(flags0, v)
                                implies crate::validator_event::seq_contains_usize(
                            flagged@,
                            v,
                        ) by {}
                        lemma_branch_index_ok(
                            *self,
                            *event,
                            flags0,
                            flagged@,
                            t0,
                            t,
                            h2,
                            j as int,
                        );
                        restore_flag_invariants(
                            *self,
                            *event,
                            flags0,
                            flagged@,
                            forwarding@,
                            next@,
                            j as int,
                        );
                    }
                    let ghost pre_next = next@;
                    next.push(t);
                    proof {
                        assert(next@[next@.len() - 1].hits.len() == t0.hits@.len() + 1);
                        if next@[next@.len() - 1].hits.len() >= self.min_strong_track_length {
                            lemma_strong_last(*self, next@);
                        }
                        if has_strong(*self, pre_next) {
                            lemma_strong_extend(*self, pre_next, next@);
                        }
                    }
                } else {
                    // Second branch: search the module below directly.
                    let mr: usize = if j >= 3 {
                        j - 3
                    } else {
                        0
                    };
                    proof {
                        lemma_prefix_le(event.module_prefix_sum@, mr as int, mr + 1 as int);
                        lemma_prefix_le(
                            event.module_prefix_sum@,
                            mr + 1 as int,
                            event.modules.len() as int,
                        );
                    }
                    let rs = event.module_prefix_sum[mr];
                    let re = event.module_prefix_sum[mr + 1];
                    let found = self.best_unflagged_extension(event, &flagged, a, b, rs, re);
                    match found {
                        Some((c, _sc2)) => {
                            let ghost flags0 = flagged@;
                            t.add_hit(c);
                            flag_hit(&mut flagged, c.id);
                            if self.min_strong_track_length >= 1 && t.hits.len()
                                >= self.min_strong_track_length {
                                flag_first(&mut flagged, &t, self.min_strong_track_length - 1);
                            }
                            t.missed_penultimate_module = prev_missed;
                            t.missed_last_module = false;
                            proof {
                                assert forall|v: int|
                                    crate::validator_event::seq_contains_usize(flags0, v)
                                        implies crate::validator_event::seq_contains_usize(
                                    flagged@,
                                    v,
                                ) by {}
                                lemma_branch_search_ok(
                                    *self,
                                    *event,
                                    flags0,
                                    flagged@,
                                    t0,
                                    t,
                                    c,
                                    j as int,
                                    mr as int,
                                );
                                restore_flag_invariants(
                                    *self,
                                    *event,
                                    flags0,
                                    flagged@,
                                    forwarding@,
                                    next@,
                                    j as int,
                                );
                            }
                            let ghost pre_next = next@;
                            next.push(t);
                            proof {
                                assert(next@[next@.len() - 1].hits.len() == t0.hits@.len() + 1);
                                if next@[next@.len() - 1].hits.len()
                                    >= self.min_strong_track_length {
                                    lemma_strong_last(*self, next@);
                                }
                                if has_strong(*self, pre_next) {
                                    lemma_strong_extend(*self, pre_next, next@);
                                }
                            }
                        },
                        None => {
                            // Third branch: a miss; two consecutive misses
                            // retire the track.
                            t.missed_penultimate_module = prev_missed;
                            t.missed_last_module = true;
                            if prev_missed {
                                if t.hits.len() >= self.min_strong_track_length {
                                    final_tracks.push(t);
                                } else {
                                    weak_tracks.push(t);
                                }
                            } else {
                                proof {
                                    lemma_miss_ok(*self, *event, flagged@, t0, t, j as int);
                                }
                                let ghost pre_next = next@;
                                next.push(t);
                                proof {
                                    if next@[next@.len() - 1].hits.len()
                                        >= self.min_strong_track_length {
                                        lemma_strong_last(*self, next@);
                                    }
                                    if has_strong(*self, pre_next) {
                                        lemma_strong_extend(*self, pre_next, next@);
                                    }
                                }
                            }
                        },
                    }
                }
            }
            forwarding = next;

            // Seeding: the best wholly-unflagged triplet of each index
            // node opens a new track.
            match &trie[j] {
                Some(nodes) => {
                    proof {
                        assert forall|a: int|
                            0 <= a < nodes@.len() implies trie_node_ok(
                            *self,
                            *event,
                            #[trigger] nodes@[a],
                            j as int,
                        ) by {
                            assert(trie@[j as int]->0@[a] == nodes@[a]);
                        }
                    }
                    let ghost fwd_before = forwarding@;
                    self.seed_tracks(event, nodes, &flagged, &mut forwarding, j);
                    proof {
                        if has_strong(*self, fwd_before) {
                            lemma_strong_extend(*self, fwd_before, forwarding@);
                        }
                        if forwarding.len() == 0 && final_tracks.len() == 0
                            && weak_tracks.len() == 0 {
                            assert(flagged@.len() == 0);
                            assert(self.nodes_complete(*event, nodes@, j as int));
                            assert forall|a: int|
                                0 <= a < nodes@.len() implies (#[trigger] nodes@[
                            a]).rows@.len() == 0 by {
                                if nodes@[a].rows@.len() > 0 {
                                    assert(exists|a2: int|
                                        0 <= a2 < nodes@.len() && (#[trigger] nodes@[
                                        a2]).rows@.len() > 0);
                                    assert(forwarding.len() > 0);
                                }
                            }
                            lemma_module_without_seeds(*self, *event, nodes@, j as int);
                            assert forall|j2: int, q0: int|
                                npairs - 1 - (step + 1) < j2 <= npairs - 1
                                    && event.module_prefix_sum@[2 * j2] <= q0
                                    < event.module_prefix_sum@[2 * j2 + 2]
                                    implies !#[trigger] self.hit_has_pair(
                                *event,
                                j2 - 1,
                                j2 - 2,
                                q0,
                            ) by {
                                if j2 == j as int {
                                    assert(!self.hit_has_pair(
                                        *event,
                                        j as int - 1,
                                        j as int - 2,
                                        q0,
                                    ));
                                }
                            }
                        }
                    }
                },
                None => {
                    proof {
                        assert(trie@[j as int] is Some);
                    }
                },
            }
            step = step + 1;
        }

        // Consolidation: remaining forwarding tracks retire by length.
        proof {
            if forwarding.len() == 0 && final_tracks.len() == 0 && weak_tracks.len() == 0 {
                lemma_no_seed_anywhere(*self, *event);
            }
        }
        while forwarding.len() > 0
            invariant
                self.wf(),
                event.wf(),
                forall|i: int|
                    0 <= i < forwarding.len() ==> fwd_track_ok(
                        *self,
                        *event,
                        flagged@,
                        #[trigger] forwarding@[i],
                        1,
                    ),
                forall|i: int|
                    0 <= i < final_tracks.len() ==> self.track_ok(
                        *event,
                        #[trigger] final_tracks@[i],
                    ),
                forall|i: int|
                    0 <= i < weak_tracks.len() ==> self.track_ok(
                        *event,
                        #[trigger] weak_tracks@[i],
                    ),
                self.min_strong_track_length <= 4 && self.seed_exists(*event)
                    ==> forwarding.len() > 0 || final_tracks.len() > 0 || weak_tracks.len() > 0,
                self.min_strong_track_length <= 4 && flagged@.len() > 0 ==> final_tracks.len()
                    > 0 || has_strong(*self, forwarding@),
            decreases forwarding.len(),
        {
            let ghost pre_fwd = forwarding@;
            let t = forwarding.remove(0);
            proof {
                assert(forwarding@ =~= pre_fwd.subrange(1, pre_fwd.len() as int));
                if has_strong(*self, pre_fwd) {
                    lemma_strong_after_remove(*self, pre_fwd, forwarding@);
                }
            }
            if t.hits.len() >= self.min_strong_track_length {
                final_tracks.push(t);
            } else {
                weak_tracks.push(t);
            }
        }

        // Weak tracks are admitted only when their first three hits are
        // all unflagged.
        while weak_tracks.len() > 0
            invariant
                self.wf(),
                event.wf(),
                forall|i: int|
                    0 <= i < final_tracks.len() ==> self.track_ok(
                        *event,
                        #[trigger] final_tracks@[i],
                    ),
                forall|i: int|
                    0 <= i < weak_tracks.len() ==> self.track_ok(
                        *event,
                        #[trigger] weak_tracks@[i],
                    ),
                self.min_strong_track_length <= 4 && self.seed_exists(*event)
                    ==> final_tracks.len() > 0 || weak_tracks.len() > 0,
                self.min_strong_track_length <= 4 && flagged@.len() > 0
                    ==> final_tracks.len() > 0,
            decreases weak_tracks.len(),
        {
            let t = weak_tracks.remove(0);
            if !crate::track_following::contains_usize(&flagged, t.hits[0].id)
                && !crate::track_following::contains_usize(&flagged, t.hits[1].id)
                && !crate::track_following::contains_usize(&flagged, t.hits[2].id) {
                final_tracks.push(t);
            }
        }
        proof {
            if event.hits.len() == 0 && final_tracks.len() > 0 {
                assert(self.track_ok(*event, final_tracks@[0]));
                assert(is_event_hit(*event, final_tracks@[0].hits@[0]));
            }
        }
        final_tracks
    }
}

/// Some track of the list has reached the strong length.
pub open spec fn has_strong(g: SearchByTripletTrie, ts: Seq<Track>) -> bool {
    exists|i: int| 0 <= i < ts.len() && (#[trigger] ts[i]).hits.len() >= g.min_strong_track_length
}

/// Dropping the head of a track list keeps a strong track, unless the
/// head was the only one.
proof fn lemma_strong_after_remove(g: SearchByTripletTrie, pre: Seq<Track>, cur: Seq<Track>)
    requires
        pre.len() > 0,
        cur =~= pre.subrange(1, pre.len() as int),
        has_strong(g, pre),
    ensures
        pre[0].hits.len() >= g.min_strong_track_length || has_strong(g, cur),
{
    let wi = choose|i: int|
        0 <= i < pre.len() && (#[trigger] pre[i]).hits.len() >= g.min_strong_track_length;
    if wi > 0 {
        assert(cur[wi - 1] == pre[wi]);
    }
}

/// A list whose last track is strong has a strong track.
proof fn lemma_strong_last(g: SearchByTripletTrie, ts: Seq<Track>)
    requires
        ts.len() > 0,
        ts[ts.len() - 1].hits.len() >= g.min_strong_track_length,
    ensures
        has_strong(g, ts),
{
}

/// A strong track stays in place when the list only grows at the end.
proof fn lemma_strong_extend(g: SearchByTripletTrie, pre: Seq<Track>, cur: Seq<Track>)
    requires
        cur.len() >= pre.len(),
        forall|i: int| 0 <= i < pre.len() ==> cur[i] == pre[i],
        has_strong(g, pre),
    ensures
        has_strong(g, cur),
{
    let wi = choose|i: int|
        0 <= i < pre.len() && (#[trigger] pre[i]).hits.len() >= g.min_strong_track_length;
    assert(cur[wi] == pre[wi]);
}

/// With a complete node list in which every node is empty, no hit of the
/// merged module opens a triplet.
proof fn lemma_module_without_seeds(
    g: SearchByTripletTrie,
    e: Event,
    nodes: Seq<TrieNode>,
    j: int,
)
    requires
        g.nodes_complete(e, nodes, j),
        forall|a: int| 0 <= a < nodes.len() ==> (#[trigger] nodes[a]).rows@.len() == 0,
    ensures
        forall|q0: int|
            e.module_prefix_sum@[2 * j] <= q0 < e.module_prefix_sum@[2 * j + 2]
                ==> !#[trigger] g.hit_has_pair(e, j - 1, j - 2, q0),
{
    assert forall|q0: int|
        e.module_prefix_sum@[2 * j] <= q0 < e.module_prefix_sum@[2 * j + 2]
            implies !#[trigger] g.hit_has_pair(e, j - 1, j - 2, q0) by {
        if g.hit_has_pair(e, j - 1, j - 2, q0) {
            let a0 = choose|a: int|
                0 <= a < nodes.len() && (#[trigger] nodes[a]).h0.id == q0 && nodes[a].rows@.len()
                    > 0;
            assert(nodes[a0].rows@.len() == 0);
        }
    }
}

/// An event in which no merged module opens a triplet carries no seed.
proof fn lemma_no_seed_anywhere(g: SearchByTripletTrie, e: Event)
    requires
        forall|j2: int, q0: int|
            2 <= j2 < e.modules.len() / 2 && e.module_prefix_sum@[2 * j2] <= q0
                < e.module_prefix_sum@[2 * j2 + 2] ==> !#[trigger] g.hit_has_pair(
                e,
                j2 - 1,
                j2 - 2,
                q0,
            ),
    ensures
        !g.seed_exists(e),
{
    if g.seed_exists(e) {
        let (js, q0) = choose|js: int, q0: int|
            2 <= js < e.modules.len() / 2 && e.module_prefix_sum@[2 * js] <= q0
                < e.module_prefix_sum@[2 * js + 2] && #[trigger] g.hit_has_pair(
                e,
                js - 1,
                js - 2,
                q0,
            );
        assert(!g.hit_has_pair(e, js - 1, js - 2, q0));
    }
}

/// After the flagged set grows, every live track keeps its invariant.
proof fn restore_flag_invariants(
    g: SearchByTripletTrie,
    e: Event,
    flags0: Seq<usize>,
    flags1: Seq<usize>,
    forwarding: Seq<Track>,
    next: Seq<Track>,
    j: int,
)
    requires
        forall|v: int|
            crate::validator_event::seq_contains_usize(flags0, v)
                ==> crate::validator_event::seq_contains_usize(flags1, v),
        forall|i: int|
            0 <= i < forwarding.len() ==> fwd_track_ok(g, e, flags0, #[trigger] forwarding[i], j),
        forall|i: int| 0 <= i < next.len() ==> fwd_track_ok(g, e, flags0, #[trigger] next[i], j - 1),
    ensures
        forall|i: int|
            0 <= i < forwarding.len() ==> fwd_track_ok(g, e, flags1, #[trigger] forwarding[i], j),
        forall|i: int| 0 <= i < next.len() ==> fwd_track_ok(g, e, flags1, #[trigger] next[i], j - 1),
{
    assert forall|i: int|
        0 <= i < forwarding.len() implies fwd_track_ok(g, e, flags1, #[trigger] forwarding[i], j) by {
        lemma_fwd_flag_mono(g, e, flags0, flags1, forwarding[i], j);
    }
    assert forall|i: int|
        0 <= i < next.len() implies fwd_track_ok(g, e, flags1, #[trigger] next[i], j - 1) by {
        lemma_fwd_flag_mono(g, e, flags0, flags1, next[i], j - 1);
    }
}

/// Extending a track through the index keeps the forwarding invariant:
/// the matched key pins the last hit to merged module `j - 1`, so the
/// track is descending, and the appended hit comes from merged module
/// `j - 2` below it.
#[verifier::rlimit(100)]
#[verifier::spinoff_prover]
proof fn lemma_branch_index_ok(
    g: SearchByTripletTrie,
    e: Event,
    flags0: Seq<usize>,
    flags1: Seq<usize>,
    t0: Track,
    t: Track,
    h2: Hit,
    j: int,
)
    requires
        e.wf(),
        2 <= j,
        2 * j < e.module_prefix_sum@.len(),
        fwd_track_ok(g, e, flags0, t0, j),
        t.hits@ == t0.hits@.push(h2),
        !t.missed_last_module,
        in_merged(e, j - 1, t0.hits@.last().id as int),
        in_merged(e, j - 2, h2.id as int),
        is_event_hit(e, h2),
        spec_scatter(t0.hits@[t0.hits@.len() - 2], t0.hits@[t0.hits@.len() - 1], h2).spec_lt(
            g.scatter_limit(),
        ),
        forall|v: int|
            crate::validator_event::seq_contains_usize(flags0, v)
                ==> crate::validator_event::seq_contains_usize(flags1, v),
        crate::validator_event::seq_contains_usize(flags1, h2.id as int),
    ensures
        fwd_track_ok(g, e, flags1, t, j - 1),
{
    let pre_hits = t0.hits@;
    lemma_prefix_le(e.module_prefix_sum@, 2 * j - 4, 2 * j - 2);
    assert(t0.hits@.last().id >= e.module_prefix_sum@[2 * j - 2]);
    assert(crate::track_following::desc_ids(pre_hits));
    assert(h2.id < e.module_prefix_sum@[2 * j - 2]);
    lemma_desc_push_hit(pre_hits, h2);
    crate::track_following::lemma_desc_distinct(pre_hits.push(h2));
    lemma_track_extend(
        g,
        e,
        pre_hits,
        pre_hits[pre_hits.len() - 2],
        pre_hits[pre_hits.len() - 1],
        h2,
    );
    assert forall|k: int|
        0 <= k < t.hits.len() implies (crate::validator_event::seq_contains_usize(
        flags1,
        (#[trigger] t.hits@[k]).id as int,
    ) || t.hits@[k].id >= e.module_prefix_sum@[2 * (j - 1) - 2]) by {
        if k < pre_hits.len() {
            assert(t.hits@[k] == pre_hits[k]);
        } else {
            assert(t.hits@[k] == h2);
        }
    }
    assert(t.hits@.last() == h2);
    assert(h2.id >= e.module_prefix_sum@[2 * (j - 1) - 2]);
}

/// Extending a track by the direct search keeps the forwarding
/// invariant: the found hit is unflagged and sits strictly below every
/// hit of the track, and the track drops into the low mode.
#[verifier::rlimit(100)]
#[verifier::spinoff_prover]
proof fn lemma_branch_search_ok(
    g: SearchByTripletTrie,
    e: Event,
    flags0: Seq<usize>,
    flags1: Seq<usize>,
    t0: Track,
    t: Track,
    c: Hit,
    j: int,
    mr: int,
)
    requires
        e.wf(),
        2 <= j,
        2 * j < e.module_prefix_sum@.len(),
        mr == if j >= 3 {
            j - 3
        } else {
            0
        },
        fwd_track_ok(g, e, flags0, t0, j),
        t.hits@ == t0.hits@.push(c),
        !t.missed_last_module,
        is_event_hit(e, c),
        (c.id as int) < e.module_prefix_sum@[mr + 1] as int,
        !crate::validator_event::seq_contains_usize(flags0, c.id as int),
        spec_scatter(t0.hits@[t0.hits@.len() - 2], t0.hits@[t0.hits@.len() - 1], c).spec_lt(
            g.scatter_limit(),
        ),
        forall|v: int|
            crate::validator_event::seq_contains_usize(flags0, v)
                ==> crate::validator_event::seq_contains_usize(flags1, v),
        crate::validator_event::seq_contains_usize(flags1, c.id as int),
    ensures
        fwd_track_ok(g, e, flags1, t, j - 1),
{
    let pre_hits = t0.hits@;
    // The found hit lies below both the wide and the narrow zone bounds.
    assert((c.id as int) < e.module_prefix_sum@[2 * j - 2] as int && (c.id as int)
        < e.module_prefix_sum@[2 * (j - 1) - 2] as int || j == 2) by {
        if j >= 3 {
            lemma_prefix_le(e.module_prefix_sum@, mr + 1, 2 * j - 2);
            lemma_prefix_le(e.module_prefix_sum@, mr + 1, 2 * j - 4);
        }
    }
    assert((c.id as int) < e.module_prefix_sum@[2 * j - 2] as int) by {
        if j == 2 {
            lemma_prefix_le(e.module_prefix_sum@, 1, 2 * j - 2);
        }
    }
    assert(crate::event_model::distinct_ids(t.hits@)) by {
        assert forall|k: int|
            0 <= k < pre_hits.len() implies (#[trigger] pre_hits[k]).id != c.id by {
            if !crate::validator_event::seq_contains_usize(flags0, pre_hits[k].id as int) {
                assert(pre_hits[k].id >= e.module_prefix_sum@[2 * j - 2]);
            }
        }
        lemma_distinct_push_hit(pre_hits, c);
    }
    assert(g.track_ok(e, t)) by {
        lemma_track_extend(
            g,
            e,
            pre_hits,
            pre_hits[pre_hits.len() - 2],
            pre_hits[pre_hits.len() - 1],
            c,
        );
    }
    assert forall|k: int|
        0 <= k < t.hits.len() implies (crate::validator_event::seq_contains_usize(
        flags1,
        (#[trigger] t.hits@[k]).id as int,
    ) || t.hits@[k].id >= e.module_prefix_sum@[2 * (j - 1) - 2]) by {
        if k < pre_hits.len() {
            assert(t.hits@[k] == pre_hits[k]);
            if crate::validator_event::seq_contains_usize(flags0, pre_hits[k].id as int) {
            } else {
                assert(pre_hits[k].id >= e.module_prefix_sum@[2 * j - 2]);
                lemma_prefix_le(e.module_prefix_sum@, 2 * (j - 1) - 2, 2 * j - 2);
            }
        } else {
            assert(t.hits@[k] == c);
        }
    }
    assert(t.hits@.last() == c);
    if j - 1 >= 2 && !(t.hits@.last().id >= e.module_prefix_sum@[2 * (j - 1) - 2]) {
        assert((c.id as int) < e.module_prefix_sum@[j - 2] as int);
    }
}

/// A first miss keeps the forwarding invariant at the next step.
#[verifier::rlimit(100)]
#[verifier::spinoff_prover]
proof fn lemma_miss_ok(
    g: SearchByTripletTrie,
    e: Event,
    flags: Seq<usize>,
    t0: Track,
    t: Track,
    j: int,
)
    requires
        e.wf(),
        2 <= j,
        2 * j < e.module_prefix_sum@.len(),
        fwd_track_ok(g, e, flags, t0, j),
        !t0.missed_last_module,
        t.hits@ == t0.hits@,
        t.missed_last_module,
    ensures
        fwd_track_ok(g, e, flags, t, j - 1),
{
    lemma_prefix_le(e.module_prefix_sum@, 2 * j - 4, 2 * j - 2);
    if j - 1 >= 2 {
        if t.hits@.last().id >= e.module_prefix_sum@[2 * (j - 1) - 2] {
            if !(t.hits@.last().id >= e.module_prefix_sum@[2 * j - 2]) {
                // A lowered track stays under the narrow bound.
                lemma_prefix_le(e.module_prefix_sum@, j - 1, 2 * (j - 1) - 2);
                assert((t.hits@.last().id as int) < e.module_prefix_sum@[j - 1] as int);
                assert(false);
            }
        } else {
            if !(t0.hits@.last().id >= e.module_prefix_sum@[2 * j - 2]) {
                assert((t0.hits@.last().id as int) < e.module_prefix_sum@[j - 1] as int);
            } else {
                lemma_prefix_le(e.module_prefix_sum@, 2 * (j - 1) - 2, 2 * j - 2);
                assert(false);
            }
        }
    }
}

/// A fresh seed from the index satisfies the forwarding invariant for
/// the next step.
#[verifier::rlimit(100)]
#[verifier::spinoff_prover]
proof fn lemma_seed_ok(
    g: SearchByTripletTrie,
    e: Event,
    flags: Seq<usize>,
    seed: Track,
    h0: Hit,
    h1: Hit,
    h2: Hit,
    j: int,
)
    requires
        e.wf(),
        2 <= j,
        2 * j + 2 < e.module_prefix_sum@.len(),
        seed.hits@ == seq![h0, h1, h2],
        !seed.missed_last_module,
        is_event_hit(e, h0),
        is_event_hit(e, h1),
        is_event_hit(e, h2),
        in_merged(e, j, h0.id as int),
        in_merged(e, j - 1, h1.id as int),
        in_merged(e, j - 2, h2.id as int),
        spec_scatter(h0, h1, h2).spec_lt(g.scatter_limit()),
    ensures
        fwd_track_ok(g, e, flags, seed, j - 1),
{
    lemma_prefix_le(e.module_prefix_sum@, 2 * j - 4, 2 * j - 2);
    lemma_prefix_le(e.module_prefix_sum@, 2 * j - 2, 2 * j);
    assert(seed.hits@[0] == h0);
    assert(seed.hits@[1] == h1);
    assert(seed.hits@[2] == h2);
    assert(h0.id >= e.module_prefix_sum@[2 * j]);
    assert(h1.id < e.module_prefix_sum@[2 * j]);
    assert(h2.id < e.module_prefix_sum@[2 * j - 2]);
    assert(crate::track_following::desc_ids(seed.hits@));
    crate::track_following::lemma_desc_distinct(seed.hits@);
    assert forall|k: int|
        2 <= k < seed.hits@.len() implies spec_scatter(
        seed.hits@[k - 2],
        seed.hits@[k - 1],
        #[trigger] seed.hits@[k],
    ).spec_lt(g.scatter_limit()) by {
        assert(k == 2);
    }
    assert(seed.hits@.last() == h2);
    assert(h2.id >= e.module_prefix_sum@[2 * (j - 1) - 2]);
}

/// Extending a scatter-sound track whose last two hits are `a` and `b`
/// with a hit `c` whose triplet scatter is below the limit keeps the
/// track sound.
proof fn lemma_track_extend(
    g: SearchByTripletTrie,
    e: Event,
    pre: Seq<Hit>,
    a: Hit,
    b: Hit,
    c: Hit,
)
    requires
        pre.len() >= 2,
        a == pre[pre.len() - 2],
        b == pre[pre.len() - 1],
        forall|k: int| 0 <= k < pre.len() ==> is_event_hit(e, #[trigger] pre[k]),
        forall|k: int|
            2 <= k < pre.len() ==> spec_scatter(pre[k - 2], pre[k - 1], #[trigger] pre[k]).spec_lt(
                g.scatter_limit(),
            ),
        is_event_hit(e, c),
        spec_scatter(a, b, c).spec_lt(g.scatter_limit()),
    ensures
        forall|k: int| 0 <= k < pre.push(c).len() ==> is_event_hit(e, #[trigger] pre.push(c)[k]),
        forall|k: int|
            2 <= k < pre.push(c).len() ==> spec_scatter(
                pre.push(c)[k - 2],
                pre.push(c)[k - 1],
                #[trigger] pre.push(c)[k],
            ).spec_lt(g.scatter_limit()),
{
    let s = pre.push(c);
    assert forall|k: int| 0 <= k < s.len() implies is_event_hit(e, #[trigger] s[k]) by {
        if k < pre.len() {
            assert(s[k] == pre[k]);
        } else {
            assert(s[k] == c);
        }
    }
    assert forall|k: int| 2 <= k < s.len() implies spec_scatter(
        s[k - 2],
        s[k - 1],
        #[trigger] s[k],
    ).spec_lt(g.scatter_limit()) by {
        if k < pre.len() {
            assert(s[k] == pre[k]);
            assert(s[k - 1] == pre[k - 1]);
            assert(s[k - 2] == pre[k - 2]);
            assert(spec_scatter(pre[k - 2], pre[k - 1], pre[k]).spec_lt(g.scatter_limit()));
        } else {
            assert(s[k] == c);
            assert(s[k - 1] == pre[pre.len() - 1]);
            assert(s[k - 2] == pre[pre.len() - 2]);
        }
    }
}

/// Flags a hit id (once).  Flags only grow.
fn flag_hit(flagged: &mut Vec<usize>, id: usize)
    ensures
        forall|v: int|
            crate::validator_event::seq_contains_usize(old(flagged)@, v)
                ==> crate::validator_event::seq_contains_usize(final(flagged)@, v),
        crate::validator_event::seq_contains_usize(final(flagged)@, id as int),
{
    let ghost pre = flagged@;
    if !crate::track_following::contains_usize(flagged, id) {
        flagged.push(id);
        proof {
            assert forall|v: int|
                crate::validator_event::seq_contains_usize(pre, v)
                    implies crate::validator_event::seq_contains_usize(flagged@, v) by {
                crate::validator_helper::lemma_contains_push(pre, id, v);
            }
            crate::validator_helper::lemma_contains_push(pre, id, id as int);
        }
    }
}

/// Flags the first `n` hits of a track.  Flags only grow.
fn flag_first(flagged: &mut Vec<usize>, t: &Track, n: usize)
    ensures
        forall|v: int|
            crate::validator_event::seq_contains_usize(old(flagged)@, v)
                ==> crate::validator_event::seq_contains_usize(final(flagged)@, v),
{
    let mut k: usize = 0;
    let lim = if n < t.hits.len() {
        n
    } else {
        t.hits.len()
    };
    while k < lim
        invariant
            lim <= t.hits.len(),
            k <= lim,
            forall|v: int|
                crate::validator_event::seq_contains_usize(old(flagged)@, v)
                    ==> crate::validator_event::seq_contains_usize(flagged@, v),
        decreases lim - k,
    {
        flag_hit(flagged, t.hits[k].id);
        k = k + 1;
    }
}


impl SearchByTripletTrie {
    /// Opens a new track from every index node whose key is unflagged
    /// and that still has a wholly-unflagged best row.
    #[verifier::rlimit(100)]
    #[verifier::spinoff_prover]
    fn seed_tracks(
        &self,
        event: &Event,
        nodes: &Vec<TrieNode>,
        flagged: &Vec<usize>,
        forwarding: &mut Vec<Track>,
        j: usize,
    )
        requires
            self.wf(),
            event.wf(),
            2 <= j,
            2 * j + 2 < event.module_prefix_sum.len(),
            forall|a: int|
                0 <= a < nodes@.len() ==> trie_node_ok(*self, *event, #[trigger] nodes@[a], j as int),
            forall|i: int|
                0 <= i < old(forwarding).len() ==> fwd_track_ok(
                    *self,
                    *event,
                    flagged@,
                    #[trigger] old(forwarding)@[i],
                    j - 1,
                ),
        ensures
            forall|i: int|
                0 <= i < final(forwarding).len() ==> fwd_track_ok(
                    *self,
                    *event,
                    flagged@,
                    #[trigger] final(forwarding)@[i],
                    j - 1,
                ),
            final(forwarding).len() >= old(forwarding).len(),
            forall|i: int|
                0 <= i < old(forwarding).len() ==> final(forwarding)@[i] == old(forwarding)@[i],
            flagged@.len() == 0 && (exists|a: int|
                0 <= a < nodes@.len() && (#[trigger] nodes@[a]).rows@.len() > 0)
                ==> final(forwarding).len() > 0,
    {
        let mut a: usize = 0;
        while a < nodes.len()
            invariant
                self.wf(),
                event.wf(),
                2 <= j,
                2 * j + 2 < event.module_prefix_sum.len(),
                a <= nodes.len(),
                forall|a2: int|
                    0 <= a2 < nodes@.len() ==> trie_node_ok(
                        *self,
                        *event,
                        #[trigger] nodes@[a2],
                        j as int,
                    ),
                forall|i: int|
                    0 <= i < forwarding.len() ==> fwd_track_ok(
                        *self,
                        *event,
                        flagged@,
                        #[trigger] forwarding@[i],
                        j - 1,
                    ),
                forwarding.len() >= old(forwarding).len(),
                forall|i: int|
                    0 <= i < old(forwarding).len() ==> forwarding@[i] == old(forwarding)@[i],
                flagged@.len() == 0 && (exists|a2: int|
                    0 <= a2 < a && (#[trigger] nodes@[a2]).rows@.len() > 0)
                    ==> forwarding.len() > 0,
            decreases nodes.len() - a,
        {
            let node = &nodes[a];
            if !crate::track_following::contains_usize(flagged, node.h0.id) {
                match self.best_seed_row(event, node, flagged, j) {
                    Some((h1, h2, _sc)) => {
                        let mut seed_hits: Vec<Hit> = Vec::new();
                        seed_hits.push(node.h0);
                        seed_hits.push(h1);
                        seed_hits.push(h2);
                        let seed = Track::new(seed_hits);
                        proof {
                            assert(seed.hits@ =~= seq![node.h0, h1, h2]);
                            lemma_seed_ok(
                                *self,
                                *event,
                                flagged@,
                                seed,
                                node.h0,
                                h1,
                                h2,
                                j as int,
                            );
                        }
                        forwarding.push(seed);
                    },
                    None => {},
                }
            }
            a = a + 1;
        }
    }

    /// The best unflagged hit of the position range `[rs, re)` for
    /// extending the pair `(a, b)`, if any scatters below the limit.
    fn best_unflagged_extension(
        &self,
        event: &Event,
        flagged: &Vec<usize>,
        a: Hit,
        b: Hit,
        rs: usize,
        re: usize,
    ) -> (r: Option<(Hit, Scatter)>)
        requires
            self.wf(),
            event.wf(),
            a.wf(),
            b.wf(),
            rs <= re <= event.hits.len(),
        ensures
            r matches Some(bs) ==> {
                &&& is_event_hit(*event, bs.0)
                &&& bs.1 == spec_scatter(a, b, bs.0)
                &&& bs.1.spec_lt(self.scatter_limit())
                &&& !crate::validator_event::seq_contains_usize(flagged@, bs.0.id as int)
                &&& rs <= bs.0.id < re
            },
    {
        let mut best: Option<(Hit, Scatter)> = None;
        let mut best_scatter = Scatter::from_fraction(&self.max_scatter);
        let mut p: usize = rs;
        while p < re
            invariant
                self.wf(),
                event.wf(),
                a.wf(),
                b.wf(),
                rs <= p <= re,
                re <= event.hits.len(),
                best_scatter.wf(),
                best is None ==> best_scatter == Scatter::from_fraction_spec(self.max_scatter),
                best matches Some(bs) ==> {
                    &&& is_event_hit(*event, bs.0)
                    &&& bs.1 == spec_scatter(a, b, bs.0)
                    &&& bs.1 == best_scatter
                    &&& bs.1.spec_lt(self.scatter_limit())
                    &&& !crate::validator_event::seq_contains_usize(flagged@, bs.0.id as int)
                    &&& rs <= bs.0.id < re
                },
            decreases re - p,
        {
            let c = event.hits[p];
            let sc = self.calculate_scatter(&a, &b, &c);
            let ghost pre_best = best;
            let ghost pre_bs = best_scatter;
            if !crate::track_following::contains_usize(flagged, c.id) && sc.lt(&best_scatter) {
                best = Some((c, sc));
                best_scatter = sc;
                proof {
                    if pre_best is Some {
                        crate::geometry::lemma_scatter_lt_trans(sc, pre_bs, self.scatter_limit());
                    } else {
                        assert(pre_bs == self.scatter_limit());
                    }
                }
            }
            p = p + 1;
        }
        best
    }

    /// The row of the node with the least scatter among those whose three
    /// hits are all unflagged, if one scatters below the limit.
    fn best_seed_row(&self, event: &Event, node: &TrieNode, flagged: &Vec<usize>, j: usize) -> (r:
        Option<(Hit, Hit, Scatter)>)
        requires
            self.wf(),
            event.wf(),
            trie_node_ok(*self, *event, *node, j as int),
        ensures
            r matches Some(bs) ==> {
                &&& is_event_hit(*event, bs.0)
                &&& is_event_hit(*event, bs.1)
                &&& in_merged(*event, j - 1, bs.0.id as int)
                &&& in_merged(*event, j - 2, bs.1.id as int)
                &&& bs.2 == spec_scatter(node.h0, bs.0, bs.1)
                &&& bs.2.spec_lt(self.scatter_limit())
            },
            flagged@.len() == 0 && node.rows@.len() > 0 ==> r is Some,
    {
        let mut best: Option<(Hit, Hit, Scatter)> = None;
        let mut best_scatter = Scatter::from_fraction(&self.max_scatter);
        let mut b: usize = 0;
        while b < node.rows.len()
            invariant
                self.wf(),
                event.wf(),
                b <= node.rows.len(),
                trie_node_ok(*self, *event, *node, j as int),
                best_scatter.wf(),
                best is None ==> best_scatter == Scatter::from_fraction_spec(self.max_scatter),
                best matches Some(bs) ==> {
                    &&& is_event_hit(*event, bs.0)
                    &&& is_event_hit(*event, bs.1)
                    &&& in_merged(*event, j - 1, bs.0.id as int)
                    &&& in_merged(*event, j - 2, bs.1.id as int)
                    &&& bs.2 == spec_scatter(node.h0, bs.0, bs.1)
                    &&& bs.2 == best_scatter
                    &&& bs.2.spec_lt(self.scatter_limit())
                },
                flagged@.len() == 0 && b > 0 ==> best is Some,
            decreases node.rows.len() - b,
        {
            let row = node.rows[b];
            let ghost pre_best = best;
            let ghost pre_bs = best_scatter;
            if !crate::track_following::contains_usize(flagged, row.h1.id)
                && !crate::track_following::contains_usize(flagged, row.h2.id)
                && row.scatter.lt(&best_scatter) {
                best = Some((row.h1, row.h2, row.scatter));
                best_scatter = row.scatter;
                proof {
                    if pre_best is Some {
                        crate::geometry::lemma_scatter_lt_trans(
                            row.scatter,
                            pre_bs,
                            self.scatter_limit(),
                        );
                    } else {
                        assert(pre_bs == self.scatter_limit());
                    }
                }
            }
            b = b + 1;
        }
        best
    }
}

/// A successful index lookup hands back a hit of the event whose triplet
/// with the track's last two hits scatters below the limit.
proof fn lemma_index_hit(
    g: SearchByTripletTrie,
    e: Event,
    trie: Seq<Option<Vec<TrieNode>>>,
    j: int,
    a: Hit,
    b: Hit,
    h2: Hit,
    sc: Scatter,
)
    requires
        e.wf(),
        trie_ok(g, e, trie),
        0 <= j < trie.len(),
        trie[j] is Some,
        is_event_hit(e, a),
        is_event_hit(e, b),
        exists|x: int, y: int|
            #![trigger trie[j]->0@[x].rows@[y]]
            0 <= x < trie[j]->0@.len() && 0 <= y < trie[j]->0@[x].rows@.len() && trie[j]->0@[
            x].h0.id == a.id && trie[j]->0@[x].rows@[y].h1.id == b.id && h2 == trie[j]->0@[
            x].rows@[y].h2 && sc == trie[j]->0@[x].rows@[y].scatter,
    ensures
        is_event_hit(e, h2),
        spec_scatter(a, b, h2).spec_lt(g.scatter_limit()),
        in_merged(e, j - 1, b.id as int),
        in_merged(e, j - 2, h2.id as int),
{
    let (x, y) = choose|x: int, y: int|
        #![trigger trie[j]->0@[x].rows@[y]]
        0 <= x < trie[j]->0@.len() && 0 <= y < trie[j]->0@[x].rows@.len() && trie[j]->0@[x].h0.id
            == a.id && trie[j]->0@[x].rows@[y].h1.id == b.id && h2 == trie[j]->0@[x].rows@[y].h2
            && sc == trie[j]->0@[x].rows@[y].scatter;
    assert(trie_node_ok(g, e, trie[j]->0@[x], j));
    assert(trie_row_ok(g, e, trie[j]->0@[x].h0, trie[j]->0@[x].rows@[y], j));
    let node_h0 = trie[j]->0@[x].h0;
    let row_h1 = trie[j]->0@[x].rows@[y].h1;
    assert(node_h0 == e.hits[node_h0.id as int]);
    assert(a == e.hits[a.id as int]);
    assert(node_h0 == a);
    assert(row_h1 == b);
}

/// Replacing one slot of a sound triplet index with sound nodes keeps the
/// index sound.
proof fn lemma_trie_update(
    g: SearchByTripletTrie,
    e: Event,
    pre: Seq<Option<Vec<TrieNode>>>,
    cur: Seq<Option<Vec<TrieNode>>>,
    gnodes: Seq<TrieNode>,
    j: int,
)
    requires
        trie_ok(g, e, pre),
        0 <= j < pre.len(),
        cur == pre.update(j, cur[j]),
        cur[j] is Some,
        cur[j]->0@ == gnodes,
        forall|a: int| 0 <= a < gnodes.len() ==> trie_node_ok(g, e, #[trigger] gnodes[a], j),
    ensures
        trie_ok(g, e, cur),
{
    assert forall|j2: int, a: int|
        #![trigger cur[j2]->0@[a]]
        0 <= j2 < cur.len() && cur[j2] is Some && 0 <= a < cur[j2]->0@.len()
            implies trie_node_ok(g, e, cur[j2]->0@[a], j2) by {
        if j2 != j {
            assert(cur[j2] == pre[j2]);
            assert(pre[j2]->0@[a] == cur[j2]->0@[a]);
            assert(trie_node_ok(g, e, pre[j2]->0@[a], j2));
        } else {
            assert(cur[j2]->0@[a] == gnodes[a]);
        }
    }
}


} // verus!
