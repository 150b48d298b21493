//! The track-following engine: seed a pair of hits on modules two apart,
//! pick up a third hit within scatter tolerance, then extend the track
//! towards lower module indices, tolerating up to three consecutive
//! modules without a compatible hit.

use vstd::prelude::*;
use crate::event_model::{distinct_ids, lemma_prefix_le, Event, Hit, Track};
use crate::geometry::{
    compatible, spec_compatible, spec_tolerant, tolerant, Fraction,
};

verus! {

/// Hit ids strictly decrease along the sequence.  Engines build tracks from
/// high-z modules towards low-z ones, and within a well-formed event the id
/// is the global array index, so this implies all hits are distinct.
pub open spec fn desc_ids(hits: Seq<Hit>) -> bool {
    forall|k: int| 0 <= k < hits.len() - 1 ==> hits[k].id > #[trigger] hits[k + 1].id
}

/// In a strictly descending sequence, earlier ids exceed later ones.
pub proof fn lemma_desc_gt(hits: Seq<Hit>, i: int, j: int)
    requires
        desc_ids(hits),
        0 <= i < j < hits.len(),
    ensures
        hits[i].id > hits[j].id,
    decreases j - i,
{
    if i + 1 == j {
        assert(hits[i].id > hits[i + 1].id);
    } else {
        lemma_desc_gt(hits, i + 1, j);
    }
}

/// Strictly descending ids leave no room for a repeated hit.
pub proof fn lemma_desc_distinct(hits: Seq<Hit>)
    requires
        desc_ids(hits),
    ensures
        distinct_ids(hits),
{
    assert forall|i: int, j: int| 0 <= i < j < hits.len() implies hits[i].id != hits[j].id by {
        lemma_desc_gt(hits, i, j);
    }
}

/// The geometric invariant of a formed track: the first two hits are
/// slope-compatible and every consecutive hit triple passes the scatter
/// tolerance test.
pub open spec fn seq_geometry_ok(
    sx: Fraction,
    sy: Fraction,
    tx: Fraction,
    ty: Fraction,
    ms: Fraction,
    hits: Seq<Hit>,
) -> bool {
    &&& hits.len() >= 2 ==> spec_compatible(sx, sy, hits[0], hits[1])
    &&& forall|k: int|
        2 <= k < hits.len() ==> spec_tolerant(tx, ty, ms, hits[k - 2], hits[k - 1], #[trigger] hits[k])
}

/// Appending a hit below the last one, that passes the tolerance test
/// against the previous two hits, preserves the track invariants.
pub proof fn lemma_track_push(
    pre: Seq<Hit>,
    h: Hit,
    sx: Fraction,
    sy: Fraction,
    tx: Fraction,
    ty: Fraction,
    ms: Fraction,
)
    requires
        pre.len() >= 2,
        desc_ids(pre),
        seq_geometry_ok(sx, sy, tx, ty, ms, pre),
        pre.last().id > h.id,
        spec_tolerant(tx, ty, ms, pre[pre.len() - 2], pre[pre.len() - 1], h),
    ensures
        desc_ids(pre.push(h)),
        seq_geometry_ok(sx, sy, tx, ty, ms, pre.push(h)),
{
    let s = pre.push(h);
    assert forall|k: int| 0 <= k < s.len() - 1 implies s[k].id > #[trigger] s[k + 1].id by {
        if k + 1 < pre.len() {
            assert(s[k] == pre[k]);
            assert(s[k + 1] == pre[k + 1]);
            assert(pre[k].id > pre[k + 1].id);
        } else {
            assert(s[k] == pre[pre.len() - 1]);
            assert(s[k + 1] == h);
        }
    }
    assert(s[0] == pre[0]);
    assert(s[1] == pre[1]);
    assert forall|k: int| 2 <= k < s.len() implies spec_tolerant(
        tx,
        ty,
        ms,
        s[k - 2],
        s[k - 1],
        #[trigger] s[k],
    ) by {
        if k < pre.len() {
            assert(s[k] == pre[k]);
            assert(s[k - 1] == pre[k - 1]);
            assert(s[k - 2] == pre[k - 2]);
            assert(spec_tolerant(tx, ty, ms, pre[k - 2], pre[k - 1], pre[k]));
        } else {
            assert(s[k] == h);
            assert(s[k - 1] == pre[pre.len() - 1]);
            assert(s[k - 2] == pre[pre.len() - 2]);
        }
    }
}

/// Seed-and-extend track finder.
#[derive(Clone, Copy, Debug)]
pub struct TrackFollowing {
    pub max_slopes: (Fraction, Fraction),
    pub max_tolerance: (Fraction, Fraction),
    pub max_scatter: Fraction,
    pub min_track_length: usize,
    pub min_strong_track_length: usize,
}

impl TrackFollowing {
    pub open spec fn wf(self) -> bool {
        &&& self.max_slopes.0.wf()
        &&& self.max_slopes.1.wf()
        &&& self.max_tolerance.0.wf()
        &&& self.max_tolerance.1.wf()
        &&& self.max_scatter.wf()
    }

    /// Every track this engine emits satisfies this predicate: at least
    /// three hits, weak length or strong length, no repeated hit, and the
    /// engine's geometric tests hold along the whole track.
    pub open spec fn track_ok(self, t: Track) -> bool {
        &&& t.hits.len() >= 3
        &&& (t.hits.len() == self.min_track_length || t.hits.len()
            >= self.min_strong_track_length)
        &&& desc_ids(t.hits@)
        &&& distinct_ids(t.hits@)
        &&& seq_geometry_ok(
            self.max_slopes.0,
            self.max_slopes.1,
            self.max_tolerance.0,
            self.max_tolerance.1,
            self.max_scatter,
            t.hits@,
        )
    }

    /// Builds the engine; absent parameters fall back to the defaults
    /// (slopes 7/10, tolerances 2/5, scatter 2/5, lengths 3 and 4).
    pub fn new(
        max_slopes: Option<(Fraction, Fraction)>,
        max_tolerance: Option<(Fraction, Fraction)>,
        max_scatter: Option<Fraction>,
        min_track_length: Option<usize>,
        min_strong_track_length: Option<usize>,
    ) -> (r: TrackFollowing)
        requires
            max_slopes matches Some(s) ==> s.0.wf() && s.1.wf(),
            max_tolerance matches Some(t) ==> t.0.wf() && t.1.wf(),
            max_scatter matches Some(m) ==> m.wf(),
        ensures
            r.wf(),
            r.max_slopes == (if max_slopes is Some { max_slopes->0 } else {
                (Fraction { num: 7, den: 10 }, Fraction { num: 7, den: 10 })
            }),
            r.max_tolerance == (if max_tolerance is Some { max_tolerance->0 } else {
                (Fraction { num: 2, den: 5 }, Fraction { num: 2, den: 5 })
            }),
            r.max_scatter == (if max_scatter is Some { max_scatter->0 } else {
                Fraction { num: 2, den: 5 }
            }),
            r.min_track_length == (if min_track_length is Some { min_track_length->0 as int } else {
                3
            }),
            r.min_strong_track_length == (if min_strong_track_length is Some {
                min_strong_track_length->0 as int
            } else {
                4
            }),
    {
        TrackFollowing {
            max_slopes: match max_slopes {
                Some(s) => s,
                None => (Fraction { num: 7, den: 10 }, Fraction { num: 7, den: 10 }),
            },
            max_tolerance: match max_tolerance {
                Some(t) => t,
                None => (Fraction { num: 2, den: 5 }, Fraction { num: 2, den: 5 }),
            },
            max_scatter: match max_scatter {
                Some(m) => m,
                None => Fraction { num: 2, den: 5 },
            },
            min_track_length: match min_track_length {
                Some(l) => l,
                None => 3,
            },
            min_strong_track_length: match min_strong_track_length {
                Some(l) => l,
                None => 4,
            },
        }
    }

    /// True when the two hits are slope-compatible.
    pub fn are_compatible(&self, hit0: &Hit, hit1: &Hit) -> (r: bool)
        requires
            self.wf(),
            hit0.wf(),
            hit1.wf(),
        ensures
            r == spec_compatible(self.max_slopes.0, self.max_slopes.1, *hit0, *hit1),
    {
        compatible(&self.max_slopes.0, &self.max_slopes.1, hit0, hit1)
    }

    /// True when the three hits pass the scatter tolerance test.
    pub fn check_tolerance(&self, hit0: &Hit, hit1: &Hit, hit2: &Hit) -> (r: bool)
        requires
            self.wf(),
            hit0.wf(),
            hit1.wf(),
            hit2.wf(),
        ensures
            r == spec_tolerant(
                self.max_tolerance.0,
                self.max_tolerance.1,
                self.max_scatter,
                *hit0,
                *hit1,
                *hit2,
            ),
    {
        tolerant(
            &self.max_tolerance.0,
            &self.max_tolerance.1,
            &self.max_scatter,
            hit0,
            hit1,
            hit2,
        )
    }

    /// Searches a third hit for the seed `(h0, h1)` over the three modules
    /// below the seed, from `starting_module_index` downwards.  On success
    /// the returned track holds `[h0, h1, h2]` and the module index where
    /// `h2` was found.
    #[verifier::rlimit(100)]
    #[verifier::spinoff_prover]
    fn find_third_hit(&self, event: &Event, h0: Hit, h1: Hit, starting_module_index: usize) -> (r:
        Option<(Track, usize)>)
        requires
            self.wf(),
            event.wf(),
            starting_module_index + 4 <= event.modules.len(),
            h0.wf(),
            h1.wf(),
            h0.id > h1.id,
            h1.id >= event.module_prefix_sum@[starting_module_index + 1],
            spec_compatible(self.max_slopes.0, self.max_slopes.1, h0, h1),
        ensures
            r matches Some(tm) ==> {
                &&& tm.0.hits@.len() == 3
                &&& tm.0.hits@[0] == h0
                &&& tm.0.hits@[1] == h1
                &&& desc_ids(tm.0.hits@)
                &&& tm.1 <= starting_module_index
                &&& tm.1 < event.modules.len()
                &&& tm.0.hits@.last().id >= event.module_prefix_sum@[tm.1 as int]
                &&& tm.0.hits@.last().wf()
                &&& seq_geometry_ok(
                    self.max_slopes.0,
                    self.max_slopes.1,
                    self.max_tolerance.0,
                    self.max_tolerance.1,
                    self.max_scatter,
                    tm.0.hits@,
                )
            },
            r is None ==> forall|mi: int, p: int|
                #![trigger event.module_prefix_sum@[mi], event.hits@[p]]
                (if starting_module_index >= 2 {
                    starting_module_index - 2
                } else {
                    0
                }) <= mi <= starting_module_index && event.module_prefix_sum@[mi] <= p
                    < event.module_prefix_sum@[mi + 1] ==> !spec_tolerant(
                    self.max_tolerance.0,
                    self.max_tolerance.1,
                    self.max_scatter,
                    h0,
                    h1,
                    event.hits@[p],
                ),
    {
        let lower = if starting_module_index >= 2 {
            starting_module_index - 2
        } else {
            0
        };
        let count = starting_module_index - lower + 1;
        let mut step: usize = 0;
        while step < count
            invariant
                self.wf(),
                event.wf(),
                starting_module_index + 4 <= event.modules.len(),
                h0.wf(),
                h1.wf(),
                h0.id > h1.id,
                h1.id >= event.module_prefix_sum@[starting_module_index + 1],
                spec_compatible(self.max_slopes.0, self.max_slopes.1, h0, h1),
                lower + count == starting_module_index + 1,
                step <= count,
                forall|mi: int, p: int|
                    #![trigger event.module_prefix_sum@[mi], event.hits@[p]]
                    starting_module_index - step < mi <= starting_module_index
                        && event.module_prefix_sum@[mi] <= p < event.module_prefix_sum@[mi + 1]
                        ==> !spec_tolerant(
                        self.max_tolerance.0,
                        self.max_tolerance.1,
                        self.max_scatter,
                        h0,
                        h1,
                        event.hits@[p],
                    ),
            decreases count - step,
        {
            let mi = starting_module_index - step;
            proof {
                lemma_prefix_le(
                    event.module_prefix_sum@,
                    mi + 1 as int,
                    starting_module_index + 1 as int,
                );
                lemma_prefix_le(event.module_prefix_sum@, mi as int, mi + 1 as int);
                lemma_prefix_le(
                    event.module_prefix_sum@,
                    mi + 1 as int,
                    event.modules.len() as int,
                );
            }
            let start = event.module_prefix_sum[mi];
            let end = event.module_prefix_sum[mi + 1];
            let mut p: usize = start;
            while p < end
                invariant
                    self.wf(),
                    event.wf(),
                    h0.wf(),
                    h1.wf(),
                    h0.id > h1.id,
                    mi <= starting_module_index,
                    mi < event.modules.len(),
                    spec_compatible(self.max_slopes.0, self.max_slopes.1, h0, h1),
                    start <= p <= end,
                    end <= event.hits.len(),
                    event.module_prefix_sum@[mi as int] == start,
                    h1.id >= event.module_prefix_sum@[mi + 1 as int],
                    event.module_prefix_sum@[mi + 1 as int] == end,
                    mi == starting_module_index - step,
                    step < count,
                    forall|mi2: int, p2: int|
                        #![trigger event.module_prefix_sum@[mi2], event.hits@[p2]]
                        mi < mi2 <= starting_module_index && event.module_prefix_sum@[mi2] <= p2
                            < event.module_prefix_sum@[mi2 + 1] ==> !spec_tolerant(
                            self.max_tolerance.0,
                            self.max_tolerance.1,
                            self.max_scatter,
                            h0,
                            h1,
                            event.hits@[p2],
                        ),
                    forall|p2: int|
                        start <= p2 < p ==> !spec_tolerant(
                            self.max_tolerance.0,
                            self.max_tolerance.1,
                            self.max_scatter,
                            h0,
                            h1,
                            #[trigger] event.hits@[p2],
                        ),
                decreases end - p,
            {
                let h2 = event.hits[p];
                if self.check_tolerance(&h0, &h1, &h2) {
                    let mut seed_hits: Vec<Hit> = Vec::new();
                    seed_hits.push(h0);
                    seed_hits.push(h1);
                    seed_hits.push(h2);
                    let forming = Track::new(seed_hits);
                    proof {
                        assert(h2.id == p);
                        assert(forming.hits@ =~= seq![h0, h1].push(h2));
                        assert(desc_ids(seq![h0, h1]));
                        assert(seq_geometry_ok(
                            self.max_slopes.0,
                            self.max_slopes.1,
                            self.max_tolerance.0,
                            self.max_tolerance.1,
                            self.max_scatter,
                            seq![h0, h1],
                        ));
                        lemma_track_push(
                            seq![h0, h1],
                            h2,
                            self.max_slopes.0,
                            self.max_slopes.1,
                            self.max_tolerance.0,
                            self.max_tolerance.1,
                            self.max_scatter,
                        );
                    }
                    return Some((forming, mi));
                }
                p = p + 1;
            }
            proof {
                assert forall|mi2: int, p2: int|
                    #![trigger event.module_prefix_sum@[mi2], event.hits@[p2]]
                    starting_module_index - (step + 1) < mi2 <= starting_module_index
                        && event.module_prefix_sum@[mi2] <= p2 < event.module_prefix_sum@[mi2
                        + 1] implies !spec_tolerant(
                    self.max_tolerance.0,
                    self.max_tolerance.1,
                    self.max_scatter,
                    h0,
                    h1,
                    event.hits@[p2],
                ) by {
                    if mi2 == mi {
                        assert(start <= p2 < end);
                    }
                }
            }
            step = step + 1;
        }
        None
    }

    /// Extends a formed track towards module 0; each module without a
    /// tolerant hit counts as a miss, a found hit resets the counter, and
    /// three consecutive misses stop the search.
    fn extend_forward(&self, event: &Event, track: Track, found_module: usize) -> (r: Track)
        requires
            self.wf(),
            event.wf(),
            found_module < event.modules.len(),
            track.hits@.len() >= 3,
            desc_ids(track.hits@),
            forall|k: int| 0 <= k < track.hits@.len() ==> (#[trigger] track.hits@[k]).wf(),
            track.hits@.last().id >= event.module_prefix_sum@[found_module as int],
            seq_geometry_ok(
                self.max_slopes.0,
                self.max_slopes.1,
                self.max_tolerance.0,
                self.max_tolerance.1,
                self.max_scatter,
                track.hits@,
            ),
        ensures
            r.hits@.len() >= track.hits@.len(),
            r.hits@.subrange(0, track.hits@.len() as int) == track.hits@,
            desc_ids(r.hits@),
            seq_geometry_ok(
                self.max_slopes.0,
                self.max_slopes.1,
                self.max_tolerance.0,
                self.max_tolerance.1,
                self.max_scatter,
                r.hits@,
            ),
    {
        let mut forming = track;
        let ghost orig = forming.hits@;
        let mut missing_stations: usize = 0;
        let mut cur = found_module;
        while cur > 0 && missing_stations < 3
            invariant
                self.wf(),
                event.wf(),
                cur < event.modules.len(),
                forming.hits@.len() >= orig.len() >= 3,
                forming.hits@.subrange(0, orig.len() as int) == orig,
                forall|k: int| 0 <= k < forming.hits@.len() ==> (#[trigger] forming.hits@[k]).wf(),
                desc_ids(forming.hits@),
                forming.hits@.last().id >= event.module_prefix_sum@[cur as int],
                seq_geometry_ok(
                    self.max_slopes.0,
                    self.max_slopes.1,
                    self.max_tolerance.0,
                    self.max_tolerance.1,
                    self.max_scatter,
                    forming.hits@,
                ),
            decreases cur,
        {
            cur = cur - 1;
            missing_stations = missing_stations + 1;
            proof {
                lemma_prefix_le(event.module_prefix_sum@, cur as int, cur + 1 as int);
                lemma_prefix_le(
                    event.module_prefix_sum@,
                    cur + 1 as int,
                    event.modules.len() as int,
                );
            }
            let start = event.module_prefix_sum[cur];
            let end = event.module_prefix_sum[cur + 1];
            let n = forming.hits.len();
            let last_but_one = forming.hits[n - 2];
            let last = forming.hits[n - 1];
            let ghost pre = forming.hits@;
            let mut extended = false;
            let mut p: usize = start;
            while p < end && !extended
                invariant
                    self.wf(),
                    event.wf(),
                    pre.len() >= 3,
                    last_but_one == pre[pre.len() - 2],
                    last == pre[pre.len() - 1],
                    last_but_one.wf(),
                    last.wf(),
                    start <= p <= end,
                    end <= event.hits.len(),
                    event.module_prefix_sum@[cur as int] == start,
                    pre.last().id >= event.module_prefix_sum@[cur + 1 as int],
                    event.module_prefix_sum@[cur + 1 as int] == end,
                    desc_ids(pre),
                    seq_geometry_ok(
                        self.max_slopes.0,
                        self.max_slopes.1,
                        self.max_tolerance.0,
                        self.max_tolerance.1,
                        self.max_scatter,
                        pre,
                    ),
                    forall|k: int| 0 <= k < pre.len() ==> (#[trigger] pre[k]).wf(),
                    !extended ==> forming.hits@ == pre,
                    extended ==> {
                        &&& forming.hits@.len() == pre.len() + 1
                        &&& forming.hits@.subrange(0, pre.len() as int) == pre
                        &&& desc_ids(forming.hits@)
                        &&& forall|k: int|
                            0 <= k < forming.hits@.len() ==> (#[trigger] forming.hits@[k]).wf()
                        &&& forming.hits@.last().id >= event.module_prefix_sum@[cur as int]
                        &&& seq_geometry_ok(
                            self.max_slopes.0,
                            self.max_slopes.1,
                            self.max_tolerance.0,
                            self.max_tolerance.1,
                            self.max_scatter,
                            forming.hits@,
                        )
                    },
                decreases end - p, (if extended { 0int } else { 1int }),
            {
                let h2 = event.hits[p];
                if self.check_tolerance(&last_but_one, &last, &h2) {
                    forming.add_hit(h2);
                    extended = true;
                    proof {
                        assert(h2.id == p);
                        lemma_track_push(
                            pre,
                            h2,
                            self.max_slopes.0,
                            self.max_slopes.1,
                            self.max_tolerance.0,
                            self.max_tolerance.1,
                            self.max_scatter,
                        );
                        assert(forming.hits@.subrange(0, pre.len() as int) =~= pre);
                        assert(forming.hits@.last() == h2);
                    }
                } else {
                    p = p + 1;
                }
            }
            if extended {
                missing_stations = 0;
            }
            proof {
                assert(forming.hits@.subrange(0, orig.len() as int) =~= orig);
            }
        }
        forming
    }

    /// Runs the engine on an event and returns the found tracks.
    ///
    /// Every returned track has at least three hits, is either of the weak
    /// length or at least the strong length, repeats no hit, and satisfies
    /// the engine's compatibility and tolerance tests along its whole hit
    /// sequence.  An event without hits, or with fewer than three modules,
    /// yields no tracks.
    #[verifier::loop_isolation(false)]
    pub fn solve(&self, event: &Event) -> (r: Vec<Track>)
        requires
            self.wf(),
            event.wf(),
        ensures
            forall|i: int| 0 <= i < r.len() ==> self.track_ok(#[trigger] r@[i]),
            event.hits.len() == 0 ==> r.len() == 0,
            event.modules.len() < 3 ==> r.len() == 0,
    {
        let mut weak_tracks: Vec<Track> = Vec::new();
        let mut tracks: Vec<Track> = Vec::new();
        let mut used_ids: Vec<usize> = Vec::new();

        let num_modules = event.modules.len();
        if num_modules < 3 {
            return tracks;
        }

        // Seed pairs (module i, module i - 2), i from the top down to 3.
        let mut i = num_modules - 1;
        while i >= 3
            invariant
                3 <= i <= num_modules - 1 || i == 2,
                forall|k: int| 0 <= k < tracks.len() ==> self.track_ok(#[trigger] tracks@[k]),
                forall|k: int|
                    0 <= k < weak_tracks.len() ==> {
                        &&& (#[trigger] weak_tracks@[k]).hits.len() >= 3
                        &&& weak_tracks@[k].hits.len() == self.min_track_length
                        &&& desc_ids(weak_tracks@[k].hits@)
                        &&& seq_geometry_ok(
                            self.max_slopes.0,
                            self.max_slopes.1,
                            self.max_tolerance.0,
                            self.max_tolerance.1,
                            self.max_scatter,
                            weak_tracks@[k].hits@,
                        )
                    },
                event.hits.len() == 0 ==> tracks.len() == 0 && weak_tracks.len() == 0,
            decreases i,
        {
            let starting_module_index = i - 3;
            proof {
                lemma_prefix_le(event.module_prefix_sum@, i as int, num_modules as int);
                lemma_prefix_le(event.module_prefix_sum@, i + 1 as int, num_modules as int);
            }
            let s0_start = event.module_prefix_sum[i];
            let s0_end = event.module_prefix_sum[i + 1];
            let mut p0: usize = s0_start;
            while p0 < s0_end
                invariant
                    s0_start <= p0 <= s0_end,
                    forall|k: int| 0 <= k < tracks.len() ==> self.track_ok(#[trigger] tracks@[k]),
                    forall|k: int|
                        0 <= k < weak_tracks.len() ==> {
                            &&& (#[trigger] weak_tracks@[k]).hits.len() >= 3
                            &&& weak_tracks@[k].hits.len() == self.min_track_length
                            &&& desc_ids(weak_tracks@[k].hits@)
                            &&& seq_geometry_ok(
                                self.max_slopes.0,
                                self.max_slopes.1,
                                self.max_tolerance.0,
                                self.max_tolerance.1,
                                self.max_scatter,
                                weak_tracks@[k].hits@,
                            )
                        },
                    event.hits.len() == 0 ==> tracks.len() == 0 && weak_tracks.len() == 0,
                decreases s0_end - p0,
            {
                let h0 = event.hits[p0];
                if !contains_usize(&used_ids, h0.id) {
                    proof {
                        lemma_prefix_le(event.module_prefix_sum@, i - 1 as int, i as int);
                        lemma_prefix_le(
                            event.module_prefix_sum@,
                            starting_module_index + 1 as int,
                            i - 2 as int,
                        );
                    }
                    let s1_start = event.module_prefix_sum[i - 2];
                    let s1_end = event.module_prefix_sum[i - 1];
                    let mut p1: usize = s1_start;
                    while p1 < s1_end
                        invariant
                            s1_start <= p1 <= s1_end,
                            forall|k: int|
                                0 <= k < tracks.len() ==> self.track_ok(#[trigger] tracks@[k]),
                            forall|k: int|
                                0 <= k < weak_tracks.len() ==> {
                                    &&& (#[trigger] weak_tracks@[k]).hits.len() >= 3
                                    &&& weak_tracks@[k].hits.len() == self.min_track_length
                                    &&& desc_ids(weak_tracks@[k].hits@)
                                    &&& seq_geometry_ok(
                                        self.max_slopes.0,
                                        self.max_slopes.1,
                                        self.max_tolerance.0,
                                        self.max_tolerance.1,
                                        self.max_scatter,
                                        weak_tracks@[k].hits@,
                                    )
                                },
                            event.hits.len() == 0 ==> tracks.len() == 0 && weak_tracks.len()
                                == 0,
                        decreases s1_end - p1,
                    {
                        let h1 = event.hits[p1];
                        if !contains_usize(&used_ids, h1.id) && self.are_compatible(&h0, &h1) {
                            let formed = self.find_third_hit(event, h0, h1, starting_module_index);
                            if let Some((seed_track, found_module)) = formed {
                                let forming_track = self.extend_forward(event, seed_track, found_module);
                                let len = forming_track.hits.len();
                                if len == self.min_track_length {
                                    weak_tracks.push(forming_track);
                                } else if len >= self.min_strong_track_length {
                                    proof {
                                        lemma_desc_distinct(forming_track.hits@);
                                    }
                                    mark_used(&mut used_ids, &forming_track);
                                    tracks.push(forming_track);
                                }
                            }
                        }
                        p1 = p1 + 1;
                    }
                }
                p0 = p0 + 1;
            }
            i = i - 1;
        }

        // Promote weak tracks whose hits are all still unused.
        let mut w: usize = 0;
        while w < weak_tracks.len()
            invariant
                w <= weak_tracks.len(),
                forall|k: int| 0 <= k < tracks.len() ==> self.track_ok(#[trigger] tracks@[k]),
                forall|k: int|
                    0 <= k < weak_tracks.len() ==> {
                        &&& (#[trigger] weak_tracks@[k]).hits.len() >= 3
                        &&& weak_tracks@[k].hits.len() == self.min_track_length
                        &&& desc_ids(weak_tracks@[k].hits@)
                        &&& seq_geometry_ok(
                            self.max_slopes.0,
                            self.max_slopes.1,
                            self.max_tolerance.0,
                            self.max_tolerance.1,
                            self.max_scatter,
                            weak_tracks@[k].hits@,
                        )
                    },
                event.hits.len() == 0 ==> tracks.len() == 0 && weak_tracks.len() == 0,
            decreases weak_tracks.len() - w,
        {
            let t = &weak_tracks[w];
            let mut used_in_weak = false;
            let mut h: usize = 0;
            while h < t.hits.len()
                invariant
                    h <= t.hits.len(),
                decreases t.hits.len() - h,
            {
                if contains_usize(&used_ids, t.hits[h].id) {
                    used_in_weak = true;
                }
                h = h + 1;
            }
            if !used_in_weak {
                proof {
                    lemma_desc_distinct(weak_tracks@[w as int].hits@);
                }
                let promoted = clone_track(t);
                mark_used(&mut used_ids, &promoted);
                tracks.push(promoted);
            }
            w = w + 1;
        }
        tracks
    }
}

/// Whether the vector contains the value.
pub fn contains_usize(v: &Vec<usize>, val: usize) -> (r: bool)
    ensures
        r <==> exists|k: int| 0 <= k < v.len() && v@[k] == val,
{
    let mut k: usize = 0;
    while k < v.len()
        invariant
            k <= v.len(),
            forall|j: int| 0 <= j < k ==> v@[j] != val,
        decreases v.len() - k,
    {
        if v[k] == val {
            return true;
        }
        k = k + 1;
    }
    false
}

/// Adds every hit id of the track to the used set (skipping ids already
/// present).
fn mark_used(used_ids: &mut Vec<usize>, t: &Track) {
    let mut h: usize = 0;
    while h < t.hits.len()
        invariant
            h <= t.hits.len(),
        decreases t.hits.len() - h,
    {
        if !contains_usize(used_ids, t.hits[h].id) {
            used_ids.push(t.hits[h].id);
        }
        h = h + 1;
    }
}

/// A field-for-field copy of a track.
pub fn clone_track(t: &Track) -> (r: Track)
    ensures
        r.hits@ == t.hits@,
        r.missed_last_module == t.missed_last_module,
        r.missed_penultimate_module == t.missed_penultimate_module,
{
    let mut hits: Vec<Hit> = Vec::new();
    let mut i: usize = 0;
    while i < t.hits.len()
        invariant
            i <= t.hits.len(),
            hits@ == t.hits@.subrange(0, i as int),
        decreases t.hits.len() - i,
    {
        hits.push(t.hits[i]);
        proof {
            assert(hits@ =~= t.hits@.subrange(0, i + 1 as int));
        }
        i = i + 1;
    }
    proof {
        assert(hits@ =~= t.hits@);
    }
    Track {
        hits,
        missed_last_module: t.missed_last_module,
        missed_penultimate_module: t.missed_penultimate_module,
    }
}

} // verus!
