//! The per-category efficiency accumulator: counters summed over events
//! and the percentages derived from them.
//!
//! Real-valued sums (purities, hit efficiencies) are accumulated exactly
//! as fixed-point integers in millionths; derived percentages are exact
//! ratios.  All counter additions saturate, so accumulation is total, and
//! field-wise combination of two accumulators is commutative and
//! associative.

use vstd::prelude::*;
use crate::event_model::Track;
use crate::validator_event::ValidatorEvent;
use crate::validator_helper::{
    clone_count, hit_eff_entry, hit_efficiency, lemma_usize_product_fits, particle_tracks,
    reconstructed, recon_seq, Weight,
};

verus! {

/// Fixed-point scale for accumulated purity and hit-efficiency sums.
pub const EFF_SCALE: u64 = 1_000_000;

/// An exact non-negative ratio `num / den`.
#[derive(Clone, Copy, Debug, PartialEq, Eq, Structural)]
pub struct Ratio {
    pub num: u128,
    pub den: u128,
}

impl Ratio {
    pub open spec fn wf(self) -> bool {
        self.den >= 1
    }

    /// The zero value.
    pub open spec fn spec_zero() -> Ratio {
        Ratio { num: 0, den: 1 }
    }

    pub fn zero() -> (r: Ratio)
        ensures
            r == Ratio::spec_zero(),
    {
        Ratio { num: 0, den: 1 }
    }
}

/// Saturating addition on the mathematical values of two `u64` counters.
pub open spec fn sat64(a: int, b: int) -> int {
    if a + b > u64::MAX as int {
        u64::MAX as int
    } else {
        a + b
    }
}

/// Saturating `u64` addition.
pub fn sat_add(a: u64, b: u64) -> (r: u64)
    ensures
        r as int == sat64(a as int, b as int),
{
    if a > u64::MAX - b {
        u64::MAX
    } else {
        a + b
    }
}

/// A weight as a saturated fixed-point value in millionths.
pub open spec fn scaled_weight(w: Weight) -> int {
    if w.den <= 0 {
        0
    } else {
        let v = (w.num as int * EFF_SCALE as int) / (w.den as int);
        if v > u64::MAX as int {
            u64::MAX as int
        } else {
            v
        }
    }
}

/// Computes the saturated fixed-point value of a weight.
pub fn scale_weight(w: &Weight) -> (r: u64)
    ensures
        r as int == scaled_weight(*w),
{
    if w.den == 0 {
        return 0;
    }
    proof {
        lemma_usize_product_fits(w.num as int, EFF_SCALE as int);
        lemma_div_bound(w.num as int * EFF_SCALE as int, w.den as int);
    }
    let v: u128 = (w.num as u128) * (EFF_SCALE as u128) / (w.den as u128);
    if v > u64::MAX as u128 {
        u64::MAX
    } else {
        v as u64
    }
}

/// Division by a positive value never grows a non-negative value.
pub proof fn lemma_div_bound(a: int, b: int)
    by (nonlinear_arith)
    requires
        a >= 0,
        b >= 1,
    ensures
        0 <= a / b <= a,
{
}

/// Sum of the scaled weights of the associated entries of `t2p`.
pub open spec fn purity_sum(t2p: Seq<(Weight, Option<usize>)>) -> int
    decreases t2p.len(),
{
    if t2p.len() == 0 {
        0
    } else {
        purity_sum(t2p.drop_last()) + if t2p.last().1 is Some {
            scaled_weight(t2p.last().0)
        } else {
            0int
        }
    }
}

/// Number of associated entries of `t2p`.
pub open spec fn assoc_count(t2p: Seq<(Weight, Option<usize>)>) -> int
    decreases t2p.len(),
{
    if t2p.len() == 0 {
        0
    } else {
        assoc_count(t2p.drop_last()) + if t2p.last().1 is Some {
            1int
        } else {
            0int
        }
    }
}

/// The hit-efficiency table determined by the associations.
pub open spec fn heff_table(
    t2p: Seq<(Weight, Option<usize>)>,
    tracks: Seq<Track>,
    pidx: Seq<usize>,
    m2h: Seq<Vec<crate::event_model::Hit>>,
) -> Seq<Option<Weight>> {
    Seq::new(tracks.len(), |i: int| hit_eff_entry(t2p[i], tracks[i], pidx, m2h))
}

/// Sum of the scaled entries of a hit-efficiency table.
pub open spec fn heff_sum(effs: Seq<Option<Weight>>) -> int
    decreases effs.len(),
{
    if effs.len() == 0 {
        0
    } else {
        heff_sum(effs.drop_last()) + match effs.last() {
            Some(w) => scaled_weight(w),
            None => 0int,
        }
    }
}

/// Number of defined entries of a hit-efficiency table.
pub open spec fn heff_count(effs: Seq<Option<Weight>>) -> int
    decreases effs.len(),
{
    if effs.len() == 0 {
        0
    } else {
        heff_count(effs.drop_last()) + if effs.last() is Some {
            1int
        } else {
            0int
        }
    }
}

/// Running reconstruction-quality accumulator for one particle category.
#[derive(Clone, Debug)]
pub struct Efficiency {
    pub label: String,
    pub n_particles: u64,
    pub n_reco: u64,
    /// Sum of association purities, in millionths.
    pub n_pure: u64,
    pub n_clones: u64,
    pub n_events: u64,
    /// Sum of hit efficiencies, in millionths.
    pub n_heff: u64,
    pub n_hits: u64,
    pub recoeff_t: Ratio,
    /// Defined exactly when `n_reco + n_clones > 0`.
    pub purity_t: Option<Ratio>,
    pub avg_recoeff: Ratio,
    pub avg_purity: Ratio,
    pub avg_hiteff: Ratio,
}

impl Efficiency {
    /// The accumulator's invariant: the two reconstruction-efficiency
    /// percentages agree, and the total purity is defined exactly when a
    /// track was reconstructed or cloned.
    pub open spec fn wf(self) -> bool {
        &&& self.recoeff_t == self.avg_recoeff
        &&& (self.purity_t is Some <==> self.n_reco + self.n_clones > 0)
        &&& (self.n_particles == 0 ==> self.recoeff_t == Ratio::spec_zero())
        &&& self.recoeff_t.wf()
        &&& self.avg_purity.wf()
        &&& self.avg_hiteff.wf()
        &&& (self.purity_t matches Some(r) ==> r.wf())
    }

    /// A fresh accumulator with all counters zero.
    pub fn new(label: String) -> (r: Efficiency)
        ensures
            r.label@ == label@,
            r.n_particles == 0 && r.n_reco == 0 && r.n_pure == 0 && r.n_clones == 0,
            r.n_events == 0 && r.n_heff == 0 && r.n_hits == 0,
            r.recoeff_t == Ratio::spec_zero(),
            r.purity_t is None,
            r.avg_recoeff == Ratio::spec_zero(),
            r.avg_purity == Ratio::spec_zero(),
            r.avg_hiteff == Ratio::spec_zero(),
            r.wf(),
    {
        Efficiency {
            label,
            n_particles: 0,
            n_reco: 0,
            n_pure: 0,
            n_clones: 0,
            n_events: 0,
            n_heff: 0,
            n_hits: 0,
            recoeff_t: Ratio::zero(),
            purity_t: None,
            avg_recoeff: Ratio::zero(),
            avg_purity: Ratio::zero(),
            avg_hiteff: Ratio::zero(),
        }
    }

    /// Folds one event's associations into the accumulator.
    ///
    /// The counters take the event's reconstructed-track count, clone
    /// count, purity sum and hit-efficiency sum (saturating); the derived
    /// percentages are recomputed, except that `avg_purity` and
    /// `avg_hiteff` reflect this event alone and `recoeff_t` keeps its
    /// value while no particle was seen.
    pub fn add_event_internal(
        &mut self,
        t2p: &Vec<(Weight, Option<usize>)>,
        p2t: &Vec<(Weight, Option<usize>)>,
        pidx: &Vec<usize>,
        tracks: &Vec<Track>,
        event: &ValidatorEvent,
    )
        requires
            old(self).wf(),
            t2p.len() == tracks.len(),
            forall|i: int|
                0 <= i < t2p.len() ==> ((#[trigger] t2p@[i]).1 matches Some(jf) ==> jf
                    < pidx.len()),
            forall|k: int|
                0 <= k < pidx.len() ==> #[trigger] pidx@[k] < event.mcp_to_hits.len(),
        ensures
            final(self).wf(),
            final(self).label == old(self).label,
            final(self).n_events as int == sat64(old(self).n_events as int, 1),
            final(self).n_particles as int == sat64(
                old(self).n_particles as int,
                pidx.len() as int,
            ),
            final(self).n_reco as int == sat64(
                old(self).n_reco as int,
                recon_seq(p2t@).len() as int,
            ),
            final(self).n_clones as int == sat64(
                old(self).n_clones as int,
                clone_count(t2p@, pidx.len() as int),
            ),
            final(self).n_pure as int == sat64(old(self).n_pure as int, purity_sum(t2p@)),
            final(self).n_heff as int == sat64(
                old(self).n_heff as int,
                heff_sum(heff_table(t2p@, tracks@, pidx@, event.mcp_to_hits@)),
            ),
            final(self).n_hits as int == sat64(
                old(self).n_hits as int,
                heff_count(heff_table(t2p@, tracks@, pidx@, event.mcp_to_hits@)),
            ),
            final(self).recoeff_t == final(self).avg_recoeff,
            final(self).n_particles > 0 ==> final(self).avg_recoeff == (Ratio {
                num: (100 * final(self).n_reco) as u128,
                den: final(self).n_particles as u128,
            }),
            final(self).purity_t is Some <==> final(self).n_reco + final(self).n_clones > 0,
            final(self).purity_t matches Some(r) ==> r == (Ratio {
                num: (100 * final(self).n_pure) as u128,
                den: (EFF_SCALE * (final(self).n_reco + final(self).n_clones)) as u128,
            }),
            final(self).avg_purity == (if assoc_count(t2p@) > 0 {
                Ratio {
                    num: (100 * min_u64(purity_sum(t2p@))) as u128,
                    den: (EFF_SCALE * min_u64(assoc_count(t2p@))) as u128,
                }
            } else {
                Ratio::spec_zero()
            }),
            final(self).avg_hiteff == (if heff_count(
                heff_table(t2p@, tracks@, pidx@, event.mcp_to_hits@),
            ) > 0 {
                Ratio {
                    num: (100 * min_u64(
                        heff_sum(heff_table(t2p@, tracks@, pidx@, event.mcp_to_hits@)),
                    )) as u128,
                    den: (EFF_SCALE * min_u64(
                        heff_count(heff_table(t2p@, tracks@, pidx@, event.mcp_to_hits@)),
                    )) as u128,
                }
            } else {
                Ratio::spec_zero()
            }),
    {
        self.n_events = sat_add(self.n_events, 1);
        let nparticles_u64: u64 = pidx.len() as u64;
        self.n_particles = sat_add(self.n_particles, nparticles_u64);

        let reco = reconstructed(p2t);
        self.n_reco = sat_add(self.n_reco, reco.len() as u64);

        // Clones: for each particle with more than one associated track,
        // all but one of those tracks count.
        let mut clone_total: u64 = 0;
        let mut j: usize = 0;
        while j < pidx.len()
            invariant
                j <= pidx.len(),
                clone_total as int == min_u64(clone_count(t2p@, j as int)),
            decreases pidx.len() - j,
        {
            let mine = particle_tracks(t2p, j);
            if mine.len() >= 2 {
                clone_total = sat_add(clone_total, (mine.len() - 1) as u64);
            }
            j = j + 1;
        }
        self.n_clones = sat_add(self.n_clones, clone_total);
        proof {
            lemma_clone_count_nonneg(t2p@, pidx.len() as int);
        }

        // Purities of the associated tracks.
        let mut psum: u64 = 0;
        let mut pcount: u64 = 0;
        let mut i: usize = 0;
        while i < t2p.len()
            invariant
                i <= t2p.len(),
                psum as int == min_u64(purity_sum(t2p@.subrange(0, i as int))),
                pcount as int == min_u64(assoc_count(t2p@.subrange(0, i as int))),
            decreases t2p.len() - i,
        {
            proof {
                assert(t2p@.subrange(0, i + 1 as int).drop_last() =~= t2p@.subrange(0, i as int));
                assert(t2p@.subrange(0, i + 1 as int).last() == t2p@[i as int]);
                lemma_purity_sum_nonneg(t2p@.subrange(0, i as int));
                lemma_assoc_count_nonneg(t2p@.subrange(0, i as int));
            }
            if t2p[i].1.is_some() {
                let w = t2p[i].0;
                psum = sat_add(psum, scale_weight(&w));
                pcount = sat_add(pcount, 1);
            }
            i = i + 1;
        }
        proof {
            assert(t2p@.subrange(0, t2p@.len() as int) =~= t2p@);
            lemma_purity_sum_nonneg(t2p@);
            lemma_assoc_count_nonneg(t2p@);
        }
        self.n_pure = sat_add(self.n_pure, psum);

        // Hit efficiencies of the associated tracks.
        let effs = hit_efficiency(t2p, tracks, pidx, event);
        let ghost table = heff_table(t2p@, tracks@, pidx@, event.mcp_to_hits@);
        proof {
            assert(effs@ =~= table);
        }
        let mut hsum: u64 = 0;
        let mut hcount: u64 = 0;
        let mut i: usize = 0;
        while i < effs.len()
            invariant
                i <= effs.len(),
                hsum as int == min_u64(heff_sum(effs@.subrange(0, i as int))),
                hcount as int == min_u64(heff_count(effs@.subrange(0, i as int))),
            decreases effs.len() - i,
        {
            proof {
                assert(effs@.subrange(0, i + 1 as int).drop_last() =~= effs@.subrange(
                    0,
                    i as int,
                ));
                assert(effs@.subrange(0, i + 1 as int).last() == effs@[i as int]);
                lemma_heff_nonneg(effs@.subrange(0, i as int));
            }
            match effs[i] {
                Some(w) => {
                    hsum = sat_add(hsum, scale_weight(&w));
                    hcount = sat_add(hcount, 1);
                },
                None => {},
            }
            i = i + 1;
        }
        proof {
            assert(effs@.subrange(0, effs@.len() as int) =~= effs@);
            lemma_heff_nonneg(effs@);
        }
        self.n_heff = sat_add(self.n_heff, hsum);
        self.n_hits = sat_add(self.n_hits, hcount);

        // Derived percentages.
        if self.n_particles > 0 {
            let r = Ratio { num: 100u128 * (self.n_reco as u128), den: self.n_particles as u128 };
            self.avg_recoeff = r;
            self.recoeff_t = r;
        } else {
            self.avg_recoeff = Ratio::zero();
            self.recoeff_t = Ratio::zero();
        }
        if self.n_reco > 0 || self.n_clones > 0 {
            self.purity_t = Some(
                Ratio {
                    num: 100u128 * (self.n_pure as u128),
                    den: (EFF_SCALE as u128) * ((self.n_reco as u128) + (self.n_clones as u128)),
                },
            );
        }
        if pcount > 0 {
            self.avg_purity = Ratio {
                num: 100u128 * (psum as u128),
                den: (EFF_SCALE as u128) * (pcount as u128),
            };
        } else {
            self.avg_purity = Ratio::zero();
        }
        if hcount > 0 {
            self.avg_hiteff = Ratio {
                num: 100u128 * (hsum as u128),
                den: (EFF_SCALE as u128) * (hcount as u128),
            };
        } else {
            self.avg_hiteff = Ratio::zero();
        }
    }

    /// Field-wise combination of two accumulators: the raw counters add
    /// (saturating) and the derived percentages are recomputed from the
    /// sums.  The label of the receiver is kept.
    pub fn combine(self, other: &Efficiency) -> (r: Efficiency)
        ensures
            r == spec_combine(self, *other),
    {
        let n_particles = sat_add(self.n_particles, other.n_particles);
        let n_reco = sat_add(self.n_reco, other.n_reco);
        let n_pure = sat_add(self.n_pure, other.n_pure);
        let n_clones = sat_add(self.n_clones, other.n_clones);
        let n_events = sat_add(self.n_events, other.n_events);
        let n_heff = sat_add(self.n_heff, other.n_heff);
        let n_hits = sat_add(self.n_hits, other.n_hits);
        let recoeff = if n_particles > 0 {
            Ratio { num: 100u128 * (n_reco as u128), den: n_particles as u128 }
        } else {
            Ratio::zero()
        };
        let purity_t = if n_reco > 0 || n_clones > 0 {
            Some(
                Ratio {
                    num: 100u128 * (n_pure as u128),
                    den: (EFF_SCALE as u128) * ((n_reco as u128) + (n_clones as u128)),
                },
            )
        } else {
            None
        };
        let avg_hiteff = if n_hits > 0 {
            Ratio { num: 100u128 * (n_heff as u128), den: (EFF_SCALE as u128) * (n_hits as u128) }
        } else {
            Ratio::zero()
        };
        let avg_purity = match purity_t {
            Some(r) => r,
            None => Ratio::zero(),
        };
        Efficiency {
            label: self.label,
            n_particles,
            n_reco,
            n_pure,
            n_clones,
            n_events,
            n_heff,
            n_hits,
            recoeff_t: recoeff,
            purity_t,
            avg_recoeff: recoeff,
            avg_purity,
            avg_hiteff,
        }
    }
}

/// A value clamped into the `u64` range from below by zero saturation.
pub open spec fn min_u64(v: int) -> int {
    if v > u64::MAX as int {
        u64::MAX as int
    } else {
        v
    }
}

/// Clone counts are non-negative.
pub proof fn lemma_clone_count_nonneg(t2p: Seq<(Weight, Option<usize>)>, n: int)
    ensures
        clone_count(t2p, n) >= 0,
    decreases n,
{
    if n > 0 {
        lemma_clone_count_nonneg(t2p, n - 1);
    }
}

/// Purity sums are non-negative.
pub proof fn lemma_purity_sum_nonneg(t2p: Seq<(Weight, Option<usize>)>)
    ensures
        purity_sum(t2p) >= 0,
    decreases t2p.len(),
{
    if t2p.len() > 0 {
        lemma_purity_sum_nonneg(t2p.drop_last());
    }
}

/// Association counts are non-negative.
pub proof fn lemma_assoc_count_nonneg(t2p: Seq<(Weight, Option<usize>)>)
    ensures
        assoc_count(t2p) >= 0,
    decreases t2p.len(),
{
    if t2p.len() > 0 {
        lemma_assoc_count_nonneg(t2p.drop_last());
    }
}

/// Hit-efficiency sums and counts are non-negative.
pub proof fn lemma_heff_nonneg(effs: Seq<Option<Weight>>)
    ensures
        heff_sum(effs) >= 0,
        heff_count(effs) >= 0,
    decreases effs.len(),
{
    if effs.len() > 0 {
        lemma_heff_nonneg(effs.drop_last());
    }
}

/// What `combine` returns: saturating field-wise sums with the derived
/// percentages recomputed.
pub open spec fn spec_combine(a: Efficiency, b: Efficiency) -> Efficiency {
    let n_particles = sat64(a.n_particles as int, b.n_particles as int) as u64;
    let n_reco = sat64(a.n_reco as int, b.n_reco as int) as u64;
    let n_pure = sat64(a.n_pure as int, b.n_pure as int) as u64;
    let n_clones = sat64(a.n_clones as int, b.n_clones as int) as u64;
    let n_events = sat64(a.n_events as int, b.n_events as int) as u64;
    let n_heff = sat64(a.n_heff as int, b.n_heff as int) as u64;
    let n_hits = sat64(a.n_hits as int, b.n_hits as int) as u64;
    let recoeff = if n_particles > 0 {
        Ratio { num: (100 * n_reco) as u128, den: n_particles as u128 }
    } else {
        Ratio::spec_zero()
    };
    let purity_t = if n_reco > 0 || n_clones > 0 {
        Some(
            Ratio {
                num: (100 * n_pure) as u128,
                den: (EFF_SCALE * (n_reco + n_clones)) as u128,
            },
        )
    } else {
        None
    };
    Efficiency {
        label: a.label,
        n_particles,
        n_reco,
        n_pure,
        n_clones,
        n_events,
        n_heff,
        n_hits,
        recoeff_t: recoeff,
        purity_t,
        avg_recoeff: recoeff,
        avg_purity: match purity_t {
            Some(r) => r,
            None => Ratio::spec_zero(),
        },
        avg_hiteff: if n_hits > 0 {
            Ratio { num: (100 * n_heff) as u128, den: (EFF_SCALE * n_hits) as u128 }
        } else {
            Ratio::spec_zero()
        },
    }
}

/// Saturating addition of non-negative values is associative.
pub proof fn lemma_sat64_associative(a: int, b: int, c: int)
    requires
        0 <= a,
        0 <= b,
        0 <= c,
    ensures
        sat64(sat64(a, b), c) == sat64(a, sat64(b, c)),
{
}

/// Combining accumulators for the same category is commutative: the order
/// of the two operands does not change any counter or derived value.
pub proof fn lemma_combine_commutative(a: Efficiency, b: Efficiency)
    requires
        a.label == b.label,
    ensures
        spec_combine(a, b) == spec_combine(b, a),
{
}

/// Combining accumulators is associative: reducing a collection of
/// per-event accumulators in any grouping yields the same result.
pub proof fn lemma_combine_associative(a: Efficiency, b: Efficiency, c: Efficiency)
    ensures
        spec_combine(spec_combine(a, b), c) == spec_combine(a, spec_combine(b, c)),
{
    lemma_sat64_associative(a.n_particles as int, b.n_particles as int, c.n_particles as int);
    lemma_sat64_associative(a.n_reco as int, b.n_reco as int, c.n_reco as int);
    lemma_sat64_associative(a.n_pure as int, b.n_pure as int, c.n_pure as int);
    lemma_sat64_associative(a.n_clones as int, b.n_clones as int, c.n_clones as int);
    lemma_sat64_associative(a.n_events as int, b.n_events as int, c.n_events as int);
    lemma_sat64_associative(a.n_heff as int, b.n_heff as int, c.n_heff as int);
    lemma_sat64_associative(a.n_hits as int, b.n_hits as int, c.n_hits as int);
}

} // verus!
