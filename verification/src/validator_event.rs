//! The validator's view of an event: the hits plus the truth mappings
//! between particles and hits, in both directions.

use vstd::prelude::*;
use crate::event_model::Hit;
use crate::mc_particles::MCParticle;

verus! {

/// A sequence of indices contains the value.
pub open spec fn seq_contains_usize(s: Seq<usize>, v: int) -> bool {
    exists|k: int| 0 <= k < s.len() && s[k] == v
}

/// Event data as the validator consumes it.  `particles`, `mcp_to_hits`
/// are aligned: entry `j` of `mcp_to_hits` lists the hits of particle `j`.
/// `hit_to_mcp` is the derived inverse: entry `h` lists the indices of the
/// particles owning hit `h`.
#[derive(Clone, Debug)]
pub struct ValidatorEvent {
    pub module_prefix_sum: Vec<usize>,
    pub hit_xs: Vec<i64>,
    pub hit_ys: Vec<i64>,
    pub hit_zs: Vec<i64>,
    pub hits: Vec<Hit>,
    pub particles: Vec<MCParticle>,
    pub mcp_to_hits: Vec<Vec<Hit>>,
    pub hit_to_mcp: Vec<Vec<usize>>,
}

impl ValidatorEvent {
    /// The two truth mappings agree: every hit of the event is a key of
    /// the inverse map, and a particle is listed under a hit exactly when
    /// that hit appears in the particle's own list.
    pub open spec fn wf(self) -> bool {
        &&& self.mcp_to_hits.len() == self.particles.len()
        &&& self.hit_to_mcp.len() == self.hits.len()
        &&& forall|i: int| 0 <= i < self.hits.len() ==> (#[trigger] self.hits@[i]).id == i
        &&& forall|h: int, k: int|
            #![trigger self.hit_to_mcp@[h]@[k]]
            0 <= h < self.hit_to_mcp.len() && 0 <= k < self.hit_to_mcp@[h]@.len()
                ==> self.hit_to_mcp@[h]@[k] < self.particles.len()
        &&& forall|h: int, j: int|
            #![trigger seq_contains_usize(self.hit_to_mcp@[h]@, j)]
            0 <= h < self.hit_to_mcp.len() && 0 <= j < self.particles.len() ==> (
            seq_contains_usize(self.hit_to_mcp@[h]@, j) <==> exists|k: int|
                0 <= k < self.mcp_to_hits@[j]@.len() && (#[trigger] self.mcp_to_hits@[j]@[k]).id
                    == h)
    }

    /// Builds the validator event, deriving the inverse mapping
    /// `hit_to_mcp` from `mcp_to_hits`: particle `j` is listed under hit
    /// `h` when `h` appears among `mcp_to_hits[j]` (once, regardless of
    /// multiplicity).  Hits of a particle that are not hits of the event
    /// are ignored.
    ///
    /// The hits must carry `id == index`; `mcp_to_hits` must be aligned
    /// with `particles`.
    pub fn new(
        module_prefix_sum: Vec<usize>,
        hit_xs: Vec<i64>,
        hit_ys: Vec<i64>,
        hit_zs: Vec<i64>,
        hits: Vec<Hit>,
        particles: Vec<MCParticle>,
        mcp_to_hits: Vec<Vec<Hit>>,
    ) -> (r: ValidatorEvent)
        requires
            mcp_to_hits.len() == particles.len(),
            forall|i: int| 0 <= i < hits.len() ==> (#[trigger] hits@[i]).id == i,
        ensures
            r.wf(),
            r.module_prefix_sum@ == module_prefix_sum@,
            r.hit_xs@ == hit_xs@,
            r.hit_ys@ == hit_ys@,
            r.hit_zs@ == hit_zs@,
            r.hits@ == hits@,
            r.particles@ == particles@,
            r.mcp_to_hits@ == mcp_to_hits@,
    {
        let mut hit_to_mcp: Vec<Vec<usize>> = Vec::new();
        let mut h: usize = 0;
        while h < hits.len()
            invariant
                h <= hits.len(),
                hit_to_mcp.len() == h,
                mcp_to_hits.len() == particles.len(),
                forall|i: int| 0 <= i < hits.len() ==> (#[trigger] hits@[i]).id == i,
                forall|hh: int, k: int|
                    #![trigger hit_to_mcp@[hh]@[k]]
                    0 <= hh < h && 0 <= k < hit_to_mcp@[hh]@.len() ==> hit_to_mcp@[hh]@[k]
                        < particles.len(),
                forall|hh: int, j: int|
                    #![trigger seq_contains_usize(hit_to_mcp@[hh]@, j)]
                    0 <= hh < h && 0 <= j < particles.len() ==> (seq_contains_usize(
                        hit_to_mcp@[hh]@,
                        j,
                    ) <==> exists|k: int|
                        0 <= k < mcp_to_hits@[j]@.len() && (#[trigger] mcp_to_hits@[j]@[k]).id
                            == hh),
            decreases hits.len() - h,
        {
            let mut owners: Vec<usize> = Vec::new();
            let mut j: usize = 0;
            while j < particles.len()
                invariant
                    j <= particles.len(),
                    mcp_to_hits.len() == particles.len(),
                    forall|k: int| 0 <= k < owners@.len() ==> #[trigger] owners@[k] < j,
                    forall|jj: int|
                        0 <= jj < j ==> (seq_contains_usize(owners@, jj) <==> exists|k: int|
                            0 <= k < mcp_to_hits@[jj]@.len() && (
                            #[trigger] mcp_to_hits@[jj]@[k]).id == h),
                decreases particles.len() - j,
            {
                let phits = &mcp_to_hits[j];
                let mut listed = false;
                let mut k: usize = 0;
                while k < phits.len()
                    invariant
                        k <= phits.len(),
                        phits == &mcp_to_hits[j as int],
                        listed <==> exists|kk: int|
                            0 <= kk < k && (#[trigger] phits@[kk]).id == h,
                    decreases phits.len() - k,
                {
                    if phits[k].id == h {
                        listed = true;
                    }
                    k = k + 1;
                }
                let ghost pre_owners = owners@;
                if listed {
                    owners.push(j);
                }
                proof {
                    assert forall|jj: int| 0 <= jj < j + 1 implies (seq_contains_usize(
                        owners@,
                        jj,
                    ) <==> exists|k: int|
                        0 <= k < mcp_to_hits@[jj]@.len() && (#[trigger] mcp_to_hits@[jj]@[k]).id
                            == h as int) by {
                        if jj < j {
                            assert(seq_contains_usize(pre_owners, jj) <==> exists|k: int|
                                0 <= k < mcp_to_hits@[jj]@.len() && (
                                #[trigger] mcp_to_hits@[jj]@[k]).id == h as int);
                            if listed {
                                assert(seq_contains_usize(owners@, jj) <==> seq_contains_usize(
                                    pre_owners,
                                    jj,
                                )) by {
                                    assert(owners@ == pre_owners.push(j as usize));
                                    assert(forall|k: int|
                                        0 <= k < pre_owners.len() ==> owners@[k] == #[trigger]
                                        pre_owners[k]);
                                    assert(owners@[owners@.len() - 1] == j as usize);
                                }
                            }
                        } else {
                            if listed {
                                assert(owners@[owners@.len() - 1] == j as usize);
                                assert(seq_contains_usize(owners@, jj));
                            } else {
                                if seq_contains_usize(owners@, jj) {
                                    let k = choose|k: int|
                                        0 <= k < owners@.len() && owners@[k] == jj;
                                    assert(owners@[k] < j);
                                    assert(false);
                                }
                            }
                        }
                    }
                }
                j = j + 1;
            }
            hit_to_mcp.push(owners);
            h = h + 1;
        }
        let ev = ValidatorEvent {
            module_prefix_sum,
            hit_xs,
            hit_ys,
            hit_zs,
            hits,
            particles,
            mcp_to_hits,
            hit_to_mcp,
        };
        proof {
            assert(ev.mcp_to_hits.len() == ev.particles.len());
            assert(ev.hit_to_mcp.len() == ev.hits.len());
            assert(forall|i: int| 0 <= i < ev.hits.len() ==> (#[trigger] ev.hits@[i]).id == i);
            assert(forall|h: int, k: int|
                #![trigger ev.hit_to_mcp@[h]@[k]]
                0 <= h < ev.hit_to_mcp.len() && 0 <= k < ev.hit_to_mcp@[h]@.len()
                    ==> ev.hit_to_mcp@[h]@[k] < ev.particles.len());
            assert(forall|h: int, j: int|
                #![trigger seq_contains_usize(ev.hit_to_mcp@[h]@, j)]
                0 <= h < ev.hit_to_mcp.len() && 0 <= j < ev.particles.len() ==> (
                seq_contains_usize(ev.hit_to_mcp@[h]@, j) <==> exists|k: int|
                    0 <= k < ev.mcp_to_hits@[j]@.len() && (#[trigger] ev.mcp_to_hits@[j]@[k]).id
                        == h));
        }
        ev
    }

    /// The hit with the given id, if the event has one.
    pub fn get_hit(&self, hit_id: usize) -> (r: Option<Hit>)
        ensures
            r == (if hit_id < self.hits.len() {
                Some(self.hits@[hit_id as int])
            } else {
                Option::<Hit>::None
            }),
    {
        if hit_id < self.hits.len() {
            Some(self.hits[hit_id])
        } else {
            None
        }
    }
}

} // verus!
