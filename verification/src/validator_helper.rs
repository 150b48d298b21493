//! Validator core: the track-to-particle weight matrix, the purity
//! associations derived from it, and the ghost / reconstructed / clone /
//! hit-efficiency classifications.

use vstd::prelude::*;
use crate::event_model::{Hit, Track};
use crate::track_following::contains_usize;
use crate::validator_event::{seq_contains_usize, ValidatorEvent};

verus! {

/// An exact weight `num / den`; `den` is always positive.
#[derive(Clone, Copy, Debug, PartialEq, Eq, Structural)]
pub struct Weight {
    pub num: usize,
    pub den: usize,
}

impl Weight {
    pub open spec fn wf(self) -> bool {
        self.den >= 1
    }

    /// Strict rational order.
    pub open spec fn spec_lt(self, other: Weight) -> bool {
        self.num * other.den < other.num * self.den
    }

    /// The association threshold: `self > 7/10`.
    pub open spec fn spec_over_threshold(self) -> bool {
        10 * self.num > 7 * self.den
    }

    /// Exact rational comparison, free of overflow.
    pub fn lt(&self, other: &Weight) -> (r: bool)
        ensures
            r == self.spec_lt(*other),
    {
        proof {
            lemma_usize_product_fits(self.num as int, other.den as int);
            lemma_usize_product_fits(other.num as int, self.den as int);
        }
        (self.num as u128) * (other.den as u128) < (other.num as u128) * (self.den as u128)
    }

    /// Whether the weight clears the 0.7 association threshold.
    pub fn over_threshold(&self) -> (r: bool)
        ensures
            r == self.spec_over_threshold(),
    {
        10u128 * (self.num as u128) > 7u128 * (self.den as u128)
    }
}

/// A product of two `usize` values fits in `u128`.
pub proof fn lemma_usize_product_fits(a: int, b: int)
    by (nonlinear_arith)
    requires
        0 <= a <= u64::MAX as int,
        0 <= b <= u64::MAX as int,
    ensures
        0 <= a * b < u128::MAX as int,
{
}

/// A pushed element is contained; everything contained before stays so.
pub proof fn lemma_contains_push(s: Seq<usize>, x: usize, v: int)
    ensures
        seq_contains_usize(s.push(x), v) <==> (seq_contains_usize(s, v) || x == v),
{
    if seq_contains_usize(s.push(x), v) {
        let w = choose|w: int| 0 <= w < s.push(x).len() && s.push(x)[w] == v;
        if w < s.len() {
            assert(s[w] == v);
        }
    }
    if seq_contains_usize(s, v) {
        let w = choose|w: int| 0 <= w < s.len() && s[w] == v;
        assert(s.push(x)[w] == v);
    }
    if x == v {
        assert(s.push(x)[s.len() as int] == v);
    }
}

/// An error of the truth data: a track refers to a hit the event does not
/// know.
#[derive(Clone, Copy, Debug, PartialEq, Eq, Structural)]
pub enum ValidationError {
    HitNotInTruth { hit_id: usize },
}

/// Particle `j` owns hit `hid` according to the inverse truth map.
pub open spec fn attributed(h2m: Seq<Vec<usize>>, hid: int, j: int) -> bool {
    0 <= hid < h2m.len() && seq_contains_usize(h2m[hid]@, j)
}

/// How many hits of the track are attributable to particle `j`; a particle
/// is counted at most once per hit.
pub open spec fn row_count(th: Seq<Hit>, h2m: Seq<Vec<usize>>, j: int) -> int
    decreases th.len(),
{
    if th.len() == 0 {
        0
    } else {
        row_count(th.drop_last(), h2m, j) + if attributed(h2m, th.last().id as int, j) {
            1int
        } else {
            0int
        }
    }
}

/// The attribution count never exceeds the track length.
pub proof fn lemma_row_count_le(th: Seq<Hit>, h2m: Seq<Vec<usize>>, j: int)
    ensures
        0 <= row_count(th, h2m, j) <= th.len(),
    decreases th.len(),
{
    if th.len() > 0 {
        lemma_row_count_le(th.drop_last(), h2m, j);
    }
}

/// Every hit of the track is known to the truth map.
pub open spec fn track_ids_ok(t: Track, nhits: int) -> bool {
    forall|k: int| 0 <= k < t.hits.len() ==> (#[trigger] t.hits@[k]).id < nhits
}

/// The condition under which the weight matrix is defined: either there
/// are no particles, or every track of length at least two refers only to
/// hits the truth map covers.
pub open spec fn weights_input_ok(tracks: Seq<Track>, ev: ValidatorEvent) -> bool {
    ev.particles.len() == 0 || forall|i: int|
        0 <= i < tracks.len() ==> ((#[trigger] tracks[i]).hits.len() >= 2 ==> track_ids_ok(
            tracks[i],
            ev.hit_to_mcp.len() as int,
        ))
}

/// The weight-matrix entry as a value: zero for tracks of fewer than two
/// hits, else the attribution count over the track length.
pub open spec fn weight_of(t: Track, h2m: Seq<Vec<usize>>, j: int) -> Weight {
    if t.hits.len() < 2 {
        Weight { num: 0, den: 1 }
    } else {
        Weight { num: row_count(t.hits@, h2m, j) as usize, den: t.hits.len() as usize }
    }
}

/// A weight entry that satisfies the matrix relation is the matrix value.
pub proof fn lemma_weight_entry_is(w: Weight, t: Track, h2m: Seq<Vec<usize>>, j: int)
    requires
        weight_entry_ok(w, t, h2m, j),
    ensures
        w == weight_of(t, h2m, j),
{
    lemma_row_count_le(t.hits@, h2m, j);
}

/// What one entry of the weight matrix equals: zero for tracks of fewer
/// than two hits, else the attribution count over the track length.
pub open spec fn weight_entry_ok(w: Weight, t: Track, h2m: Seq<Vec<usize>>, j: int) -> bool {
    if t.hits.len() < 2 {
        w.num == 0 && w.den == 1
    } else {
        w.num == row_count(t.hits@, h2m, j) && w.den == t.hits.len()
    }
}

/// Builds the track-by-particle weight matrix
/// `W[i][j] = (hits of track i attributable to particle j) / |track i|`,
/// with a zero row for tracks of fewer than two hits.  Fails, naming the
/// offending hit, when a track of length at least two holds a hit that the
/// event's truth map does not cover; with no particles the matrix of empty
/// rows is returned without that check.
pub fn comp_weights(tracks: &Vec<Track>, event: &ValidatorEvent) -> (r: Result<
    Vec<Vec<Weight>>,
    ValidationError,
>)
    requires
        event.wf(),
    ensures
        r is Ok <==> weights_input_ok(tracks@, *event),
        r matches Ok(w) ==> {
            &&& w.len() == tracks.len()
            &&& forall|i: int|
                0 <= i < w.len() ==> (#[trigger] w@[i]).len() == event.particles.len()
            &&& forall|i: int, j: int|
                #![trigger w@[i]@[j]]
                0 <= i < w.len() && 0 <= j < event.particles.len() ==> weight_entry_ok(
                    w@[i]@[j],
                    tracks@[i],
                    event.hit_to_mcp@,
                    j,
                ) && w@[i]@[j].wf()
        },
        r matches Err(e) ==> {
            &&& e matches ValidationError::HitNotInTruth { hit_id } ==> exists|i: int, k: int|
                #![auto]
                0 <= i < tracks.len() && 0 <= k < tracks@[i].hits.len() && tracks@[i].hits@[k].id
                    == hit_id && hit_id >= event.hit_to_mcp.len()
        },
{
    let nparticles = event.particles.len();
    let mut weights: Vec<Vec<Weight>> = Vec::new();
    if nparticles == 0 {
        let mut i: usize = 0;
        while i < tracks.len()
            invariant
                i <= tracks.len(),
                weights.len() == i,
                forall|k: int| 0 <= k < i ==> (#[trigger] weights@[k]).len() == 0,
            decreases tracks.len() - i,
        {
            weights.push(Vec::new());
            i = i + 1;
        }
        return Ok(weights);
    }

    let mut i: usize = 0;
    while i < tracks.len()
        invariant
            event.wf(),
            nparticles == event.particles.len(),
            nparticles >= 1,
            i <= tracks.len(),
            weights.len() == i,
            forall|k: int| 0 <= k < i ==> (#[trigger] weights@[k]).len() == nparticles,
            forall|k: int, j: int|
                #![trigger weights@[k]@[j]]
                0 <= k < i && 0 <= j < nparticles ==> weight_entry_ok(
                    weights@[k]@[j],
                    tracks@[k],
                    event.hit_to_mcp@,
                    j,
                ) && weights@[k]@[j].wf(),
            forall|k: int|
                0 <= k < i ==> ((#[trigger] tracks@[k]).hits.len() >= 2 ==> track_ids_ok(
                    tracks@[k],
                    event.hit_to_mcp.len() as int,
                )),
        decreases tracks.len() - i,
    {
        let track = &tracks[i];
        let nhits = track.hits.len();
        if nhits < 2 {
            let mut row: Vec<Weight> = Vec::new();
            let mut j: usize = 0;
            while j < nparticles
                invariant
                    j <= nparticles,
                    row.len() == j,
                    forall|k: int|
                        0 <= k < j ==> #[trigger] row@[k] == (Weight { num: 0, den: 1 }),
                decreases nparticles - j,
            {
                row.push(Weight { num: 0, den: 1 });
                j = j + 1;
            }
            weights.push(row);
        } else {
            // Count, per particle, the attributable hits of this track.
            let mut counts: Vec<usize> = Vec::new();
            let mut j: usize = 0;
            while j < nparticles
                invariant
                    j <= nparticles,
                    counts.len() == j,
                    forall|k: int| 0 <= k < j ==> #[trigger] counts@[k] == 0,
                decreases nparticles - j,
            {
                counts.push(0);
                j = j + 1;
            }
            proof {
                assert forall|j: int| 0 <= j < nparticles implies counts@[j] == row_count(
                    track.hits@.subrange(0, 0),
                    event.hit_to_mcp@,
                    j,
                ) by {
                    assert(track.hits@.subrange(0, 0) =~= Seq::<Hit>::empty());
                }
            }
            let mut pos: usize = 0;
            while pos < nhits
                invariant
                    event.wf(),
                    nparticles == event.particles.len(),
                    nparticles >= 1,
                    track == &tracks[i as int],
                    i < tracks.len(),
                    nhits == track.hits.len(),
                    nhits >= 2,
                    pos <= nhits,
                    counts.len() == nparticles,
                    forall|j: int|
                        0 <= j < nparticles ==> #[trigger] counts@[j] == row_count(
                            track.hits@.subrange(0, pos as int),
                            event.hit_to_mcp@,
                            j,
                        ),
                    forall|k: int| 0 <= k < pos ==> (#[trigger] track.hits@[k]).id
                        < event.hit_to_mcp.len(),
                decreases nhits - pos,
            {
                let hid = track.hits[pos].id;
                if hid >= event.hit_to_mcp.len() {
                    proof {
                        assert(tracks@[i as int].hits@[pos as int].id == hid);
                        assert(!track_ids_ok(tracks@[i as int], event.hit_to_mcp.len() as int));
                    }
                    return Err(ValidationError::HitNotInTruth { hit_id: hid });
                }
                let owners = &event.hit_to_mcp[hid];
                let ghost pre_counts = counts@;
                let ghost prefix = track.hits@.subrange(0, pos as int);
                let mut seen: Vec<usize> = Vec::new();
                let mut k: usize = 0;
                while k < owners.len()
                    invariant
                        owners == &event.hit_to_mcp[hid as int],
                        hid < event.hit_to_mcp.len(),
                        event.wf(),
                        nparticles == event.particles.len(),
                        k <= owners.len(),
                        counts.len() == nparticles,
                        forall|j: int|
                            0 <= j < seen@.len() ==> #[trigger] seen@[j] < nparticles,
                        forall|j: int|
                            0 <= j < nparticles ==> (seq_contains_usize(seen@, j)
                                <==> seq_contains_usize(owners@.subrange(0, k as int), j)),
                        forall|j: int|
                            0 <= j < nparticles ==> #[trigger] counts@[j] == pre_counts[j] + (
                            if seq_contains_usize(seen@, j) {
                                1int
                            } else {
                                0int
                            }),
                        forall|j: int|
                            0 <= j < nparticles ==> pre_counts[j] == row_count(
                                prefix,
                                event.hit_to_mcp@,
                                j,
                            ),
                        prefix.len() == pos < nhits,
                    decreases owners.len() - k,
                {
                    let j = owners[k];
                    let ghost pre_seen = seen@;
                    let in_seen = contains_usize(&seen, j);
                    if !in_seen {
                        seen.push(j);
                        proof {
                            lemma_row_count_le(prefix, event.hit_to_mcp@, j as int);
                        }
                        let cj = counts[j];
                        counts.set(j, cj + 1);
                    }
                    proof {
                        assert(owners@.subrange(0, k + 1 as int) =~= owners@.subrange(
                            0,
                            k as int,
                        ).push(owners@[k as int]));
                        if !in_seen {
                            assert(seen@ == pre_seen.push(j));
                        }
                        assert forall|j2: int| 0 <= j2 < nparticles implies (seq_contains_usize(
                            seen@,
                            j2,
                        ) <==> seq_contains_usize(owners@.subrange(0, k + 1 as int), j2)) by {
                            lemma_contains_push(owners@.subrange(0, k as int), owners@[k as int], j2);
                            if !in_seen {
                                lemma_contains_push(pre_seen, j, j2);
                            }
                        }
                        assert forall|j2: int| 0 <= j2 < nparticles implies #[trigger] counts@[j2]
                            == pre_counts[j2] + (if seq_contains_usize(seen@, j2) {
                            1int
                        } else {
                            0int
                        }) by {
                            if !in_seen {
                                lemma_contains_push(pre_seen, j, j2);
                            }
                        }
                    }
                    k = k + 1;
                }
                proof {
                    assert(owners@.subrange(0, owners@.len() as int) =~= owners@);
                    assert(track.hits@.subrange(0, pos + 1 as int).drop_last() =~= prefix);
                    assert(track.hits@.subrange(0, pos + 1 as int).last()
                        == track.hits@[pos as int]);
                }
                pos = pos + 1;
            }
            let mut row: Vec<Weight> = Vec::new();
            let mut j: usize = 0;
            proof {
                assert(track.hits@.subrange(0, nhits as int) =~= track.hits@);
            }
            while j < nparticles
                invariant
                    j <= nparticles,
                    row.len() == j,
                    nhits == track.hits.len() >= 2,
                    counts.len() == nparticles,
                    forall|k: int|
                        0 <= k < nparticles ==> #[trigger] counts@[k] == row_count(
                            track.hits@,
                            event.hit_to_mcp@,
                            k,
                        ),
                    forall|k: int|
                        0 <= k < j ==> #[trigger] row@[k] == (Weight {
                            num: counts@[k],
                            den: nhits,
                        }),
                decreases nparticles - j,
            {
                row.push(Weight { num: counts[j], den: nhits });
                j = j + 1;
            }
            weights.push(row);
        }
        i = i + 1;
    }
    Ok(weights)
}

/// The index of the first maximal weight of the row (ties keep the
/// earlier index).
pub open spec fn argmax_prefix(row: Seq<Weight>) -> int
    decreases row.len(),
{
    if row.len() <= 1 {
        0
    } else {
        let a = argmax_prefix(row.drop_last());
        if row[a].spec_lt(row.last()) {
            row.len() - 1
        } else {
            a
        }
    }
}

/// The argmax index stays inside the row.
pub proof fn lemma_argmax_in_range(row: Seq<Weight>)
    requires
        row.len() >= 1,
    ensures
        0 <= argmax_prefix(row) < row.len(),
    decreases row.len(),
{
    if row.len() > 1 {
        lemma_argmax_in_range(row.drop_last());
    }
}

/// The track-to-particle association of track `i`: its maximal weight,
/// and the first particle attaining it when it clears the threshold.
pub open spec fn t2p_entry(row: Seq<Weight>) -> (Weight, Option<usize>) {
    if row.len() == 0 {
        (Weight { num: 0, den: 1 }, None)
    } else {
        let a = argmax_prefix(row);
        let w = row[a];
        (w, if w.spec_over_threshold() {
            Some(a as usize)
        } else {
            None
        })
    }
}

/// The rows of a weight matrix as mathematical sequences.
pub open spec fn matrix_view(ws: Seq<Vec<Weight>>) -> Seq<Seq<Weight>> {
    ws.map(|i: int, row: Vec<Weight>| row@)
}

/// The particle-to-track association of particle `j`: scanning the
/// tracks, keep the first weight strictly above all earlier ones, starting
/// from zero; associate when the maximum clears the threshold.
pub open spec fn p2t_scan(ws: Seq<Seq<Weight>>, j: int) -> (Weight, Option<usize>)
    decreases ws.len(),
{
    if ws.len() == 0 {
        (Weight { num: 0, den: 1 }, None)
    } else {
        let (bw, bi) = p2t_scan(ws.drop_last(), j);
        if bw.spec_lt(ws.last()[j]) {
            (ws.last()[j], Some((ws.len() - 1) as usize))
        } else {
            (bw, bi)
        }
    }
}

/// The final particle-to-track entry, with the threshold applied.
pub open spec fn p2t_entry(ws: Seq<Seq<Weight>>, j: int) -> (Weight, Option<usize>) {
    let (bw, bi) = p2t_scan(ws, j);
    (bw, if bw.spec_over_threshold() {
        bi
    } else {
        None
    })
}

/// Computes the two purity associations from the weight matrix.
///
/// `t2p[i]` carries track `i`'s maximal weight over the particles and,
/// when it exceeds 0.7, the first particle attaining it.  `p2t[j]`
/// carries particle `j`'s maximal weight over the tracks and, when it
/// exceeds 0.7, the first track attaining it.
pub fn hit_purity(
    tracks: &Vec<Track>,
    nparticles: usize,
    weights: &Vec<Vec<Weight>>,
) -> (r: (Vec<(Weight, Option<usize>)>, Vec<(Weight, Option<usize>)>))
    requires
        weights.len() == tracks.len(),
        forall|i: int| 0 <= i < weights.len() ==> (#[trigger] weights@[i]).len() == nparticles,
    ensures
        r.0.len() == tracks.len(),
        r.1.len() == nparticles,
        forall|i: int| 0 <= i < r.0.len() ==> #[trigger] r.0@[i] == t2p_entry(weights@[i]@),
        forall|j: int| 0 <= j < r.1.len() ==> #[trigger] r.1@[j] == p2t_entry(matrix_view(weights@), j),
        forall|i: int|
            0 <= i < r.0.len() ==> ((#[trigger] r.0@[i]).1 matches Some(j) ==> j < nparticles),
        forall|j: int|
            0 <= j < r.1.len() ==> ((#[trigger] r.1@[j]).1 matches Some(t) ==> t < tracks.len()),
{
    let mut t2p: Vec<(Weight, Option<usize>)> = Vec::new();
    let mut i: usize = 0;
    while i < tracks.len()
        invariant
            weights.len() == tracks.len(),
            forall|k: int|
                0 <= k < weights.len() ==> (#[trigger] weights@[k]).len() == nparticles,
            i <= tracks.len(),
            t2p.len() == i,
            forall|k: int| 0 <= k < i ==> #[trigger] t2p@[k] == t2p_entry(weights@[k]@),
            forall|k: int|
                0 <= k < i ==> ((#[trigger] t2p@[k]).1 matches Some(j) ==> j < nparticles),
        decreases tracks.len() - i,
    {
        let row = &weights[i];
        if row.len() == 0 {
            t2p.push((Weight { num: 0, den: 1 }, None));
        } else {
            let mut best: usize = 0;
            let mut j: usize = 1;
            while j < row.len()
                invariant
                    row.len() >= 1,
                    1 <= j <= row.len(),
                    best < j,
                    best as int == argmax_prefix(row@.subrange(0, j as int)),
                decreases row.len() - j,
            {
                proof {
                    assert(row@.subrange(0, j + 1 as int).drop_last() =~= row@.subrange(
                        0,
                        j as int,
                    ));
                    lemma_argmax_in_range(row@.subrange(0, j as int));
                }
                if row[best].lt(&row[j]) {
                    best = j;
                }
                j = j + 1;
            }
            proof {
                assert(row@.subrange(0, row@.len() as int) =~= row@);
            }
            let w = row[best];
            if w.over_threshold() {
                t2p.push((w, Some(best)));
            } else {
                t2p.push((w, None));
            }
        }
        i = i + 1;
    }

    let mut p2t: Vec<(Weight, Option<usize>)> = Vec::new();
    let mut j: usize = 0;
    while j < nparticles
        invariant
            weights.len() == tracks.len(),
            forall|k: int|
                0 <= k < weights.len() ==> (#[trigger] weights@[k]).len() == nparticles,
            j <= nparticles,
            p2t.len() == j,
            forall|k: int| 0 <= k < j ==> #[trigger] p2t@[k] == p2t_entry(matrix_view(weights@), k),
            forall|k: int|
                0 <= k < j ==> ((#[trigger] p2t@[k]).1 matches Some(t) ==> t < tracks.len()),
        decreases nparticles - j,
    {
        let mut best_w = Weight { num: 0, den: 1 };
        let mut best_t: Option<usize> = None;
        let mut i: usize = 0;
        while i < tracks.len()
            invariant
                weights.len() == tracks.len(),
                forall|k: int|
                    0 <= k < weights.len() ==> (#[trigger] weights@[k]).len() == nparticles,
                j < nparticles,
                i <= tracks.len(),
                (best_w, best_t) == p2t_scan(matrix_view(weights@).subrange(0, i as int), j as int),
                best_t matches Some(t) ==> t < i,
            decreases tracks.len() - i,
        {
            proof {
                assert(matrix_view(weights@).subrange(0, i + 1 as int).drop_last()
                    =~= matrix_view(weights@).subrange(0, i as int));
                assert(matrix_view(weights@).subrange(0, i + 1 as int).last()
                    == weights@[i as int]@);
            }
            let w = weights[i][j];
            if best_w.lt(&w) {
                best_w = w;
                best_t = Some(i);
            }
            i = i + 1;
        }
        proof {
            assert(matrix_view(weights@).subrange(0, matrix_view(weights@).len() as int)
                =~= matrix_view(weights@));
        }
        if best_w.over_threshold() {
            p2t.push((best_w, best_t));
        } else {
            p2t.push((best_w, None));
        }
        j = j + 1;
    }
    (t2p, p2t)
}

/// The indices of the unassociated ("ghost") tracks, in ascending order.
pub open spec fn ghost_seq(t2p: Seq<(Weight, Option<usize>)>) -> Seq<usize>
    decreases t2p.len(),
{
    if t2p.len() == 0 {
        Seq::empty()
    } else {
        let rest = ghost_seq(t2p.drop_last());
        if t2p.last().1 is None {
            rest.push((t2p.len() - 1) as usize)
        } else {
            rest
        }
    }
}

/// Returns the ghost tracks: the indices of the tracks with no associated
/// particle.
pub fn ghosts(t2p: &Vec<(Weight, Option<usize>)>) -> (r: Vec<usize>)
    ensures
        r@ == ghost_seq(t2p@),
{
    let mut out: Vec<usize> = Vec::new();
    let mut i: usize = 0;
    while i < t2p.len()
        invariant
            i <= t2p.len(),
            out@ == ghost_seq(t2p@.subrange(0, i as int)),
        decreases t2p.len() - i,
    {
        proof {
            assert(t2p@.subrange(0, i + 1 as int).drop_last() =~= t2p@.subrange(0, i as int));
            assert(t2p@.subrange(0, i + 1 as int).last() == t2p@[i as int]);
        }
        if t2p[i].1.is_none() {
            out.push(i);
        }
        i = i + 1;
    }
    proof {
        assert(t2p@.subrange(0, t2p@.len() as int) =~= t2p@);
    }
    out
}

/// There are never more ghosts than tracks.
pub proof fn lemma_ghosts_le(t2p: Seq<(Weight, Option<usize>)>)
    ensures
        0 <= ghost_seq(t2p).len() <= t2p.len(),
    decreases t2p.len(),
{
    if t2p.len() > 0 {
        lemma_ghosts_le(t2p.drop_last());
    }
}

/// The ghost rate: the fraction of tracks with no associated particle
/// (zero when there are no tracks), together with the ghost count.
pub fn ghost_rate(t2p: &Vec<(Weight, Option<usize>)>) -> (r: (Weight, usize))
    ensures
        r.1 == ghost_seq(t2p@).len(),
        r.0 == (if t2p.len() > 0 {
            Weight { num: ghost_seq(t2p@).len() as usize, den: t2p.len() }
        } else {
            Weight { num: 0, den: 1 }
        }),
        r.0.wf(),
{
    let g = ghosts(t2p);
    let nghosts = g.len();
    if t2p.len() > 0 {
        (Weight { num: nghosts, den: t2p.len() }, nghosts)
    } else {
        (Weight { num: 0, den: 1 }, nghosts)
    }
}

/// The distinct reconstructed tracks: every track some particle is
/// associated with, in first-appearance order.
pub open spec fn recon_seq(p2t: Seq<(Weight, Option<usize>)>) -> Seq<usize>
    decreases p2t.len(),
{
    if p2t.len() == 0 {
        Seq::empty()
    } else {
        let rest = recon_seq(p2t.drop_last());
        match p2t.last().1 {
            Some(t) => if seq_contains_usize(rest, t as int) {
                rest
            } else {
                rest.push(t)
            },
            None => rest,
        }
    }
}

/// Returns the set of reconstructed tracks: the indices of the tracks
/// associated with at least one particle, each listed once.
pub fn reconstructed(p2t: &Vec<(Weight, Option<usize>)>) -> (r: Vec<usize>)
    ensures
        r@ == recon_seq(p2t@),
{
    let mut out: Vec<usize> = Vec::new();
    let mut j: usize = 0;
    while j < p2t.len()
        invariant
            j <= p2t.len(),
            out@ == recon_seq(p2t@.subrange(0, j as int)),
        decreases p2t.len() - j,
    {
        proof {
            assert(p2t@.subrange(0, j + 1 as int).drop_last() =~= p2t@.subrange(0, j as int));
            assert(p2t@.subrange(0, j + 1 as int).last() == p2t@[j as int]);
        }
        if let Some(t) = t2p_opt(&p2t[j]) {
            if !contains_usize(&out, t) {
                out.push(t);
            }
        }
        j = j + 1;
    }
    proof {
        assert(p2t@.subrange(0, p2t@.len() as int) =~= p2t@);
    }
    out
}

/// The optional index of an association entry.
fn t2p_opt(e: &(Weight, Option<usize>)) -> (r: Option<usize>)
    ensures
        r == e.1,
{
    match e.1 {
        Some(t) => Some(t),
        None => None,
    }
}

/// The tracks associated with particle `j`, in ascending order.
pub open spec fn tracks_of_particle(t2p: Seq<(Weight, Option<usize>)>, j: int) -> Seq<usize>
    decreases t2p.len(),
{
    if t2p.len() == 0 {
        Seq::empty()
    } else {
        let rest = tracks_of_particle(t2p.drop_last(), j);
        match t2p.last().1 {
            Some(p) => if p == j {
                rest.push((t2p.len() - 1) as usize)
            } else {
                rest
            },
            None => rest,
        }
    }
}

/// The total clone count: for every particle associated with more than
/// one track, all but one of those tracks are clones.
pub open spec fn clone_count(t2p: Seq<(Weight, Option<usize>)>, nparticles: int) -> int
    decreases nparticles,
{
    if nparticles <= 0 {
        0
    } else {
        let n = tracks_of_particle(t2p, nparticles - 1).len();
        clone_count(t2p, nparticles - 1) + if n >= 2 {
            n - 1
        } else {
            0int
        }
    }
}

/// Returns, for each particle associated with more than one track, the
/// particle index and its associated tracks.
pub fn clones(t2p: &Vec<(Weight, Option<usize>)>, nparticles: usize) -> (r: Vec<(
    usize,
    Vec<usize>,
)>)
    ensures
        forall|k: int|
            0 <= k < r.len() ==> {
                &&& (#[trigger] r@[k]).0 < nparticles
                &&& r@[k].1@ == tracks_of_particle(t2p@, r@[k].0 as int)
                &&& r@[k].1@.len() >= 2
            },
        forall|k1: int, k2: int| 0 <= k1 < k2 < r.len() ==> (#[trigger] r@[k1]).0 < (
        #[trigger] r@[k2]).0,
        forall|j: int|
            0 <= j < nparticles && tracks_of_particle(t2p@, j).len() >= 2 ==> exists|k: int|
                0 <= k < r.len() && (#[trigger] r@[k]).0 == j,
{
    let mut out: Vec<(usize, Vec<usize>)> = Vec::new();
    let mut j: usize = 0;
    while j < nparticles
        invariant
            j <= nparticles,
            forall|k: int|
                0 <= k < out.len() ==> {
                    &&& (#[trigger] out@[k]).0 < j
                    &&& out@[k].1@ == tracks_of_particle(t2p@, out@[k].0 as int)
                    &&& out@[k].1@.len() >= 2
                },
            forall|k1: int, k2: int| 0 <= k1 < k2 < out.len() ==> (#[trigger] out@[k1]).0 < (
            #[trigger] out@[k2]).0,
            forall|jj: int|
                0 <= jj < j && tracks_of_particle(t2p@, jj).len() >= 2 ==> exists|k: int|
                    0 <= k < out.len() && (#[trigger] out@[k]).0 == jj,
        decreases nparticles - j,
    {
        let mine = particle_tracks(t2p, j);
        let ghost pre_out = out@;
        let had_clones = mine.len() >= 2;
        if had_clones {
            out.push((j, mine));
        }
        proof {
            assert forall|jj: int|
                0 <= jj < j + 1 && tracks_of_particle(t2p@, jj).len() >= 2 implies exists|k: int|
                0 <= k < out.len() && (#[trigger] out@[k]).0 == jj by {
                if jj < j {
                    let k = choose|k: int| 0 <= k < pre_out.len() && (#[trigger] pre_out[k]).0
                        == jj;
                    assert(out@[k].0 == jj);
                } else {
                    assert(out@[out@.len() - 1].0 == jj);
                }
            }
        }
        j = j + 1;
    }
    out
}

/// Collects the tracks associated with one particle.
pub fn particle_tracks(t2p: &Vec<(Weight, Option<usize>)>, j: usize) -> (r: Vec<usize>)
    ensures
        r@ == tracks_of_particle(t2p@, j as int),
{
    let mut out: Vec<usize> = Vec::new();
    let mut i: usize = 0;
    while i < t2p.len()
        invariant
            i <= t2p.len(),
            out@ == tracks_of_particle(t2p@.subrange(0, i as int), j as int),
        decreases t2p.len() - i,
    {
        proof {
            assert(t2p@.subrange(0, i + 1 as int).drop_last() =~= t2p@.subrange(0, i as int));
            assert(t2p@.subrange(0, i + 1 as int).last() == t2p@[i as int]);
        }
        match t2p_opt(&t2p[i]) {
            Some(p) => {
                if p == j {
                    out.push(i);
                }
            },
            None => {},
        }
        i = i + 1;
    }
    proof {
        assert(t2p@.subrange(0, t2p@.len() as int) =~= t2p@);
    }
    out
}

/// Some hit of the sequence has the given id.
pub open spec fn id_among(hits: Seq<Hit>, id: int) -> bool {
    exists|k: int| 0 <= k < hits.len() && hits[k].id == id
}

/// The number of distinct hit ids in the sequence.
pub open spec fn distinct_id_count(ph: Seq<Hit>) -> int
    decreases ph.len(),
{
    if ph.len() == 0 {
        0
    } else {
        distinct_id_count(ph.drop_last()) + if id_among(ph.drop_last(), ph.last().id as int) {
            0int
        } else {
            1int
        }
    }
}

/// How many hits of the track (by position) carry an id of the particle's
/// hit list.
pub open spec fn hits_on_particle(th: Seq<Hit>, ph: Seq<Hit>) -> int
    decreases th.len(),
{
    if th.len() == 0 {
        0
    } else {
        hits_on_particle(th.drop_last(), ph) + if id_among(ph, th.last().id as int) {
            1int
        } else {
            0int
        }
    }
}

/// Both counts are bounded by the lengths of their sequences.
pub proof fn lemma_eff_counts_bounded(th: Seq<Hit>, ph: Seq<Hit>)
    ensures
        0 <= hits_on_particle(th, ph) <= th.len(),
        0 <= distinct_id_count(ph) <= ph.len(),
    decreases th.len() + ph.len(),
{
    if th.len() > 0 {
        lemma_eff_counts_bounded(th.drop_last(), ph);
    } else if ph.len() > 0 {
        lemma_eff_counts_bounded(th, ph.drop_last());
    }
}

/// What the hit-efficiency table holds for one track: nothing for an
/// unassociated track or an associated particle without hits; otherwise
/// the fraction of the particle's distinct hits that the track contains.
pub open spec fn hit_eff_entry(
    e: (Weight, Option<usize>),
    t: Track,
    pidx: Seq<usize>,
    m2h: Seq<Vec<Hit>>,
) -> Option<Weight> {
    match e.1 {
        Some(jf) => {
            let jo = pidx[jf as int];
            let den = distinct_id_count(m2h[jo as int]@);
            if den > 0 {
                Some(
                    Weight {
                        num: hits_on_particle(t.hits@, m2h[jo as int]@) as usize,
                        den: den as usize,
                    },
                )
            } else {
                None
            }
        },
        None => None,
    }
}

/// Whether any of the first `upto` hits carries the id.
fn id_among_exec(hits: &Vec<Hit>, upto: usize, id: usize) -> (r: bool)
    requires
        upto <= hits.len(),
    ensures
        r == id_among(hits@.subrange(0, upto as int), id as int),
{
    let mut k: usize = 0;
    while k < upto
        invariant
            k <= upto <= hits.len(),
            forall|m: int| 0 <= m < k ==> (#[trigger] hits@[m]).id != id,
        decreases upto - k,
    {
        if hits[k].id == id {
            proof {
                assert(hits@.subrange(0, upto as int)[k as int].id == id);
            }
            return true;
        }
        k = k + 1;
    }
    proof {
        if id_among(hits@.subrange(0, upto as int), id as int) {
            let w = choose|w: int|
                0 <= w < upto && hits@.subrange(0, upto as int)[w].id == id;
            assert(hits@[w].id == id);
            assert(false);
        }
    }
    false
}

/// Counts the distinct hit ids of a particle's hit list.
fn count_distinct_ids(ph: &Vec<Hit>) -> (c: usize)
    ensures
        c == distinct_id_count(ph@),
{
    let mut c: usize = 0;
    let mut k: usize = 0;
    while k < ph.len()
        invariant
            k <= ph.len(),
            c == distinct_id_count(ph@.subrange(0, k as int)),
        decreases ph.len() - k,
    {
        proof {
            assert(ph@.subrange(0, k + 1 as int).drop_last() =~= ph@.subrange(0, k as int));
            assert(ph@.subrange(0, k + 1 as int).last() == ph@[k as int]);
            lemma_eff_counts_bounded(Seq::<Hit>::empty(), ph@.subrange(0, k as int));
        }
        if !id_among_exec(ph, k, ph[k].id) {
            c = c + 1;
        }
        k = k + 1;
    }
    proof {
        assert(ph@.subrange(0, ph@.len() as int) =~= ph@);
    }
    c
}

/// Counts the track hits that lie on the particle.
fn count_hits_on(th: &Vec<Hit>, ph: &Vec<Hit>) -> (c: usize)
    ensures
        c == hits_on_particle(th@, ph@),
{
    let mut c: usize = 0;
    let mut k: usize = 0;
    while k < th.len()
        invariant
            k <= th.len(),
            c == hits_on_particle(th@.subrange(0, k as int), ph@),
        decreases th.len() - k,
    {
        proof {
            assert(th@.subrange(0, k + 1 as int).drop_last() =~= th@.subrange(0, k as int));
            assert(th@.subrange(0, k + 1 as int).last() == th@[k as int]);
            lemma_eff_counts_bounded(th@.subrange(0, k as int), ph@);
            assert(ph@.subrange(0, ph@.len() as int) =~= ph@);
        }
        if id_among_exec(ph, ph.len(), th[k].id) {
            c = c + 1;
        }
        k = k + 1;
    }
    proof {
        assert(th@.subrange(0, th@.len() as int) =~= th@);
    }
    c
}

/// Computes, per track, the hit efficiency of its associated particle:
/// the fraction of the particle's distinct hits that the track contains.
/// `t2p` is the association over the filtered particles; `pidx` maps each
/// filtered particle back to its index among the event's particles.
pub fn hit_efficiency(
    t2p: &Vec<(Weight, Option<usize>)>,
    tracks: &Vec<Track>,
    pidx: &Vec<usize>,
    event: &ValidatorEvent,
) -> (r: Vec<Option<Weight>>)
    requires
        t2p.len() == tracks.len(),
        forall|i: int|
            0 <= i < t2p.len() ==> ((#[trigger] t2p@[i]).1 matches Some(jf) ==> jf < pidx.len()),
        forall|k: int| 0 <= k < pidx.len() ==> #[trigger] pidx@[k] < event.mcp_to_hits.len(),
    ensures
        r.len() == tracks.len(),
        forall|i: int|
            0 <= i < r.len() ==> #[trigger] r@[i] == hit_eff_entry(
                t2p@[i],
                tracks@[i],
                pidx@,
                event.mcp_to_hits@,
            ),
{
    let mut out: Vec<Option<Weight>> = Vec::new();
    let mut i: usize = 0;
    while i < tracks.len()
        invariant
            t2p.len() == tracks.len(),
            forall|k: int|
                0 <= k < t2p.len() ==> ((#[trigger] t2p@[k]).1 matches Some(jf) ==> jf
                    < pidx.len()),
            forall|k: int| 0 <= k < pidx.len() ==> #[trigger] pidx@[k] < event.mcp_to_hits.len(),
            i <= tracks.len(),
            out.len() == i,
            forall|k: int|
                0 <= k < i ==> #[trigger] out@[k] == hit_eff_entry(
                    t2p@[k],
                    tracks@[k],
                    pidx@,
                    event.mcp_to_hits@,
                ),
        decreases tracks.len() - i,
    {
        match t2p_opt(&t2p[i]) {
            Some(jf) => {
                let jo = pidx[jf];
                let ph = &event.mcp_to_hits[jo];
                let den = count_distinct_ids(ph);
                if den > 0 {
                    let num = count_hits_on(&tracks[i].hits, ph);
                    out.push(Some(Weight { num, den }));
                } else {
                    out.push(None);
                }
            },
            None => {
                out.push(None);
            },
        }
        i = i + 1;
    }
    out
}

/// No hit is owned by two different particles.
pub open spec fn particles_disjoint(h2m: Seq<Vec<usize>>) -> bool {
    forall|hid: int, j1: int, j2: int|
        0 <= hid < h2m.len() && j1 != j2 ==> !(#[trigger] seq_contains_usize(h2m[hid]@, j1)
            && #[trigger] seq_contains_usize(h2m[hid]@, j2))
}

/// How many of the first `n` particles own hit `hid`.
pub open spec fn attr_count(h2m: Seq<Vec<usize>>, hid: int, n: int) -> int
    decreases n,
{
    if n <= 0 {
        0
    } else {
        attr_count(h2m, hid, n - 1) + if attributed(h2m, hid, n - 1) {
            1int
        } else {
            0int
        }
    }
}

/// With disjoint particles, a hit is owned by at most one of them.
pub proof fn lemma_attr_count_le_one(h2m: Seq<Vec<usize>>, hid: int, n: int)
    requires
        particles_disjoint(h2m),
    ensures
        0 <= attr_count(h2m, hid, n) <= 1,
        attr_count(h2m, hid, n) == 1 <==> exists|j: int| 0 <= j < n && attributed(h2m, hid, j),
    decreases n,
{
    if n > 0 {
        lemma_attr_count_le_one(h2m, hid, n - 1);
        if attributed(h2m, hid, n - 1) {
            if attr_count(h2m, hid, n - 1) == 1 {
                let j = choose|j: int| 0 <= j < n - 1 && attributed(h2m, hid, j);
                assert(false);
            }
            assert(attributed(h2m, hid, n - 1));
        }
    }
}

/// The sum of one weight-matrix row's attribution counts over the first
/// `n` particles.
pub open spec fn row_sum(th: Seq<Hit>, h2m: Seq<Vec<usize>>, n: int) -> int
    decreases n,
{
    if n <= 0 {
        0
    } else {
        row_sum(th, h2m, n - 1) + row_count(th, h2m, n - 1)
    }
}

/// An empty track contributes nothing, whatever the particle count.
pub proof fn lemma_row_sum_empty(th: Seq<Hit>, h2m: Seq<Vec<usize>>, n: int)
    requires
        th.len() == 0,
    ensures
        row_sum(th, h2m, n) == 0,
    decreases n,
{
    if n > 0 {
        lemma_row_sum_empty(th, h2m, n - 1);
    }
}

/// Splitting the last hit off a row sum.
pub proof fn lemma_row_sum_last(th: Seq<Hit>, h2m: Seq<Vec<usize>>, n: int)
    requires
        th.len() > 0,
    ensures
        row_sum(th, h2m, n) == row_sum(th.drop_last(), h2m, n) + attr_count(
            h2m,
            th.last().id as int,
            n,
        ),
    decreases n,
{
    if n > 0 {
        lemma_row_sum_last(th, h2m, n - 1);
    }
}

/// When the particles share no hit, the attribution counts of a track
/// over all particles sum to at most the track's length: each weight row
/// of `comp_weights` sums to at most one.
pub proof fn lemma_row_sum_disjoint(th: Seq<Hit>, h2m: Seq<Vec<usize>>, n: int)
    requires
        particles_disjoint(h2m),
    ensures
        row_sum(th, h2m, n) <= th.len(),
    decreases th.len(),
{
    if th.len() == 0 {
        lemma_row_sum_empty(th, h2m, n);
    } else {
        lemma_row_sum_last(th, h2m, n);
        lemma_row_sum_disjoint(th.drop_last(), h2m, n);
        lemma_attr_count_le_one(h2m, th.last().id as int, n);
    }
}

/// The sum of the numerators of a weight row.
pub open spec fn num_sum(row: Seq<Weight>) -> int
    decreases row.len(),
{
    if row.len() == 0 {
        0
    } else {
        num_sum(row.drop_last()) + row.last().num
    }
}

/// The weight-matrix law: when particles own disjoint hit sets, every row
/// of the matrix built by `comp_weights` sums to at most one — the
/// numerators sum to at most the shared denominator.
pub proof fn lemma_weight_row_sums_at_most_one(
    t: Track,
    h2m: Seq<Vec<usize>>,
    row: Seq<Weight>,
)
    requires
        particles_disjoint(h2m),
        forall|j: int| 0 <= j < row.len() ==> weight_entry_ok(#[trigger] row[j], t, h2m, j),
    ensures
        t.hits.len() < 2 ==> num_sum(row) == 0,
        t.hits.len() >= 2 ==> num_sum(row) <= t.hits.len(),
    decreases row.len(),
{
    lemma_num_sum_is_row_sum(t, h2m, row, row.len() as int);
    lemma_row_sum_disjoint(t.hits@, h2m, row.len() as int);
}

/// The numerator sum of a `comp_weights` row equals the row sum of the
/// attribution counts (or zero for a short track).
proof fn lemma_num_sum_is_row_sum(t: Track, h2m: Seq<Vec<usize>>, row: Seq<Weight>, n: int)
    requires
        n == row.len(),
        forall|j: int| 0 <= j < row.len() ==> weight_entry_ok(#[trigger] row[j], t, h2m, j),
    ensures
        t.hits.len() < 2 ==> num_sum(row) == 0,
        t.hits.len() >= 2 ==> num_sum(row) == row_sum(t.hits@, h2m, n),
    decreases n,
{
    if n > 0 {
        assert(row.drop_last().len() == n - 1);
        assert forall|j: int| 0 <= j < row.drop_last().len() implies weight_entry_ok(
            #[trigger] row.drop_last()[j],
            t,
            h2m,
            j,
        ) by {
            assert(row.drop_last()[j] == row[j]);
        }
        lemma_num_sum_is_row_sum(t, h2m, row.drop_last(), n - 1);
        assert(row.last() == row[n - 1]);
    }
}


} // verus!
