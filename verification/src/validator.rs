//! The validation surface: particle categories, per-category accumulation
//! across events, and the summary reports.

use vstd::prelude::*;
use crate::event_model::Track;
use crate::efficiency::{sat64, sat_add, Efficiency, Ratio, EFF_SCALE};
use crate::mc_particles::MCParticle;
use crate::validator_event::ValidatorEvent;
use crate::validator_helper::{
    comp_weights, ghost_rate, hit_purity, weights_input_ok, ValidationError, Weight,
};

verus! {

/// The closed set of particle categories.  Every category excludes
/// electrons (`|pid| == 11`).
#[derive(Clone, Copy, Debug, PartialEq, Eq, Structural)]
pub enum Category {
    Velo,
    Long,
    LongOver5,
    LongStrange,
    LongStrangeOver5,
    LongFromB,
    LongFromBOver5,
}

/// Whether the particle belongs to the category.
pub open spec fn cat_pred(c: Category, p: MCParticle) -> bool {
    let not_electron = p.pid != 11 && p.pid != -11;
    match c {
        Category::Velo => p.isvelo && not_electron,
        Category::Long => p.islong && not_electron,
        Category::LongOver5 => p.islong && p.over5 && not_electron,
        Category::LongStrange => p.islong && p.strange && not_electron,
        Category::LongStrangeOver5 => p.islong && p.over5 && p.strange && not_electron,
        Category::LongFromB => p.islong && p.fromb && not_electron,
        Category::LongFromBOver5 => p.islong && p.over5 && p.fromb && not_electron,
    }
}

/// Decides category membership.
pub fn category_matches(c: Category, p: &MCParticle) -> (r: bool)
    ensures
        r == cat_pred(c, *p),
{
    let not_electron = p.pid != 11 && p.pid != -11;
    match c {
        Category::Velo => p.isvelo && not_electron,
        Category::Long => p.islong && not_electron,
        Category::LongOver5 => p.islong && p.over5 && not_electron,
        Category::LongStrange => p.islong && p.strange && not_electron,
        Category::LongStrangeOver5 => p.islong && p.over5 && p.strange && not_electron,
        Category::LongFromB => p.islong && p.fromb && not_electron,
        Category::LongFromBOver5 => p.islong && p.over5 && p.fromb && not_electron,
    }
}

/// The category a label names, if any.
pub open spec fn spec_category_of(name: Seq<char>) -> Option<Category> {
    if name == "velo"@ {
        Some(Category::Velo)
    } else if name == "long"@ {
        Some(Category::Long)
    } else if name == "long>5GeV"@ {
        Some(Category::LongOver5)
    } else if name == "long_strange"@ {
        Some(Category::LongStrange)
    } else if name == "long_strange>5GeV"@ {
        Some(Category::LongStrangeOver5)
    } else if name == "long_fromb"@ {
        Some(Category::LongFromB)
    } else if name == "long_fromb>5GeV"@ {
        Some(Category::LongFromBOver5)
    } else {
        None
    }
}

/// Parses a category label; an unknown label yields nothing (and so an
/// always-false category predicate downstream).
pub fn category_from_label(label: &str) -> (r: Option<Category>)
    ensures
        r == spec_category_of(label@),
{
    let owned = label.to_owned();
    if owned == "velo".to_owned() {
        Some(Category::Velo)
    } else if owned == "long".to_owned() {
        Some(Category::Long)
    } else if owned == "long>5GeV".to_owned() {
        Some(Category::LongOver5)
    } else if owned == "long_strange".to_owned() {
        Some(Category::LongStrange)
    } else if owned == "long_strange>5GeV".to_owned() {
        Some(Category::LongStrangeOver5)
    } else if owned == "long_fromb".to_owned() {
        Some(Category::LongFromB)
    } else if owned == "long_fromb>5GeV".to_owned() {
        Some(Category::LongFromBOver5)
    } else {
        None
    }
}

/// The canonical label of a category.
pub open spec fn category_label_spec(c: Category) -> Seq<char> {
    match c {
        Category::Velo => "velo"@,
        Category::Long => "long"@,
        Category::LongOver5 => "long>5GeV"@,
        Category::LongStrange => "long_strange"@,
        Category::LongStrangeOver5 => "long_strange>5GeV"@,
        Category::LongFromB => "long_fromb"@,
        Category::LongFromBOver5 => "long_fromb>5GeV"@,
    }
}

/// The display label of a category.
pub fn category_label(c: Category) -> (r: String)
    ensures
        r@ == category_label_spec(c),
{
    match c {
        Category::Velo => "velo".to_owned(),
        Category::Long => "long".to_owned(),
        Category::LongOver5 => "long>5GeV".to_owned(),
        Category::LongStrange => "long_strange".to_owned(),
        Category::LongStrangeOver5 => "long_strange>5GeV".to_owned(),
        Category::LongFromB => "long_fromb".to_owned(),
        Category::LongFromBOver5 => "long_fromb>5GeV".to_owned(),
    }
}

/// The indices of the particles belonging to the category, ascending.
pub open spec fn filtered_indices(ps: Seq<MCParticle>, c: Category) -> Seq<usize>
    decreases ps.len(),
{
    if ps.len() == 0 {
        Seq::empty()
    } else {
        let rest = filtered_indices(ps.drop_last(), c);
        if cat_pred(c, ps.last()) {
            rest.push((ps.len() - 1) as usize)
        } else {
            rest
        }
    }
}

/// Every filtered index is a valid particle index.
pub proof fn lemma_filtered_in_range(ps: Seq<MCParticle>, c: Category)
    ensures
        forall|k: int|
            0 <= k < filtered_indices(ps, c).len() ==> #[trigger] filtered_indices(ps, c)[k]
                < ps.len(),
    decreases ps.len(),
{
    if ps.len() > 0 {
        lemma_filtered_in_range(ps.drop_last(), c);
        let rest = filtered_indices(ps.drop_last(), c);
        let whole = filtered_indices(ps, c);
        assert forall|k: int| 0 <= k < whole.len() implies #[trigger] whole[k] < ps.len() by {
            if k < rest.len() {
                assert(whole[k] == rest[k]);
            }
        }
    }
}

/// The weight matrix restricted to the category's particle columns, as a
/// mathematical value.
pub open spec fn filtered_matrix(
    tracks: Seq<Track>,
    h2m: Seq<Vec<usize>>,
    pidx: Seq<usize>,
) -> Seq<Seq<Weight>> {
    Seq::new(
        tracks.len(),
        |i: int|
            Seq::new(
                pidx.len(),
                |j: int| crate::validator_helper::weight_of(tracks[i], h2m, pidx[j] as int),
            ),
    )
}

/// The particle-to-track association table of the filtered matrix.
pub open spec fn p2t_table(
    tracks: Seq<Track>,
    h2m: Seq<Vec<usize>>,
    pidx: Seq<usize>,
) -> Seq<(Weight, Option<usize>)> {
    Seq::new(
        pidx.len(),
        |j: int| crate::validator_helper::p2t_entry(filtered_matrix(tracks, h2m, pidx), j),
    )
}

/// The track-to-particle association table of the filtered matrix.
pub open spec fn t2p_cat_table(
    tracks: Seq<Track>,
    h2m: Seq<Vec<usize>>,
    pidx: Seq<usize>,
) -> Seq<(Weight, Option<usize>)> {
    Seq::new(
        tracks.len(),
        |i: int| crate::validator_helper::t2p_entry(filtered_matrix(tracks, h2m, pidx)[i]),
    )
}

/// How many distinct tracks the category's particles are associated with
/// in one event.
pub open spec fn event_reco_count(tracks: Seq<Track>, ev: ValidatorEvent, cat: Category) -> int {
    crate::validator_helper::recon_seq(
        p2t_table(tracks, ev.hit_to_mcp@, filtered_indices(ev.particles@, cat)),
    ).len() as int
}

/// The reconstruction counters accumulated over the first `k` events:
/// the reconstructed-track total and the particle total of the category,
/// each a saturating sum, skipping events without category particles.
pub open spec fn reco_fold(
    events: Seq<ValidatorEvent>,
    tpe: Seq<Vec<Track>>,
    cat: Category,
    k: int,
) -> (int, int)
    decreases k,
{
    if k <= 0 {
        (0, 0)
    } else {
        let (r, p) = reco_fold(events, tpe, cat, k - 1);
        let fidx = filtered_indices(events[k - 1].particles@, cat);
        if fidx.len() == 0 {
            (r, p)
        } else {
            (
                sat64(r, event_reco_count(tpe[k - 1]@, events[k - 1], cat)),
                sat64(p, fidx.len() as int),
            )
        }
    }
}

/// The full track-by-particle weight matrix of one event, as a
/// mathematical value.
pub open spec fn full_matrix(tracks: Seq<Track>, ev: ValidatorEvent) -> Seq<Seq<Weight>> {
    Seq::new(
        tracks.len(),
        |i: int|
            Seq::new(
                ev.particles.len() as nat,
                |j: int| crate::validator_helper::weight_of(tracks[i], ev.hit_to_mcp@, j),
            ),
    )
}

/// The track-to-particle association table over all particles of one
/// event.
pub open spec fn t2p_full_table(tracks: Seq<Track>, ev: ValidatorEvent) -> Seq<(
    Weight,
    Option<usize>,
)> {
    Seq::new(
        tracks.len(),
        |i: int| crate::validator_helper::t2p_entry(full_matrix(tracks, ev)[i]),
    )
}

/// How many tracks of one event are ghosts: tracks with no associated
/// particle.
pub open spec fn event_ghost_count(tracks: Seq<Track>, ev: ValidatorEvent) -> int {
    crate::validator_helper::ghost_seq(t2p_full_table(tracks, ev)).len() as int
}

/// The track and ghost totals over the first `k` events, as saturating
/// sums.
pub open spec fn ghost_fold(
    events: Seq<ValidatorEvent>,
    tpe: Seq<Vec<Track>>,
    k: int,
) -> (int, int)
    decreases k,
{
    if k <= 0 {
        (0, 0)
    } else {
        let (t, g) = ghost_fold(events, tpe, k - 1);
        (
            sat64(t, tpe[k - 1]@.len() as int),
            sat64(g, event_ghost_count(tpe[k - 1]@, events[k - 1])),
        )
    }
}

/// Selects the particles of the category.
fn filter_particles(particles: &Vec<MCParticle>, c: Category) -> (r: Vec<usize>)
    ensures
        r@ == filtered_indices(particles@, c),
        forall|k: int| 0 <= k < r.len() ==> #[trigger] r@[k] < particles.len(),
{
    let mut out: Vec<usize> = Vec::new();
    let mut i: usize = 0;
    while i < particles.len()
        invariant
            i <= particles.len(),
            out@ == filtered_indices(particles@.subrange(0, i as int), c),
        decreases particles.len() - i,
    {
        proof {
            assert(particles@.subrange(0, i + 1 as int).drop_last() =~= particles@.subrange(
                0,
                i as int,
            ));
            assert(particles@.subrange(0, i + 1 as int).last() == particles@[i as int]);
        }
        if category_matches(c, &particles[i]) {
            out.push(i);
        }
        i = i + 1;
    }
    proof {
        assert(particles@.subrange(0, particles@.len() as int) =~= particles@);
        lemma_filtered_in_range(particles@, c);
    }
    out
}

/// Projects the weight matrix onto the chosen particle columns.
fn project_weights(weights: &Vec<Vec<Weight>>, pidx: &Vec<usize>, ncols: usize) -> (r: Vec<Vec<
    Weight,
>>)
    requires
        forall|i: int| 0 <= i < weights.len() ==> (#[trigger] weights@[i]).len() == ncols,
        forall|k: int| 0 <= k < pidx.len() ==> #[trigger] pidx@[k] < ncols,
    ensures
        r.len() == weights.len(),
        forall|i: int| 0 <= i < r.len() ==> (#[trigger] r@[i]).len() == pidx.len(),
        forall|i: int, j: int|
            #![trigger r@[i]@[j]]
            0 <= i < r.len() && 0 <= j < pidx.len() ==> r@[i]@[j] == weights@[i]@[pidx@[j] as int],
{
    let mut out: Vec<Vec<Weight>> = Vec::new();
    let mut i: usize = 0;
    while i < weights.len()
        invariant
            forall|k: int| 0 <= k < weights.len() ==> (#[trigger] weights@[k]).len() == ncols,
            forall|k: int| 0 <= k < pidx.len() ==> #[trigger] pidx@[k] < ncols,
            i <= weights.len(),
            out.len() == i,
            forall|k: int| 0 <= k < i ==> (#[trigger] out@[k]).len() == pidx.len(),
            forall|k: int, j: int|
                #![trigger out@[k]@[j]]
                0 <= k < i && 0 <= j < pidx.len() ==> out@[k]@[j] == weights@[k]@[pidx@[j] as int],
        decreases weights.len() - i,
    {
        let row = &weights[i];
        let mut newrow: Vec<Weight> = Vec::new();
        let mut j: usize = 0;
        while j < pidx.len()
            invariant
                forall|k: int| 0 <= k < pidx.len() ==> #[trigger] pidx@[k] < ncols,
                row == &weights[i as int],
                i < weights.len(),
                row.len() == ncols,
                j <= pidx.len(),
                newrow.len() == j,
                forall|k: int|
                    0 <= k < j ==> #[trigger] newrow@[k] == weights@[i as int]@[pidx@[k] as int],
            decreases pidx.len() - j,
        {
            newrow.push(row[pidx[j]]);
            j = j + 1;
        }
        out.push(newrow);
        i = i + 1;
    }
    out
}

/// Accumulates one event into the category's accumulator: the particles
/// of the category are selected, the weight matrix is projected onto
/// them, the purity associations are computed, and the accumulator is
/// advanced.  An event without particles of the category leaves the
/// accumulator untouched (and absent if it was absent).
pub fn update_efficiencies(
    eff: Option<Efficiency>,
    event: &ValidatorEvent,
    tracks: &Vec<Track>,
    weights: &Vec<Vec<Weight>>,
    label: &str,
    cat: Category,
) -> (r: Option<Efficiency>)
    requires
        event.wf(),
        weights.len() == tracks.len(),
        forall|i: int|
            0 <= i < weights.len() ==> (#[trigger] weights@[i]).len() == event.particles.len(),
        forall|i: int, j: int|
            #![trigger weights@[i]@[j]]
            0 <= i < weights.len() && 0 <= j < event.particles.len()
                ==> crate::validator_helper::weight_entry_ok(
                weights@[i]@[j],
                tracks@[i],
                event.hit_to_mcp@,
                j,
            ),
        eff matches Some(e) ==> e.wf(),
    ensures
        filtered_indices(event.particles@, cat).len() == 0 ==> r == eff,
        filtered_indices(event.particles@, cat).len() > 0 ==> r is Some,
        filtered_indices(event.particles@, cat).len() > 0 ==> (r matches Some(e)
            ==> e.n_particles > 0),
        r matches Some(e) ==> e.wf(),
        r matches Some(e) ==> (match eff {
            Some(e0) => e.label == e0.label && e.n_events as int == (
            if filtered_indices(event.particles@, cat).len() == 0 {
                e0.n_events as int
            } else {
                sat64(e0.n_events as int, 1)
            }),
            None => e.label@ == label@ && e.n_events == 1,
        }),
        filtered_indices(event.particles@, cat).len() > 0 ==> (r matches Some(e) ==> {
            let old_reco: int = match eff {
                Some(e0) => e0.n_reco as int,
                None => 0,
            };
            let old_particles: int = match eff {
                Some(e0) => e0.n_particles as int,
                None => 0,
            };
            &&& e.n_reco as int == sat64(
                old_reco,
                event_reco_count(tracks@, *event, cat),
            )
            &&& e.n_particles as int == sat64(
                old_particles,
                filtered_indices(event.particles@, cat).len() as int,
            )
        }),
        filtered_indices(event.particles@, cat).len() > 0 ==> (r matches Some(e) ==> {
            let fidx = filtered_indices(event.particles@, cat);
            let t2pt = t2p_cat_table(tracks@, event.hit_to_mcp@, fidx);
            let htab = crate::efficiency::heff_table(
                t2pt,
                tracks@,
                fidx,
                event.mcp_to_hits@,
            );
            let old_clones: int = match eff {
                Some(e0) => e0.n_clones as int,
                None => 0,
            };
            let old_pure: int = match eff {
                Some(e0) => e0.n_pure as int,
                None => 0,
            };
            let old_heff: int = match eff {
                Some(e0) => e0.n_heff as int,
                None => 0,
            };
            let old_hits: int = match eff {
                Some(e0) => e0.n_hits as int,
                None => 0,
            };
            &&& e.n_clones as int == sat64(
                old_clones,
                crate::validator_helper::clone_count(t2pt, fidx.len() as int),
            )
            &&& e.n_pure as int == sat64(
                old_pure,
                crate::efficiency::purity_sum(t2pt),
            )
            &&& e.n_heff as int == sat64(old_heff, crate::efficiency::heff_sum(htab))
            &&& e.n_hits as int == sat64(old_hits, crate::efficiency::heff_count(htab))
        }),
{
    let pidx = filter_particles(&event.particles, cat);
    if pidx.len() == 0 {
        return eff;
    }
    let weights_filtered = project_weights(weights, &pidx, event.particles.len());
    let (t2p, p2t) = hit_purity(tracks, pidx.len(), &weights_filtered);
    proof {
        assert forall|k: int| 0 <= k < pidx.len() implies #[trigger] pidx@[k]
            < event.mcp_to_hits.len() by {
            assert(pidx@[k] < event.particles.len());
        }
        // The projected matrix is the filtered matrix of the category.
        let fm = filtered_matrix(tracks@, event.hit_to_mcp@, pidx@);
        assert(crate::validator_helper::matrix_view(weights_filtered@) =~~= fm) by {
            assert forall|i: int, j: int|
                #![trigger fm[i][j]]
                0 <= i < tracks@.len() && 0 <= j < pidx@.len()
                    implies weights_filtered@[i]@[j] == fm[i][j] by {
                assert(weights_filtered@[i]@[j] == weights@[i]@[pidx@[j] as int]);
                crate::validator_helper::lemma_weight_entry_is(
                    weights@[i]@[pidx@[j] as int],
                    tracks@[i],
                    event.hit_to_mcp@,
                    pidx@[j] as int,
                );
            }
        }
        // So the association tables are the specified ones.
        assert(p2t@ =~= p2t_table(tracks@, event.hit_to_mcp@, pidx@));
        assert(t2p@ =~= t2p_cat_table(tracks@, event.hit_to_mcp@, pidx@)) by {
            assert forall|i: int| 0 <= i < tracks@.len() implies t2p@[i]
                == crate::validator_helper::t2p_entry(fm[i]) by {
                assert(t2p@[i] == crate::validator_helper::t2p_entry(weights_filtered@[i]@));
                assert(crate::validator_helper::matrix_view(weights_filtered@)[i]
                    == weights_filtered@[i]@);
            }
        }
    }
    match eff {
        Some(mut e) => {
            e.add_event_internal(&t2p, &p2t, &pidx, tracks, event);
            Some(e)
        },
        None => {
            let mut e = Efficiency::new(label.to_owned());
            e.add_event_internal(&t2p, &p2t, &pidx, tracks, event);
            Some(e)
        },
    }
}

/// Accumulates the requested category over all events and returns the
/// total reconstruction efficiency as an exact ratio in `[0, 1]`
/// (`recoeff_t / 100`, that is `n_reco / n_particles`): the number of
/// distinct tracks associated with the category's particles over the
/// number of those particles, both summed over the events.  An unknown
/// category label, or a category never seen, yields zero.  Fails exactly
/// when some event's weight matrix is undefined.
pub fn validate_efficiency(
    events: &Vec<ValidatorEvent>,
    tracks_per_event: &Vec<Vec<Track>>,
    particle_type: &str,
) -> (r: Result<Ratio, ValidationError>)
    requires
        events.len() == tracks_per_event.len(),
        forall|k: int| 0 <= k < events.len() ==> (#[trigger] events@[k]).wf(),
    ensures
        r is Ok <==> forall|k: int|
            0 <= k < events.len() ==> weights_input_ok(
                (#[trigger] tracks_per_event@[k])@,
                events@[k],
            ),
        r matches Ok(v) ==> v.wf(),
        spec_category_of(particle_type@) is None && r is Ok ==> r == Result::<
            Ratio,
            ValidationError,
        >::Ok(Ratio::spec_zero()),
        r matches Ok(v) ==> (spec_category_of(particle_type@) matches Some(c) ==> {
            let (nr, np) = reco_fold(events@, tracks_per_event@, c, events.len() as int);
            v == (if np > 0 {
                Ratio { num: nr as u128, den: np as u128 }
            } else {
                Ratio::spec_zero()
            })
        }),
{
    let cat = category_from_label(particle_type);
    let mut eff: Option<Efficiency> = None;
    let mut k: usize = 0;
    while k < events.len()
        invariant
            events.len() == tracks_per_event.len(),
            forall|m: int| 0 <= m < events.len() ==> (#[trigger] events@[m]).wf(),
            k <= events.len(),
            eff matches Some(e) ==> e.wf() && e.n_particles > 0,
            cat is None ==> eff is None,
            cat matches Some(c) ==> (match eff {
                Some(e) => (e.n_reco as int, e.n_particles as int) == reco_fold(
                    events@,
                    tracks_per_event@,
                    c,
                    k as int,
                ),
                None => reco_fold(events@, tracks_per_event@, c, k as int) == (0int, 0int),
            }),
            forall|m: int|
                0 <= m < k ==> weights_input_ok((#[trigger] tracks_per_event@[m])@, events@[m]),
        decreases events.len() - k,
    {
        let event = &events[k];
        let tracks = &tracks_per_event[k];
        let weights = match comp_weights(tracks, event) {
            Ok(w) => w,
            Err(e) => {
                return Err(e);
            },
        };
        if let Some(c) = cat {
            eff = update_efficiencies(eff, event, tracks, &weights, particle_type, c);
        }
        k = k + 1;
    }
    match eff {
        Some(e) => {
            if e.n_particles > 0 {
                Ok(Ratio { num: e.n_reco as u128, den: e.n_particles as u128 })
            } else {
                Ok(Ratio::zero())
            }
        },
        None => Ok(Ratio::zero()),
    }
}

/// The report row of one category.
#[derive(Clone, Debug)]
pub struct CategorySummary {
    pub label: String,
    pub n_reco: u64,
    pub n_particles: u64,
    pub recoeff_t: Ratio,
    pub avg_recoeff: Ratio,
    pub n_clones: u64,
    pub clone_percentage: Ratio,
    pub purity_t: Option<Ratio>,
    pub avg_purity: Ratio,
    pub avg_hiteff: Ratio,
    pub hit_eff_percentage: Ratio,
}

/// The whole validation report.
#[derive(Clone, Debug)]
pub struct ValidationSummary {
    pub total_tracks: u64,
    pub total_ghosts: u64,
    pub overall_ghost_rate: Ratio,
    pub event_avg_ghost_rate: Ratio,
    pub categories: Vec<CategorySummary>,
}

/// A category summary drawn from an accumulator: the derived percentages
/// plus the clone share of the reconstructed tracks and the average hit
/// efficiency over the counted tracks.
fn summarize(e: &Efficiency) -> (r: CategorySummary)
    requires
        e.wf(),
    ensures
        r.label == e.label,
        r.n_reco == e.n_reco,
        r.n_particles == e.n_particles,
        r.recoeff_t == e.recoeff_t,
        r.avg_recoeff == e.avg_recoeff,
        r.n_clones == e.n_clones,
        r.purity_t == e.purity_t,
        r.avg_purity == e.avg_purity,
        r.avg_hiteff == e.avg_hiteff,
        r.clone_percentage == (if e.n_reco > 0 {
            Ratio { num: (100 * e.n_clones) as u128, den: e.n_reco as u128 }
        } else {
            Ratio::spec_zero()
        }),
        r.hit_eff_percentage == (if e.n_hits > 0 {
            Ratio { num: (100 * e.n_heff) as u128, den: (EFF_SCALE * e.n_hits) as u128 }
        } else {
            Ratio::spec_zero()
        }),
        r.recoeff_t == r.avg_recoeff,
        r.purity_t is Some <==> e.n_reco + e.n_clones > 0,
{
    let clone_percentage = if e.n_reco > 0 {
        Ratio { num: 100u128 * (e.n_clones as u128), den: e.n_reco as u128 }
    } else {
        Ratio::zero()
    };
    let hit_eff_percentage = if e.n_hits > 0 {
        Ratio { num: 100u128 * (e.n_heff as u128), den: (EFF_SCALE as u128) * (e.n_hits as u128) }
    } else {
        Ratio::zero()
    };
    CategorySummary {
        label: e.label.clone(),
        n_reco: e.n_reco,
        n_particles: e.n_particles,
        recoeff_t: e.recoeff_t,
        avg_recoeff: e.avg_recoeff,
        n_clones: e.n_clones,
        clone_percentage,
        purity_t: e.purity_t,
        avg_purity: e.avg_purity,
        avg_hiteff: e.avg_hiteff,
        hit_eff_percentage,
    }
}

/// Runs the validator over all events and builds the report: the track
/// and ghost totals, the overall and event-averaged ghost rates (the
/// per-event rates accumulated in millionths), and one summary per
/// category that was ever seen, in the fixed category order.  Fails
/// exactly when some event's weight matrix is undefined.
pub fn validate_to_json(
    events: &Vec<ValidatorEvent>,
    tracks_per_event: &Vec<Vec<Track>>,
) -> (r: Result<ValidationSummary, ValidationError>)
    requires
        events.len() == tracks_per_event.len(),
        forall|k: int| 0 <= k < events.len() ==> (#[trigger] events@[k]).wf(),
    ensures
        r is Ok <==> forall|k: int|
            0 <= k < events.len() ==> weights_input_ok(
                (#[trigger] tracks_per_event@[k])@,
                events@[k],
            ),
        r matches Ok(s) ==> {
            &&& s.overall_ghost_rate.wf()
            &&& s.event_avg_ghost_rate.wf()
            &&& s.categories.len() <= 7
            &&& s.total_ghosts <= s.total_tracks
            &&& (s.total_tracks as int, s.total_ghosts as int) == ghost_fold(
                events@,
                tracks_per_event@,
                events.len() as int,
            )
            &&& s.overall_ghost_rate == (if s.total_tracks > 0 {
                Ratio { num: (100 * s.total_ghosts) as u128, den: s.total_tracks as u128 }
            } else {
                Ratio::spec_zero()
            })
        },
{
    let mut total_tracks: u64 = 0;
    let mut total_ghosts: u64 = 0;
    let mut rate_scaled_sum: u64 = 0;
    let mut eff_velo: Option<Efficiency> = None;
    let mut eff_long: Option<Efficiency> = None;
    let mut eff_long5: Option<Efficiency> = None;
    let mut eff_long_strange: Option<Efficiency> = None;
    let mut eff_long_strange5: Option<Efficiency> = None;
    let mut eff_long_fromb: Option<Efficiency> = None;
    let mut eff_long_fromb5: Option<Efficiency> = None;

    let mut k: usize = 0;
    while k < events.len()
        invariant
            events.len() == tracks_per_event.len(),
            forall|m: int| 0 <= m < events.len() ==> (#[trigger] events@[m]).wf(),
            k <= events.len(),
            total_ghosts <= total_tracks,
            (total_tracks as int, total_ghosts as int) == ghost_fold(
                events@,
                tracks_per_event@,
                k as int,
            ),
            eff_velo matches Some(e) ==> e.wf(),
            eff_long matches Some(e) ==> e.wf(),
            eff_long5 matches Some(e) ==> e.wf(),
            eff_long_strange matches Some(e) ==> e.wf(),
            eff_long_strange5 matches Some(e) ==> e.wf(),
            eff_long_fromb matches Some(e) ==> e.wf(),
            eff_long_fromb5 matches Some(e) ==> e.wf(),
            forall|m: int|
                0 <= m < k ==> weights_input_ok((#[trigger] tracks_per_event@[m])@, events@[m]),
        decreases events.len() - k,
    {
        let event = &events[k];
        let tracks = &tracks_per_event[k];
        let weights = match comp_weights(tracks, event) {
            Ok(w) => w,
            Err(e) => {
                return Err(e);
            },
        };
        let (t2p, _p2t) = hit_purity(tracks, event.particles.len(), &weights);
        let (grate, nghosts) = ghost_rate(&t2p);
        proof {
            crate::validator_helper::lemma_ghosts_le(t2p@);
            // The association table matches its specification.
            assert(t2p@ =~= t2p_full_table(tracks@, *event)) by {
                assert forall|i: int| 0 <= i < tracks@.len() implies t2p@[i] == t2p_full_table(
                    tracks@,
                    *event,
                )[i] by {
                    assert(weights@[i]@ =~= full_matrix(tracks@, *event)[i]) by {
                        assert forall|j: int|
                            0 <= j < event.particles.len() implies weights@[i]@[j] == full_matrix(
                            tracks@,
                            *event,
                        )[i][j] by {
                            crate::validator_helper::lemma_weight_entry_is(
                                weights@[i]@[j],
                                tracks@[i],
                                event.hit_to_mcp@,
                                j,
                            );
                        }
                    }
                }
            }
        }
        total_tracks = sat_add(total_tracks, tracks.len() as u64);
        total_ghosts = sat_add(total_ghosts, nghosts as u64);
        let gw = crate::efficiency::scale_weight(&grate);
        rate_scaled_sum = sat_add(rate_scaled_sum, gw);

        eff_velo = update_efficiencies(eff_velo, event, tracks, &weights, "velo", Category::Velo);
        eff_long = update_efficiencies(eff_long, event, tracks, &weights, "long", Category::Long);
        eff_long5 = update_efficiencies(
            eff_long5,
            event,
            tracks,
            &weights,
            "long>5GeV",
            Category::LongOver5,
        );
        eff_long_strange = update_efficiencies(
            eff_long_strange,
            event,
            tracks,
            &weights,
            "long_strange",
            Category::LongStrange,
        );
        eff_long_strange5 = update_efficiencies(
            eff_long_strange5,
            event,
            tracks,
            &weights,
            "long_strange>5GeV",
            Category::LongStrangeOver5,
        );
        eff_long_fromb = update_efficiencies(
            eff_long_fromb,
            event,
            tracks,
            &weights,
            "long_fromb",
            Category::LongFromB,
        );
        eff_long_fromb5 = update_efficiencies(
            eff_long_fromb5,
            event,
            tracks,
            &weights,
            "long_fromb>5GeV",
            Category::LongFromBOver5,
        );
        k = k + 1;
    }

    let overall_ghost_rate = if total_tracks > 0 {
        Ratio { num: 100u128 * (total_ghosts as u128), den: total_tracks as u128 }
    } else {
        Ratio::zero()
    };
    let event_avg_ghost_rate = if events.len() > 0 {
        proof {
            crate::validator_helper::lemma_usize_product_fits(
                EFF_SCALE as int,
                events.len() as int,
            );
        }
        Ratio {
            num: 100u128 * (rate_scaled_sum as u128),
            den: (EFF_SCALE as u128) * (events.len() as u128),
        }
    } else {
        Ratio::zero()
    };

    let mut categories: Vec<CategorySummary> = Vec::new();
    if let Some(e) = eff_velo {
        categories.push(summarize(&e));
    }
    if let Some(e) = eff_long {
        categories.push(summarize(&e));
    }
    if let Some(e) = eff_long5 {
        categories.push(summarize(&e));
    }
    if let Some(e) = eff_long_strange {
        categories.push(summarize(&e));
    }
    if let Some(e) = eff_long_strange5 {
        categories.push(summarize(&e));
    }
    if let Some(e) = eff_long_fromb {
        categories.push(summarize(&e));
    }
    if let Some(e) = eff_long_fromb5 {
        categories.push(summarize(&e));
    }

    Ok(
        ValidationSummary {
            total_tracks,
            total_ghosts,
            overall_ghost_rate,
            event_avg_ghost_rate,
            categories,
        },
    )
}

/// The validation report with a per-event breakdown: after each event,
/// the summaries of the categories seen so far, keyed by the event's
/// position.
#[derive(Clone, Debug)]
pub struct NestedValidationSummary {
    pub total_tracks: u64,
    pub total_ghosts: u64,
    pub overall_ghost_rate: Ratio,
    pub event_avg_ghost_rate: Ratio,
    pub categories: Vec<CategorySummary>,
    pub events: Vec<Vec<CategorySummary>>,
}

/// As `validate_to_json`, but additionally records, after every event,
/// the running summaries of the categories seen so far, in event order.
#[verifier::rlimit(50)]
pub fn validate_to_json_nested(
    events: &Vec<ValidatorEvent>,
    tracks_per_event: &Vec<Vec<Track>>,
) -> (r: Result<NestedValidationSummary, ValidationError>)
    requires
        events.len() == tracks_per_event.len(),
        forall|k: int| 0 <= k < events.len() ==> (#[trigger] events@[k]).wf(),
    ensures
        r is Ok <==> forall|k: int|
            0 <= k < events.len() ==> weights_input_ok(
                (#[trigger] tracks_per_event@[k])@,
                events@[k],
            ),
        r matches Ok(s) ==> {
            &&& s.overall_ghost_rate.wf()
            &&& s.event_avg_ghost_rate.wf()
            &&& s.categories.len() <= 7
            &&& s.total_ghosts <= s.total_tracks
            &&& s.events.len() == events.len()
            &&& (s.total_tracks as int, s.total_ghosts as int) == ghost_fold(
                events@,
                tracks_per_event@,
                events.len() as int,
            )
        },
{
    let mut total_tracks: u64 = 0;
    let mut total_ghosts: u64 = 0;
    let mut rate_scaled_sum: u64 = 0;
    let mut eff_velo: Option<Efficiency> = None;
    let mut eff_long: Option<Efficiency> = None;
    let mut eff_long5: Option<Efficiency> = None;
    let mut eff_long_strange: Option<Efficiency> = None;
    let mut eff_long_strange5: Option<Efficiency> = None;
    let mut eff_long_fromb: Option<Efficiency> = None;
    let mut eff_long_fromb5: Option<Efficiency> = None;
    let mut per_event: Vec<Vec<CategorySummary>> = Vec::new();

    let mut k: usize = 0;
    while k < events.len()
        invariant
            events.len() == tracks_per_event.len(),
            forall|m: int| 0 <= m < events.len() ==> (#[trigger] events@[m]).wf(),
            k <= events.len(),
            total_ghosts <= total_tracks,
            (total_tracks as int, total_ghosts as int) == ghost_fold(
                events@,
                tracks_per_event@,
                k as int,
            ),
            per_event.len() == k,
            eff_velo matches Some(e) ==> e.wf(),
            eff_long matches Some(e) ==> e.wf(),
            eff_long5 matches Some(e) ==> e.wf(),
            eff_long_strange matches Some(e) ==> e.wf(),
            eff_long_strange5 matches Some(e) ==> e.wf(),
            eff_long_fromb matches Some(e) ==> e.wf(),
            eff_long_fromb5 matches Some(e) ==> e.wf(),
            forall|m: int|
                0 <= m < k ==> weights_input_ok((#[trigger] tracks_per_event@[m])@, events@[m]),
        decreases events.len() - k,
    {
        let event = &events[k];
        let tracks = &tracks_per_event[k];
        let weights = match comp_weights(tracks, event) {
            Ok(w) => w,
            Err(e) => {
                return Err(e);
            },
        };
        let (t2p, _p2t) = hit_purity(tracks, event.particles.len(), &weights);
        let (grate, nghosts) = ghost_rate(&t2p);
        proof {
            crate::validator_helper::lemma_ghosts_le(t2p@);
            // The association table matches its specification.
            assert(t2p@ =~= t2p_full_table(tracks@, *event)) by {
                assert forall|i: int| 0 <= i < tracks@.len() implies t2p@[i] == t2p_full_table(
                    tracks@,
                    *event,
                )[i] by {
                    assert(weights@[i]@ =~= full_matrix(tracks@, *event)[i]) by {
                        assert forall|j: int|
                            0 <= j < event.particles.len() implies weights@[i]@[j] == full_matrix(
                            tracks@,
                            *event,
                        )[i][j] by {
                            crate::validator_helper::lemma_weight_entry_is(
                                weights@[i]@[j],
                                tracks@[i],
                                event.hit_to_mcp@,
                                j,
                            );
                        }
                    }
                }
            }
        }
        total_tracks = sat_add(total_tracks, tracks.len() as u64);
        total_ghosts = sat_add(total_ghosts, nghosts as u64);
        let gw = crate::efficiency::scale_weight(&grate);
        rate_scaled_sum = sat_add(rate_scaled_sum, gw);

        eff_velo = update_efficiencies(eff_velo, event, tracks, &weights, "velo", Category::Velo);
        eff_long = update_efficiencies(eff_long, event, tracks, &weights, "long", Category::Long);
        eff_long5 = update_efficiencies(
            eff_long5,
            event,
            tracks,
            &weights,
            "long>5GeV",
            Category::LongOver5,
        );
        eff_long_strange = update_efficiencies(
            eff_long_strange,
            event,
            tracks,
            &weights,
            "long_strange",
            Category::LongStrange,
        );
        eff_long_strange5 = update_efficiencies(
            eff_long_strange5,
            event,
            tracks,
            &weights,
            "long_strange>5GeV",
            Category::LongStrangeOver5,
        );
        eff_long_fromb = update_efficiencies(
            eff_long_fromb,
            event,
            tracks,
            &weights,
            "long_fromb",
            Category::LongFromB,
        );
        eff_long_fromb5 = update_efficiencies(
            eff_long_fromb5,
            event,
            tracks,
            &weights,
            "long_fromb>5GeV",
            Category::LongFromBOver5,
        );

        let mut snapshot: Vec<CategorySummary> = Vec::new();
        if let Some(e) = &eff_velo {
            snapshot.push(summarize(e));
        }
        if let Some(e) = &eff_long {
            snapshot.push(summarize(e));
        }
        if let Some(e) = &eff_long5 {
            snapshot.push(summarize(e));
        }
        if let Some(e) = &eff_long_strange {
            snapshot.push(summarize(e));
        }
        if let Some(e) = &eff_long_strange5 {
            snapshot.push(summarize(e));
        }
        if let Some(e) = &eff_long_fromb {
            snapshot.push(summarize(e));
        }
        if let Some(e) = &eff_long_fromb5 {
            snapshot.push(summarize(e));
        }
        per_event.push(snapshot);
        k = k + 1;
    }

    let overall_ghost_rate = if total_tracks > 0 {
        Ratio { num: 100u128 * (total_ghosts as u128), den: total_tracks as u128 }
    } else {
        Ratio::zero()
    };
    let event_avg_ghost_rate = if events.len() > 0 {
        proof {
            crate::validator_helper::lemma_usize_product_fits(
                EFF_SCALE as int,
                events.len() as int,
            );
        }
        Ratio {
            num: 100u128 * (rate_scaled_sum as u128),
            den: (EFF_SCALE as u128) * (events.len() as u128),
        }
    } else {
        Ratio::zero()
    };

    let mut categories: Vec<CategorySummary> = Vec::new();
    if let Some(e) = eff_velo {
        categories.push(summarize(&e));
    }
    if let Some(e) = eff_long {
        categories.push(summarize(&e));
    }
    if let Some(e) = eff_long5 {
        categories.push(summarize(&e));
    }
    if let Some(e) = eff_long_strange {
        categories.push(summarize(&e));
    }
    if let Some(e) = eff_long_strange5 {
        categories.push(summarize(&e));
    }
    if let Some(e) = eff_long_fromb {
        categories.push(summarize(&e));
    }
    if let Some(e) = eff_long_fromb5 {
        categories.push(summarize(&e));
    }

    Ok(
        NestedValidationSummary {
            total_tracks,
            total_ghosts,
            overall_ghost_rate,
            event_avg_ghost_rate,
            categories,
            events: per_event,
        },
    )
}


} // verus!
