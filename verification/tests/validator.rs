use velopix_tracking::{
    clones, comp_weights, ghost_rate, ghosts, hit_purity, reconstructed, update_efficiencies,
    validate_efficiency, validate_to_json, validate_to_json_nested, Category, Efficiency, Hit,
    MCParticle, Ratio, Track, ValidationError, ValidatorEvent, Weight, EFF_SCALE,
};

fn plain_hits(n: usize) -> Vec<Hit> {
    (0..n).map(|i| Hit::new(0, 0, 1000 * i as i64, i, None, None, None)).collect()
}

fn particle(pkey: u64, hits: Vec<Hit>) -> MCParticle {
    MCParticle::new(pkey, 13, 6000, 0, 0, 0, -1, hits)
}

fn track_of(hits: &[Hit], idxs: &[usize]) -> Track {
    Track::new(idxs.iter().map(|&i| hits[i]).collect())
}

fn vevent(hits: Vec<Hit>, particles: Vec<MCParticle>, mcp_to_hits: Vec<Vec<Hit>>) -> ValidatorEvent {
    ValidatorEvent::new(vec![0], vec![], vec![], vec![], hits, particles, mcp_to_hits)
}

#[test]
fn weight_matrix_counts_shared_hits_once_per_particle() {
    let hits = plain_hits(6);
    // Particle 0 owns hits 0..4, particle 1 owns hits 2..6: hits 2 and 3
    // are shared.
    let p0 = particle(1, hits[0..4].to_vec());
    let p1 = particle(2, hits[2..6].to_vec());
    let ev = vevent(
        hits.clone(),
        vec![p0, p1],
        vec![hits[0..4].to_vec(), hits[2..6].to_vec()],
    );
    let tracks = vec![track_of(&hits, &[0, 1, 2, 3])];
    let w = comp_weights(&tracks, &ev).unwrap();
    assert_eq!(w.len(), 1);
    assert_eq!(w[0].len(), 2);
    assert_eq!(w[0][0], Weight { num: 4, den: 4 });
    assert_eq!(w[0][1], Weight { num: 2, den: 4 });
}

#[test]
fn weight_matrix_zero_row_for_short_tracks() {
    let hits = plain_hits(3);
    let p0 = particle(1, hits.clone());
    let ev = vevent(hits.clone(), vec![p0], vec![hits.clone()]);
    let tracks = vec![track_of(&hits, &[0])];
    let w = comp_weights(&tracks, &ev).unwrap();
    assert_eq!(w[0][0], Weight { num: 0, den: 1 });
}

#[test]
fn weight_matrix_reports_unknown_hit() {
    let hits = plain_hits(3);
    let p0 = particle(1, hits.clone());
    let ev = vevent(hits.clone(), vec![p0], vec![hits.clone()]);
    let stray = Hit::new(0, 0, 0, 99, None, None, None);
    let tracks = vec![Track::new(vec![hits[0], stray])];
    let r = comp_weights(&tracks, &ev);
    assert_eq!(r, Err(ValidationError::HitNotInTruth { hit_id: 99 }));
}

/// With particles owning disjoint hit sets, every weight row sums to at
/// most one.
#[test]
fn weight_rows_sum_to_at_most_one_for_disjoint_particles() {
    let hits = plain_hits(6);
    let p0 = particle(1, hits[0..3].to_vec());
    let p1 = particle(2, hits[3..6].to_vec());
    let ev = vevent(
        hits.clone(),
        vec![p0, p1],
        vec![hits[0..3].to_vec(), hits[3..6].to_vec()],
    );
    let tracks = vec![track_of(&hits, &[0, 1, 2, 3]), track_of(&hits, &[2, 3, 4, 5])];
    let w = comp_weights(&tracks, &ev).unwrap();
    for row in &w {
        let num_sum: usize = row.iter().map(|e| e.num).sum();
        let den = row[0].den;
        assert!(num_sum <= den);
    }
}

#[test]
fn purity_association_picks_first_maximum() {
    let hits = plain_hits(4);
    let p0 = particle(1, hits.clone());
    let p1 = particle(2, hits.clone());
    let ev = vevent(
        hits.clone(),
        vec![p0, p1],
        vec![hits.clone(), hits.clone()],
    );
    let tracks = vec![track_of(&hits, &[0, 1, 2, 3])];
    let w = comp_weights(&tracks, &ev).unwrap();
    let (t2p, p2t) = hit_purity(&tracks, 2, &w);
    // Both particles have weight 1; the first one wins the tie.
    assert_eq!(t2p[0], (Weight { num: 4, den: 4 }, Some(0)));
    // Both particles associate with the single track.
    assert_eq!(p2t[0], (Weight { num: 4, den: 4 }, Some(0)));
    assert_eq!(p2t[1], (Weight { num: 4, den: 4 }, Some(0)));
}

#[test]
fn ghost_track_is_unassociated() {
    let hits = plain_hits(6);
    // The particle owns hits 0..3; the track uses only hits 3..6.
    let p0 = particle(1, hits[0..3].to_vec());
    let ev = vevent(hits.clone(), vec![p0], vec![hits[0..3].to_vec()]);
    let tracks = vec![track_of(&hits, &[3, 4, 5])];
    let w = comp_weights(&tracks, &ev).unwrap();
    let (t2p, _p2t) = hit_purity(&tracks, 1, &w);
    assert_eq!(t2p[0], (Weight { num: 0, den: 3 }, None));
    assert_eq!(ghosts(&t2p), vec![0]);
    let (rate, nghosts) = ghost_rate(&t2p);
    assert_eq!(nghosts, 1);
    assert_eq!(rate, Weight { num: 1, den: 1 });
}

#[test]
fn ghost_rate_without_tracks_is_zero() {
    let t2p: Vec<(Weight, Option<usize>)> = Vec::new();
    let (rate, nghosts) = ghost_rate(&t2p);
    assert_eq!(nghosts, 0);
    assert_eq!(rate, Weight { num: 0, den: 1 });
}

/// One particle covered by two overlapping tracks: both associate with
/// it, it associates with the first maximal track, and one clone is
/// counted.
#[test]
fn clone_case() {
    let hits = plain_hits(6);
    let p0 = particle(1, hits.clone());
    let ev = vevent(hits.clone(), vec![p0], vec![hits.clone()]);
    let tracks = vec![track_of(&hits, &[0, 1, 2, 3]), track_of(&hits, &[2, 3, 4, 5])];
    let w = comp_weights(&tracks, &ev).unwrap();
    let (t2p, p2t) = hit_purity(&tracks, 1, &w);
    assert_eq!(t2p[0].1, Some(0));
    assert_eq!(t2p[1].1, Some(0));
    assert_eq!(p2t[0].1, Some(0));
    let cl = clones(&t2p, 1);
    assert_eq!(cl.len(), 1);
    assert_eq!(cl[0].0, 0);
    assert_eq!(cl[0].1, vec![0, 1]);
    assert_eq!(reconstructed(&p2t), vec![0]);
}

#[test]
fn reconstructed_lists_distinct_tracks() {
    let p2t = vec![
        (Weight { num: 1, den: 1 }, Some(2usize)),
        (Weight { num: 1, den: 1 }, Some(2usize)),
        (Weight { num: 1, den: 1 }, Some(0usize)),
        (Weight { num: 0, den: 1 }, None),
    ];
    assert_eq!(reconstructed(&p2t), vec![2, 0]);
}

#[test]
fn efficiency_accumulator_invariants() {
    let hits = plain_hits(6);
    let p0 = particle(1, hits.clone());
    let ev = vevent(hits.clone(), vec![p0], vec![hits.clone()]);
    let tracks = vec![track_of(&hits, &[0, 1, 2, 3]), track_of(&hits, &[2, 3, 4, 5])];
    let w = comp_weights(&tracks, &ev).unwrap();
    let eff = update_efficiencies(None, &ev, &tracks, &w, "velo", Category::Velo).unwrap();
    assert_eq!(eff.n_events, 1);
    assert_eq!(eff.n_particles, 1);
    assert_eq!(eff.n_reco, 1);
    assert_eq!(eff.n_clones, 1);
    // Both percentages agree, and the total purity is defined exactly
    // when a track was reconstructed or cloned.
    assert_eq!(eff.recoeff_t, eff.avg_recoeff);
    assert_eq!(eff.recoeff_t, Ratio { num: 100, den: 1 });
    assert!(eff.purity_t.is_some());
    assert_eq!(
        eff.purity_t.unwrap(),
        Ratio { num: 100 * 2 * EFF_SCALE as u128, den: EFF_SCALE as u128 * 2 },
    );
    // Hit efficiency: both tracks carry four of the particle's six hits.
    assert_eq!(eff.n_hits, 2);
    let four_sixths = (4 * EFF_SCALE / 6) as u64;
    assert_eq!(eff.n_heff, 2 * four_sixths);
}

#[test]
fn update_skips_categories_without_particles() {
    let hits = plain_hits(4);
    // An electron is excluded from every category.
    let mut p0 = particle(1, hits.clone());
    p0.pid = 11;
    let ev = vevent(hits.clone(), vec![p0], vec![hits.clone()]);
    let tracks = vec![track_of(&hits, &[0, 1, 2, 3])];
    let w = comp_weights(&tracks, &ev).unwrap();
    let eff = update_efficiencies(None, &ev, &tracks, &w, "velo", Category::Velo);
    assert!(eff.is_none());
}

/// Three particles, one of them long and over the momentum cut; only it
/// counts for the filtered category.
#[test]
fn category_filter_efficiency() {
    let hits = plain_hits(8);
    let mut p0 = particle(1, hits[0..4].to_vec());
    p0.islong = true;  // p = 6000, so over5 holds
    let mut p1 = particle(2, hits[4..6].to_vec());
    p1.islong = false;
    let mut p2 = particle(3, hits[6..8].to_vec());
    p2.islong = false;
    let ev = vevent(
        hits.clone(),
        vec![p0, p1, p2],
        vec![hits[0..4].to_vec(), hits[4..6].to_vec(), hits[6..8].to_vec()],
    );
    let tracks = vec![track_of(&hits, &[0, 1, 2, 3])];
    let events = vec![ev];
    let tpe = vec![tracks];
    let r = validate_efficiency(&events, &tpe, "long>5GeV").unwrap();
    assert_eq!(r, Ratio { num: 1, den: 1 });
    // Without any track the efficiency is zero.
    let no_tracks: Vec<Vec<Track>> = vec![Vec::new()];
    let r0 = validate_efficiency(&events, &no_tracks, "long>5GeV").unwrap();
    assert_eq!(r0, Ratio { num: 0, den: 1 });
    // An unknown category yields zero.
    let ru = validate_efficiency(&events, &tpe, "short<1GeV").unwrap();
    assert_eq!(ru, Ratio { num: 0, den: 1 });
}

#[test]
fn validation_summary_totals() {
    let hits = plain_hits(6);
    let mut p0 = particle(1, hits[0..3].to_vec());
    p0.islong = true;
    let ev = vevent(hits.clone(), vec![p0], vec![hits[0..3].to_vec()]);
    // One matching track and one ghost.
    let tracks = vec![track_of(&hits, &[0, 1, 2]), track_of(&hits, &[3, 4, 5])];
    let events = vec![ev];
    let tpe = vec![tracks];
    let s = validate_to_json(&events, &tpe).unwrap();
    assert_eq!(s.total_tracks, 2);
    assert_eq!(s.total_ghosts, 1);
    assert_eq!(s.overall_ghost_rate, Ratio { num: 100, den: 2 });
    // One event with rate 1/2, scaled to millionths.
    assert_eq!(
        s.event_avg_ghost_rate,
        Ratio { num: 100 * (EFF_SCALE as u128) / 2, den: EFF_SCALE as u128 },
    );
    // The velo, long and long>5GeV categories saw the particle.
    assert_eq!(s.categories.len(), 3);
    for cat in &s.categories {
        assert_eq!(cat.n_particles, 1);
        assert_eq!(cat.n_reco, 1);
        assert_eq!(cat.recoeff_t, cat.avg_recoeff);
        assert!(cat.purity_t.is_some());
    }

    let nested = validate_to_json_nested(&events, &tpe).unwrap();
    assert_eq!(nested.total_tracks, 2);
    assert_eq!(nested.events.len(), 1);
    assert_eq!(nested.events[0].len(), 3);
}

/// Combining accumulators is commutative and associative on the raw
/// counters, with the percentages recomputed from the sums.
#[test]
fn combine_is_commutative_and_associative() {
    let hits = plain_hits(6);
    let p0 = particle(1, hits.clone());
    let ev = vevent(hits.clone(), vec![p0], vec![hits.clone()]);
    let tracks1 = vec![track_of(&hits, &[0, 1, 2, 3])];
    let tracks2 = vec![track_of(&hits, &[2, 3, 4, 5]), track_of(&hits, &[0, 1, 2])];
    let w1 = comp_weights(&tracks1, &ev).unwrap();
    let w2 = comp_weights(&tracks2, &ev).unwrap();
    let a = update_efficiencies(None, &ev, &tracks1, &w1, "velo", Category::Velo).unwrap();
    let b = update_efficiencies(None, &ev, &tracks2, &w2, "velo", Category::Velo).unwrap();
    let c = Efficiency::new("velo".to_string());

    let ab = a.clone().combine(&b);
    let ba = b.clone().combine(&a);
    assert_eq!(ab.n_events, ba.n_events);
    assert_eq!(ab.n_particles, ba.n_particles);
    assert_eq!(ab.n_reco, ba.n_reco);
    assert_eq!(ab.n_pure, ba.n_pure);
    assert_eq!(ab.n_clones, ba.n_clones);
    assert_eq!(ab.n_heff, ba.n_heff);
    assert_eq!(ab.n_hits, ba.n_hits);
    assert_eq!(ab.recoeff_t, ba.recoeff_t);
    assert_eq!(ab.purity_t, ba.purity_t);
    assert_eq!(ab.avg_recoeff, ba.avg_recoeff);
    assert_eq!(ab.avg_purity, ba.avg_purity);
    assert_eq!(ab.avg_hiteff, ba.avg_hiteff);

    let left = a.clone().combine(&b).combine(&c);
    let right = a.clone().combine(&b.clone().combine(&c));
    assert_eq!(left.n_particles, right.n_particles);
    assert_eq!(left.n_reco, right.n_reco);
    assert_eq!(left.n_pure, right.n_pure);
    assert_eq!(left.n_clones, right.n_clones);
    assert_eq!(left.recoeff_t, right.recoeff_t);
    assert_eq!(left.purity_t, right.purity_t);
    assert_eq!(left.avg_hiteff, right.avg_hiteff);
}

#[test]
fn accumulator_starts_empty() {
    let e = Efficiency::new("long".to_string());
    assert_eq!(e.n_events, 0);
    assert_eq!(e.n_particles, 0);
    assert_eq!(e.recoeff_t, Ratio { num: 0, den: 1 });
    assert_eq!(e.recoeff_t, e.avg_recoeff);
    assert!(e.purity_t.is_none());
}
