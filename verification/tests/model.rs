use velopix_tracking::{
    parse_montecarlo, ConfigError, Event, Fraction, GraphDFS, Hit, Module, Scatter,
    SearchByTripletTrie, TrackFollowing, TruthValue, Weight, COORD_LIMIT, NUM_MODULES,
};

#[test]
fn builder_accepts_a_plain_event() {
    let mut prefix = vec![0usize; NUM_MODULES + 1];
    prefix[1] = 1;
    prefix[2] = 2;
    for m in 2..NUM_MODULES {
        prefix[m + 1] = 2;
    }
    let ev = Event::new(
        "one pair".to_string(),
        prefix,
        vec![5, 7],
        vec![-5, -7],
        vec![0, 1000],
        None,
    )
    .unwrap();
    assert_eq!(ev.number_of_hits, 2);
    assert_eq!(ev.hits.len(), 2);
    assert_eq!(ev.hits[0].id, 0);
    assert_eq!(ev.hits[0].x, 5);
    assert_eq!(ev.hits[0].y, -5);
    assert_eq!(ev.hits[0].z, 0);
    assert_eq!(ev.hits[0].t, 0);
    assert_eq!(ev.hits[0].module_number, 0);
    assert!(!ev.hits[0].with_t);
    assert_eq!(ev.hits[1].module_number, 1);
    assert_eq!(ev.modules.len(), NUM_MODULES);
    assert_eq!(ev.modules[0].hit_start_index, 0);
    assert_eq!(ev.modules[0].hit_end_index, 1);
    assert_eq!(ev.module_zs[0], vec![0]);
    assert_eq!(ev.module_zs[1], vec![1000]);
}

#[test]
fn builder_keeps_time_values() {
    let mut prefix = vec![0usize; NUM_MODULES + 1];
    for m in 0..NUM_MODULES {
        prefix[m + 1] = if m == 0 { 2 } else { prefix[m] };
    }
    let ev = Event::new(
        "timed".to_string(),
        prefix,
        vec![0, 0],
        vec![0, 0],
        vec![0, 0],
        Some(vec![11, 22]),
    )
    .unwrap();
    assert!(ev.hits[0].with_t);
    assert_eq!(ev.hits[0].t, 11);
    assert_eq!(ev.hits[1].t, 22);
    // Both hits share a z, so the module keeps one distinct value.
    assert_eq!(ev.module_zs[0], vec![0]);
}

#[test]
fn builder_rejects_bad_input() {
    let good_prefix = {
        let mut p = vec![0usize; NUM_MODULES + 1];
        for m in 0..NUM_MODULES {
            p[m + 1] = if m == 0 { 1 } else { p[m] };
        }
        p
    };
    // Wrong prefix length.
    let r = Event::new("x".to_string(), vec![0, 1], vec![0], vec![0], vec![0], None);
    assert_eq!(r.err(), Some(ConfigError::BadPrefixSum));
    // Not monotone.
    let mut bad = good_prefix.clone();
    bad[1] = 5;
    bad[2] = 3;
    let r = Event::new("x".to_string(), bad, vec![0], vec![0], vec![0], None);
    assert_eq!(r.err(), Some(ConfigError::BadPrefixSum));
    // Length mismatch.
    let r = Event::new("x".to_string(), good_prefix.clone(), vec![0, 0], vec![0], vec![0], None);
    assert_eq!(r.err(), Some(ConfigError::LengthMismatch));
    // Coordinate out of range.
    let r = Event::new(
        "x".to_string(),
        good_prefix,
        vec![COORD_LIMIT + 1],
        vec![0],
        vec![0],
        None,
    );
    assert_eq!(r.err(), Some(ConfigError::CoordinateOutOfRange));
}

#[test]
fn module_view_yields_its_hit_range() {
    let hits: Vec<Hit> = (0..4).map(|i| Hit::new(i as i64, 0, 0, i, None, None, None)).collect();
    let m = Module::new(7, vec![0], 1, 3, hits.clone()).unwrap();
    let slice = m.hits();
    assert_eq!(slice.len(), 2);
    assert_eq!(slice[0].id, 1);
    assert_eq!(slice[1].id, 2);
    // Bad bounds are rejected.
    assert!(Module::new(7, vec![0], 3, 1, hits.clone()).is_err());
    assert!(Module::new(7, vec![0], 0, 9, hits).is_err());
}

#[test]
fn hit_defaults() {
    let h = Hit::new(1, 2, 3, 9, None, None, None);
    assert_eq!(h.module_number, -1);
    assert_eq!(h.t, 0);
    assert!(!h.with_t);
    let h2 = Hit::new(1, 2, 3, 9, Some(4), Some(5), Some(true));
    assert_eq!(h2.module_number, 4);
    assert_eq!(h2.t, 5);
    assert!(h2.with_t);
}

#[test]
fn fraction_bounds() {
    assert!(Fraction::new(7, 10).is_some());
    assert!(Fraction::new(-1, 10).is_none());
    assert!(Fraction::new(7, 0).is_none());
    assert!(Fraction::new(2_000_000, 1).is_none());
}

#[test]
fn slope_compatibility_is_strict() {
    let c = TrackFollowing::new(None, None, None, None, None);
    let h0 = Hit::new(0, 0, 0, 0, None, None, None);
    let just_inside = Hit::new(699, 0, 1000, 1, None, None, None);
    let on_the_edge = Hit::new(700, 0, 1000, 2, None, None, None);
    assert!(c.are_compatible(&h0, &just_inside));
    assert!(!c.are_compatible(&h0, &on_the_edge));
}

/// Two hits at the same z make every denominator zero: the tolerance
/// test fails and the scatter value never compares below a limit.
#[test]
fn zero_denominators_reject_candidates() {
    let c = TrackFollowing::new(None, None, None, None, None);
    let h0 = Hit::new(0, 0, 1000, 0, None, None, None);
    let h1 = Hit::new(10, 0, 1000, 1, None, None, None);
    let h2 = Hit::new(20, 0, 2000, 2, None, None, None);
    assert!(!c.check_tolerance(&h0, &h1, &h2));
    // Same for a zero second gap.
    let h3 = Hit::new(0, 0, 0, 3, None, None, None);
    assert!(!c.check_tolerance(&h3, &h0, &h1));

    let e = SearchByTripletTrie::new(None, None, None, None);
    let sc = e.calculate_scatter(&h0, &h1, &h2);
    assert_eq!(sc.den, 0);
    let limit = Scatter { num: 1, den: 10 };
    assert!(!sc.lt(&limit));
}

#[test]
fn tolerance_accepts_collinear_hits() {
    let c = TrackFollowing::new(None, None, None, None, None);
    let h0 = Hit::new(0, 0, 2000, 0, None, None, None);
    let h1 = Hit::new(0, 0, 1000, 1, None, None, None);
    let h2 = Hit::new(0, 0, 0, 2, None, None, None);
    assert!(c.check_tolerance(&h0, &h1, &h2));
    let d = GraphDFS::new(None, None, None, None, None, None, None, None);
    assert!(d.check_tolerance(&h0, &h1, &h2));
    assert!(d.are_compatible(&h0, &h1));
    assert!(d.are_compatible_in_x(&h0, &h1));
    assert!(d.are_compatible_in_y(&h0, &h1));
}

#[test]
fn scatter_is_the_squared_miss_distance() {
    let e = SearchByTripletTrie::new(None, None, None, None);
    let h0 = Hit::new(0, 0, 2000, 0, None, None, None);
    let h1 = Hit::new(0, 0, 1000, 1, None, None, None);
    // The line extrapolates to x = 0 at z = 0; this hit misses by 3 in x
    // and 4 in y: squared distance 25.
    let h2 = Hit::new(3, 4, 0, 2, None, None, None);
    let sc = e.calculate_scatter(&h0, &h1, &h2);
    // num / den == (3^2 + 4^2): the residuals are scaled by the z gap.
    assert_eq!(sc.num, 25 * 1000 * 1000);
    assert_eq!(sc.den, 1000 * 1000);
    let tight = Scatter { num: 24, den: 1 };
    let loose = Scatter { num: 26, den: 1 };
    assert!(!sc.lt(&tight));
    assert!(sc.lt(&loose));
}

#[test]
fn merged_modules_cover_pair_ranges() {
    let mut prefix = vec![0usize; NUM_MODULES + 1];
    // One hit on each of modules 0..4.
    for m in 0..NUM_MODULES {
        prefix[m + 1] = if m < 4 { m + 1 } else { prefix[m] };
    }
    let ev = Event::new(
        "pairs".to_string(),
        prefix,
        vec![0, 0, 0, 0],
        vec![0, 0, 0, 0],
        vec![0, 1000, 2000, 3000],
        None,
    )
    .unwrap();
    let e = SearchByTripletTrie::new(None, None, None, None);
    let merged = e.merge_module_pairs(&ev);
    assert_eq!(merged.len(), NUM_MODULES / 2);
    assert_eq!(merged[0].module_number, 0);
    assert_eq!(merged[0].hit_start_index, 0);
    assert_eq!(merged[0].hit_end_index, 2);
    assert_eq!(merged[1].hit_start_index, 2);
    assert_eq!(merged[1].hit_end_index, 4);
    assert_eq!(merged[2].hit_start_index, 4);
    assert_eq!(merged[2].hit_end_index, 4);
}

#[test]
fn weight_comparisons_are_exact() {
    let a = Weight { num: 1, den: 3 };
    let b = Weight { num: 2, den: 5 };
    assert!(a.lt(&b));
    assert!(!b.lt(&a));
    assert!(!a.lt(&a));
    assert!(Weight { num: 71, den: 100 }.over_threshold());
    assert!(!Weight { num: 70, den: 100 }.over_threshold());
    assert!(!Weight { num: 7, den: 10 }.over_threshold());
}

#[test]
fn truth_decoder_reads_fields_by_name() {
    let description: Vec<String> = vec![
        "key".to_string(),
        "pid".to_string(),
        "p".to_string(),
        "isLong".to_string(),
        "fromStrangeDecay".to_string(),
        "hits".to_string(),
    ];
    let hits: Vec<Hit> = (0..4).map(|i| Hit::new(0, 0, 0, i, None, None, None)).collect();
    let rows = vec![
        vec![
            TruthValue::Int(42),
            TruthValue::Int(-211),
            TruthValue::Int(7000),
            TruthValue::Int(1),
            TruthValue::Int(0),
            TruthValue::Hits(vec![0, 2, 9]),
        ],
        vec![
            TruthValue::Int(43),
            TruthValue::Int(13),
            TruthValue::Int(-800),
            TruthValue::Int(0),
            TruthValue::Int(1),
            TruthValue::Hits(vec![1]),
        ],
    ];
    let (particles, mcp_hits) = parse_montecarlo(&description, &rows, &hits);
    assert_eq!(particles.len(), 2);
    let p0 = &particles[0];
    assert_eq!(p0.pkey, 42);
    assert_eq!(p0.pid, -211);
    assert_eq!(p0.p, 7000);
    assert!(p0.over5);
    assert!(p0.islong);
    assert!(!p0.strange);
    // hasVelo was not listed, so it defaults to true.
    assert!(p0.isvelo);
    // The out-of-range hit index 9 is skipped.
    assert_eq!(p0.velohits.len(), 2);
    assert_eq!(p0.velohits[0].id, 0);
    assert_eq!(p0.velohits[1].id, 2);
    assert_eq!(mcp_hits[0].len(), 2);

    let p1 = &particles[1];
    assert!(!p1.islong);
    assert!(p1.strange);
    // Momentum below the cut in magnitude is not over5; -800 is not.
    assert!(!p1.over5);
    assert_eq!(p1.p, -800);
}

#[test]
fn truth_decoder_defaults_missing_fields() {
    let description: Vec<String> = vec!["pid".to_string()];
    let rows = vec![vec![TruthValue::Int(211)]];
    let hits: Vec<Hit> = Vec::new();
    let (particles, _) = parse_montecarlo(&description, &rows, &hits);
    let p = &particles[0];
    assert_eq!(p.pkey, 0);
    assert_eq!(p.p, 0);
    assert!(!p.over5);
    assert!(p.isvelo);
    assert!(!p.islong && !p.isdown && !p.isut && !p.has_scifi);
    assert!(!p.strange && !p.fromb && !p.fromcharm);
    assert!(p.velohits.is_empty());
}

#[test]
fn truth_decoder_momentum_cut_is_strict() {
    let description: Vec<String> = vec!["p".to_string()];
    let hits: Vec<Hit> = Vec::new();
    let rows = vec![
        vec![TruthValue::Int(5000)],
        vec![TruthValue::Int(5001)],
        vec![TruthValue::Int(-5001)],
    ];
    let (particles, _) = parse_montecarlo(&description, &rows, &hits);
    assert!(!particles[0].over5);
    assert!(particles[1].over5);
    assert!(particles[2].over5);
}
