use velopix_tracking::{
    Event, GraphDFS, Hit, SearchByTripletTrie, Track, TrackFollowing, NUM_MODULES,
};

/// Builds a standard 52-module event; `hits[i] = (module, x, y, z)` and the
/// hits must be ordered by module.
fn build_event(hits: &[(usize, i64, i64, i64)]) -> Event {
    let mut prefix = vec![0usize; NUM_MODULES + 1];
    for m in 0..NUM_MODULES {
        let mut count = 0;
        for h in hits.iter() {
            if h.0 == m {
                count += 1;
            }
        }
        prefix[m + 1] = prefix[m] + count;
    }
    let xs: Vec<i64> = hits.iter().map(|h| h.1).collect();
    let ys: Vec<i64> = hits.iter().map(|h| h.2).collect();
    let zs: Vec<i64> = hits.iter().map(|h| h.3).collect();
    Event::new("test".to_string(), prefix, xs, ys, zs, None).unwrap()
}

fn ids(t: &Track) -> Vec<usize> {
    t.hits.iter().map(|h| h.id).collect()
}

fn all_ids(tracks: &[Track]) -> Vec<Vec<usize>> {
    tracks.iter().map(ids).collect()
}

fn empty_event() -> Event {
    build_event(&[])
}

#[test]
fn empty_event_all_engines_return_nothing() {
    let ev = empty_event();
    assert_eq!(ev.number_of_hits, 0);
    assert_eq!(ev.module_prefix_sum, vec![0usize; 53]);
    assert!(ev.hits.is_empty());

    let c = TrackFollowing::new(None, None, None, None, None);
    assert!(c.solve(&ev).is_empty());
    let d = GraphDFS::new(None, None, None, None, None, None, None, None);
    assert!(d.solve(&ev).is_empty());
    let e = SearchByTripletTrie::new(None, None, None, None);
    assert!(e.solve(&ev).is_empty());
}

/// An event with fewer than three modules yields no tracks.
#[test]
fn few_modules_all_engines_return_nothing() {
    // Build a two-module event by hand (the builder always makes 52).
    let hits = vec![
        Hit::new(0, 0, 0, 0, Some(0), None, None),
        Hit::new(0, 0, 1000, 1, Some(1), None, None),
    ];
    let m0 = velopix_tracking::Module::new(0, vec![0], 0, 1, hits.clone()).unwrap();
    let m1 = velopix_tracking::Module::new(1, vec![1000], 1, 2, hits.clone()).unwrap();
    let ev = Event {
        description: "two modules".to_string(),
        module_prefix_sum: vec![0, 1, 2],
        number_of_hits: 2,
        module_zs: vec![vec![0], vec![1000]],
        hits,
        modules: vec![m0, m1],
    };
    let c = TrackFollowing::new(None, None, None, None, None);
    assert!(c.solve(&ev).is_empty());
    let d = GraphDFS::new(None, None, None, None, None, None, None, None);
    assert!(d.solve(&ev).is_empty());
    let e = SearchByTripletTrie::new(None, None, None, None);
    assert!(e.solve(&ev).is_empty());
}

/// One straight line on modules 0..3: the seed pairs module 3 with module
/// 1, the third hit comes from module 0, and no module below 0 remains to
/// extend into, so the track holds hits 3, 1, 0.
#[test]
fn single_straight_track() {
    let ev = build_event(&[
        (0, 0, 0, 0),
        (1, 0, 0, 1000),
        (2, 0, 0, 2000),
        (3, 0, 0, 3000),
    ]);
    let c = TrackFollowing::new(None, None, None, None, None);
    let tracks = c.solve(&ev);
    assert_eq!(tracks.len(), 1);
    assert_eq!(ids(&tracks[0]), vec![3, 1, 0]);
}

fn two_lines_four_modules() -> Event {
    // Module m holds hit 2m on the x = 0 line and hit 2m + 1 on the
    // x = 10000 line.
    build_event(&[
        (0, 0, 0, 0),
        (0, 10000, 0, 0),
        (1, 0, 0, 1000),
        (1, 10000, 0, 1000),
        (2, 0, 0, 2000),
        (2, 10000, 0, 2000),
        (3, 0, 0, 3000),
        (3, 10000, 0, 3000),
    ])
}

#[test]
fn two_parallel_tracks_following() {
    let ev = two_lines_four_modules();
    let c = TrackFollowing::new(None, None, None, None, None);
    let tracks = c.solve(&ev);
    assert_eq!(all_ids(&tracks), vec![vec![6, 2, 0], vec![7, 3, 1]]);
}

#[test]
fn two_parallel_tracks_graph() {
    let ev = two_lines_four_modules();
    let d = GraphDFS::new(None, None, None, None, None, None, None, None);
    let tracks = d.solve(&ev);
    assert_eq!(tracks.len(), 2);
    for t in &tracks {
        assert!(t.hits.len() >= 3);
        let mut seen: Vec<usize> = Vec::new();
        for h in &t.hits {
            assert!(!seen.contains(&h.id));
            seen.push(h.id);
        }
    }
}

/// With only two merged module pairs the triplet engine cannot seed.
#[test]
fn two_parallel_tracks_triplet_needs_three_pairs() {
    let ev = two_lines_four_modules();
    let e = SearchByTripletTrie::new(None, None, None, None);
    assert!(e.solve(&ev).is_empty());
}

fn two_lines_eight_modules() -> Event {
    let mut hits = Vec::new();
    for m in 0..8usize {
        hits.push((m, 0, 0, 1000 * m as i64));
        hits.push((m, 10000, 0, 1000 * m as i64));
    }
    build_event(&hits)
}

#[test]
fn triplet_engine_finds_line_tracks() {
    let ev = two_lines_eight_modules();
    let e = SearchByTripletTrie::new(None, None, None, None);
    let tracks = e.solve(&ev);
    assert!(tracks.len() >= 2);
    for t in &tracks {
        assert!(t.hits.len() >= 3);
        // Every hit belongs to one line: x is constant along a track.
        let x0 = t.hits[0].x;
        for h in &t.hits {
            assert_eq!(h.x, x0);
        }
        let mut seen: Vec<usize> = Vec::new();
        for h in &t.hits {
            assert!(!seen.contains(&h.id));
            seen.push(h.id);
        }
    }
    // Both lines are found.
    assert!(tracks.iter().any(|t| t.hits[0].x == 0));
    assert!(tracks.iter().any(|t| t.hits[0].x == 10000));
}

/// Running an engine twice on the same event yields identical tracks.
#[test]
fn engines_are_deterministic() {
    let ev = two_lines_eight_modules();
    let c = TrackFollowing::new(None, None, None, None, None);
    assert_eq!(all_ids(&c.solve(&ev)), all_ids(&c.solve(&ev)));
    let d = GraphDFS::new(None, None, None, None, None, None, None, None);
    assert_eq!(all_ids(&d.solve(&ev)), all_ids(&d.solve(&ev)));
    let e = SearchByTripletTrie::new(None, None, None, None);
    assert_eq!(all_ids(&e.solve(&ev)), all_ids(&e.solve(&ev)));
}

/// Every track of every engine has at least three hits and no repeated
/// hit.
#[test]
fn track_lengths_and_multiplicity() {
    let ev = two_lines_eight_modules();
    let c = TrackFollowing::new(None, None, None, None, None);
    let d = GraphDFS::new(None, None, None, None, None, None, None, None);
    let e = SearchByTripletTrie::new(None, None, None, None);
    let mut all = c.solve(&ev);
    all.extend(d.solve(&ev));
    all.extend(e.solve(&ev));
    assert!(!all.is_empty());
    for t in &all {
        assert!(t.hits.len() >= 3);
        let mut seen: Vec<usize> = Vec::new();
        for h in &t.hits {
            assert!(!seen.contains(&h.id), "duplicate hit in track");
            seen.push(h.id);
        }
    }
}

/// Clone and ghost killing in the graph engine: a short track sharing a
/// hit with a long track is dropped; an independent short track stays.
#[test]
fn prune_short_tracks_drops_overlapping_short_tracks() {
    let ev = two_lines_eight_modules();
    let d = GraphDFS::new(None, None, None, None, None, None, None, None);
    let long = Track::new(vec![ev.hits[0], ev.hits[2], ev.hits[4], ev.hits[6]]);
    let short_shared = Track::new(vec![ev.hits[4], ev.hits[8], ev.hits[10]]);
    let short_free = Track::new(vec![ev.hits[1], ev.hits[3], ev.hits[5]]);
    let pruned = d.prune_short_tracks(vec![long, short_shared, short_free]);
    assert_eq!(all_ids(&pruned), vec![vec![0, 2, 4, 6], vec![1, 3, 5]]);
}
