use skiplagging::candidates::{assign_source, is_dead, select_candidates, candidate_round, Candidate, RouteStat, COLD_START_PROBES, DEAD_AFTER_CHECKS};
use skiplagging::learn::EdgeObservation;

fn hs(codes: &[&str]) -> Vec<String> {
    codes.iter().map(|s| (*s).to_string()).collect()
}

fn stat(origin: &str, intended: &str, ticketed: &str, observations: i32, successful: i32, cheaper: i32) -> RouteStat {
    let mut s = RouteStat::new(origin, intended, ticketed);
    s.observations = observations;
    s.successful_connections = successful;
    s.cheaper_than_direct_count = cheaper;
    s
}

#[test]
fn dead_candidate_is_dropped_after_repeated_misses() {
    let bos = stat("JFK", "ORD", "BOS", DEAD_AFTER_CHECKS, 0, 0);
    assert!(is_dead(Some(&bos)));
    assert!(!is_dead(Some(&stat("JFK", "ORD", "MIA", 2, 0, 0))));
    assert!(!is_dead(None));
}

#[test]
fn selection_threshold_and_cold_start() {
    let mut ranked = vec![
        Candidate { observations: 20, ..Candidate::new("DEN", 8100, "stats") },
        Candidate { observations: 20, ..Candidate::new("SEA", 5200, "stats") },
        Candidate::new("PHX", 1250, "hub"),
        Candidate::new("LAS", 1250, "hub"),
        Candidate::new("SFO", 1250, "hub"),
    ];
    let chosen = select_candidates(&mut ranked, 8, 3500, COLD_START_PROBES, &vec![]);
    assert_eq!(chosen.iter().map(|c| c.code.as_str()).collect::<Vec<_>>(), ["DEN", "SEA", "PHX"]);
    assert!(ranked[0].selected && ranked[1].selected && ranked[2].selected && !ranked[3].selected);

    let mut cold: Vec<_> = ["DEN", "SEA", "SFO", "LAX"].iter().map(|c| Candidate::new(c, 1250, "hub")).collect();
    assert_eq!(
        select_candidates(&mut cold, 8, 3500, COLD_START_PROBES, &vec![]).iter().map(|c| c.code.as_str()).collect::<Vec<_>>(),
        ["DEN", "SEA", "SFO"]
    );
    assert_eq!(
        select_candidates(&mut cold, 8, 3500, COLD_START_PROBES, &hs(&["DEN", "SEA", "SFO"]))
            .iter()
            .map(|c| c.code.as_str())
            .collect::<Vec<_>>(),
        ["LAX"]
    );
    assert!(select_candidates(&mut cold, 0, 3500, COLD_START_PROBES, &vec![]).is_empty());
}

#[test]
fn edge_counts_sightings_and_dates_once() {
    let mut e = EdgeObservation::new("jfk", "ord", "ua", "UA200");
    assert_eq!(e.origin, "JFK");
    e.observe("2026-10-10");
    e.observe("2026-10-10");
    e.observe("2026-10-11");
    assert_eq!(e.count, 3);
    assert_eq!(e.travel_dates, ["2026-10-10", "2026-10-11"]);
}

#[test]
fn assign_source_never_lowers_a_learned_source() {
    let mut pool: Vec<(String, String)> = Vec::new();
    assign_source(&mut pool, "ORD".to_string(), "edges");
    assign_source(&mut pool, "ORD".to_string(), "openflights");
    assign_source(&mut pool, "DEN".to_string(), "hub");
    assign_source(&mut pool, "DEN".to_string(), "stats");
    assign_source(&mut pool, "ORD".to_string(), "index");
    assign_source(&mut pool, "ORD".to_string(), "hub");
    assert_eq!(
        pool,
        vec![("ORD".to_string(), "index".to_string()), ("DEN".to_string(), "stats".to_string())]
    );
}

fn ladder() -> Vec<Candidate> {
    vec![
        Candidate::new("DEN", 8100, "stats"),
        Candidate::new("SEA", 5200, "stats"),
        Candidate::new("PHX", 4000, "hub"),
        Candidate::new("LAS", 3600, "hub"),
        Candidate::new("SFO", 1250, "hub"),
    ]
}

#[test]
fn fast_round_takes_the_budget_and_previews_the_rest() {
    let mut ranked = ladder();
    let (taken, pending) = candidate_round(&mut ranked, 2, 3500, COLD_START_PROBES, 4, &vec![], true, false);
    assert_eq!(taken, ["DEN", "SEA"]);
    assert_eq!(pending, ["PHX", "LAS"]);
    let marks: Vec<bool> = ranked.iter().map(|c| c.selected).collect();
    assert_eq!(marks, [true, true, false, false, false]);
}

#[test]
fn fast_round_with_hidden_matches_only_previews() {
    let mut ranked = ladder();
    let (taken, pending) = candidate_round(&mut ranked, 2, 3500, COLD_START_PROBES, 4, &hs(&["sea"]), true, true);
    assert!(taken.is_empty());
    assert_eq!(pending, ["DEN", "PHX", "LAS"]);
    assert!(ranked.iter().all(|c| !c.selected));
}

#[test]
fn full_round_takes_without_preview() {
    let mut ranked = ladder();
    let (taken, pending) = candidate_round(&mut ranked, 3, 3500, COLD_START_PROBES, 8, &vec![], false, true);
    assert_eq!(taken, ["DEN", "SEA", "PHX"]);
    assert!(pending.is_empty());
    assert!(ranked[2].selected && !ranked[3].selected);
}
