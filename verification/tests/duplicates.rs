use infospot::apply::{removal_requests, RemovalRun, RunState};
use infospot::duplicates::{find_duplicates, group_by_key, PositionGroup, TrackOccurrence};
use infospot::removal::{build_removal_plan, track_uri, RemovalEntry, RemovalPlan};
use infospot::snapshot::{apply_to_snapshot, snapshot_of};

fn occurrence(id: &str, position: usize) -> TrackOccurrence {
    TrackOccurrence { track_identity: id.to_string(), position }
}

fn playlist(ids: &[&str]) -> Vec<TrackOccurrence> {
    let ids: Vec<String> = ids.iter().map(|id| id.to_string()).collect();
    snapshot_of(&ids)
}

fn pairs(plan: &RemovalPlan) -> Vec<(String, usize)> {
    plan.entries.iter().map(|e| (e.uri.clone(), e.position)).collect()
}

fn groups(found: &[PositionGroup]) -> Vec<(String, Vec<usize>)> {
    found.iter().map(|g| (g.key.clone(), g.positions.clone())).collect()
}

#[test]
fn duplicates_of_the_example_playlist() {
    let occurrences = vec![
        occurrence("A", 0),
        occurrence("B", 1),
        occurrence("A", 2),
        occurrence("A", 3),
        occurrence("C", 4),
    ];
    let found = find_duplicates(&occurrences);
    assert_eq!(groups(&found), vec![("A".to_string(), vec![0, 2, 3])]);
    let plan = build_removal_plan(&found);
    assert_eq!(
        pairs(&plan),
        vec![("spotify:track:A".to_string(), 3), ("spotify:track:A".to_string(), 2)]
    );
    assert_eq!(plan.total_removed, 2);
}

#[test]
fn empty_playlist_has_no_duplicates_and_an_empty_plan() {
    let occurrences: Vec<TrackOccurrence> = Vec::new();
    let found = find_duplicates(&occurrences);
    assert!(found.is_empty());
    let plan = build_removal_plan(&found);
    assert!(plan.entries.is_empty());
    assert_eq!(plan.total_removed, 0);
    let mut run = RemovalRun::new(&plan);
    assert!(run.next_request().is_none());
    assert!(matches!(run.state(), RunState::Done));
    assert!(matches!(run.outcome(), Some(Ok(0))));
    run = RemovalRun::new(&plan);
    assert!(run.next_request().is_none());
}

#[test]
fn playlist_without_duplicates_gives_no_group() {
    let found = find_duplicates(&playlist(&["a", "b", "c"]));
    assert!(found.is_empty());
}

#[test]
fn groups_stand_in_order_of_first_occurrence() {
    let found = find_duplicates(&playlist(&["x", "b", "a", "b", "c", "a", "b", "x"]));
    assert_eq!(
        groups(&found),
        vec![
            ("x".to_string(), vec![0, 7]),
            ("b".to_string(), vec![1, 3, 6]),
            ("a".to_string(), vec![2, 5]),
        ]
    );
}

#[test]
fn no_group_is_smaller_than_two_and_positions_are_those_of_repeated_tracks() {
    let ids = ["a", "b", "a", "c", "b", "a", "d"];
    let occurrences = playlist(&ids);
    let found = find_duplicates(&occurrences);
    let mut reported: Vec<usize> = Vec::new();
    for group in &found {
        assert!(group.positions.len() >= 2);
        reported.extend(group.positions.iter());
    }
    reported.sort();
    let mut expected: Vec<usize> = Vec::new();
    for (i, id) in ids.iter().enumerate() {
        if ids.iter().filter(|other| *other == id).count() > 1 {
            expected.push(i);
        }
    }
    assert_eq!(reported, expected);
}

#[test]
fn plan_keeps_first_occurrences_and_counts_the_rest() {
    let occurrences = playlist(&["a", "b", "a", "c", "b", "a", "d"]);
    let found = find_duplicates(&occurrences);
    let plan = build_removal_plan(&found);
    let expected: usize = found.iter().map(|g| g.positions.len() - 1).sum();
    assert_eq!(plan.total_removed, expected);
    assert_eq!(plan.entries.len(), expected);
    for group in &found {
        let first = group.positions[0];
        assert!(plan.entries.iter().all(|e| e.position != first));
    }
    assert_eq!(
        pairs(&plan),
        vec![
            ("spotify:track:a".to_string(), 5),
            ("spotify:track:b".to_string(), 4),
            ("spotify:track:a".to_string(), 2),
        ]
    );
}

#[test]
fn plan_is_strictly_descending() {
    let occurrences = playlist(&["q", "q", "r", "q", "r", "s", "s", "q"]);
    let plan = build_removal_plan(&find_duplicates(&occurrences));
    for pair in plan.entries.windows(2) {
        assert!(pair[0].position > pair[1].position);
    }
    let mut sorted = pairs(&plan);
    sorted.sort_by(|a, b| b.1.cmp(&a.1));
    assert_eq!(sorted, pairs(&plan));
}

#[test]
fn plan_of_groups_with_equal_positions_keeps_their_order() {
    let found = vec![
        PositionGroup { key: "a".to_string(), positions: vec![0, 4, 4] },
        PositionGroup { key: "b".to_string(), positions: vec![1, 4] },
        PositionGroup { key: "c".to_string(), positions: vec![] },
        PositionGroup { key: "d".to_string(), positions: vec![9] },
    ];
    let plan = build_removal_plan(&found);
    assert_eq!(
        pairs(&plan),
        vec![
            ("spotify:track:a".to_string(), 4),
            ("spotify:track:a".to_string(), 4),
            ("spotify:track:b".to_string(), 4),
        ]
    );
    assert_eq!(plan.total_removed, 3);
}

#[test]
fn nothing_is_duplicated_after_the_plan_is_applied() {
    let occurrences = playlist(&["a", "b", "a", "c", "b", "a", "d", "d"]);
    let plan = build_removal_plan(&find_duplicates(&occurrences));
    let rest = apply_to_snapshot(&occurrences, &plan.entries);
    let left: Vec<(String, usize)> =
        rest.iter().map(|o| (o.track_identity.clone(), o.position)).collect();
    assert_eq!(
        left,
        vec![
            ("a".to_string(), 0),
            ("b".to_string(), 1),
            ("c".to_string(), 2),
            ("d".to_string(), 3),
        ]
    );
    assert!(find_duplicates(&rest).is_empty());
}

#[test]
fn applying_a_plan_removes_only_matching_uri_and_position() {
    let occurrences = playlist(&["a", "b", "c"]);
    let entries = vec![
        RemovalEntry { uri: "spotify:track:a".to_string(), position: 1 },
        RemovalEntry { uri: "spotify:track:c".to_string(), position: 2 },
    ];
    let rest = apply_to_snapshot(&occurrences, &entries);
    let left: Vec<String> = rest.iter().map(|o| o.track_identity.clone()).collect();
    assert_eq!(left, vec!["a".to_string(), "b".to_string()]);
}

#[test]
fn track_uri_prefixes_the_identity() {
    assert_eq!(track_uri("4uLU6hMCjMI75M1A2tKUQC"), "spotify:track:4uLU6hMCjMI75M1A2tKUQC");
    assert_eq!(track_uri(""), "spotify:track:");
}

#[test]
fn requests_group_the_plan_by_uri() {
    let occurrences = playlist(&["a", "b", "a", "c", "b", "a"]);
    let plan = build_removal_plan(&find_duplicates(&occurrences));
    let requests = removal_requests(&plan);
    assert_eq!(
        groups(&requests),
        vec![
            ("spotify:track:a".to_string(), vec![5, 2]),
            ("spotify:track:b".to_string(), vec![4]),
        ]
    );
}

#[test]
fn grouping_by_key_keeps_every_item() {
    let entries = vec![
        RemovalEntry { uri: "u".to_string(), position: 3 },
        RemovalEntry { uri: "v".to_string(), position: 2 },
        RemovalEntry { uri: "u".to_string(), position: 1 },
    ];
    let grouped = group_by_key(&entries);
    assert_eq!(
        groups(&grouped),
        vec![("u".to_string(), vec![3, 1]), ("v".to_string(), vec![2])]
    );
}

#[test]
fn run_counts_removed_occurrences() {
    let occurrences = playlist(&["a", "b", "a", "c", "b", "a"]);
    let plan = build_removal_plan(&find_duplicates(&occurrences));
    let mut run = RemovalRun::new(&plan);
    assert!(matches!(run.state(), RunState::Sending(0)));
    assert!(run.outcome().is_none());
    let first = run.next_request().map(|r| r.key.clone());
    assert_eq!(first, Some("spotify:track:a".to_string()));
    run.record_response(200, String::new());
    assert!(matches!(run.state(), RunState::Sending(1)));
    let second = run.next_request().map(|r| r.key.clone());
    assert_eq!(second, Some("spotify:track:b".to_string()));
    run.record_response(204, String::new());
    assert!(run.next_request().is_none());
    assert!(matches!(run.state(), RunState::Done));
    assert!(matches!(run.outcome(), Some(Ok(3))));
}

#[test]
fn run_ends_at_the_first_failure() {
    let occurrences = playlist(&["a", "b", "a", "b"]);
    let plan = build_removal_plan(&find_duplicates(&occurrences));
    let mut run = RemovalRun::new(&plan);
    run.record_response(403, "forbidden".to_string());
    assert!(run.next_request().is_none());
    match run.state() {
        RunState::Failed(status, body) => {
            assert_eq!(status, 403);
            assert_eq!(body, "forbidden");
        }
        _ => panic!("the run should have failed"),
    }
    match run.outcome() {
        Some(Err(error)) => {
            assert_eq!(error.status, 403);
            assert_eq!(error.body, "forbidden");
        }
        _ => panic!("the outcome should be the error"),
    }
}

#[test]
fn requests_sent_in_plan_order_remove_the_planned_occurrences() {
    let ids = ["a", "b", "a", "c", "b", "a", "d", "d", "a"];
    let occurrences = playlist(&ids);
    let plan = build_removal_plan(&find_duplicates(&occurrences));
    let mut remote: Vec<String> = ids.iter().map(|id| id.to_string()).collect();
    for entry in &plan.entries {
        assert_eq!(track_uri(&remote[entry.position]), entry.uri);
        remote.remove(entry.position);
    }
    let expected: Vec<String> = apply_to_snapshot(&occurrences, &plan.entries)
        .into_iter()
        .map(|o| o.track_identity)
        .collect();
    assert_eq!(remote, expected);
    assert_eq!(remote, vec!["a", "b", "c", "d"]);
}

#[test]
fn requests_mirror_the_duplicate_groups() {
    let occurrences = playlist(&["x", "y", "x", "z", "y", "x", "w"]);
    let found = find_duplicates(&occurrences);
    let requests = removal_requests(&build_removal_plan(&found));
    assert_eq!(requests.len(), found.len());
    for group in &found {
        let uri = track_uri(&group.key);
        let request = requests.iter().find(|r| r.key == uri).unwrap();
        let mut later: Vec<usize> = group.positions[1..].to_vec();
        later.reverse();
        assert_eq!(request.positions, later);
    }
}
