use arena_coordinator::bracket::{
    find_participant, pending_matches, report_match, unfinished_matches, Match, MatchUpdate,
    Participant,
};

fn part(id: u64, name: &str, misc: &str) -> Participant {
    Participant { id, name: name.to_string(), misc: misc.to_string() }
}

fn mtch(id: u64, p1: Option<u64>, p2: Option<u64>, winner: Option<u64>) -> Match {
    Match { id, player1_id: p1, player2_id: p2, winner_id: winner }
}

fn roster() -> Vec<Participant> {
    vec![part(10, "x", "1"), part(11, "y", "2"), part(12, "z", "3")]
}

#[test]
fn unfinished_keeps_matches_without_winner() {
    let ms = vec![
        mtch(1, Some(10), Some(11), None),
        mtch(2, Some(10), Some(12), Some(10)),
        mtch(3, None, None, None),
    ];
    let r = unfinished_matches(&ms);
    assert_eq!(r.iter().map(|m| m.id).collect::<Vec<_>>(), vec![1, 3]);
}

#[test]
fn find_participant_takes_last_with_id() {
    let ps = vec![part(5, "a", "1"), part(6, "b", "2"), part(5, "c", "3")];
    assert_eq!(find_participant(&ps, 5), Some(2));
    assert_eq!(find_participant(&ps, 6), Some(1));
    assert_eq!(find_participant(&ps, 7), None);
}

#[test]
fn pending_lists_playable_matches() {
    let ms = vec![
        mtch(1, Some(10), Some(11), None),
        mtch(2, Some(10), Some(12), Some(12)),
        mtch(3, Some(12), None, None),
        mtch(4, Some(12), Some(99), None),
        mtch(5, Some(12), Some(10), None),
    ];
    let p = pending_matches(&ms, &roster());
    assert_eq!(p.len(), 2);
    assert_eq!(
        (p[0].p1_name.as_str(), p[0].p1_id.as_str(), p[0].p2_name.as_str(), p[0].p2_id.as_str()),
        ("x", "1", "y", "2")
    );
    assert_eq!(
        (p[1].p1_name.as_str(), p[1].p1_id.as_str(), p[1].p2_name.as_str(), p[1].p2_id.as_str()),
        ("z", "3", "x", "1")
    );
}

#[test]
fn report_names_winner_of_either_seat() {
    let ms = vec![mtch(1, Some(10), Some(11), None), mtch(2, Some(12), Some(10), None)];
    let r = report_match(&ms, &roster(), &"1".to_string(), &"2".to_string());
    assert_eq!(r.len(), 1);
    assert_eq!((r[0].match_id, r[0].winner_id, r[0].player1_won), (1, 10, true));
    assert_eq!(r[0].scores_csv(), "1-0");

    let r = report_match(&ms, &roster(), &"1".to_string(), &"3".to_string());
    assert_eq!(r.len(), 1);
    assert_eq!((r[0].match_id, r[0].winner_id, r[0].player1_won), (2, 10, false));
    assert_eq!(r[0].scores_csv(), "0-1");
}

#[test]
fn report_skips_finished_and_unrelated_matches() {
    let ms = vec![mtch(1, Some(10), Some(11), Some(10)), mtch(2, Some(11), Some(12), None)];
    assert!(report_match(&ms, &roster(), &"1".to_string(), &"2".to_string()).is_empty());
    assert!(report_match(&vec![], &roster(), &"1".to_string(), &"2".to_string()).is_empty());
}

#[test]
fn score_lines() {
    let won = MatchUpdate { match_id: 7, winner_id: 3, player1_won: true };
    let lost = MatchUpdate { match_id: 7, winner_id: 4, player1_won: false };
    assert_eq!(won.scores_csv(), "1-0");
    assert_eq!(lost.scores_csv(), "0-1");
}
