use arena_coordinator::arena::Pairing;
use arena_coordinator::coordinator::Tournament;
use arena_coordinator::protocol::{Action, MessagePayload, Player};

fn hello(key: &str) -> MessagePayload {
    MessagePayload::ServerHello {
        api_key: key.to_string(),
        server_num: "1".to_string(),
        server_host: "127.0.0.1".to_string(),
        server_port: "27015".to_string(),
        stv_port: "27020".to_string(),
    }
}

fn pairing(p1_name: &str, p1: &str, p2_name: &str, p2: &str) -> Pairing {
    Pairing {
        p1_name: p1_name.to_string(),
        p1_id: p1.to_string(),
        p2_name: p2_name.to_string(),
        p2_id: p2.to_string(),
    }
}

fn describe(m: &MessagePayload) -> String {
    match m {
        MessagePayload::ServerHello { api_key, .. } => format!("hello {}", api_key),
        MessagePayload::MatchDetails { arena_id, p1_id, p2_id } => {
            format!("details {} {} {}", arena_id, p1_id, p2_id)
        }
        MessagePayload::MatchBegan { p1_id, p2_id } => format!("began {} {}", p1_id, p2_id),
        MessagePayload::TournamentStart => "start".to_string(),
        MessagePayload::TournamentStop => "stop".to_string(),
        MessagePayload::MatchResults { winner, loser, arena, .. } => {
            format!("results {} {} {}", winner, loser, arena)
        }
        MessagePayload::MatchCancel { arena, .. } => format!("cancel {}", arena),
        MessagePayload::UsersInServer { players } => format!("users {}", players.len()),
        MessagePayload::Error { message } => format!("error {}", message),
        MessagePayload::SetMatchScore { arena_id, p1_score, p2_score } => {
            format!("score {} {} {}", arena_id, p1_score, p2_score)
        }
    }
}

fn actions(acts: &[Action]) -> Vec<String> {
    acts.iter()
        .map(|a| match a {
            Action::Send { to, message } => format!("send {} {}", to, describe(message)),
            Action::AddParticipant { name, steam_id } => format!("add {} {}", name, steam_id),
            Action::StartTournament => "start tournament".to_string(),
            Action::ReportResult { winner, loser } => format!("report {} {}", winner, loser),
            Action::SweepPending => "sweep".to_string(),
        })
        .collect()
}

fn with_servers(n: usize, order: Vec<usize>, servers: &[u64]) -> Tournament {
    let mut t = Tournament::new(n, order).unwrap();
    for s in servers {
        assert!(t.handle(*s, hello(&format!("srv{}", s))).is_empty());
    }
    t
}

fn held(t: &Tournament, arena: usize) -> Option<(String, String)> {
    t.arenas().occupant(arena).as_ref().map(|o| (o.p1.clone(), o.p2.clone()))
}

#[test]
fn new_rejects_invalid_priority_order() {
    assert!(Tournament::new(16, vec![5, 4, 9, 10, 2, 3, 9, 11]).is_none());
    assert!(Tournament::new(16, vec![15, 16]).is_none());
    let t = Tournament::new(16, vec![5, 4, 9, 10, 2, 3, 11, 12, 13, 14, 15]).unwrap();
    assert_eq!(t.admin_connection(), None);
    assert!(t.server_connections().is_empty());
    assert!(t.roster().is_empty());
    assert_eq!(t.arenas().num_arenas(), 16);
}

#[test]
fn hello_registers_roles() {
    let mut t = Tournament::new(2, vec![0, 1]).unwrap();
    assert!(t.handle(1, hello("admin")).is_empty());
    assert!(t.handle(2, hello("admin")).is_empty());
    assert!(t.handle(3, hello("srvA")).is_empty());
    assert!(t.handle(3, hello("srvA")).is_empty());
    assert!(t.handle(4, hello("srvB")).is_empty());
    assert_eq!(t.admin_connection(), Some(1));
    assert_eq!(t.server_connections(), &vec![3, 4]);
}

#[test]
fn unregister_forgets_connection_but_not_arena() {
    let mut t = with_servers(2, vec![0, 1], &[3, 4]);
    t.handle(1, hello("admin"));
    t.send_pending_matches(&vec![pairing("x", "1", "y", "2")]);
    t.unregister(3);
    t.unregister(1);
    assert_eq!(t.admin_connection(), None);
    assert_eq!(t.server_connections(), &vec![4]);
    assert_eq!(held(&t, 0), Some(("1".to_string(), "2".to_string())));
    t.unregister(9);
    assert_eq!(t.server_connections(), &vec![4]);
}

#[test]
fn end_to_end_roster_then_sweep() {
    let mut t = with_servers(4, vec![2, 0, 1, 3], &[1, 2]);
    let players = vec![
        Player { steam_id: "1".to_string(), name: "x".to_string() },
        Player { steam_id: "2".to_string(), name: "y".to_string() },
    ];
    let acts = t.handle(7, MessagePayload::UsersInServer { players });
    assert_eq!(actions(&acts), vec!["add x 1", "add y 2", "start tournament", "sweep"]);
    assert_eq!(t.roster().len(), 2);
    let acts = t.send_pending_matches(&vec![pairing("x", "1", "y", "2")]);
    assert_eq!(actions(&acts), vec!["send 1 details 2 1 2", "send 2 details 2 1 2"]);
    assert_eq!(held(&t, 2), Some(("1".to_string(), "2".to_string())));
}

#[test]
fn one_arena_sweep_broadcasts_once() {
    let mut t = with_servers(1, vec![0], &[5]);
    let acts = t.send_pending_matches(&vec![pairing("a", "A", "b", "B"), pairing("c", "C", "d", "D")]);
    assert_eq!(actions(&acts), vec!["send 5 details 0 A B"]);
    assert!(!t.arenas().is_playing(&"C".to_string()));
}

#[test]
fn result_reported_before_next_sweep() {
    let mut t = with_servers(1, vec![0], &[5]);
    t.send_pending_matches(&vec![pairing("x", "1", "y", "2")]);
    let results = MessagePayload::MatchResults {
        winner: "1".to_string(),
        loser: "2".to_string(),
        finished: true,
        arena: 0,
    };
    let acts = t.handle(5, results);
    assert_eq!(actions(&acts), vec!["report 1 2", "sweep"]);
    assert!(t.arenas().is_free(0));
    // The bracket service, asked after the report, no longer lists the pair.
    let acts = t.send_pending_matches(&vec![pairing("x", "1", "z", "3")]);
    assert_eq!(actions(&acts), vec!["send 5 details 0 1 3"]);
}

#[test]
fn busy_pairing_waits_while_arena_is_held() {
    let mut t = with_servers(2, vec![0, 1], &[5]);
    t.send_pending_matches(&vec![pairing("x", "1", "y", "2")]);
    let acts = t.send_pending_matches(&vec![pairing("x", "1", "y", "2")]);
    assert!(acts.is_empty());
    assert!(t.arenas().is_free(1));
}

#[test]
fn stop_frees_arenas_for_next_sweep() {
    let mut t = with_servers(1, vec![0], &[5, 6]);
    t.send_pending_matches(&vec![pairing("x", "1", "y", "2")]);
    assert!(t.send_pending_matches(&vec![pairing("z", "3", "w", "4")]).is_empty());
    let acts = t.handle(9, MessagePayload::TournamentStop);
    assert_eq!(actions(&acts), vec!["send 5 stop", "send 6 stop"]);
    assert!(t.arenas().is_free(0));
    let acts = t.send_pending_matches(&vec![pairing("z", "3", "w", "4")]);
    assert_eq!(actions(&acts), vec!["send 5 details 0 3 4", "send 6 details 0 3 4"]);
}

#[test]
fn cancel_releases_without_report() {
    let mut t = with_servers(2, vec![1, 0], &[5]);
    t.send_pending_matches(&vec![pairing("x", "1", "y", "2")]);
    let cancel = MessagePayload::MatchCancel {
        delinquents: vec!["2".to_string()],
        arrived: "1".to_string(),
        arena: 1,
    };
    assert!(t.handle(5, cancel).is_empty());
    assert!(t.arenas().is_free(1));
}

#[test]
fn inbound_match_details_overrides_and_relays() {
    let mut t = with_servers(2, vec![0, 1], &[5, 6]);
    t.send_pending_matches(&vec![pairing("x", "1", "y", "2")]);
    let details = MessagePayload::MatchDetails {
        arena_id: 0,
        p1_id: "1".to_string(),
        p2_id: "3".to_string(),
    };
    let acts = t.handle(1, details);
    assert_eq!(actions(&acts), vec!["send 5 details 0 1 3", "send 6 details 0 1 3"]);
    assert_eq!(held(&t, 0), Some(("1".to_string(), "3".to_string())));
    // The direct path does not check players: "1" may now hold two arenas.
    let details = MessagePayload::MatchDetails {
        arena_id: 1,
        p1_id: "1".to_string(),
        p2_id: "4".to_string(),
    };
    t.handle(1, details);
    assert_eq!(held(&t, 1), Some(("1".to_string(), "4".to_string())));
}

#[test]
fn arena_out_of_range_gets_error_reply() {
    let mut t = with_servers(2, vec![0, 1], &[5]);
    let bad = [
        MessagePayload::MatchCancel { delinquents: vec![], arrived: String::new(), arena: 2 },
        MessagePayload::MatchResults {
            winner: "1".to_string(),
            loser: "2".to_string(),
            finished: true,
            arena: -1,
        },
        MessagePayload::MatchDetails { arena_id: 7, p1_id: "1".to_string(), p2_id: "2".to_string() },
    ];
    for m in bad {
        let acts = t.handle(5, m);
        assert_eq!(actions(&acts), vec!["send 5 error no such arena"]);
    }
    assert!(t.arenas().is_free(0) && t.arenas().is_free(1));
}

#[test]
fn relayed_messages_reach_every_server() {
    let mut t = with_servers(2, vec![0, 1], &[5, 6]);
    let acts = t.handle(1, MessagePayload::SetMatchScore { arena_id: 1, p1_score: 3, p2_score: 2 });
    assert_eq!(actions(&acts), vec!["send 5 score 1 3 2", "send 6 score 1 3 2"]);
    let acts = t.handle(1, MessagePayload::TournamentStart);
    assert_eq!(actions(&acts), vec!["send 5 start", "send 6 start"]);
    let acts = t.handle(1, MessagePayload::MatchBegan { p1_id: "1".to_string(), p2_id: "2".to_string() });
    assert_eq!(actions(&acts), vec!["send 5 began 1 2", "send 6 began 1 2"]);
    assert!(t.arenas().is_free(0) && t.arenas().is_free(1));
}

#[test]
fn error_goes_back_to_sender() {
    let mut t = with_servers(2, vec![0, 1], &[5, 6]);
    let acts = t.handle(6, MessagePayload::Error { message: "expected value".to_string() });
    assert_eq!(actions(&acts), vec!["send 6 error expected value"]);
}
