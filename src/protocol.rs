//! The messages exchanged between the coordinator and its clients, and the
//! effects that the coordinator asks its host to carry out.
use vstd::prelude::*;

verus! {

/// A player that a game server reports as connected.
pub struct Player {
    pub steam_id: String,
    pub name: String,
}

/// A message between the coordinator and a client, in either direction.
pub enum MessagePayload {
    /// A client names its role: `api_key` "admin" for the admin, anything
    /// else for a game server.
    ServerHello {
        api_key: String,
        server_num: String,
        server_host: String,
        server_port: String,
        stv_port: String,
    },
    /// The match of `p1_id` and `p2_id` is to be played in arena `arena_id`.
    MatchDetails { arena_id: i32, p1_id: String, p2_id: String },
    MatchBegan { p1_id: String, p2_id: String },
    TournamentStart,
    TournamentStop,
    /// The result of the match played in `arena`.
    MatchResults { winner: String, loser: String, finished: bool, arena: i32 },
    /// The match in `arena` is called off without a result.
    MatchCancel { delinquents: Vec<String>, arrived: String, arena: i32 },
    /// The players now connected to a game server.
    UsersInServer { players: Vec<Player> },
    /// A message that could not be read, or a request that could not be met.
    Error { message: String },
    SetMatchScore { arena_id: i32, p1_score: i32, p2_score: i32 },
}

/// Something the coordinator's host is to do after an event, in the order given.
pub enum Action {
    /// Deliver `message` to connection `to`.
    Send { to: u64, message: MessagePayload },
    /// Enter a player in the bracket.
    AddParticipant { name: String, steam_id: String },
    /// Start the bracket.
    StartTournament,
    /// Report to the bracket service that `winner` beat `loser`.
    ReportResult { winner: String, loser: String },
    /// Fetch the pending pairings from the bracket service and hand them to
    /// the coordinator's sweep.
    SweepPending,
}

/// The messages that the coordinator passes on to every game server.
pub open spec fn relayed(msg: MessagePayload) -> bool {
    ||| msg is MatchDetails
    ||| msg is MatchBegan
    ||| msg is TournamentStart
    ||| msg is TournamentStop
    ||| msg is SetMatchScore
}

/// One `Send` of `msg` to each connection of `to`, in order.
pub open spec fn broadcast(to: Seq<u64>, msg: MessagePayload) -> Seq<Action> {
    Seq::new(to.len(), |i: int| Action::Send { to: to[i], message: msg })
}

/// A copy of a message that the coordinator passes on.
pub fn copy_relayed(msg: &MessagePayload) -> (r: MessagePayload)
    requires
        relayed(*msg),
    ensures
        r == *msg,
{
    match msg {
        MessagePayload::MatchDetails { arena_id, p1_id, p2_id } => MessagePayload::MatchDetails {
            arena_id: *arena_id,
            p1_id: p1_id.clone(),
            p2_id: p2_id.clone(),
        },
        MessagePayload::MatchBegan { p1_id, p2_id } => MessagePayload::MatchBegan {
            p1_id: p1_id.clone(),
            p2_id: p2_id.clone(),
        },
        MessagePayload::TournamentStart => MessagePayload::TournamentStart,
        MessagePayload::TournamentStop => MessagePayload::TournamentStop,
        MessagePayload::SetMatchScore { arena_id, p1_score, p2_score } => MessagePayload::SetMatchScore {
            arena_id: *arena_id,
            p1_score: *p1_score,
            p2_score: *p2_score,
        },
        _ => MessagePayload::TournamentStop,
    }
}

/// Appends one `Send` of `msg` to each connection of `to`.
pub fn push_broadcast(actions: &mut Vec<Action>, to: &Vec<u64>, msg: &MessagePayload)
    requires
        relayed(*msg),
    ensures
        final(actions)@ == old(actions)@ + broadcast(to@, *msg),
{
    let ghost start = actions@;
    let mut i: usize = 0;
    while i < to.len()
        invariant
            relayed(*msg),
            0 <= i <= to@.len(),
            actions@ == start + broadcast(to@.subrange(0, i as int), *msg),
        decreases to@.len() - i,
    {
        actions.push(Action::Send { to: to[i], message: copy_relayed(msg) });
        i = i + 1;
        assert(actions@ =~= start + broadcast(to@.subrange(0, i as int), *msg));
    }
    assert(to@.subrange(0, to@.len() as int) =~= to@);
}

} // verus!
