//! The tournament coordinator: it keeps the connection registry, the roster
//! and the arena pool, and answers each inbound message with the state change
//! and the actions that the message calls for.
use vstd::prelude::*;
use crate::arena::{
    ArenaPool, MatchDetails, Occupant, Pairing, all_free, lemma_sweep_after_reset, released,
    sweep_placements, sweep_slots, valid_config,
};
use crate::protocol::{Action, MessagePayload, Player, broadcast, push_broadcast};

verus! {

/// The coordinator's state: at most one admin connection, the game-server
/// connections in the order they registered, the last roster reported, and
/// the arena pool.
pub struct Tournament {
    admin: Option<u64>,
    servers: Vec<u64>,
    players: Vec<Player>,
    arenas: ArenaPool,
}

/// The message that announces a placed match to the game servers.
pub open spec fn details_message(d: MatchDetails) -> MessagePayload {
    MessagePayload::MatchDetails { arena_id: d.arena_id as i32, p1_id: d.p1_id, p2_id: d.p2_id }
}

/// The announcements of the placed matches `ds`, each to every connection of `to`.
pub open spec fn announce(to: Seq<u64>, ds: Seq<MatchDetails>) -> Seq<Action>
    decreases ds.len(),
{
    if ds.len() == 0 {
        Seq::empty()
    } else {
        announce(to, ds.drop_last()) + broadcast(to, details_message(ds.last()))
    }
}

/// `arena` names a slot of a pool of `n`.
pub open spec fn arena_in_range(arena: i32, n: nat) -> bool {
    0 <= arena && arena < n
}

/// The one reply to a message that names an arena outside the pool.
pub open spec fn no_such_arena_reply(acts: Seq<Action>, from: u64) -> bool {
    &&& acts.len() == 1
    &&& acts[0] matches Action::Send { to, message: MessagePayload::Error { message } }
    &&& to == from
    &&& message@ == "no such arena"@
}

/// The registry after connection `from` says hello with `key`: "admin" makes
/// it the admin unless there is one already; any other key adds it to the
/// game servers unless it is there already.
pub open spec fn registered_admin(admin: Option<u64>, from: u64, key: Seq<char>) -> Option<u64> {
    if key == "admin"@ && admin is None {
        Some(from)
    } else {
        admin
    }
}

pub open spec fn registered_servers(servers: Seq<u64>, from: u64, key: Seq<char>) -> Seq<u64> {
    if key == "admin"@ || servers.contains(from) {
        servers
    } else {
        servers.push(from)
    }
}

/// One `AddParticipant` for each player of `players`, in order.
pub open spec fn participant_actions(players: Seq<Player>) -> Seq<Action> {
    Seq::new(
        players.len(),
        |i: int| Action::AddParticipant { name: players[i].name, steam_id: players[i].steam_id },
    )
}

impl Tournament {
    /// The admin connection, if one has registered.
    pub closed spec fn admin(&self) -> Option<u64> {
        self.admin
    }

    /// The game-server connections, in the order they registered.
    pub closed spec fn servers(&self) -> Seq<u64> {
        self.servers@
    }

    /// The roster last reported.
    pub closed spec fn players(&self) -> Seq<Player> {
        self.players@
    }

    /// What each arena hosts.
    pub closed spec fn slots(&self) -> Seq<Option<Occupant>> {
        self.arenas.slots()
    }

    /// The preference order over arenas.
    pub closed spec fn order(&self) -> Seq<usize> {
        self.arenas.order()
    }

    pub closed spec fn wf(&self) -> bool {
        &&& self.arenas.wf()
        &&& self.servers@.no_duplicates()
    }

    /// The registry, the roster and the preference order are those of `pre`.
    pub open spec fn keeps_all_but_slots(&self, pre: Tournament) -> bool {
        &&& self.admin() == pre.admin()
        &&& self.servers() == pre.servers()
        &&& self.players() == pre.players()
        &&& self.order() == pre.order()
    }

    /// Nothing of `pre` but its arena slots may differ.
    pub open spec fn same_as(&self, pre: Tournament) -> bool {
        &&& self.keeps_all_but_slots(pre)
        &&& self.slots() == pre.slots()
    }

    /// What handling `msg` from connection `from` does: `self` is the state
    /// before, `post` the state after, `acts` the actions asked for.
    pub open spec fn handles(
        &self,
        post: Tournament,
        from: u64,
        msg: MessagePayload,
        acts: Seq<Action>,
    ) -> bool {
        let n = self.slots().len();
        match msg {
            MessagePayload::ServerHello { api_key, .. } => {
                &&& post.admin() == registered_admin(self.admin(), from, api_key@)
                &&& post.servers() == registered_servers(self.servers(), from, api_key@)
                &&& post.players() == self.players()
                &&& post.order() == self.order()
                &&& post.slots() == self.slots()
                &&& acts.len() == 0
            },
            MessagePayload::MatchDetails { arena_id, p1_id, p2_id } => if arena_in_range(arena_id, n) {
                &&& post.keeps_all_but_slots(*self)
                &&& post.slots() == self.slots().update(
                    arena_id as int,
                    Some(Occupant { p1: p1_id, p2: p2_id }),
                )
                &&& acts == broadcast(self.servers(), msg)
            } else {
                post.same_as(*self) && no_such_arena_reply(acts, from)
            },
            MessagePayload::TournamentStop => {
                &&& post.keeps_all_but_slots(*self)
                &&& post.slots() == all_free(n)
                &&& acts == broadcast(self.servers(), msg)
            },
            MessagePayload::MatchCancel { arena, .. } => if arena_in_range(arena, n) {
                &&& post.keeps_all_but_slots(*self)
                &&& post.slots() == released(self.slots(), arena as int)
                &&& acts.len() == 0
            } else {
                post.same_as(*self) && no_such_arena_reply(acts, from)
            },
            MessagePayload::MatchResults { winner, loser, arena, .. } => if arena_in_range(arena, n) {
                &&& post.keeps_all_but_slots(*self)
                &&& post.slots() == released(self.slots(), arena as int)
                &&& acts == seq![Action::ReportResult { winner, loser }, Action::SweepPending]
            } else {
                post.same_as(*self) && no_such_arena_reply(acts, from)
            },
            MessagePayload::UsersInServer { players } => {
                &&& post.admin() == self.admin()
                &&& post.servers() == self.servers()
                &&& post.players() == players@
                &&& post.order() == self.order()
                &&& post.slots() == self.slots()
                &&& acts == participant_actions(players@) + seq![
                    Action::StartTournament,
                    Action::SweepPending,
                ]
            },
            MessagePayload::Error { .. } => {
                post.same_as(*self) && acts == seq![Action::Send { to: from, message: msg }]
            },
            _ => post.same_as(*self) && acts == broadcast(self.servers(), msg),
        }
    }

    /// A coordinator with no connections, an empty roster and `num_arenas`
    /// free arenas taken in the order `arena_priority_order`; `None` when
    /// that order lists an arena outside the pool or one arena twice, or the
    /// pool is too large for an arena's index to fit a message.
    pub fn new(num_arenas: usize, arena_priority_order: Vec<usize>) -> (r: Option<Tournament>)
        ensures
            r is Some <==> valid_config(num_arenas as nat, arena_priority_order@),
            r matches Some(t) ==> {
                &&& t.wf()
                &&& t.admin() is None
                &&& t.servers().len() == 0
                &&& t.players().len() == 0
                &&& t.order() == arena_priority_order@
                &&& t.slots() == all_free(num_arenas as nat)
            },
    {
        match ArenaPool::new(num_arenas, arena_priority_order) {
            Some(arenas) => Some(Tournament { admin: None, servers: Vec::new(), players: Vec::new(), arenas }),
            None => None,
        }
    }

    /// The admin connection, if one has registered.
    pub fn admin_connection(&self) -> (r: Option<u64>)
        ensures
            r == self.admin(),
    {
        self.admin
    }

    /// The game-server connections, in the order they registered.
    pub fn server_connections(&self) -> (r: &Vec<u64>)
        ensures
            r@ == self.servers(),
    {
        &self.servers
    }

    /// The roster last reported.
    pub fn roster(&self) -> (r: &Vec<Player>)
        ensures
            r@ == self.players(),
    {
        &self.players
    }

    /// The arena pool.
    pub fn arenas(&self) -> (r: &ArenaPool)
        ensures
            r.slots() == self.slots(),
            r.order() == self.order(),
    {
        &self.arenas
    }

    fn no_such_arena(from: u64) -> (acts: Vec<Action>)
        ensures
            no_such_arena_reply(acts@, from),
    {
        let mut acts: Vec<Action> = Vec::new();
        acts.push(Action::Send { to: from, message: MessagePayload::Error { message: "no such arena".to_owned() } });
        acts
    }

    /// Handles one message from connection `from` and returns the actions it
    /// calls for; see `handles`.
    pub fn handle(&mut self, from: u64, msg: MessagePayload) -> (acts: Vec<Action>)
        requires
            old(self).wf(),
        ensures
            final(self).wf(),
            old(self).handles(*final(self), from, msg, acts@),
    {
        let n = self.arenas.num_arenas();
        let mut acts: Vec<Action> = Vec::new();
        match msg {
            MessagePayload::ServerHello { api_key, .. } => {
                let admin_key = "admin".to_owned();
                if api_key == admin_key {
                    if self.admin.is_none() {
                        self.admin = Some(from);
                    }
                } else {
                    self.register_server(from);
                }
            },
            MessagePayload::MatchDetails { arena_id, p1_id, p2_id } => {
                if arena_id < 0 || arena_id as usize >= n {
                    return Self::no_such_arena(from);
                }
                let out = MessagePayload::MatchDetails { arena_id, p1_id: p1_id.clone(), p2_id: p2_id.clone() };
                self.arenas.allocate(arena_id as usize, p1_id, p2_id);
                push_broadcast(&mut acts, &self.servers, &out);
            },
            MessagePayload::TournamentStop => {
                self.arenas.reset();
                push_broadcast(&mut acts, &self.servers, &MessagePayload::TournamentStop);
            },
            MessagePayload::MatchCancel { arena, .. } => {
                if arena < 0 || arena as usize >= n {
                    return Self::no_such_arena(from);
                }
                self.arenas.release(arena as usize);
            },
            MessagePayload::MatchResults { winner, loser, arena, .. } => {
                if arena < 0 || arena as usize >= n {
                    return Self::no_such_arena(from);
                }
                // The arena is freed whether or not the report reaches the
                // bracket service; the sweep runs after the report.
                self.arenas.release(arena as usize);
                acts.push(Action::ReportResult { winner, loser });
                acts.push(Action::SweepPending);
                assert(acts@ =~= seq![Action::ReportResult { winner, loser }, Action::SweepPending]);
            },
            MessagePayload::UsersInServer { players } => {
                let mut i: usize = 0;
                while i < players.len()
                    invariant
                        0 <= i <= players@.len(),
                        acts@ == participant_actions(players@.subrange(0, i as int)),
                    decreases players@.len() - i,
                {
                    acts.push(
                        Action::AddParticipant {
                            name: players[i].name.clone(),
                            steam_id: players[i].steam_id.clone(),
                        },
                    );
                    i = i + 1;
                    assert(acts@ =~= participant_actions(players@.subrange(0, i as int)));
                }
                assert(players@.subrange(0, players@.len() as int) =~= players@);
                self.players = players;
                acts.push(Action::StartTournament);
                acts.push(Action::SweepPending);
                assert(acts@ =~= participant_actions(self.players@) + seq![
                    Action::StartTournament,
                    Action::SweepPending,
                ]);
            },
            MessagePayload::Error { message } => {
                acts.push(Action::Send { to: from, message: MessagePayload::Error { message } });
            },
            MessagePayload::MatchBegan { p1_id, p2_id } => {
                push_broadcast(&mut acts, &self.servers, &MessagePayload::MatchBegan { p1_id, p2_id });
            },
            MessagePayload::TournamentStart => {
                push_broadcast(&mut acts, &self.servers, &MessagePayload::TournamentStart);
            },
            MessagePayload::SetMatchScore { arena_id, p1_score, p2_score } => {
                push_broadcast(
                    &mut acts,
                    &self.servers,
                    &MessagePayload::SetMatchScore { arena_id, p1_score, p2_score },
                );
            },
        }
        acts
    }

    fn register_server(&mut self, from: u64)
        requires
            old(self).wf(),
        ensures
            final(self).wf(),
            final(self).admin() == old(self).admin(),
            final(self).players() == old(self).players(),
            final(self).order() == old(self).order(),
            final(self).slots() == old(self).slots(),
            final(self).servers() == (if old(self).servers().contains(from) {
                old(self).servers()
            } else {
                old(self).servers().push(from)
            }),
    {
        if position_of(&self.servers, from).is_some() {
            return;
        }
        let ghost pre = self.servers@;
        self.servers.push(from);
        assert(self.servers@.no_duplicates()) by {
            assert forall|i: int, j: int|
                0 <= i < self.servers@.len() && 0 <= j < self.servers@.len() && i != j implies self.servers@[i]
                != self.servers@[j] by {
                if i < pre.len() && j < pre.len() {
                    assert(pre[i] != pre[j]);
                } else if i < pre.len() {
                    assert(pre[i] != from);
                } else if j < pre.len() {
                    assert(pre[j] != from);
                }
            }
        }
    }

    /// Forgets connection `from`, as admin or as game server. The arenas
    /// keep what they host.
    pub fn unregister(&mut self, from: u64)
        requires
            old(self).wf(),
        ensures
            final(self).wf(),
            final(self).admin() == (if old(self).admin() == Some(from) {
                None
            } else {
                old(self).admin()
            }),
            final(self).servers() == old(self).servers().remove_value(from),
            !final(self).servers().contains(from),
            final(self).players() == old(self).players(),
            final(self).order() == old(self).order(),
            final(self).slots() == old(self).slots(),
    {
        if self.admin == Some(from) {
            self.admin = None;
        }
        let ghost pre = self.servers@;
        proof {
            pre.index_of_first_ensures(from);
        }
        match position_of(&self.servers, from) {
            Some(k) => {
                self.servers.remove(k);
                proof {
                    let rest = pre.remove(k as int);
                    assert forall|i: int, j: int|
                        0 <= i < rest.len() && 0 <= j < rest.len() && i != j implies rest[i]
                        != rest[j] by {
                        let oi = if i < k { i } else { i + 1 };
                        let oj = if j < k { j } else { j + 1 };
                        assert(rest[i] == pre[oi] && rest[j] == pre[oj]);
                    }
                    assert(!rest.contains(from)) by {
                        if rest.contains(from) {
                            let i = choose|i: int| 0 <= i < rest.len() && rest[i] == from;
                            let oi = if i < k { i } else { i + 1 };
                            assert(rest[i] == pre[oi]);
                        }
                    }
                }
            },
            None => {},
        }
    }

    /// Runs a sweep over the pending pairings `pending` and returns the
    /// announcements of the matches it placed: for each, in the order placed,
    /// a `MatchDetails` to every game server.
    pub fn send_pending_matches(&mut self, pending: &Vec<Pairing>) -> (acts: Vec<Action>)
        requires
            old(self).wf(),
        ensures
            final(self).wf(),
            final(self).keeps_all_but_slots(*old(self)),
            final(self).slots() == sweep_slots(old(self).slots(), old(self).order(), pending@),
            acts@ == announce(
                old(self).servers(),
                sweep_placements(old(self).slots(), old(self).order(), pending@),
            ),
    {
        let placements = self.arenas.sweep(pending);
        let mut acts: Vec<Action> = Vec::new();
        let mut i: usize = 0;
        while i < placements.len()
            invariant
                self.wf(),
                0 <= i <= placements@.len(),
                acts@ == announce(self.servers(), placements@.subrange(0, i as int)),
            decreases placements@.len() - i,
        {
            let d = &placements[i];
            let msg = MessagePayload::MatchDetails {
                arena_id: d.arena_id as i32,
                p1_id: d.p1_id.clone(),
                p2_id: d.p2_id.clone(),
            };
            assert(placements@.subrange(0, i + 1).drop_last() =~= placements@.subrange(0, i as int));
            push_broadcast(&mut acts, &self.servers, &msg);
            i = i + 1;
        }
        assert(placements@.subrange(0, placements@.len() as int) =~= placements@);
        acts
    }
}

/// After a `TournamentStop` every arena is free, so the next sweep places the
/// first pending pairing in the first arena of the preference order, whatever
/// the arenas hosted before.
pub proof fn lemma_stop_then_sweep(
    pre: Tournament,
    post: Tournament,
    from: u64,
    acts: Seq<Action>,
    pending: Seq<Pairing>,
)
    requires
        pre.wf(),
        pre.handles(post, from, MessagePayload::TournamentStop, acts),
        pre.order().len() > 0,
        pending.len() > 0,
    ensures
        post.slots() == all_free(pre.slots().len()),
        sweep_placements(post.slots(), post.order(), pending).len() > 0,
        sweep_placements(post.slots(), post.order(), pending)[0] == (MatchDetails {
            arena_id: pre.order()[0],
            p1_id: pending[0].p1_id,
            p2_id: pending[0].p2_id,
        }),
{
    lemma_sweep_after_reset(pre.slots().len(), pre.order(), pending);
}

/// The first position of `x` in `v`, if it is there.
fn position_of(v: &Vec<u64>, x: u64) -> (r: Option<usize>)
    ensures
        r matches Some(k) ==> k < v@.len() && v@[k as int] == x && forall|j: int|
            0 <= j < k ==> v@[j] != x,
        r is None ==> !v@.contains(x),
{
    let mut k: usize = 0;
    while k < v.len()
        invariant
            0 <= k <= v@.len(),
            forall|j: int| 0 <= j < k ==> v@[j] != x,
        decreases v@.len() - k,
    {
        if v[k] == x {
            return Some(k);
        }
        k = k + 1;
    }
    None
}

} // verus!
