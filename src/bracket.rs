//! What the coordinator reads from the bracket service's match and
//! participant lists: the pairings due to be played, and which match a
//! reported result settles.
use vstd::prelude::*;
use crate::arena::Pairing;

verus! {

/// A match of the bracket, by the service's numeric identifiers.
#[derive(Clone, Copy, Debug)]
pub struct Match {
    pub id: u64,
    pub player1_id: Option<u64>,
    pub player2_id: Option<u64>,
    pub winner_id: Option<u64>,
}

/// A participant of the bracket: the service's identifier, the display name,
/// and the player identifier kept in the participant's free-form field.
pub struct Participant {
    pub id: u64,
    pub name: String,
    pub misc: String,
}

/// A result to send to the bracket service: the match, its winner's
/// participant identifier, and whether the first player won.
#[derive(Clone, Copy, Debug)]
pub struct MatchUpdate {
    pub match_id: u64,
    pub winner_id: u64,
    pub player1_won: bool,
}

impl MatchUpdate {
    /// The score line reported with the result.
    pub fn scores_csv(&self) -> (r: String)
        ensures
            r@ == (if self.player1_won { "1-0"@ } else { "0-1"@ }),
    {
        if self.player1_won {
            "1-0".to_owned()
        } else {
            "0-1".to_owned()
        }
    }
}

/// The matches of `ms` that have no winner yet, in order.
pub open spec fn unfinished(ms: Seq<Match>) -> Seq<Match>
    decreases ms.len(),
{
    if ms.len() == 0 {
        Seq::empty()
    } else if ms.last().winner_id is None {
        unfinished(ms.drop_last()).push(ms.last())
    } else {
        unfinished(ms.drop_last())
    }
}

/// The position of the participant with identifier `id`; where several
/// share it, the last of them.
pub open spec fn participant_of(parts: Seq<Participant>, id: u64) -> Option<int>
    decreases parts.len(),
{
    if parts.len() == 0 {
        None
    } else if parts.last().id == id {
        Some(parts.len() - 1)
    } else {
        participant_of(parts.drop_last(), id)
    }
}

/// Both players of an unfinished match, by participant position.
pub open spec fn players_of(m: Match, parts: Seq<Participant>) -> Option<(int, int)> {
    if m.winner_id is Some || m.player1_id is None || m.player2_id is None {
        None
    } else {
        match (participant_of(parts, m.player1_id->0), participant_of(parts, m.player2_id->0)) {
            (Some(a), Some(b)) => Some((a, b)),
            _ => None,
        }
    }
}

/// The pairing that match `m` stands for, if it is unfinished and both its
/// players are known participants.
pub open spec fn pairing_of(m: Match, parts: Seq<Participant>) -> Option<Pairing> {
    match players_of(m, parts) {
        Some((a, b)) => Some(
            Pairing {
                p1_name: parts[a].name,
                p1_id: parts[a].misc,
                p2_name: parts[b].name,
                p2_id: parts[b].misc,
            },
        ),
        None => None,
    }
}

/// The pairings of all matches in `ms` that `pairing_of` gives one for, in order.
pub open spec fn pending_of(ms: Seq<Match>, parts: Seq<Participant>) -> Seq<Pairing>
    decreases ms.len(),
{
    if ms.len() == 0 {
        Seq::empty()
    } else {
        match pairing_of(ms.last(), parts) {
            Some(p) => pending_of(ms.drop_last(), parts).push(p),
            None => pending_of(ms.drop_last(), parts),
        }
    }
}

/// The result to send for match `m` when the player `winner` beat `loser`:
/// only for an unfinished match between exactly these two players.
pub open spec fn update_of(
    m: Match,
    parts: Seq<Participant>,
    winner: Seq<char>,
    loser: Seq<char>,
) -> Option<MatchUpdate> {
    match players_of(m, parts) {
        Some((a, b)) => if parts[a].misc@ == winner && parts[b].misc@ == loser {
            Some(MatchUpdate { match_id: m.id, winner_id: m.player1_id->0, player1_won: true })
        } else if parts[a].misc@ == loser && parts[b].misc@ == winner {
            Some(MatchUpdate { match_id: m.id, winner_id: m.player2_id->0, player1_won: false })
        } else {
            None
        },
        None => None,
    }
}

/// The results to send for every match of `ms` that `update_of` gives one for.
pub open spec fn updates_of(
    ms: Seq<Match>,
    parts: Seq<Participant>,
    winner: Seq<char>,
    loser: Seq<char>,
) -> Seq<MatchUpdate>
    decreases ms.len(),
{
    if ms.len() == 0 {
        Seq::empty()
    } else {
        match update_of(ms.last(), parts, winner, loser) {
            Some(u) => updates_of(ms.drop_last(), parts, winner, loser).push(u),
            None => updates_of(ms.drop_last(), parts, winner, loser),
        }
    }
}

/// The matches that have no winner yet, in their order.
pub fn unfinished_matches(matches: &Vec<Match>) -> (r: Vec<Match>)
    ensures
        r@ == unfinished(matches@),
{
    let mut r: Vec<Match> = Vec::new();
    let mut i: usize = 0;
    while i < matches.len()
        invariant
            0 <= i <= matches@.len(),
            r@ == unfinished(matches@.subrange(0, i as int)),
        decreases matches@.len() - i,
    {
        assert(matches@.subrange(0, i + 1).drop_last() =~= matches@.subrange(0, i as int));
        let m = matches[i];
        if m.winner_id.is_none() {
            r.push(m);
        }
        i = i + 1;
    }
    assert(matches@.subrange(0, matches@.len() as int) =~= matches@);
    r
}

/// The position of the participant with identifier `id` (the last, where
/// several share it).
pub fn find_participant(participants: &Vec<Participant>, id: u64) -> (r: Option<usize>)
    ensures
        r matches Some(k) ==> participant_of(participants@, id) == Some(k as int),
        r is None ==> participant_of(participants@, id) is None,
{
    let ghost parts = participants@;
    let mut i: usize = participants.len();
    assert(parts.subrange(0, parts.len() as int) =~= parts);
    while i > 0
        invariant
            0 <= i <= parts.len(),
            parts == participants@,
            participant_of(parts, id) == participant_of(parts.subrange(0, i as int), id),
        decreases i,
    {
        assert(parts.subrange(0, i as int).drop_last() =~= parts.subrange(0, i - 1));
        if participants[i - 1].id == id {
            return Some(i - 1);
        }
        i = i - 1;
    }
    None
}

proof fn lemma_participant_in_range(parts: Seq<Participant>, id: u64)
    ensures
        participant_of(parts, id) matches Some(k) ==> 0 <= k < parts.len(),
    decreases parts.len(),
{
    if parts.len() > 0 {
        lemma_participant_in_range(parts.drop_last(), id);
    }
}

/// Both players of `m` by participant position, where `m` is unfinished and
/// both are known.
fn match_players(m: &Match, participants: &Vec<Participant>) -> (r: Option<(usize, usize)>)
    ensures
        r matches Some((a, b)) ==> players_of(*m, participants@) == Some((a as int, b as int)),
        r is None ==> players_of(*m, participants@) is None,
        r matches Some((a, b)) ==> a < participants@.len() && b < participants@.len(),
{
    proof {
        lemma_participant_in_range(participants@, m.player1_id->0);
        lemma_participant_in_range(participants@, m.player2_id->0);
    }
    if m.winner_id.is_some() {
        return None;
    }
    match (m.player1_id, m.player2_id) {
        (Some(id1), Some(id2)) => match (
            find_participant(participants, id1),
            find_participant(participants, id2),
        ) {
            (Some(a), Some(b)) => Some((a, b)),
            _ => None,
        },
        _ => None,
    }
}

/// The pairings still to be played: one for each unfinished match whose two
/// players are both known participants, in the order of `matches`, each
/// player given by display name and player identifier.
pub fn pending_matches(matches: &Vec<Match>, participants: &Vec<Participant>) -> (r: Vec<Pairing>)
    ensures
        r@ == pending_of(matches@, participants@),
{
    let mut r: Vec<Pairing> = Vec::new();
    let mut i: usize = 0;
    while i < matches.len()
        invariant
            0 <= i <= matches@.len(),
            r@ == pending_of(matches@.subrange(0, i as int), participants@),
        decreases matches@.len() - i,
    {
        assert(matches@.subrange(0, i + 1).drop_last() =~= matches@.subrange(0, i as int));
        match match_players(&matches[i], participants) {
            Some((a, b)) => {
                r.push(
                    Pairing {
                        p1_name: participants[a].name.clone(),
                        p1_id: participants[a].misc.clone(),
                        p2_name: participants[b].name.clone(),
                        p2_id: participants[b].misc.clone(),
                    },
                );
            },
            None => {},
        }
        i = i + 1;
    }
    assert(matches@.subrange(0, matches@.len() as int) =~= matches@);
    r
}

/// The results to send when player `winner` beat player `loser`: one for
/// each unfinished match of `matches` between exactly these two known
/// participants, naming the winner's participant identifier.
pub fn report_match(
    matches: &Vec<Match>,
    participants: &Vec<Participant>,
    winner: &String,
    loser: &String,
) -> (r: Vec<MatchUpdate>)
    ensures
        r@ == updates_of(matches@, participants@, winner@, loser@),
{
    let mut r: Vec<MatchUpdate> = Vec::new();
    let mut i: usize = 0;
    while i < matches.len()
        invariant
            0 <= i <= matches@.len(),
            r@ == updates_of(matches@.subrange(0, i as int), participants@, winner@, loser@),
        decreases matches@.len() - i,
    {
        assert(matches@.subrange(0, i + 1).drop_last() =~= matches@.subrange(0, i as int));
        let m = matches[i];
        match match_players(&m, participants) {
            Some((a, b)) => {
                let s1 = &participants[a].misc;
                let s2 = &participants[b].misc;
                if *s1 == *winner && *s2 == *loser {
                    r.push(MatchUpdate { match_id: m.id, winner_id: m.player1_id.unwrap(), player1_won: true });
                } else if *s1 == *loser && *s2 == *winner {
                    r.push(MatchUpdate { match_id: m.id, winner_id: m.player2_id.unwrap(), player1_won: false });
                }
            },
            None => {},
        }
        i = i + 1;
    }
    assert(matches@.subrange(0, matches@.len() as int) =~= matches@);
    r
}

} // verus!
