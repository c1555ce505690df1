//! The arena allocator: a fixed pool of arena slots, each free or hosting
//! one match, and a preference order over the slots.
use vstd::prelude::*;

verus! {

/// The two players of the match that an arena hosts, by player identifier.
pub struct Occupant {
    pub p1: String,
    pub p2: String,
}

impl Occupant {
    /// The player `id` plays in this match.
    pub open spec fn holds(&self, id: Seq<char>) -> bool {
        self.p1@ == id || self.p2@ == id
    }

    /// The two matches have a player in common.
    pub open spec fn shares_player(&self, other: Occupant) -> bool {
        self.holds(other.p1@) || self.holds(other.p2@)
    }
}

/// A pending match from the bracket service: each player's display name and
/// identifier.
pub struct Pairing {
    pub p1_name: String,
    pub p1_id: String,
    pub p2_name: String,
    pub p2_id: String,
}

/// A match placed in an arena by a sweep.
pub struct MatchDetails {
    pub arena_id: usize,
    pub p1_id: String,
    pub p2_id: String,
}

/// Some occupied slot hosts a match of player `id`.
pub open spec fn player_busy(slots: Seq<Option<Occupant>>, id: Seq<char>) -> bool {
    exists|k: int| 0 <= k < slots.len() && #[trigger] slots[k] is Some && slots[k]->0.holds(id)
}

/// Every entry of the preference order names a slot of the pool.
pub open spec fn order_in_range(order: Seq<usize>, n: nat) -> bool {
    forall|j: int| 0 <= j < order.len() ==> #[trigger] order[j] < n
}

/// The first slot in preference order that is free, if any.
pub open spec fn first_open(slots: Seq<Option<Occupant>>, order: Seq<usize>) -> Option<usize>
    decreases order.len(),
{
    if order.len() == 0 {
        None
    } else if slots[order[0] as int] is None {
        Some(order[0])
    } else {
        first_open(slots, order.drop_first())
    }
}

/// The slots after a release of slot `a`.
pub open spec fn released(slots: Seq<Option<Occupant>>, a: int) -> Seq<Option<Occupant>> {
    slots.update(a, None)
}

/// The slots after pairing `p` takes slot `a`.
pub open spec fn placed(slots: Seq<Option<Occupant>>, a: int, p: Pairing) -> Seq<Option<Occupant>> {
    slots.update(a, Some(Occupant { p1: p.p1_id, p2: p.p2_id }))
}

/// A pairing that the sweep leaves for a later sweep because one of its
/// players is already playing.
pub open spec fn pairing_blocked(slots: Seq<Option<Occupant>>, p: Pairing) -> bool {
    player_busy(slots, p.p1_id@) || player_busy(slots, p.p2_id@)
}

/// The slots after a sweep over `pending`, taken in order: a pairing with a
/// player already in an arena is skipped; otherwise it takes the first open
/// slot, and the sweep ends where no slot is open.
pub open spec fn sweep_slots(
    slots: Seq<Option<Occupant>>,
    order: Seq<usize>,
    pending: Seq<Pairing>,
) -> Seq<Option<Occupant>>
    decreases pending.len(),
{
    if pending.len() == 0 {
        slots
    } else if pairing_blocked(slots, pending[0]) {
        sweep_slots(slots, order, pending.drop_first())
    } else {
        match first_open(slots, order) {
            None => slots,
            Some(a) => sweep_slots(placed(slots, a as int, pending[0]), order, pending.drop_first()),
        }
    }
}

/// The matches that a sweep over `pending` places, in the order it places them.
pub open spec fn sweep_placements(
    slots: Seq<Option<Occupant>>,
    order: Seq<usize>,
    pending: Seq<Pairing>,
) -> Seq<MatchDetails>
    decreases pending.len(),
{
    if pending.len() == 0 {
        Seq::empty()
    } else if pairing_blocked(slots, pending[0]) {
        sweep_placements(slots, order, pending.drop_first())
    } else {
        match first_open(slots, order) {
            None => Seq::empty(),
            Some(a) => seq![MatchDetails { arena_id: a, p1_id: pending[0].p1_id, p2_id: pending[0].p2_id }]
                + sweep_placements(placed(slots, a as int, pending[0]), order, pending.drop_first()),
        }
    }
}

/// No two occupied slots have a player in common.
pub open spec fn players_distinct(slots: Seq<Option<Occupant>>) -> bool {
    forall|i: int, j: int|
        0 <= i < slots.len() && 0 <= j < slots.len() && i != j && #[trigger] slots[i] is Some
            && #[trigger] slots[j] is Some ==> !slots[i]->0.shares_player(slots[j]->0)
}

proof fn lemma_first_open_is_free(slots: Seq<Option<Occupant>>, order: Seq<usize>)
    requires
        order_in_range(order, slots.len()),
    ensures
        first_open(slots, order) matches Some(a) ==> a < slots.len() && slots[a as int] is None,
    decreases order.len(),
{
    if order.len() > 0 && slots[order[0] as int] is Some {
        lemma_first_open_is_free(slots, order.drop_first());
    }
}

/// The first slot, in the order `arena_priority_order` lists them, that hosts
/// no match; `None` when every listed slot is occupied.
pub fn get_open_arena(
    arena_to_match: &Vec<Option<Occupant>>,
    arena_priority_order: &Vec<usize>,
) -> (r: Option<usize>)
    requires
        order_in_range(arena_priority_order@, arena_to_match@.len()),
    ensures
        r == first_open(arena_to_match@, arena_priority_order@),
{
    let ghost order = arena_priority_order@;
    let mut i: usize = 0;
    assert(order.subrange(0, order.len() as int) =~= order);
    while i < arena_priority_order.len()
        invariant
            0 <= i <= order.len(),
            order == arena_priority_order@,
            order_in_range(order, arena_to_match@.len()),
            first_open(arena_to_match@, order) == first_open(
                arena_to_match@,
                order.subrange(i as int, order.len() as int),
            ),
        decreases order.len() - i,
    {
        let arena = arena_priority_order[i];
        assert(order.subrange(i as int, order.len() as int).drop_first() =~= order.subrange(
            i + 1,
            order.len() as int,
        ));
        if arena_to_match[arena].is_none() {
            return Some(arena);
        }
        i = i + 1;
    }
    None
}

/// The largest pool: an arena's index must fit the `i32` that messages carry.
pub const ARENA_LIMIT: usize = 2147483647;

/// A pool of `num_arenas` slots can be run with `order` as its preference
/// order: each entry names a slot, and no slot is listed twice.
pub open spec fn valid_config(num_arenas: nat, order: Seq<usize>) -> bool {
    &&& num_arenas <= ARENA_LIMIT
    &&& order_in_range(order, num_arenas)
    &&& order.no_duplicates()
}

/// The arena slots of a tournament and the order in which free ones are taken.
pub struct ArenaPool {
    slots: Vec<Option<Occupant>>,
    order: Vec<usize>,
}

impl ArenaPool {
    /// What each slot hosts, by index.
    pub closed spec fn slots(&self) -> Seq<Option<Occupant>> {
        self.slots@
    }

    /// The preference order over slot indices.
    pub closed spec fn order(&self) -> Seq<usize> {
        self.order@
    }

    pub open spec fn wf(&self) -> bool {
        valid_config(self.slots().len(), self.order())
    }

    /// A pool of `num_arenas` free slots with the preference order `order`;
    /// `None` when the configuration is not valid.
    pub fn new(num_arenas: usize, order: Vec<usize>) -> (r: Option<ArenaPool>)
        ensures
            r is Some <==> valid_config(num_arenas as nat, order@),
            r matches Some(p) ==> {
                &&& p.wf()
                &&& p.order() == order@
                &&& p.slots() == Seq::new(num_arenas as nat, |i: int| None::<Occupant>)
            },
    {
        if num_arenas > ARENA_LIMIT {
            return None;
        }
        let mut j: usize = 0;
        while j < order.len()
            invariant
                0 <= j <= order@.len(),
                forall|k: int| 0 <= k < j ==> #[trigger] order@[k] < num_arenas,
                forall|k: int, l: int|
                    0 <= k < j && 0 <= l < order@.len() && k != l ==> #[trigger] order@[k]
                        != #[trigger] order@[l],
            decreases order@.len() - j,
        {
            if order[j] >= num_arenas {
                return None;
            }
            let mut l: usize = 0;
            while l < order.len()
                invariant
                    0 <= j < order@.len(),
                    0 <= l <= order@.len(),
                    forall|m: int| 0 <= m < l && m != j ==> #[trigger] order@[m] != order@[j as int],
                decreases order@.len() - l,
            {
                if l != j && order[l] == order[j] {
                    return None;
                }
                l = l + 1;
            }
            j = j + 1;
        }
        let mut slots: Vec<Option<Occupant>> = Vec::new();
        while slots.len() < num_arenas
            invariant
                slots@ == Seq::new(slots@.len(), |i: int| None::<Occupant>),
                slots@.len() <= num_arenas,
            decreases num_arenas - slots@.len(),
        {
            slots.push(None);
            assert(slots@ =~= Seq::new(slots@.len(), |i: int| None::<Occupant>));
        }
        Some(ArenaPool { slots, order })
    }

    /// The number of slots.
    pub fn num_arenas(&self) -> (r: usize)
        ensures
            r == self.slots().len(),
    {
        self.slots.len()
    }

    /// Slot `arena` hosts no match.
    pub fn is_free(&self, arena: usize) -> (r: bool)
        requires
            arena < self.slots().len(),
        ensures
            r == self.slots()[arena as int] is None,
    {
        self.slots[arena].is_none()
    }

    /// The two players that slot `arena` hosts, if any.
    pub fn occupant(&self, arena: usize) -> (r: &Option<Occupant>)
        requires
            arena < self.slots().len(),
        ensures
            *r == self.slots()[arena as int],
    {
        &self.slots[arena]
    }

    /// The first free slot in preference order, if any.
    pub fn open_arena(&self) -> (r: Option<usize>)
        requires
            self.wf(),
        ensures
            r == first_open(self.slots(), self.order()),
    {
        get_open_arena(&self.slots, &self.order)
    }

    /// Puts the match of `p1` and `p2` in slot `arena`, replacing any match
    /// there; the result tells whether one was replaced.
    pub fn allocate(&mut self, arena: usize, p1: String, p2: String) -> (replaced: bool)
        requires
            old(self).wf(),
            arena < old(self).slots().len(),
        ensures
            final(self).wf(),
            final(self).order() == old(self).order(),
            final(self).slots() == old(self).slots().update(arena as int, Some(Occupant { p1, p2 })),
            replaced == old(self).slots()[arena as int] is Some,
    {
        let replaced = self.slots[arena].is_some();
        self.slots.set(arena, Some(Occupant { p1, p2 }));
        replaced
    }

    /// Frees slot `arena`, whatever it hosted.
    pub fn release(&mut self, arena: usize)
        requires
            old(self).wf(),
            arena < old(self).slots().len(),
        ensures
            final(self).wf(),
            final(self).order() == old(self).order(),
            final(self).slots() == released(old(self).slots(), arena as int),
    {
        self.slots.set(arena, None);
    }

    /// Frees every slot.
    pub fn reset(&mut self)
        requires
            old(self).wf(),
        ensures
            final(self).wf(),
            final(self).order() == old(self).order(),
            final(self).slots() == Seq::new(old(self).slots().len(), |i: int| None::<Occupant>),
    {
        let mut i: usize = 0;
        while i < self.slots.len()
            invariant
                self.wf(),
                self.order() == old(self).order(),
                self.slots().len() == old(self).slots().len(),
                0 <= i <= self.slots().len(),
                forall|k: int| 0 <= k < i ==> #[trigger] self.slots()[k] is None,
            decreases self.slots().len() - i,
        {
            self.slots.set(i, None);
            i = i + 1;
        }
        assert(self.slots() =~= Seq::new(old(self).slots().len(), |i: int| None::<Occupant>));
    }

    /// Some slot hosts a match of player `id`.
    pub fn is_playing(&self, id: &String) -> (r: bool)
        ensures
            r == player_busy(self.slots(), id@),
    {
        let mut k: usize = 0;
        while k < self.slots.len()
            invariant
                0 <= k <= self.slots().len(),
                forall|m: int| 0 <= m < k ==> !(#[trigger] self.slots()[m] is Some && self.slots()[m]->0.holds(id@)),
            decreases self.slots().len() - k,
        {
            match &self.slots[k] {
                Some(o) => {
                    if o.p1 == *id || o.p2 == *id {
                        return true;
                    }
                },
                None => {},
            }
            k = k + 1;
        }
        false
    }

    /// Places pending pairings in free slots, in the order given: a pairing
    /// with a player already in an arena is skipped, any other takes the
    /// first open slot in preference order, and the sweep stops at the first
    /// pairing that finds no open slot. Returns the matches placed, in order.
    pub fn sweep(&mut self, pending: &Vec<Pairing>) -> (placements: Vec<MatchDetails>)
        requires
            old(self).wf(),
        ensures
            final(self).wf(),
            final(self).order() == old(self).order(),
            final(self).slots() == sweep_slots(old(self).slots(), old(self).order(), pending@),
            placements@ == sweep_placements(old(self).slots(), old(self).order(), pending@),
    {
        let ghost s0 = self.slots();
        let ghost order = self.order();
        let ghost pend = pending@;
        let mut out: Vec<MatchDetails> = Vec::new();
        let mut i: usize = 0;
        assert(pend.subrange(0, pend.len() as int) =~= pend);
        while i < pending.len()
            invariant
                self.wf(),
                self.order() == order,
                order == old(self).order(),
                s0 == old(self).slots(),
                pend == pending@,
                0 <= i <= pend.len(),
                sweep_slots(s0, order, pend) == sweep_slots(
                    self.slots(),
                    order,
                    pend.subrange(i as int, pend.len() as int),
                ),
                sweep_placements(s0, order, pend) == out@ + sweep_placements(
                    self.slots(),
                    order,
                    pend.subrange(i as int, pend.len() as int),
                ),
            decreases pend.len() - i,
        {
            let ghost rest = pend.subrange(i as int, pend.len() as int);
            assert(rest.drop_first() =~= pend.subrange(i + 1, pend.len() as int));
            let p = &pending[i];
            if !(self.is_playing(&p.p1_id) || self.is_playing(&p.p2_id)) {
                match self.open_arena() {
                    None => {
                        assert(out@ + Seq::<MatchDetails>::empty() =~= out@);
                        return out;
                    },
                    Some(a) => {
                        proof {
                            lemma_first_open_is_free(self.slots(), order);
                        }
                        let ghost out_before = out@;
                        let ghost before = self.slots();
                        let ghost md = MatchDetails { arena_id: a, p1_id: p.p1_id, p2_id: p.p2_id };
                        self.allocate(a, p.p1_id.clone(), p.p2_id.clone());
                        out.push(MatchDetails { arena_id: a, p1_id: p.p1_id.clone(), p2_id: p.p2_id.clone() });
                        assert(self.slots() == placed(before, a as int, *p));
                        let ghost tail = sweep_placements(self.slots(), order, rest.drop_first());
                        assert(out_before + (seq![md] + tail) =~= out@ + tail);
                    },
                }
            }
            i = i + 1;
        }
        assert(pend.subrange(pend.len() as int, pend.len() as int) =~= Seq::<Pairing>::empty());
        assert(out@ + Seq::<MatchDetails>::empty() =~= out@);
        out
    }
}

/// Every slot of a pool of `n` free.
pub open spec fn all_free(n: nat) -> Seq<Option<Occupant>> {
    Seq::new(n, |i: int| None::<Occupant>)
}

/// A sweep never puts a player in two arenas: where no two occupied slots
/// have a player in common before a sweep, none have after it, whatever the
/// pending pairings are. (Placing a match directly with `allocate` makes no
/// such check.)
pub proof fn lemma_sweep_keeps_players_distinct(
    slots: Seq<Option<Occupant>>,
    order: Seq<usize>,
    pending: Seq<Pairing>,
)
    requires
        order_in_range(order, slots.len()),
        players_distinct(slots),
    ensures
        players_distinct(sweep_slots(slots, order, pending)),
    decreases pending.len(),
{
    if pending.len() > 0 && !pairing_blocked(slots, pending[0]) {
        if let Some(a) = first_open(slots, order) {
            lemma_first_open_is_free(slots, order);
            let p = pending[0];
            let next = placed(slots, a as int, p);
            assert forall|i: int, j: int|
                0 <= i < next.len() && 0 <= j < next.len() && i != j && #[trigger] next[i] is Some
                    && #[trigger] next[j] is Some implies !next[i]->0.shares_player(next[j]->0) by {
                if i == a {
                    assert(!(slots[j] is Some && slots[j]->0.holds(p.p1_id@)));
                    assert(!(slots[j] is Some && slots[j]->0.holds(p.p2_id@)));
                } else if j == a {
                    assert(!(slots[i] is Some && slots[i]->0.holds(p.p1_id@)));
                    assert(!(slots[i] is Some && slots[i]->0.holds(p.p2_id@)));
                }
            }
            lemma_sweep_keeps_players_distinct(next, order, pending.drop_first());
        }
    } else if pending.len() > 0 {
        lemma_sweep_keeps_players_distinct(slots, order, pending.drop_first());
    }
}

/// Releasing a slot twice leaves the pool as releasing it once does, and
/// releasing a free slot changes nothing.
pub proof fn lemma_release_idempotent(slots: Seq<Option<Occupant>>, a: int)
    requires
        0 <= a < slots.len(),
    ensures
        released(released(slots, a), a) == released(slots, a),
        slots[a] is None ==> released(slots, a) == slots,
{
    assert(released(released(slots, a), a) =~= released(slots, a));
    if slots[a] is None {
        assert(released(slots, a) =~= slots);
    }
}

/// Once every slot is free, a sweep places the first pending pairing in the
/// first slot of the preference order, whatever blocked it before.
pub proof fn lemma_sweep_after_reset(n: nat, order: Seq<usize>, pending: Seq<Pairing>)
    requires
        order.len() > 0,
        order_in_range(order, n),
        pending.len() > 0,
    ensures
        sweep_placements(all_free(n), order, pending).len() > 0,
        sweep_placements(all_free(n), order, pending)[0] == (MatchDetails {
            arena_id: order[0],
            p1_id: pending[0].p1_id,
            p2_id: pending[0].p2_id,
        }),
{
    let free = all_free(n);
    assert(order[0] < n);
    assert(!player_busy(free, pending[0].p1_id@));
    assert(!player_busy(free, pending[0].p2_id@));
    assert(first_open(free, order) == Some(order[0]));
}

} // verus!
