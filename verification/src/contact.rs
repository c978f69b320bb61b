//! Scoring and game over where positions are continuous: the overlap tests
//! are made elsewhere, and what follows from them is decided here.

use vstd::prelude::*;

verus! {

/// The running score.
#[derive(Clone, Copy, Debug, PartialEq, Eq, Structural)]
pub struct Scoreboard {
    pub score: usize,
}

/// One collider as the player meets it in a tick: which entity it is, what
/// it is, and whether its box overlaps the player's.
#[derive(Clone, Copy, Debug, PartialEq, Eq, Structural)]
pub struct Contact {
    pub entity: u64,
    pub food: bool,
    pub enemy: bool,
    pub overlaps: bool,
}

/// What a tick's contacts lead to.
#[derive(Clone, Debug, PartialEq, Eq)]
pub struct Outcome {
    /// The entities to remove, in the order of their contacts.
    pub despawn: Vec<u64>,
    /// The number of game-over signals raised.
    pub signals: usize,
}

impl Contact {
    /// The player eats this collider: it is food and overlaps.
    pub open spec fn is_eaten(self) -> bool {
        self.overlaps && self.food
    }

    /// This collider ends the game: it is an enemy and overlaps.
    pub open spec fn is_fatal(self) -> bool {
        self.overlaps && self.enemy
    }
}

/// The predicate "is eaten".
pub open spec fn eaten_pred() -> spec_fn(Contact) -> bool {
    |c: Contact| c.is_eaten()
}

/// The predicate "ends the game".
pub open spec fn fatal_pred() -> spec_fn(Contact) -> bool {
    |c: Contact| c.is_fatal()
}

/// The entity of a contact.
pub open spec fn entity_of() -> spec_fn(Contact) -> u64 {
    |c: Contact| c.entity
}

/// The entities the player eats, in the order of their contacts.
pub open spec fn eaten(contacts: Seq<Contact>) -> Seq<u64> {
    contacts.filter(eaten_pred()).map_values(entity_of())
}

/// The number of game-over signals: one for each overlapping enemy.
pub open spec fn raised(contacts: Seq<Contact>) -> nat {
    contacts.filter(fatal_pred()).len()
}

/// Whether the existing food and the player are removed: exactly when at
/// least one signal is pending. Signals beyond the first change nothing.
pub open spec fn ends_game(pending: nat) -> bool {
    pending > 0
}

/// The entities removed at game over: all food, then the player; none while
/// no signal is pending.
pub open spec fn swept(pending: nat, food: Seq<u64>, heads: Seq<u64>) -> Seq<u64> {
    if ends_game(pending) {
        food + heads
    } else {
        Seq::empty()
    }
}

impl Scoreboard {
    /// A scoreboard that reads zero.
    pub fn new() -> (board: Scoreboard)
        ensures
            board.score == 0,
    {
        Scoreboard { score: 0 }
    }
}

/// Resolves one tick's contacts of the player: each overlapping food adds
/// one to the score and is listed for removal, each overlapping enemy raises
/// one game-over signal. Contacts that do not overlap change nothing.
pub fn check_for_collisions(board: &mut Scoreboard, contacts: &Vec<Contact>) -> (out: Outcome)
    requires
        old(board).score + eaten(contacts@).len() <= usize::MAX,
    ensures
        final(board).score == old(board).score + eaten(contacts@).len(),
        final(board).score >= old(board).score,
        out.despawn@ == eaten(contacts@),
        out.signals == raised(contacts@),
{
    let mut despawn: Vec<u64> = Vec::new();
    let mut signals: usize = 0;
    let n = contacts.len();
    let mut i: usize = 0;
    proof {
        assert(contacts@.take(0) =~= Seq::<Contact>::empty());
        reveal(Seq::filter);
        assert(eaten(contacts@.take(0)) =~= Seq::<u64>::empty());
    }
    while i < n
        invariant
            n == contacts.len(),
            i <= n,
            old(board).score + eaten(contacts@).len() <= usize::MAX,
            board.score == old(board).score + eaten(contacts@.take(i as int)).len(),
            despawn@ == eaten(contacts@.take(i as int)),
            signals == raised(contacts@.take(i as int)),
        decreases n - i,
    {
        let c = contacts[i];
        proof {
            let before = contacts@.take(i as int);
            let after = contacts@.take(i + 1);
            assert(after =~= before.push(c));
            before.lemma_filter_push(c, eaten_pred());
            before.lemma_filter_push(c, fatal_pred());
            before.lemma_filter_len(fatal_pred());
            contacts@.lemma_filter_take_len(eaten_pred(), i + 1);
            if c.is_eaten() {
                assert(eaten(after) =~= eaten(before).push(c.entity));
            }
        }
        if c.overlaps {
            if c.food {
                board.score = board.score + 1;
                despawn.push(c.entity);
            }
            if c.enemy {
                signals = signals + 1;
            }
        }
        i = i + 1;
    }
    proof {
        assert(contacts@.take(n as int) =~= contacts@);
    }
    Outcome { despawn, signals }
}

/// Decides what the game-over handler removes: with a signal pending, all
/// food and then the player; with none, nothing.
pub fn game_over(pending: usize, food: &Vec<u64>, heads: &Vec<u64>) -> (gone: Vec<u64>)
    ensures
        gone@ == swept(pending as nat, food@, heads@),
{
    let mut gone: Vec<u64> = Vec::new();
    if pending > 0 {
        let mut i: usize = 0;
        while i < food.len()
            invariant
                i <= food.len(),
                gone@ == food@.take(i as int),
            decreases food.len() - i,
        {
            gone.push(food[i]);
            proof {
                assert(food@.take(i + 1) =~= food@.take(i as int).push(food@[i as int]));
            }
            i = i + 1;
        }
        let mut j: usize = 0;
        proof {
            assert(food@.take(food.len() as int) =~= food@);
            assert(heads@.take(0) =~= Seq::<u64>::empty());
            assert(gone@ =~= food@ + heads@.take(0));
        }
        while j < heads.len()
            invariant
                j <= heads.len(),
                gone@ == food@ + heads@.take(j as int),
            decreases heads.len() - j,
        {
            gone.push(heads[j]);
            proof {
                assert(heads@.take(j + 1) =~= heads@.take(j as int).push(heads@[j as int]));
                assert(gone@ =~= food@ + heads@.take(j + 1));
            }
            j = j + 1;
        }
        proof {
            assert(heads@.take(heads.len() as int) =~= heads@);
        }
    }
    gone
}

/// One more contact adds one to the count of eaten food exactly when it is
/// overlapping food, and one signal exactly when it is an overlapping
/// enemy; it never takes anything away.
pub proof fn lemma_contact_counts_once(contacts: Seq<Contact>, c: Contact)
    ensures
        eaten(contacts.push(c)).len() == eaten(contacts).len() + (if c.is_eaten() {
            1int
        } else {
            0int
        }),
        raised(contacts.push(c)) == raised(contacts) + (if c.is_fatal() {
            1int
        } else {
            0int
        }),
{
    contacts.lemma_filter_push(c, eaten_pred());
    contacts.lemma_filter_push(c, fatal_pred());
}

/// What is listed for removal is the overlapping food and nothing else.
pub proof fn lemma_eaten_is_overlapping_food(contacts: Seq<Contact>, entity: u64)
    ensures
        eaten(contacts).contains(entity) <==> exists|i: int|
            0 <= i < contacts.len() && (#[trigger] contacts[i]).is_eaten() && contacts[i].entity
                == entity,
{
    let food = contacts.filter(eaten_pred());
    if eaten(contacts).contains(entity) {
        let k = choose|k: int| 0 <= k < eaten(contacts).len() && eaten(contacts)[k] == entity;
        contacts.lemma_filter_pred(eaten_pred(), k);
        assert(food.contains(food[k]));
        contacts.lemma_filter_contains_rev(eaten_pred(), food[k]);
        let i = choose|i: int| 0 <= i < contacts.len() && contacts[i] == food[k];
        assert(contacts[i].is_eaten() && contacts[i].entity == entity);
    }
    if exists|i: int|
        0 <= i < contacts.len() && (#[trigger] contacts[i]).is_eaten() && contacts[i].entity
            == entity {
        let i = choose|i: int|
            0 <= i < contacts.len() && (#[trigger] contacts[i]).is_eaten() && contacts[i].entity
                == entity;
        contacts.lemma_filter_contains(eaten_pred(), i);
        let k = choose|k: int| 0 <= k < food.len() && food[k] == contacts[i];
        assert(eaten(contacts)[k] == entity);
    }
}

} // verus!
