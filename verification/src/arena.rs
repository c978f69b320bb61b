//! The model of the game state, and the rules of the game as functions on it.

use vstd::prelude::*;
use crate::entity::{of_kind, outlasts_game, Body, Kind};
use crate::grid::{
    lemma_advance_stays_in_field, lemma_ring_is_border, ring_cell, Cell, Shift, RING_LEN,
};
use crate::motion::{Direction, Keys};

verus! {

/// The entities alive, oldest first, and the identifier the next one gets.
#[verifier::ext_equal]
pub struct Arena {
    pub bodies: Seq<Body>,
    pub next_id: int,
}

/// A body after one move of all bodies of `kind`: a body of that kind is
/// displaced and corrected, any other stays as it is.
pub open spec fn moved_body(b: Body, kind: Kind, by: Shift) -> Body {
    if b.kind == kind {
        Body { id: b.id, kind: b.kind, cell: b.cell.advanced(by) }
    } else {
        b
    }
}

impl Arena {
    /// No entity, and identifiers starting at zero.
    pub open spec fn empty() -> Arena {
        Arena { bodies: Seq::empty(), next_id: 0 }
    }

    /// Some entity of this kind is alive.
    pub open spec fn holds(self, kind: Kind) -> bool {
        exists|i: int| 0 <= i < self.bodies.len() && (#[trigger] self.bodies[i]).kind == kind
    }

    /// `i` is the place of the oldest entity of this kind.
    pub open spec fn is_first(self, kind: Kind, i: int) -> bool {
        &&& 0 <= i < self.bodies.len()
        &&& self.bodies[i].kind == kind
        &&& forall|j: int| 0 <= j < i ==> (#[trigger] self.bodies[j]).kind != kind
    }

    /// The place of the oldest entity of this kind, where there is one.
    pub open spec fn seat(self, kind: Kind) -> int {
        choose|i: int| self.is_first(kind, i)
    }

    /// The cell of the oldest entity of this kind. In a well-formed arena
    /// the player and the enemy are each the only one of their kind.
    pub open spec fn cell_of(self, kind: Kind) -> Option<Cell> {
        if self.holds(kind) {
            Some(self.bodies[self.seat(kind)].cell)
        } else {
            None
        }
    }

    /// The number of entities of this kind.
    pub open spec fn count(self, kind: Kind) -> nat {
        self.bodies.filter(of_kind(kind)).len()
    }

    /// At most one entity of this kind is alive.
    pub open spec fn sole(self, kind: Kind) -> bool {
        forall|i: int, j: int|
            0 <= i < self.bodies.len() && 0 <= j < self.bodies.len() && (
            #[trigger] self.bodies[i]).kind == kind && (#[trigger] self.bodies[j]).kind == kind
                ==> i == j
    }

    /// Identifiers grow along the sequence and lie below `next_id`, every
    /// entity stands on the field, and there is at most one player and at
    /// most one enemy.
    pub open spec fn wf(self) -> bool {
        &&& 0 <= self.next_id
        &&& forall|i: int|
            0 <= i < self.bodies.len() ==> 0 <= (#[trigger] self.bodies[i]).id < self.next_id
        &&& forall|i: int|
            0 <= i < self.bodies.len() ==> (#[trigger] self.bodies[i]).cell.in_field()
        &&& forall|i: int, j: int|
            0 <= i < j < self.bodies.len() ==> (#[trigger] self.bodies[i]).id < (
            #[trigger] self.bodies[j]).id
        &&& self.sole(Kind::Player)
        &&& self.sole(Kind::Enemy)
    }

    /// The arena with one more entity, which gets the next identifier.
    pub open spec fn spawned(self, kind: Kind, cell: Cell) -> Arena {
        Arena {
            bodies: self.bodies.push(Body { id: self.next_id, kind, cell }),
            next_id: self.next_id + 1,
        }
    }

    /// The arena with the first `n` cells of the border walled.
    pub open spec fn walled(self, n: int) -> Arena {
        Arena {
            bodies: self.bodies + Seq::new(
                n as nat,
                |k: int| Body { id: self.next_id + k, kind: Kind::Wall, cell: ring_cell(k) },
            ),
            next_id: self.next_id + n,
        }
    }

    /// The state a game starts in: the player, the enemy, and a wall on each
    /// cell of the border.
    pub open spec fn initial(player: Cell, enemy: Cell) -> Arena {
        Arena::empty().spawned(Kind::Player, player).spawned(Kind::Enemy, enemy).walled(
            RING_LEN as int,
        )
    }

    /// The arena with only the entities that `keep` accepts, in their order.
    pub open spec fn kept(self, keep: spec_fn(Body) -> bool) -> Arena {
        Arena { bodies: self.bodies.filter(keep), next_id: self.next_id }
    }

    /// The arena after every entity of `kind` has made one move by `by`.
    pub open spec fn moved(self, kind: Kind, by: Shift) -> Arena {
        Arena {
            bodies: Seq::new(self.bodies.len(), |i: int| moved_body(self.bodies[i], kind, by)),
            next_id: self.next_id,
        }
    }

    /// An entity of this kind collides with whatever stands on `cell`.
    pub open spec fn meets(self, kind: Kind, cell: Cell) -> bool {
        self.cell_of(kind) matches Some(c) && c.collides(cell)
    }

    /// This entity is food that the player or the enemy collides with.
    pub open spec fn is_eaten(self, b: Body) -> bool {
        &&& b.kind == Kind::Food
        &&& (self.meets(Kind::Player, b.cell) || self.meets(Kind::Enemy, b.cell))
    }

    /// The predicate "is eaten in this arena".
    pub open spec fn perishes(self) -> spec_fn(Body) -> bool {
        |b: Body| self.is_eaten(b)
    }

    /// The number of entities eaten in this arena.
    pub open spec fn eaten(self) -> nat {
        self.bodies.filter(self.perishes()).len()
    }

    /// The predicate "is not eaten in this arena".
    pub open spec fn survives(self) -> spec_fn(Body) -> bool {
        |b: Body| !self.is_eaten(b)
    }

    /// The number of game-over signals the collision check raises: one if
    /// the player collides with the enemy, none otherwise.
    pub open spec fn signals(self) -> nat {
        if self.cell_of(Kind::Enemy) matches Some(e) && self.meets(Kind::Player, e) {
            1
        } else {
            0
        }
    }

    /// The arena after the collision check: eaten food is gone.
    pub open spec fn after_collisions(self) -> Arena {
        self.kept(self.survives())
    }

    /// The arena after the game-over handler has seen `pending` signals:
    /// with at least one, all food and the player are gone; with none,
    /// nothing changes.
    pub open spec fn after_game_over(self, pending: nat) -> Arena {
        if pending > 0 {
            self.kept(outlasts_game())
        } else {
            self
        }
    }

    /// The arena after the motion of one tick: the player has moved as the
    /// keys ask, the enemy one cell in `dir`.
    pub open spec fn after_motion(self, keys: Keys, dir: Direction) -> Arena {
        self.moved(Kind::Player, keys.shift()).moved(Kind::Enemy, dir.shift())
    }

    /// The arena after one tick: motion, then the collision check on the new
    /// positions, then the game-over handler on the signals just raised.
    pub open spec fn ticked(self, keys: Keys, dir: Direction) -> Arena {
        let met = self.after_motion(keys, dir);
        met.after_collisions().after_game_over(met.signals())
    }
}

/// Where an entity of a kind is alive, the oldest of that kind exists and
/// `seat` is its place.
pub proof fn lemma_seat_is_first(a: Arena, kind: Kind)
    requires
        a.holds(kind),
    ensures
        a.is_first(kind, a.seat(kind)),
{
    let i = choose|i: int| 0 <= i < a.bodies.len() && (#[trigger] a.bodies[i]).kind == kind;
    lemma_first_before(a, kind, i);
}

proof fn lemma_first_before(a: Arena, kind: Kind, i: int)
    requires
        0 <= i < a.bodies.len(),
        a.bodies[i].kind == kind,
    ensures
        exists|k: int| a.is_first(kind, k),
    decreases i,
{
    if exists|j: int| 0 <= j < i && (#[trigger] a.bodies[j]).kind == kind {
        let j = choose|j: int| 0 <= j < i && (#[trigger] a.bodies[j]).kind == kind;
        lemma_first_before(a, kind, j);
    } else {
        assert(a.is_first(kind, i));
    }
}

/// The oldest entity of a kind is at one place only.
pub proof fn lemma_first_is_seat(a: Arena, kind: Kind, i: int)
    requires
        a.is_first(kind, i),
    ensures
        a.holds(kind),
        a.seat(kind) == i,
        a.cell_of(kind) == Some(a.bodies[i].cell),
{
    let k = a.seat(kind);
    assert(a.is_first(kind, k));
    if k < i {
        assert(a.bodies[k].kind != kind);
    } else if i < k {
        assert(a.bodies[i].kind != kind);
    }
}

/// A new entity on the field keeps the arena well formed, unless it would
/// be a second player or a second enemy.
pub proof fn lemma_spawned_wf(a: Arena, kind: Kind, cell: Cell)
    requires
        a.wf(),
        cell.in_field(),
        kind == Kind::Player ==> !a.holds(Kind::Player),
        kind == Kind::Enemy ==> !a.holds(Kind::Enemy),
    ensures
        a.spawned(kind, cell).wf(),
{
    let b = a.spawned(kind, cell);
    assert forall|i: int, j: int|
        0 <= i < b.bodies.len() && 0 <= j < b.bodies.len() && (#[trigger] b.bodies[i]).kind
            == Kind::Player && (#[trigger] b.bodies[j]).kind == Kind::Player implies i == j by {
        if i < a.bodies.len() {
            assert(a.bodies[i].kind == Kind::Player);
        }
        if j < a.bodies.len() {
            assert(a.bodies[j].kind == Kind::Player);
        }
    }
    assert forall|i: int, j: int|
        0 <= i < b.bodies.len() && 0 <= j < b.bodies.len() && (#[trigger] b.bodies[i]).kind
            == Kind::Enemy && (#[trigger] b.bodies[j]).kind == Kind::Enemy implies i == j by {
        if i < a.bodies.len() {
            assert(a.bodies[i].kind == Kind::Enemy);
        }
        if j < a.bodies.len() {
            assert(a.bodies[j].kind == Kind::Enemy);
        }
    }
}

/// Walling the border cell by cell is spawning one wall after the other.
pub proof fn lemma_walled_step(a: Arena, n: int)
    requires
        0 <= n,
    ensures
        a.walled(0) == a,
        a.walled(n + 1) == a.walled(n).spawned(Kind::Wall, ring_cell(n)),
{
    assert(a.walled(0).bodies =~= a.bodies);
    assert(a.walled(n + 1).bodies =~= a.walled(n).spawned(Kind::Wall, ring_cell(n)).bodies);
}

/// Walls on the border keep the arena well formed.
pub proof fn lemma_walled_wf(a: Arena, n: int)
    requires
        a.wf(),
        0 <= n <= RING_LEN,
    ensures
        a.walled(n).wf(),
    decreases n,
{
    if n == 0 {
        lemma_walled_step(a, 0);
    } else {
        lemma_walled_step(a, n - 1);
        lemma_walled_wf(a, n - 1);
        lemma_ring_is_border();
        assert(ring_cell(n - 1).on_border());
        lemma_spawned_wf(a.walled(n - 1), Kind::Wall, ring_cell(n - 1));
    }
}

/// A game starts in a well-formed arena.
pub proof fn lemma_initial_wf(player: Cell, enemy: Cell)
    requires
        player.in_field(),
        enemy.in_field(),
    ensures
        Arena::initial(player, enemy).wf(),
{
    let a0 = Arena::empty();
    let a1 = a0.spawned(Kind::Player, player);
    lemma_spawned_wf(a0, Kind::Player, player);
    assert forall|i: int| 0 <= i < a1.bodies.len() implies (#[trigger] a1.bodies[i]).kind
        != Kind::Enemy by {}
    lemma_spawned_wf(a1, Kind::Enemy, enemy);
    lemma_walled_wf(a1.spawned(Kind::Enemy, enemy), RING_LEN as int);
}

/// One move of the entities of a kind, by at most one cell per axis, keeps
/// the arena well formed: in particular every entity is on the field again.
pub proof fn lemma_moved_wf(a: Arena, kind: Kind, by: Shift)
    requires
        a.wf(),
        by.is_unit(),
    ensures
        a.moved(kind, by).wf(),
{
    let b = a.moved(kind, by);
    assert forall|i: int| 0 <= i < b.bodies.len() implies (#[trigger] b.bodies[i]).cell.in_field(
    ) by {
        lemma_advance_stays_in_field(a.bodies[i].cell, by);
    }
    assert forall|i: int, j: int|
        0 <= i < b.bodies.len() && 0 <= j < b.bodies.len() && (#[trigger] b.bodies[i]).kind
            == Kind::Player && (#[trigger] b.bodies[j]).kind == Kind::Player implies i == j by {
        assert(a.bodies[i].kind == Kind::Player && a.bodies[j].kind == Kind::Player);
    }
    assert forall|i: int, j: int|
        0 <= i < b.bodies.len() && 0 <= j < b.bodies.len() && (#[trigger] b.bodies[i]).kind
            == Kind::Enemy && (#[trigger] b.bodies[j]).kind == Kind::Enemy implies i == j by {
        assert(a.bodies[i].kind == Kind::Enemy && a.bodies[j].kind == Kind::Enemy);
    }
    assert forall|i: int, j: int| 0 <= i < j < b.bodies.len() implies (#[trigger] b.bodies[i]).id
        < (#[trigger] b.bodies[j]).id by {
        assert(a.bodies[i].id < a.bodies[j].id);
    }
}

/// The motion of one tick keeps the arena well formed.
pub proof fn lemma_after_motion_wf(a: Arena, keys: Keys, dir: Direction)
    requires
        a.wf(),
    ensures
        a.after_motion(keys, dir).wf(),
{
    lemma_moved_wf(a, Kind::Player, keys.shift());
    lemma_moved_wf(a.moved(Kind::Player, keys.shift()), Kind::Enemy, dir.shift());
}

/// Removing entities keeps the arena well formed, and what is left was there
/// before.
pub proof fn lemma_kept_wf(a: Arena, keep: spec_fn(Body) -> bool)
    requires
        a.wf(),
    ensures
        a.kept(keep).wf(),
        forall|k: int|
            0 <= k < a.kept(keep).bodies.len() ==> a.bodies.contains(
                #[trigger] a.kept(keep).bodies[k],
            ),
    decreases a.bodies.len(),
{
    reveal(Seq::filter);
    if a.bodies.len() > 0 {
        let front = Arena { bodies: a.bodies.drop_last(), next_id: a.next_id };
        let last = a.bodies.last();
        let n = a.bodies.len() - 1;
        assert forall|i: int| 0 <= i < front.bodies.len() implies front.bodies[i]
            == a.bodies[i] by {}
        assert(front.wf());
        lemma_kept_wf(front, keep);
        let f = front.kept(keep);
        let g = a.kept(keep);
        assert forall|k: int| 0 <= k < f.bodies.len() implies {
            &&& a.bodies.contains(#[trigger] f.bodies[k])
            &&& f.bodies[k].id < last.id
            &&& (f.bodies[k].kind == last.kind ==> last.kind != Kind::Player && last.kind
                != Kind::Enemy)
        } by {
            assert(front.bodies.contains(f.bodies[k]));
            let i = choose|i: int| 0 <= i < front.bodies.len() && front.bodies[i] == f.bodies[k];
            assert(a.bodies[i] == f.bodies[k]);
            assert(a.bodies[i].id < a.bodies[n].id);
        }
        if keep(last) {
            assert(g.bodies == f.bodies.push(last));
            assert(a.bodies[n] == last);
            assert forall|k: int| 0 <= k < g.bodies.len() implies a.bodies.contains(
                #[trigger] g.bodies[k],
            ) by {
                if k < f.bodies.len() {
                    assert(g.bodies[k] == f.bodies[k]);
                }
            }
            assert forall|i: int, j: int| 0 <= i < j < g.bodies.len() implies (
            #[trigger] g.bodies[i]).id < (#[trigger] g.bodies[j]).id by {
                assert(g.bodies[i] == f.bodies[i]);
                if j < f.bodies.len() {
                    assert(g.bodies[j] == f.bodies[j]);
                }
            }
            assert forall|i: int, j: int|
                0 <= i < g.bodies.len() && 0 <= j < g.bodies.len() && (
                #[trigger] g.bodies[i]).kind == Kind::Player && (#[trigger] g.bodies[j]).kind
                    == Kind::Player implies i == j by {
                if i < f.bodies.len() {
                    assert(g.bodies[i] == f.bodies[i]);
                }
                if j < f.bodies.len() {
                    assert(g.bodies[j] == f.bodies[j]);
                }
            }
            assert forall|i: int, j: int|
                0 <= i < g.bodies.len() && 0 <= j < g.bodies.len() && (
                #[trigger] g.bodies[i]).kind == Kind::Enemy && (#[trigger] g.bodies[j]).kind
                    == Kind::Enemy implies i == j by {
                if i < f.bodies.len() {
                    assert(g.bodies[i] == f.bodies[i]);
                }
                if j < f.bodies.len() {
                    assert(g.bodies[j] == f.bodies[j]);
                }
            }
            assert forall|i: int| 0 <= i < g.bodies.len() implies 0 <= (#[trigger] g.bodies[i]).id
                < g.next_id && g.bodies[i].cell.in_field() by {
                if i < f.bodies.len() {
                    assert(g.bodies[i] == f.bodies[i]);
                }
            }
        } else {
            assert(g.bodies == f.bodies);
        }
    }
}

/// The collision check keeps the arena well formed.
pub proof fn lemma_after_collisions_wf(a: Arena)
    requires
        a.wf(),
    ensures
        a.after_collisions().wf(),
{
    lemma_kept_wf(a, a.survives());
}

/// The game-over handler keeps the arena well formed.
pub proof fn lemma_after_game_over_wf(a: Arena, pending: nat)
    requires
        a.wf(),
    ensures
        a.after_game_over(pending).wf(),
{
    lemma_kept_wf(a, outlasts_game());
}

/// A tick keeps the arena well formed.
pub proof fn lemma_ticked_wf(a: Arena, keys: Keys, dir: Direction)
    requires
        a.wf(),
    ensures
        a.ticked(keys, dir).wf(),
{
    let met = a.after_motion(keys, dir);
    lemma_after_motion_wf(a, keys, dir);
    lemma_after_collisions_wf(met);
    lemma_after_game_over_wf(met.after_collisions(), met.signals());
}

} // verus!
