//! What holds of every game, proved from the rules.

use vstd::prelude::*;
use crate::arena::{
    lemma_after_motion_wf, lemma_initial_wf, lemma_kept_wf, lemma_seat_is_first,
    lemma_spawned_wf, lemma_ticked_wf, Arena,
};
use crate::entity::{of_kind, outlasts_game, Body, Kind};
use crate::grid::{ring_cell, Cell, Shift, RING_LEN};
use crate::motion::{Direction, Keys};

verus! {

/// What can happen to a running game: a tick with its inputs, or the
/// spawner placing food on a cell.
pub enum Event {
    Tick { keys: Keys, dir: Direction },
    Spawn { cell: Cell },
}

impl Event {
    /// The spawner only places food on the field.
    pub open spec fn admissible(self) -> bool {
        self matches Event::Spawn { cell } ==> cell.in_field()
    }
}

impl Arena {
    /// The arena after one event.
    pub open spec fn after(self, event: Event) -> Arena {
        match event {
            Event::Tick { keys, dir } => self.ticked(keys, dir),
            Event::Spawn { cell } => self.spawned(Kind::Food, cell),
        }
    }

    /// The arena after a history of events, oldest first.
    pub open spec fn after_all(self, history: Seq<Event>) -> Arena
        decreases history.len(),
    {
        if history.len() == 0 {
            self
        } else {
            self.after_all(history.drop_last()).after(history.last())
        }
    }
}

proof fn lemma_filter_none<A>(s: Seq<A>, p: spec_fn(A) -> bool)
    requires
        forall|i: int| 0 <= i < s.len() ==> !p(#[trigger] s[i]),
    ensures
        s.filter(p) == Seq::<A>::empty(),
    decreases s.len(),
{
    reveal(Seq::filter);
    if s.len() > 0 {
        lemma_filter_none(s.drop_last(), p);
    }
}

proof fn lemma_filter_twice<A>(s: Seq<A>, p: spec_fn(A) -> bool, q: spec_fn(A) -> bool)
    requires
        forall|x: A| #[trigger] q(x) ==> p(x),
    ensures
        s.filter(p).filter(q) == s.filter(q),
    decreases s.len(),
{
    reveal(Seq::filter);
    if s.len() > 0 {
        let front = s.drop_last();
        lemma_filter_twice(front, p, q);
        assert(s =~= front.push(s.last()));
        front.lemma_filter_push(s.last(), p);
        front.lemma_filter_push(s.last(), q);
        front.filter(p).lemma_filter_push(s.last(), q);
    }
}

proof fn lemma_filter_split<A>(
    s: Seq<A>,
    stays: spec_fn(A) -> bool,
    goes: spec_fn(A) -> bool,
    q: spec_fn(A) -> bool,
)
    requires
        forall|x: A| #[trigger] goes(x) <==> !stays(x),
        forall|x: A| #[trigger] goes(x) ==> q(x),
    ensures
        s.filter(q).len() == s.filter(stays).filter(q).len() + s.filter(goes).len(),
    decreases s.len(),
{
    reveal(Seq::filter);
    if s.len() > 0 {
        let front = s.drop_last();
        lemma_filter_split(front, stays, goes, q);
        assert(s =~= front.push(s.last()));
        front.lemma_filter_push(s.last(), stays);
        front.lemma_filter_push(s.last(), goes);
        front.lemma_filter_push(s.last(), q);
        front.filter(stays).lemma_filter_push(s.last(), q);
    }
}

/// An arena holds an entity of a kind exactly when it counts at least one.
pub proof fn lemma_count_zero(a: Arena, kind: Kind)
    ensures
        a.count(kind) == 0 <==> !a.holds(kind),
{
    if a.holds(kind) {
        let i = choose|i: int| 0 <= i < a.bodies.len() && (#[trigger] a.bodies[i]).kind == kind;
        a.bodies.lemma_filter_contains(of_kind(kind), i);
        let f = a.bodies.filter(of_kind(kind));
        let k = choose|k: int| 0 <= k < f.len() && f[k] == a.bodies[i];
    } else {
        lemma_filter_none(a.bodies, of_kind(kind));
    }
}

/// From an initial state on the field, whatever the keys, the directions
/// drawn and the cells food is spawned on, every entity stays on the field
/// and the arena stays well formed.
pub proof fn lemma_play_stays_on_field(player: Cell, enemy: Cell, history: Seq<Event>)
    requires
        player.in_field(),
        enemy.in_field(),
        forall|i: int| 0 <= i < history.len() ==> (#[trigger] history[i]).admissible(),
    ensures
        Arena::initial(player, enemy).after_all(history).wf(),
        forall|i: int|
            0 <= i < Arena::initial(player, enemy).after_all(history).bodies.len() ==> (
            #[trigger] Arena::initial(player, enemy).after_all(history).bodies[i]).cell.in_field(),
{
    lemma_initial_wf(player, enemy);
    lemma_history_keeps_wf(Arena::initial(player, enemy), history);
}

/// Events keep a well-formed arena well formed.
pub proof fn lemma_history_keeps_wf(a: Arena, history: Seq<Event>)
    requires
        a.wf(),
        forall|i: int| 0 <= i < history.len() ==> (#[trigger] history[i]).admissible(),
    ensures
        a.after_all(history).wf(),
    decreases history.len(),
{
    if history.len() > 0 {
        let earlier = history.drop_last();
        assert forall|i: int| 0 <= i < earlier.len() implies (#[trigger] earlier[i]).admissible(
        ) by {
            assert(earlier[i] == history[i]);
        }
        lemma_history_keeps_wf(a, earlier);
        let b = a.after_all(earlier);
        assert(history.last() == history[history.len() - 1]);
        match history.last() {
            Event::Tick { keys, dir } => {
                lemma_ticked_wf(b, keys, dir);
            },
            Event::Spawn { cell } => {
                lemma_spawned_wf(b, Kind::Food, cell);
            },
        }
    }
}

/// The collision check removes exactly the eaten food: what is left was
/// there before and is not eaten, what is not eaten is left, and the
/// numbers of players, enemies and walls do not change.
pub proof fn lemma_collisions_remove_eaten_only(a: Arena)
    requires
        a.wf(),
    ensures
        forall|k: int|
            0 <= k < a.after_collisions().bodies.len() ==> a.bodies.contains(
                #[trigger] a.after_collisions().bodies[k],
            ) && !a.is_eaten(a.after_collisions().bodies[k]),
        forall|i: int|
            0 <= i < a.bodies.len() ==> (a.after_collisions().bodies.contains(
                #[trigger] a.bodies[i],
            ) <==> !a.is_eaten(a.bodies[i])),
        a.after_collisions().count(Kind::Player) == a.count(Kind::Player),
        a.after_collisions().count(Kind::Enemy) == a.count(Kind::Enemy),
        a.after_collisions().count(Kind::Wall) == a.count(Kind::Wall),
        a.after_collisions().count(Kind::Food) + a.eaten() == a.count(Kind::Food),
        a.after_collisions().next_id == a.next_id,
{
    let b = a.after_collisions();
    lemma_kept_wf(a, a.survives());
    assert forall|k: int| 0 <= k < b.bodies.len() implies !a.is_eaten(#[trigger] b.bodies[k]) by {
        a.bodies.lemma_filter_pred(a.survives(), k);
    }
    assert forall|i: int| 0 <= i < a.bodies.len() implies (b.bodies.contains(
        #[trigger] a.bodies[i],
    ) <==> !a.is_eaten(a.bodies[i])) by {
        if !a.is_eaten(a.bodies[i]) {
            a.bodies.lemma_filter_contains(a.survives(), i);
        }
        if b.bodies.contains(a.bodies[i]) {
            let k = choose|k: int| 0 <= k < b.bodies.len() && b.bodies[k] == a.bodies[i];
            a.bodies.lemma_filter_pred(a.survives(), k);
        }
    }
    lemma_filter_twice(a.bodies, a.survives(), of_kind(Kind::Player));
    lemma_filter_twice(a.bodies, a.survives(), of_kind(Kind::Enemy));
    lemma_filter_twice(a.bodies, a.survives(), of_kind(Kind::Wall));
    lemma_filter_split(a.bodies, a.survives(), a.perishes(), of_kind(Kind::Food));
}

/// With a signal pending, the game-over handler leaves no player and no
/// food, and every enemy and wall where it was.
pub proof fn lemma_game_over_clears(a: Arena, pending: nat)
    requires
        pending > 0,
    ensures
        a.after_game_over(pending).count(Kind::Player) == 0,
        a.after_game_over(pending).count(Kind::Food) == 0,
        a.after_game_over(pending).count(Kind::Enemy) == a.count(Kind::Enemy),
        a.after_game_over(pending).count(Kind::Wall) == a.count(Kind::Wall),
{
    let b = a.after_game_over(pending);
    assert forall|k: int| 0 <= k < b.bodies.len() implies !of_kind(Kind::Player)(
        #[trigger] b.bodies[k],
    ) && !of_kind(Kind::Food)(b.bodies[k]) by {
        a.bodies.lemma_filter_pred(outlasts_game(), k);
    }
    lemma_filter_none(b.bodies, of_kind(Kind::Player));
    lemma_filter_none(b.bodies, of_kind(Kind::Food));
    lemma_filter_twice(a.bodies, outlasts_game(), of_kind(Kind::Enemy));
    lemma_filter_twice(a.bodies, outlasts_game(), of_kind(Kind::Wall));
}

/// A tick whose motion brings the player and the enemy onto one cell raises
/// one signal and ends with no player and no food.
pub proof fn lemma_collision_ends_game(a: Arena, keys: Keys, dir: Direction)
    requires
        a.wf(),
        a.after_motion(keys, dir).cell_of(Kind::Player) is Some,
        a.after_motion(keys, dir).cell_of(Kind::Player) == a.after_motion(keys, dir).cell_of(
            Kind::Enemy,
        ),
    ensures
        a.after_motion(keys, dir).signals() == 1,
        a.ticked(keys, dir).count(Kind::Player) == 0,
        a.ticked(keys, dir).count(Kind::Food) == 0,
{
    lemma_game_over_clears(a.after_motion(keys, dir).after_collisions(), 1);
}

/// Neither motion, nor the collision check, nor the handler brings an
/// entity into being: a kind that is absent before a tick is absent after.
pub proof fn lemma_tick_creates_nothing(a: Arena, keys: Keys, dir: Direction, kind: Kind)
    requires
        a.wf(),
        !a.holds(kind),
    ensures
        !a.ticked(keys, dir).holds(kind),
{
    let m1 = a.moved(Kind::Player, keys.shift());
    let m2 = a.after_motion(keys, dir);
    let c = m2.after_collisions();
    let g = c.after_game_over(m2.signals());
    assert forall|i: int| 0 <= i < m2.bodies.len() implies (#[trigger] m2.bodies[i]).kind
        != kind by {
        assert(m1.bodies[i].kind == a.bodies[i].kind);
    }
    lemma_after_motion_wf(a, keys, dir);
    lemma_kept_wf(m2, m2.survives());
    assert forall|i: int| 0 <= i < c.bodies.len() implies (#[trigger] c.bodies[i]).kind
        != kind by {
        assert(m2.bodies.contains(c.bodies[i]));
    }
    lemma_kept_wf(c, outlasts_game());
    assert forall|i: int| 0 <= i < g.bodies.len() implies (#[trigger] g.bodies[i]).kind
        != kind by {
        assert(c.bodies.contains(g.bodies[i]));
    }
}

/// The player and the enemy move independently: which of the two moves
/// first makes no difference.
pub proof fn lemma_motions_commute(a: Arena, player: Shift, enemy: Shift)
    ensures
        a.moved(Kind::Player, player).moved(Kind::Enemy, enemy) == a.moved(
            Kind::Enemy,
            enemy,
        ).moved(Kind::Player, player),
{
    assert(a.moved(Kind::Player, player).moved(Kind::Enemy, enemy).bodies =~= a.moved(
        Kind::Enemy,
        enemy,
    ).moved(Kind::Player, player).bodies);
}

/// A game starts with the player first, the enemy second, and after them
/// one wall on each cell of the ring, with identifiers counting from zero.
pub proof fn lemma_initial_layout(player: Cell, enemy: Cell)
    ensures
        Arena::initial(player, enemy).next_id == 2 + RING_LEN,
        Arena::initial(player, enemy).bodies.len() == 2 + RING_LEN,
        Arena::initial(player, enemy).bodies[0] == (Body { id: 0, kind: Kind::Player, cell: player }),
        Arena::initial(player, enemy).bodies[1] == (Body { id: 1, kind: Kind::Enemy, cell: enemy }),
        forall|k: int|
            0 <= k < RING_LEN ==> #[trigger] Arena::initial(player, enemy).bodies[2 + k] == (Body {
                id: 2 + k,
                kind: Kind::Wall,
                cell: ring_cell(k),
            }),
{
}

/// Once the player is gone the game is inert: keys move nothing, the
/// collision check raises no signal, and the handler changes nothing.
pub proof fn lemma_no_player_no_game(a: Arena, by: Shift)
    requires
        !a.holds(Kind::Player),
    ensures
        a.moved(Kind::Player, by) == a,
        a.signals() == 0,
        a.after_game_over(a.signals()) == a,
{
    assert(a.moved(Kind::Player, by).bodies =~= a.bodies);
}

/// The game-over handler is idempotent: run again, with or without a
/// signal, it changes nothing more.
pub proof fn lemma_game_over_idempotent(a: Arena, first: nat, again: nat)
    requires
        first > 0,
    ensures
        a.after_game_over(first).after_game_over(again) == a.after_game_over(first),
{
    lemma_filter_twice(a.bodies, outlasts_game(), outlasts_game());
}

/// Where a kind has at most one entity, the cell of that kind is the cell
/// of that entity.
pub proof fn lemma_cell_of_sole(a: Arena, kind: Kind, i: int)
    requires
        a.sole(kind),
        0 <= i < a.bodies.len(),
        a.bodies[i].kind == kind,
    ensures
        a.cell_of(kind) == Some(a.bodies[i].cell),
{
    lemma_seat_is_first(a, kind);
    let k = a.seat(kind);
    assert(a.bodies[k].kind == kind);
}

/// In a well-formed arena food is eaten exactly when the player or the
/// enemy stands on its cell.
pub proof fn lemma_eaten_iff_met(a: Arena, b: Body)
    requires
        a.wf(),
    ensures
        a.is_eaten(b) <==> b.kind == Kind::Food && exists|j: int|
            0 <= j < a.bodies.len() && ((#[trigger] a.bodies[j]).kind == Kind::Player
                || a.bodies[j].kind == Kind::Enemy) && a.bodies[j].cell == b.cell,
{
    if a.is_eaten(b) {
        if a.meets(Kind::Player, b.cell) {
            lemma_seat_is_first(a, Kind::Player);
            let j = a.seat(Kind::Player);
            assert(a.bodies[j].kind == Kind::Player && a.bodies[j].cell == b.cell);
        } else {
            lemma_seat_is_first(a, Kind::Enemy);
            let j = a.seat(Kind::Enemy);
            assert(a.bodies[j].kind == Kind::Enemy && a.bodies[j].cell == b.cell);
        }
    }
    if b.kind == Kind::Food && exists|j: int|
        0 <= j < a.bodies.len() && ((#[trigger] a.bodies[j]).kind == Kind::Player
            || a.bodies[j].kind == Kind::Enemy) && a.bodies[j].cell == b.cell {
        let j = choose|j: int|
            0 <= j < a.bodies.len() && ((#[trigger] a.bodies[j]).kind == Kind::Player
                || a.bodies[j].kind == Kind::Enemy) && a.bodies[j].cell == b.cell;
        lemma_cell_of_sole(a, a.bodies[j].kind, j);
    }
}

/// In a well-formed arena the collision check raises a signal exactly when
/// the player and the enemy stand on one cell, and never more than one.
pub proof fn lemma_signal_iff_met(a: Arena)
    requires
        a.wf(),
    ensures
        a.signals() <= 1,
        a.signals() == 1 <==> exists|i: int, j: int|
            0 <= i < a.bodies.len() && 0 <= j < a.bodies.len() && (#[trigger] a.bodies[i]).kind
                == Kind::Player && (#[trigger] a.bodies[j]).kind == Kind::Enemy
                && a.bodies[i].cell == a.bodies[j].cell,
{
    if a.signals() == 1 {
        lemma_seat_is_first(a, Kind::Player);
        lemma_seat_is_first(a, Kind::Enemy);
        let i = a.seat(Kind::Player);
        let j = a.seat(Kind::Enemy);
        assert(a.bodies[i].kind == Kind::Player && a.bodies[j].kind == Kind::Enemy
            && a.bodies[i].cell == a.bodies[j].cell);
    }
    if exists|i: int, j: int|
        0 <= i < a.bodies.len() && 0 <= j < a.bodies.len() && (#[trigger] a.bodies[i]).kind
            == Kind::Player && (#[trigger] a.bodies[j]).kind == Kind::Enemy && a.bodies[i].cell
            == a.bodies[j].cell {
        let (i, j) = choose|i: int, j: int|
            0 <= i < a.bodies.len() && 0 <= j < a.bodies.len() && (#[trigger] a.bodies[i]).kind
                == Kind::Player && (#[trigger] a.bodies[j]).kind == Kind::Enemy
                && a.bodies[i].cell == a.bodies[j].cell;
        lemma_cell_of_sole(a, Kind::Player, i);
        lemma_cell_of_sole(a, Kind::Enemy, j);
    }
}

} // verus!
