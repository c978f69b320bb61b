//! The game state as executable data, and the systems that act on it.

use vstd::prelude::*;
use crate::arena::{
    lemma_after_collisions_wf, lemma_after_game_over_wf, lemma_first_is_seat, lemma_initial_wf,
    lemma_moved_wf, lemma_spawned_wf, lemma_walled_step, moved_body, Arena,
};
use crate::entity::{bodies_of, of_kind, outlasts_game, Entity, Kind};
use crate::grid::{ring_position, Offset, Position, RING_LEN};
use crate::motion::{Direction, Keys};

verus! {

/// The entities of one game, oldest first.
pub struct World {
    entities: Vec<Entity>,
    next_id: u64,
}

impl View for World {
    type V = Arena;

    closed spec fn view(&self) -> Arena {
        Arena { bodies: bodies_of(self.entities@), next_id: self.next_id as int }
    }
}

impl World {
    /// The world models a well-formed arena.
    pub open spec fn wf(&self) -> bool {
        self@.wf()
    }

    /// World setup: one player and one enemy at their starting positions,
    /// and a wall on every cell of the border of the field.
    pub fn setup(player: Position, enemy: Position) -> (world: World)
        requires
            player@.in_field(),
            enemy@.in_field(),
        ensures
            world@ == Arena::initial(player@, enemy@),
            world.wf(),
    {
        let mut world = World { entities: Vec::new(), next_id: 0 };
        assert(world@ == Arena::empty());
        world.spawn(Kind::Player, player);
        world.spawn(Kind::Enemy, enemy);
        let ghost base = world@;
        let mut k: i32 = 0;
        proof {
            lemma_walled_step(base, 0);
        }
        while k < RING_LEN
            invariant
                0 <= k <= RING_LEN,
                base.next_id == 2,
                world@ == base.walled(k as int),
            decreases RING_LEN - k,
        {
            let at = ring_position(k);
            world.spawn(Kind::Wall, at);
            proof {
                lemma_walled_step(base, k as int);
            }
            k = k + 1;
        }
        proof {
            lemma_initial_wf(player@, enemy@);
        }
        world
    }

    /// All entities, oldest first.
    pub fn entities(&self) -> (all: &Vec<Entity>)
        ensures
            bodies_of(all@) == self@.bodies,
    {
        &self.entities
    }

    /// The number of entities.
    pub fn len(&self) -> (n: usize)
        ensures
            n == self@.bodies.len(),
    {
        self.entities.len()
    }

    /// Whether an identifier is left for one more entity.
    pub fn has_room(&self) -> (room: bool)
        ensures
            room == (self@.next_id < u64::MAX),
    {
        self.next_id < u64::MAX
    }

    /// The number of entities of a kind.
    pub fn count(&self, kind: Kind) -> (n: usize)
        ensures
            n == self@.count(kind),
    {
        let ghost bodies = self@.bodies;
        let mut n: usize = 0;
        let mut i: usize = 0;
        proof {
            reveal(Seq::filter);
            assert(bodies.take(0) =~= Seq::empty());
        }
        while i < self.entities.len()
            invariant
                i <= self.entities.len(),
                bodies == self@.bodies,
                n == bodies.take(i as int).filter(of_kind(kind)).len(),
                n <= i,
            decreases self.entities.len() - i,
        {
            proof {
                let b = bodies[i as int];
                assert(bodies.take(i + 1) =~= bodies.take(i as int).push(b));
                bodies.take(i as int).lemma_filter_push(b, of_kind(kind));
            }
            if self.entities[i].kind == kind {
                n = n + 1;
            }
            i = i + 1;
        }
        proof {
            assert(bodies.take(i as int) =~= bodies);
        }
        n
    }

    /// The oldest entity of a kind, if there is one.
    pub fn find(&self, kind: Kind) -> (found: Option<Entity>)
        ensures
            found is Some <==> self@.holds(kind),
            found matches Some(e) ==> e@ == self@.bodies[self@.seat(kind)],
    {
        let mut i: usize = 0;
        while i < self.entities.len()
            invariant
                i <= self.entities.len(),
                forall|j: int| 0 <= j < i ==> (#[trigger] self@.bodies[j]).kind != kind,
            decreases self.entities.len() - i,
        {
            let e = self.entities[i];
            if e.kind == kind {
                proof {
                    assert(self@.bodies[i as int] == e@);
                    assert(self@.is_first(kind, i as int));
                    lemma_first_is_seat(self@, kind, i as int);
                }
                return Some(e);
            }
            i = i + 1;
        }
        None
    }

    /// Places one food entity on the given cell of the field and returns its
    /// identifier. Nothing else changes.
    pub fn spawn_food_at(&mut self, at: Position) -> (id: u64)
        requires
            old(self).wf(),
            old(self)@.next_id < u64::MAX,
            at@.in_field(),
        ensures
            final(self)@ == old(self)@.spawned(Kind::Food, at@),
            id == old(self)@.next_id,
            final(self).wf(),
    {
        proof {
            lemma_spawned_wf(self@, Kind::Food, at@);
        }
        self.spawn(Kind::Food, at)
    }

    /// Player motion: the player moves by the net displacement of the
    /// pressed keys and is then corrected back towards the field. Without a
    /// player nothing moves.
    pub fn move_player(&mut self, keys: Keys)
        requires
            old(self).wf(),
        ensures
            final(self)@ == old(self)@.moved(Kind::Player, keys.shift()),
            final(self).wf(),
    {
        self.shift_kind(Kind::Player, keys.offset());
    }

    /// Enemy motion: the enemy moves one cell in the given direction and is
    /// then corrected back towards the field.
    pub fn move_enemy(&mut self, dir: Direction)
        requires
            old(self).wf(),
        ensures
            final(self)@ == old(self)@.moved(Kind::Enemy, dir.shift()),
            final(self).wf(),
    {
        self.shift_kind(Kind::Enemy, dir.offset());
    }

    /// The collision check, on the positions as they stand: every food
    /// entity on the cell of the player or of the enemy is removed, and one
    /// game-over signal is raised if the player and the enemy share a cell.
    /// Returns the number of signals raised.
    pub fn resolve_collisions(&mut self) -> (raised: usize)
        requires
            old(self).wf(),
        ensures
            final(self)@ == old(self)@.after_collisions(),
            raised == old(self)@.signals(),
            final(self).wf(),
    {
        let ghost before = self@;
        let player = self.find(Kind::Player);
        let enemy = self.find(Kind::Enemy);
        let mut kept: Vec<Entity> = Vec::new();
        let mut i: usize = 0;
        proof {
            reveal(Seq::filter);
            assert(before.bodies.take(0) =~= Seq::empty());
            assert(bodies_of(kept@) =~= Seq::empty());
        }
        while i < self.entities.len()
            invariant
                i <= self.entities.len(),
                before == self@,
                player is Some <==> before.holds(Kind::Player),
                player matches Some(p) ==> p@ == before.bodies[before.seat(Kind::Player)],
                enemy is Some <==> before.holds(Kind::Enemy),
                enemy matches Some(e) ==> e@ == before.bodies[before.seat(Kind::Enemy)],
                bodies_of(kept@) == before.bodies.take(i as int).filter(before.survives()),
            decreases self.entities.len() - i,
        {
            let e = self.entities[i];
            let eaten = e.kind == Kind::Food && (stands_on(&player, &e.pos) || stands_on(
                &enemy,
                &e.pos,
            ));
            proof {
                let b = before.bodies[i as int];
                assert(b == e@);
                assert(eaten == before.is_eaten(b));
                assert(before.bodies.take(i + 1) =~= before.bodies.take(i as int).push(b));
                before.bodies.take(i as int).lemma_filter_push(b, before.survives());
                assert(bodies_of(kept@.push(e)) =~= bodies_of(kept@).push(b));
            }
            if !eaten {
                kept.push(e);
            }
            i = i + 1;
        }
        proof {
            assert(before.bodies.take(i as int) =~= before.bodies);
            lemma_after_collisions_wf(before);
        }
        self.entities = kept;
        match (player, enemy) {
            (Some(p), Some(e)) => if p.pos.collides(&e.pos) {
                1
            } else {
                0
            },
            _ => 0,
        }
    }

    /// The game-over handler: with at least one signal pending, every food
    /// entity and the player are removed; signals beyond the first change
    /// nothing more. With none pending, or with no player and no food left,
    /// nothing changes.
    pub fn handle_game_over(&mut self, pending: usize)
        requires
            old(self).wf(),
        ensures
            final(self)@ == old(self)@.after_game_over(pending as nat),
            final(self).wf(),
    {
        let ghost before = self@;
        proof {
            lemma_after_game_over_wf(before, pending as nat);
        }
        if pending > 0 {
            let mut kept: Vec<Entity> = Vec::new();
            let mut i: usize = 0;
            proof {
                reveal(Seq::filter);
                assert(before.bodies.take(0) =~= Seq::empty());
                assert(bodies_of(kept@) =~= Seq::empty());
            }
            while i < self.entities.len()
                invariant
                    i <= self.entities.len(),
                    before == self@,
                    bodies_of(kept@) == before.bodies.take(i as int).filter(outlasts_game()),
                decreases self.entities.len() - i,
            {
                let e = self.entities[i];
                proof {
                    let b = before.bodies[i as int];
                    assert(b == e@);
                    assert(before.bodies.take(i + 1) =~= before.bodies.take(i as int).push(b));
                    before.bodies.take(i as int).lemma_filter_push(b, outlasts_game());
                    assert(bodies_of(kept@.push(e)) =~= bodies_of(kept@).push(b));
                }
                if e.kind != Kind::Food && e.kind != Kind::Player {
                    kept.push(e);
                }
                i = i + 1;
            }
            proof {
                assert(before.bodies.take(i as int) =~= before.bodies);
            }
            self.entities = kept;
        }
    }

    /// One tick: player motion, enemy motion, the collision check on the new
    /// positions, then the game-over handler on the signals just raised.
    /// Returns the number of signals raised.
    pub fn tick(&mut self, keys: Keys, dir: Direction) -> (raised: usize)
        requires
            old(self).wf(),
        ensures
            final(self)@ == old(self)@.ticked(keys, dir),
            raised == old(self)@.after_motion(keys, dir).signals(),
            final(self).wf(),
    {
        self.move_player(keys);
        self.move_enemy(dir);
        let raised = self.resolve_collisions();
        self.handle_game_over(raised);
        raised
    }

    fn shift_kind(&mut self, kind: Kind, by: Offset)
        requires
            old(self).wf(),
            by@.is_unit(),
        ensures
            final(self)@ == old(self)@.moved(kind, by@),
            final(self).wf(),
    {
        let ghost before = self@;
        let n = self.entities.len();
        let mut i: usize = 0;
        while i < n
            invariant
                i <= n,
                n == self.entities.len(),
                n == before.bodies.len(),
                before.wf(),
                by@.is_unit(),
                self.next_id == before.next_id,
                forall|j: int|
                    0 <= j < i ==> (#[trigger] self.entities@[j])@ == moved_body(
                        before.bodies[j],
                        kind,
                        by@,
                    ),
                forall|j: int| i <= j < n ==> (#[trigger] self.entities@[j])@ == before.bodies[j],
            decreases n - i,
        {
            let e = self.entities[i];
            if e.kind == kind {
                assert(before.bodies[i as int].cell.in_field());
                let moved = Entity { id: e.id, kind: e.kind, pos: e.pos.advance(by) };
                self.entities.set(i, moved);
            }
            i = i + 1;
        }
        proof {
            assert(self@.bodies =~= before.moved(kind, by@).bodies);
            lemma_moved_wf(before, kind, by@);
        }
    }

    fn spawn(&mut self, kind: Kind, at: Position) -> (id: u64)
        requires
            old(self)@.next_id < u64::MAX,
        ensures
            final(self)@ == old(self)@.spawned(kind, at@),
            id == old(self)@.next_id,
    {
        let id = self.next_id;
        self.entities.push(Entity { id, kind, pos: at });
        self.next_id = id + 1;
        assert(bodies_of(self.entities@) =~= bodies_of(old(self).entities@).push(
            (Entity { id, kind, pos: at })@,
        ));
        id
    }
}

/// Whether the entity, if there is one, stands on the given position.
fn stands_on(who: &Option<Entity>, at: &Position) -> (hit: bool)
    ensures
        hit == (*who matches Some(e) && e.pos@.collides(at@)),
{
    match who {
        Some(e) => e.pos.collides(at),
        None => false,
    }
}

} // verus!
