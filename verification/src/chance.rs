//! The systems that draw from the process-wide random source: the food
//! spawner and the enemy's choice of direction.

use vstd::prelude::*;
use rand::Rng;
use crate::entity::{Entity, Kind};
use crate::grid::{Position, FIELD_SIZE};
use crate::motion::{Direction, Keys};
use crate::world::World;

verus! {

/// Calls `rand::Rng::gen_range` with the range `0..bound` on the generator
/// that `rand::thread_rng` hands out. Trusted, not proved: the value drawn
/// lies in the range, as the crate documents. An empty range panics, so the
/// bound must be positive. Which value comes is left open: two calls may
/// differ. Where the system cannot seed the generator, `thread_rng` panics
/// whatever the bound.
#[verifier::external_body]
fn draw_below(bound: u32) -> (drawn: u32)
    requires
        bound > 0,
    ensures
        drawn < bound,
{
    rand::thread_rng().gen_range(0..bound)
}

/// Draws a cell of the field, each coordinate on its own.
pub fn draw_cell() -> (at: Position)
    ensures
        at@.in_field(),
{
    let x = draw_below(FIELD_SIZE as u32);
    let y = draw_below(FIELD_SIZE as u32);
    Position::new(x as i32, y as i32)
}

/// Draws one of the four directions by its index.
fn draw_direction() -> (dir: Direction) {
    let index = draw_below(4);
    Direction::of_index(index)
}

impl World {
    /// The spawner: places one food entity on a cell drawn from the field
    /// and returns it. Nothing else changes.
    pub fn spawn_food(&mut self) -> (food: Entity)
        requires
            old(self).wf(),
            old(self)@.next_id < u64::MAX,
        ensures
            food@.cell.in_field(),
            food@.kind == Kind::Food,
            food@.id == old(self)@.next_id,
            final(self)@ == old(self)@.spawned(Kind::Food, food@.cell),
            final(self).wf(),
    {
        let at = draw_cell();
        let id = self.spawn_food_at(at);
        Entity { id, kind: Kind::Food, pos: at }
    }

    /// Enemy motion with a drawn direction: the enemy moves one cell in the
    /// direction that is returned.
    pub fn move_enemy_at_random(&mut self) -> (dir: Direction)
        requires
            old(self).wf(),
        ensures
            final(self)@ == old(self)@.moved(Kind::Enemy, dir.shift()),
            final(self).wf(),
    {
        let dir = draw_direction();
        self.move_enemy(dir);
        dir
    }

    /// One tick with a drawn direction for the enemy. Returns the direction
    /// and the number of game-over signals raised.
    pub fn tick_at_random(&mut self, keys: Keys) -> (out: (Direction, usize))
        requires
            old(self).wf(),
        ensures
            final(self)@ == old(self)@.ticked(keys, out.0),
            out.1 == old(self)@.after_motion(keys, out.0).signals(),
            final(self).wf(),
    {
        let dir = draw_direction();
        let raised = self.tick(keys, dir);
        (dir, raised)
    }
}

} // verus!
