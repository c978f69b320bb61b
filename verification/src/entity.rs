//! The tagged records that populate the field.

use vstd::prelude::*;
use crate::grid::{Cell, Position};

verus! {

/// What an entity is.
#[derive(Clone, Copy, Debug, PartialEq, Eq, Structural)]
pub enum Kind {
    Player,
    Enemy,
    Food,
    Wall,
}

/// One entity: a stable identifier, a tag and a grid position.
#[derive(Clone, Copy, Debug, PartialEq, Eq, Structural)]
pub struct Entity {
    pub id: u64,
    pub kind: Kind,
    pub pos: Position,
}

/// The model of an [`Entity`].
pub struct Body {
    pub id: int,
    pub kind: Kind,
    pub cell: Cell,
}

impl View for Entity {
    type V = Body;

    open spec fn view(&self) -> Body {
        Body { id: self.id as int, kind: self.kind, cell: self.pos@ }
    }
}

/// The model of an entity, as a function.
pub open spec fn body_of() -> spec_fn(Entity) -> Body {
    |e: Entity| e@
}

/// The models of a sequence of entities, in order.
pub open spec fn bodies_of(entities: Seq<Entity>) -> Seq<Body> {
    entities.map_values(body_of())
}

/// The predicate "is of this kind".
pub open spec fn of_kind(kind: Kind) -> spec_fn(Body) -> bool {
    |b: Body| b.kind == kind
}

/// The predicate "is left standing at game over": neither food nor player.
pub open spec fn outlasts_game() -> spec_fn(Body) -> bool {
    |b: Body| b.kind != Kind::Food && b.kind != Kind::Player
}

} // verus!
