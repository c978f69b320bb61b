use avoider::entity::{Entity, Kind};
use avoider::grid::{ring_position, Position, RING_LEN};
use avoider::motion::{Direction, Keys};
use avoider::world::World;

fn pos(x: i32, y: i32) -> Position {
    Position::new(x, y)
}

fn keys(up: bool, down: bool, left: bool, right: bool) -> Keys {
    Keys { up, down, left, right }
}

fn cell_of(world: &World, kind: Kind) -> Option<Position> {
    world.find(kind).map(|e| e.pos)
}

fn ids_of(world: &World, kind: Kind) -> Vec<u64> {
    world.entities().iter().filter(|e| e.kind == kind).map(|e| e.id).collect()
}

#[test]
fn setup_places_player_enemy_and_walls() {
    let world = World::setup(pos(3, 3), pos(5, 5));
    assert_eq!(world.len(), 38);
    assert_eq!(world.count(Kind::Player), 1);
    assert_eq!(world.count(Kind::Enemy), 1);
    assert_eq!(world.count(Kind::Wall), 36);
    assert_eq!(world.count(Kind::Food), 0);
    let all = world.entities();
    assert_eq!(all[0], Entity { id: 0, kind: Kind::Player, pos: pos(3, 3) });
    assert_eq!(all[1], Entity { id: 1, kind: Kind::Enemy, pos: pos(5, 5) });
}

#[test]
fn setup_walls_the_border_in_ring_order() {
    let world = World::setup(pos(3, 3), pos(5, 5));
    let all = world.entities();
    for k in 0..RING_LEN {
        let wall = all[2 + k as usize];
        assert_eq!(wall.kind, Kind::Wall);
        assert_eq!(wall.id, 2 + k as u64);
        assert_eq!(wall.pos, ring_position(k));
    }
}

#[test]
fn find_gives_the_oldest_of_a_kind() {
    let mut world = World::setup(pos(3, 3), pos(5, 5));
    assert_eq!(world.find(Kind::Food), None);
    let first = world.spawn_food_at(pos(1, 1));
    let _second = world.spawn_food_at(pos(2, 2));
    assert_eq!(world.find(Kind::Food), Some(Entity { id: first, kind: Kind::Food, pos: pos(1, 1) }));
    assert_eq!(world.find(Kind::Player).map(|e| e.id), Some(0));
    assert_eq!(world.find(Kind::Enemy).map(|e| e.id), Some(1));
    assert_eq!(world.find(Kind::Wall).map(|e| e.pos), Some(pos(0, 0)));
}

#[test]
fn spawned_food_gets_the_next_identifier() {
    let mut world = World::setup(pos(3, 3), pos(5, 5));
    assert!(world.has_room());
    let a = world.spawn_food_at(pos(7, 2));
    let b = world.spawn_food_at(pos(7, 2));
    assert_eq!(a, 38);
    assert_eq!(b, 39);
    assert_eq!(world.len(), 40);
    assert_eq!(world.count(Kind::Food), 2);
    let all = world.entities();
    assert_eq!(all[38], Entity { id: 38, kind: Kind::Food, pos: pos(7, 2) });
    assert_eq!(all[39], Entity { id: 39, kind: Kind::Food, pos: pos(7, 2) });
    assert_eq!(world.count(Kind::Player), 1);
    assert_eq!(world.count(Kind::Enemy), 1);
    assert_eq!(world.count(Kind::Wall), 36);
}

#[test]
fn identifiers_are_not_reused_after_a_removal() {
    let mut world = World::setup(pos(3, 3), pos(5, 5));
    let a = world.spawn_food_at(pos(3, 3));
    assert_eq!(world.resolve_collisions(), 0);
    assert_eq!(world.count(Kind::Food), 0);
    let b = world.spawn_food_at(pos(3, 3));
    assert_eq!(b, a + 1);
}

#[test]
fn the_player_moves_one_cell_per_pressed_key() {
    let mut world = World::setup(pos(3, 3), pos(5, 5));
    world.move_player(keys(true, false, false, false));
    assert_eq!(cell_of(&world, Kind::Player), Some(pos(3, 4)));
    world.move_player(keys(false, false, false, true));
    assert_eq!(cell_of(&world, Kind::Player), Some(pos(4, 4)));
    world.move_player(keys(false, true, true, false));
    assert_eq!(cell_of(&world, Kind::Player), Some(pos(3, 3)));
    world.move_player(keys(true, false, false, true));
    assert_eq!(cell_of(&world, Kind::Player), Some(pos(4, 4)));
    world.move_player(Keys::none());
    assert_eq!(cell_of(&world, Kind::Player), Some(pos(4, 4)));
    assert_eq!(cell_of(&world, Kind::Enemy), Some(pos(5, 5)));
}

#[test]
fn the_player_is_held_at_the_edges() {
    let mut world = World::setup(pos(0, 0), pos(5, 5));
    world.move_player(keys(false, true, true, false));
    assert_eq!(cell_of(&world, Kind::Player), Some(pos(0, 0)));
    let mut world = World::setup(pos(9, 9), pos(5, 5));
    world.move_player(keys(true, false, false, true));
    assert_eq!(cell_of(&world, Kind::Player), Some(pos(9, 9)));
    world.move_player(keys(true, false, true, false));
    assert_eq!(cell_of(&world, Kind::Player), Some(pos(8, 9)));
}

#[test]
fn the_enemy_moves_one_cell_in_the_given_direction() {
    let mut world = World::setup(pos(3, 3), pos(5, 5));
    world.move_enemy(Direction::West);
    assert_eq!(cell_of(&world, Kind::Enemy), Some(pos(4, 5)));
    world.move_enemy(Direction::North);
    assert_eq!(cell_of(&world, Kind::Enemy), Some(pos(4, 6)));
    world.move_enemy(Direction::East);
    assert_eq!(cell_of(&world, Kind::Enemy), Some(pos(5, 6)));
    world.move_enemy(Direction::South);
    assert_eq!(cell_of(&world, Kind::Enemy), Some(pos(5, 5)));
    assert_eq!(cell_of(&world, Kind::Player), Some(pos(3, 3)));
}

#[test]
fn the_enemy_is_held_at_the_edges() {
    let mut world = World::setup(pos(3, 3), pos(0, 9));
    world.move_enemy(Direction::West);
    assert_eq!(cell_of(&world, Kind::Enemy), Some(pos(0, 9)));
    world.move_enemy(Direction::North);
    assert_eq!(cell_of(&world, Kind::Enemy), Some(pos(0, 9)));
    let mut world = World::setup(pos(3, 3), pos(9, 0));
    world.move_enemy(Direction::East);
    assert_eq!(cell_of(&world, Kind::Enemy), Some(pos(9, 0)));
    world.move_enemy(Direction::South);
    assert_eq!(cell_of(&world, Kind::Enemy), Some(pos(9, 0)));
}

#[test]
fn motion_leaves_food_and_walls_where_they_are() {
    let mut world = World::setup(pos(3, 3), pos(5, 5));
    world.spawn_food_at(pos(2, 2));
    let before: Vec<Entity> =
        world.entities().iter().filter(|e| e.kind == Kind::Food || e.kind == Kind::Wall).copied().collect();
    world.move_player(keys(true, false, false, true));
    world.move_enemy(Direction::South);
    let after: Vec<Entity> =
        world.entities().iter().filter(|e| e.kind == Kind::Food || e.kind == Kind::Wall).copied().collect();
    assert_eq!(before, after);
}

#[test]
fn the_player_eats_the_food_on_its_cell_only() {
    let mut world = World::setup(pos(3, 3), pos(5, 5));
    let under = world.spawn_food_at(pos(3, 3));
    let beside = world.spawn_food_at(pos(3, 4));
    let far = world.spawn_food_at(pos(8, 1));
    let raised = world.resolve_collisions();
    assert_eq!(raised, 0);
    assert_eq!(ids_of(&world, Kind::Food), vec![beside, far]);
    assert!(!ids_of(&world, Kind::Food).contains(&under));
    assert_eq!(world.count(Kind::Player), 1);
    assert_eq!(world.count(Kind::Enemy), 1);
    assert_eq!(world.count(Kind::Wall), 36);
}

#[test]
fn the_enemy_eats_the_food_on_its_cell_too() {
    let mut world = World::setup(pos(3, 3), pos(5, 5));
    let under = world.spawn_food_at(pos(5, 5));
    let other = world.spawn_food_at(pos(5, 6));
    assert_eq!(world.resolve_collisions(), 0);
    assert_eq!(ids_of(&world, Kind::Food), vec![other]);
    assert!(!ids_of(&world, Kind::Food).contains(&under));
    assert_eq!(world.count(Kind::Player), 1);
    assert_eq!(world.count(Kind::Enemy), 1);
}

#[test]
fn all_food_on_an_occupied_cell_is_eaten_at_once() {
    let mut world = World::setup(pos(3, 3), pos(5, 5));
    world.spawn_food_at(pos(3, 3));
    world.spawn_food_at(pos(3, 3));
    world.spawn_food_at(pos(5, 5));
    let spared = world.spawn_food_at(pos(4, 4));
    assert_eq!(world.resolve_collisions(), 0);
    assert_eq!(ids_of(&world, Kind::Food), vec![spared]);
}

#[test]
fn food_on_a_wall_cell_is_not_eaten_by_the_wall() {
    let mut world = World::setup(pos(3, 3), pos(5, 5));
    let on_wall = world.spawn_food_at(pos(0, 0));
    assert_eq!(world.resolve_collisions(), 0);
    assert_eq!(ids_of(&world, Kind::Food), vec![on_wall]);
}

#[test]
fn walls_do_not_stop_a_mover() {
    let mut world = World::setup(pos(1, 1), pos(5, 5));
    world.move_player(keys(false, true, true, false));
    assert_eq!(cell_of(&world, Kind::Player), Some(pos(0, 0)));
    assert_eq!(world.resolve_collisions(), 0);
    assert_eq!(world.count(Kind::Player), 1);
    assert_eq!(world.count(Kind::Wall), 36);
}

#[test]
fn player_on_the_enemy_raises_one_signal() {
    let mut world = World::setup(pos(5, 5), pos(5, 5));
    assert_eq!(world.resolve_collisions(), 1);
    assert_eq!(world.count(Kind::Player), 1);
    assert_eq!(world.count(Kind::Enemy), 1);
}

#[test]
fn player_beside_the_enemy_raises_none() {
    let mut world = World::setup(pos(5, 5), pos(5, 6));
    assert_eq!(world.resolve_collisions(), 0);
    let mut world = World::setup(pos(5, 5), pos(6, 5));
    assert_eq!(world.resolve_collisions(), 0);
}

#[test]
fn game_over_removes_the_player_and_all_food() {
    let mut world = World::setup(pos(3, 3), pos(5, 5));
    world.spawn_food_at(pos(1, 1));
    world.spawn_food_at(pos(8, 8));
    world.handle_game_over(1);
    assert_eq!(world.count(Kind::Player), 0);
    assert_eq!(world.count(Kind::Food), 0);
    assert_eq!(world.count(Kind::Enemy), 1);
    assert_eq!(world.count(Kind::Wall), 36);
    assert_eq!(world.len(), 37);
    assert_eq!(world.find(Kind::Enemy), Some(Entity { id: 1, kind: Kind::Enemy, pos: pos(5, 5) }));
}

#[test]
fn game_over_without_a_signal_changes_nothing() {
    let mut world = World::setup(pos(3, 3), pos(5, 5));
    world.spawn_food_at(pos(1, 1));
    let before: Vec<Entity> = world.entities().clone();
    world.handle_game_over(0);
    assert_eq!(world.entities(), &before);
}

#[test]
fn game_over_drops_signals_beyond_the_first() {
    let mut one = World::setup(pos(3, 3), pos(5, 5));
    one.spawn_food_at(pos(1, 1));
    one.handle_game_over(1);
    let mut many = World::setup(pos(3, 3), pos(5, 5));
    many.spawn_food_at(pos(1, 1));
    many.handle_game_over(5);
    assert_eq!(one.entities(), many.entities());
}

#[test]
fn game_over_is_idempotent() {
    let mut world = World::setup(pos(3, 3), pos(5, 5));
    world.spawn_food_at(pos(1, 1));
    world.handle_game_over(1);
    let once: Vec<Entity> = world.entities().clone();
    world.handle_game_over(1);
    assert_eq!(world.entities(), &once);
    world.handle_game_over(0);
    assert_eq!(world.entities(), &once);
}

#[test]
fn without_a_player_keys_move_nothing_and_no_signal_is_raised() {
    let mut world = World::setup(pos(5, 5), pos(5, 5));
    world.handle_game_over(1);
    let before: Vec<Entity> = world.entities().clone();
    world.move_player(keys(true, false, false, true));
    assert_eq!(world.entities(), &before);
    assert_eq!(world.resolve_collisions(), 0);
    assert_eq!(world.entities(), &before);
}

#[test]
fn a_tick_moves_both_then_checks_collisions() {
    let mut world = World::setup(pos(3, 3), pos(5, 5));
    let ahead = world.spawn_food_at(pos(4, 3));
    let under = world.spawn_food_at(pos(5, 5));
    let raised = world.tick(keys(false, false, false, true), Direction::North);
    assert_eq!(raised, 0);
    assert_eq!(cell_of(&world, Kind::Player), Some(pos(4, 3)));
    assert_eq!(cell_of(&world, Kind::Enemy), Some(pos(5, 6)));
    assert_eq!(ids_of(&world, Kind::Food), vec![under]);
    assert!(!ids_of(&world, Kind::Food).contains(&ahead));
}

#[test]
fn a_tick_that_brings_them_together_ends_the_game() {
    let mut world = World::setup(pos(4, 5), pos(6, 5));
    world.spawn_food_at(pos(1, 1));
    let raised = world.tick(keys(false, false, false, true), Direction::West);
    assert_eq!(raised, 1);
    assert_eq!(world.count(Kind::Player), 0);
    assert_eq!(world.count(Kind::Food), 0);
    assert_eq!(cell_of(&world, Kind::Enemy), Some(pos(5, 5)));
}

#[test]
fn movers_that_swap_cells_do_not_collide() {
    let mut world = World::setup(pos(4, 5), pos(5, 5));
    let raised = world.tick(keys(false, false, false, true), Direction::West);
    assert_eq!(raised, 0);
    assert_eq!(cell_of(&world, Kind::Player), Some(pos(5, 5)));
    assert_eq!(cell_of(&world, Kind::Enemy), Some(pos(4, 5)));
}

#[test]
fn every_entity_stays_on_the_field_through_a_long_game() {
    let mut world = World::setup(pos(0, 0), pos(9, 9));
    let mut state: u32 = 12345;
    for round in 0..2000u32 {
        state = state.wrapping_mul(1664525).wrapping_add(1013904223);
        let bits = state >> 16;
        let pressed = keys(bits & 1 != 0, bits & 2 != 0, bits & 4 != 0, bits & 8 != 0);
        let dir = Direction::of_index((bits >> 4) & 3);
        if round % 7 == 0 {
            world.spawn_food_at(pos(((bits >> 6) % 10) as i32, ((bits >> 10) % 10) as i32));
        }
        world.tick(pressed, dir);
        for e in world.entities() {
            assert!(e.pos.in_field(), "{e:?} left the field in round {round}");
        }
        assert!(world.count(Kind::Player) <= 1);
        assert_eq!(world.count(Kind::Enemy), 1);
        assert_eq!(world.count(Kind::Wall), 36);
    }
}

#[test]
fn identifiers_grow_along_the_entities() {
    let mut world = World::setup(pos(2, 2), pos(7, 7));
    for k in 0..30 {
        world.spawn_food_at(pos(k % 10, (k * 3) % 10));
        world.tick(keys(k % 2 == 0, false, false, k % 3 == 0), Direction::of_index((k % 4) as u32));
    }
    let all = world.entities();
    for pair in all.windows(2) {
        assert!(pair[0].id < pair[1].id);
    }
}
