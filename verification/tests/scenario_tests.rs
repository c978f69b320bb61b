use avoider::entity::Kind;
use avoider::grid::Position;
use avoider::motion::{Direction, Keys};
use avoider::world::World;

fn at(world: &World, kind: Kind) -> Option<Position> {
    world.find(kind).map(|e| e.pos)
}

#[test]
fn enemy_sent_east_then_north_reaches_six_six() {
    let mut world = World::setup(Position::new(3, 3), Position::new(5, 5));
    let first = world.tick(Keys::none(), Direction::East);
    assert_eq!(first, 0);
    assert_eq!(at(&world, Kind::Enemy), Some(Position::new(6, 5)));
    let second = world.tick(Keys::none(), Direction::North);
    assert_eq!(second, 0);
    assert_eq!(at(&world, Kind::Enemy), Some(Position::new(6, 6)));
    assert_eq!(at(&world, Kind::Player), Some(Position::new(3, 3)));
    assert_eq!(world.count(Kind::Player), 1);
}

#[test]
fn enemy_on_its_way_eats_unrelated_food() {
    let mut world = World::setup(Position::new(3, 3), Position::new(5, 5));
    let on_the_way = world.spawn_food_at(Position::new(6, 5));
    let elsewhere = world.spawn_food_at(Position::new(1, 8));
    world.tick(Keys::none(), Direction::East);
    let left: Vec<u64> =
        world.entities().iter().filter(|e| e.kind == Kind::Food).map(|e| e.id).collect();
    assert_eq!(left, vec![elsewhere]);
    assert!(!left.contains(&on_the_way));
    world.tick(Keys::none(), Direction::North);
    assert_eq!(at(&world, Kind::Enemy), Some(Position::new(6, 6)));
}

#[test]
fn enemy_stepping_onto_the_player_ends_the_game() {
    let mut world = World::setup(Position::new(5, 5), Position::new(4, 5));
    world.spawn_food_at(Position::new(2, 2));
    world.move_player(Keys::none());
    world.move_enemy(Direction::East);
    assert_eq!(at(&world, Kind::Enemy), Some(Position::new(5, 5)));
    let raised = world.resolve_collisions();
    assert_eq!(raised, 1);
    assert_eq!(world.count(Kind::Player), 1);
    world.handle_game_over(raised);
    assert_eq!(world.count(Kind::Player), 0);
    assert_eq!(world.count(Kind::Food), 0);
}

#[test]
fn the_tick_after_a_collision_finds_no_player_and_no_food() {
    let mut world = World::setup(Position::new(5, 5), Position::new(4, 5));
    world.spawn_food_at(Position::new(2, 2));
    world.spawn_food_at(Position::new(7, 7));
    let raised = world.tick(Keys::none(), Direction::East);
    assert_eq!(raised, 1);
    assert_eq!(world.count(Kind::Player), 0);
    assert_eq!(world.count(Kind::Food), 0);
    let next = world.tick(Keys { up: true, down: false, left: false, right: false }, Direction::East);
    assert_eq!(next, 0);
    assert_eq!(world.count(Kind::Player), 0);
    assert_eq!(world.count(Kind::Food), 0);
    assert_eq!(at(&world, Kind::Enemy), Some(Position::new(6, 5)));
}

#[test]
fn spawner_and_enemy_go_on_after_game_over() {
    let mut world = World::setup(Position::new(5, 5), Position::new(4, 5));
    assert_eq!(world.tick(Keys::none(), Direction::East), 1);
    let late = world.spawn_food_at(Position::new(6, 5));
    assert_eq!(world.count(Kind::Food), 1);
    assert_eq!(world.tick(Keys::none(), Direction::South), 0);
    assert_eq!(at(&world, Kind::Enemy), Some(Position::new(5, 4)));
    assert_eq!(world.count(Kind::Food), 1);
    assert_eq!(world.tick(Keys::none(), Direction::North), 0);
    assert_eq!(world.tick(Keys::none(), Direction::East), 0);
    assert_eq!(at(&world, Kind::Enemy), Some(Position::new(6, 5)));
    assert_eq!(world.count(Kind::Food), 0);
    assert!(world.entities().iter().all(|e| e.id != late));
    assert_eq!(world.count(Kind::Player), 0);
}
