use avoider::grid::Offset;
use avoider::motion::{Direction, Keys};

fn keys(up: bool, down: bool, left: bool, right: bool) -> Keys {
    Keys { up, down, left, right }
}

#[test]
fn no_key_no_motion() {
    assert_eq!(Keys::none(), keys(false, false, false, false));
    assert_eq!(Keys::none().offset(), Offset { dx: 0, dy: 0 });
}

#[test]
fn each_key_moves_one_cell() {
    assert_eq!(keys(true, false, false, false).offset(), Offset { dx: 0, dy: 1 });
    assert_eq!(keys(false, true, false, false).offset(), Offset { dx: 0, dy: -1 });
    assert_eq!(keys(false, false, true, false).offset(), Offset { dx: -1, dy: 0 });
    assert_eq!(keys(false, false, false, true).offset(), Offset { dx: 1, dy: 0 });
}

#[test]
fn keys_on_two_axes_compound() {
    assert_eq!(keys(true, false, false, true).offset(), Offset { dx: 1, dy: 1 });
    assert_eq!(keys(false, true, true, false).offset(), Offset { dx: -1, dy: -1 });
    assert_eq!(keys(true, false, true, false).offset(), Offset { dx: -1, dy: 1 });
}

#[test]
fn opposite_keys_cancel() {
    assert_eq!(keys(true, true, false, false).offset(), Offset { dx: 0, dy: 0 });
    assert_eq!(keys(false, false, true, true).offset(), Offset { dx: 0, dy: 0 });
    assert_eq!(keys(true, true, true, true).offset(), Offset { dx: 0, dy: 0 });
    assert_eq!(keys(true, true, false, true).offset(), Offset { dx: 1, dy: 0 });
}

#[test]
fn directions_are_indexed_west_east_north_south() {
    assert_eq!(Direction::from_index(0), Some(Direction::West));
    assert_eq!(Direction::from_index(1), Some(Direction::East));
    assert_eq!(Direction::from_index(2), Some(Direction::North));
    assert_eq!(Direction::from_index(3), Some(Direction::South));
    assert_eq!(Direction::of_index(0), Direction::West);
    assert_eq!(Direction::of_index(3), Direction::South);
}

#[test]
fn an_index_beyond_three_is_no_direction() {
    assert_eq!(Direction::from_index(4), None);
    assert_eq!(Direction::from_index(5), None);
    assert_eq!(Direction::from_index(u32::MAX), None);
}

#[test]
fn index_undoes_from_index() {
    for i in 0..4u32 {
        let dir = Direction::from_index(i).unwrap();
        assert_eq!(dir.index(), i);
    }
}

#[test]
fn each_direction_is_one_cell_on_one_axis() {
    assert_eq!(Direction::West.offset(), Offset { dx: -1, dy: 0 });
    assert_eq!(Direction::East.offset(), Offset { dx: 1, dy: 0 });
    assert_eq!(Direction::North.offset(), Offset { dx: 0, dy: 1 });
    assert_eq!(Direction::South.offset(), Offset { dx: 0, dy: -1 });
}
