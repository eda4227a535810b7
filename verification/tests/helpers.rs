use asteroid_game::components::Spawnable;
use asteroid_game::display::{collapse_twoDVec, create_map, Element, Point};
use asteroid_game::helpers::{
    get_is_position_outside_dimensions, get_is_position_outside_dimensions_with_offset,
};

const DIMENSIONS: Point = Point {
    width: 4,
    height: 3,
};

#[test]
fn positions_inside_the_dimensions_are_not_outside() {
    for (position, outside) in [
        (Point::new(0, 0), false),
        (Point::new(3, 2), false),
        (Point::new(4, 2), true),
        (Point::new(3, 3), true),
        (Point::new(-1, 0), true),
        (Point::new(0, -1), true),
        (Point::new(i64::MAX, i64::MIN), true),
    ] {
        assert_eq!(
            get_is_position_outside_dimensions(&DIMENSIONS, &position),
            outside,
            "{position:?}"
        );
    }

    assert!(get_is_position_outside_dimensions(
        &Point::new(0, 0),
        &Point::new(0, 0)
    ));
}

#[test]
fn positions_before_the_offset_are_outside() {
    let offset = Point::new(1, 2);

    for (position, outside) in [
        (Point::new(1, 2), false),
        (Point::new(3, 2), false),
        (Point::new(0, 2), true),
        (Point::new(1, 1), true),
        (Point::new(4, 2), true),
        (Point::new(1, 3), true),
    ] {
        assert_eq!(
            get_is_position_outside_dimensions_with_offset(&DIMENSIONS, &position, &offset),
            outside,
            "{position:?}"
        );
    }
}

#[test]
fn rows_are_joined_first_row_first() {
    assert_eq!(
        collapse_twoDVec(vec![vec![1, 2], vec![], vec![3], vec![4, 5, 6]]),
        vec![1, 2, 3, 4, 5, 6]
    );
    assert_eq!(collapse_twoDVec::<u8>(vec![]), Vec::<u8>::new());
    assert_eq!(
        collapse_twoDVec(vec![vec![String::from("a")], vec![String::from("b")]]),
        vec![String::from("a"), String::from("b")]
    );
}

#[test]
fn a_new_map_is_filled_with_its_default() {
    assert_eq!(
        create_map(&Point::new(2, 3), Some(7u8)),
        vec![vec![Some(7u8); 2]; 3]
    );
    assert_eq!(
        create_map::<Element>(&Point::new(3, 1), None),
        vec![vec![None; 3]]
    );
    assert_eq!(
        create_map::<u8>(&Point::new(3, 0), None),
        Vec::<Vec<Option<u8>>>::new()
    );
    assert_eq!(
        create_map::<u8>(&Point::new(0, 2), None),
        vec![Vec::<Option<u8>>::new(); 2]
    );
}

#[test]
fn spawned_entities_are_kept_in_order() {
    let mut spawnable: Spawnable<u8> = Default::default();

    assert!(spawnable.entities.is_empty());

    spawnable.spawn(4).spawn(2);

    assert_eq!(spawnable.entities, vec![4, 2]);
}
