use asteroid_game::display::{
    create_map, CellMap, Direction, Element, Layout, Point, DEFAULT_BACKGROUND, DEFAULT_FOREGROUND,
};

const WIDTH: i64 = 30;
const HEIGHT: i64 = 20;

const DIMENSIONS: &Point = &Point {
    width: WIDTH,
    height: HEIGHT,
};

const LINE_ELEMENT: Element = Element {
    value: 'x',
    background: DEFAULT_BACKGROUND,
    foreground: DEFAULT_FOREGROUND,
};

#[test]
fn map_it_creates_correct_dimensions() {
    let map: CellMap = create_map(DIMENSIONS, None);

    // Ensure the correct amount of rows
    assert_eq!(map.len(), HEIGHT as usize);

    // Ensure correct amount of items in each row
    for row in map.iter() {
        assert_eq!(row.len(), WIDTH as usize);
    }
}

#[test]
fn map_it_draws_a_horizontal_line() {
    let mut map = Layout::from_map(create_map(DIMENSIONS, None), None);

    map.draw_line(
        LINE_ELEMENT,
        WIDTH,
        &Point::default(),
        Direction::Horizontal,
    )
    .unwrap();

    for existing_element in map.get_row(0).unwrap() {
        assert_eq!(existing_element, &Some(LINE_ELEMENT));
    }
}

#[test]
fn map_it_draws_a_vertical_line() {
    let mut map = Layout::from_map(create_map(DIMENSIONS, None), None);

    let column_number = 5;

    map.draw_line(
        LINE_ELEMENT,
        HEIGHT,
        &Point {
            width: column_number,
            height: 0,
        },
        Direction::Vertical,
    )
    .unwrap();

    for existing_element in map.get_column(column_number).unwrap() {
        assert_eq!(existing_element, &Some(LINE_ELEMENT));
    }
}

#[test]
fn map_it_draws_a_rect() {
    let mut map = Layout::from_map(create_map(&Point::new(WIDTH, HEIGHT), None), None);

    map.draw_rect(&Default::default(), DIMENSIONS, LINE_ELEMENT)
        .unwrap();

    let top_row = map.get_row(0).unwrap();

    assert_eq!(top_row, &vec![Some(LINE_ELEMENT); WIDTH as usize]);

    // Rows start at 0, so subtract 1
    let bottom_row = map.get_row(DIMENSIONS.height - 1).unwrap();

    assert_eq!(bottom_row, &vec![Some(LINE_ELEMENT); WIDTH as usize]);

    let left_column = map.get_column(0).unwrap();

    assert_eq!(left_column, vec![&Some(LINE_ELEMENT); HEIGHT as usize]);

    // Columns also start at 0, so subtract 1
    let right_column = map.get_column(WIDTH - 1).unwrap();

    assert_eq!(right_column, vec![&Some(LINE_ELEMENT); HEIGHT as usize]);
}
