use asteroid_game::display::{
    map_from_str, parse_str_to_element_array, Color, Direction, DisplayControllerError, Element,
    Layout, Point, DEFAULT_BACKGROUND, DEFAULT_FOREGROUND,
};

const WIDTH: i64 = 30;
const HEIGHT: i64 = 20;

const DIMENSIONS: &Point = &Point { width: WIDTH, height: HEIGHT };

const LINE_ELEMENT: Element = Element {
    value: 'x',
    background: DEFAULT_BACKGROUND,
    foreground: DEFAULT_FOREGROUND,
};

#[test]
fn layout_it_creates_correct_dimensions() {
    let map = Layout::new(DIMENSIONS, None);

    // Ensure the correct amount of rows
    assert_eq!(map.map.len(), HEIGHT as usize);

    // Ensure correct amount of items in each row
    for row in map.map.iter() {
        assert_eq!(row.len(), WIDTH as usize);
    }
}

#[test]
fn layout_it_draws_a_horizontal_line() {
    let mut map = Layout::new(DIMENSIONS, None);

    map.draw_line(LINE_ELEMENT, WIDTH, &Point::default(), Direction::Horizontal)
        .unwrap();

    for existing_element in map.get_row(0).unwrap() {
        assert_eq!(existing_element, &Some(LINE_ELEMENT));
    }
}

#[test]
fn layout_it_draws_a_vertical_line() {
    let mut map = Layout::new(DIMENSIONS, None);

    let column_number = 5;

    map.draw_line(
        LINE_ELEMENT,
        HEIGHT,
        &Point {
            width: column_number,
            height: 0,
        },
        Direction::Vertical,
    )
    .unwrap();

    for existing_element in map.get_column(column_number).unwrap() {
        assert_eq!(existing_element, &Some(LINE_ELEMENT));
    }
}

#[test]
fn layout_it_draws_a_rect() {
    let mut map = Layout::new(&Point::new(WIDTH, HEIGHT), None);

    map.draw_rect(&Default::default(), DIMENSIONS, LINE_ELEMENT)
        .unwrap();

    let top_row = map.get_row(0).unwrap();

    assert_eq!(top_row, &vec![Some(LINE_ELEMENT); WIDTH as usize]);

    // Rows start at 0, so subtract 1
    let bottom_row = map.get_row(DIMENSIONS.height - 1).unwrap();

    assert_eq!(bottom_row, &vec![Some(LINE_ELEMENT); WIDTH as usize]);

    let left_column = map.get_column(0).unwrap();

    assert_eq!(left_column, vec![&Some(LINE_ELEMENT); HEIGHT as usize]);

    // Columns also start at 0, so subtract 1
    let right_column = map.get_column(WIDTH - 1).unwrap();

    assert_eq!(right_column, vec![&Some(LINE_ELEMENT); HEIGHT as usize]);
}

#[test]
fn a_rect_leaves_its_inside_alone() {
    let mut map = Layout::new(DIMENSIONS, None);

    map.draw_rect(&Point::new(2, 3), &Point::new(5, 4), LINE_ELEMENT)
        .unwrap();

    for row in 0..HEIGHT {
        for column in 0..WIDTH {
            let inside_columns = (2..7).contains(&column);
            let inside_rows = (3..7).contains(&row);
            let on_outline = inside_columns
                && inside_rows
                && (column == 2 || column == 6 || row == 3 || row == 6);
            let expected = if on_outline { Some(LINE_ELEMENT) } else { None };

            assert_eq!(
                map.get_element(&Point::new(column, row)).unwrap(),
                &expected
            );
        }
    }
}

#[test]
fn a_line_that_leaves_the_grid_fails_and_keeps_what_it_drew() {
    let mut map = Layout::new(&Point::new(4, 2), None);

    let result = map.draw_line(LINE_ELEMENT, 6, &Point::new(2, 1), Direction::Horizontal);

    assert!(matches!(
        result,
        Err(DisplayControllerError::PositionOutOfRange)
    ));
    assert_eq!(
        map.get_row(1).unwrap(),
        &vec![None, None, Some(LINE_ELEMENT), Some(LINE_ELEMENT)]
    );
    assert_eq!(map.get_row(0).unwrap(), &vec![None; 4]);
}

#[test]
fn a_line_without_length_draws_nothing() {
    let mut map = Layout::new(&Point::new(3, 3), None);

    map.draw_line(LINE_ELEMENT, 0, &Point::new(50, 50), Direction::Vertical)
        .unwrap();
    map.draw_line(LINE_ELEMENT, -4, &Point::new(1, 1), Direction::Horizontal)
        .unwrap();

    for row in map.map.iter() {
        assert_eq!(row, &vec![None; 3]);
    }
}

#[test]
fn draw_item_rejects_positions_outside_the_layout() {
    let mut map = Layout::new(&Point::new(3, 2), None);

    assert!(map.draw_item(LINE_ELEMENT, &Point::new(2, 1)).is_ok());
    assert!(matches!(
        map.draw_item(LINE_ELEMENT, &Point::new(3, 1)),
        Err(DisplayControllerError::PositionOutOfRange)
    ));
    assert!(matches!(
        map.draw_item(LINE_ELEMENT, &Point::new(0, 2)),
        Err(DisplayControllerError::PositionOutOfRange)
    ));
    assert!(matches!(
        map.draw_item(LINE_ELEMENT, &Point::new(-1, 0)),
        Err(DisplayControllerError::PositionOutOfRange)
    ));
    assert_eq!(
        map.get_element(&Point::new(2, 1)).unwrap(),
        &Some(LINE_ELEMENT)
    );
}

#[test]
fn accessors_reject_what_the_grid_lacks() {
    let mut map = Layout::new(&Point::new(3, 2), Some(LINE_ELEMENT));

    assert!(matches!(
        map.get_row(2),
        Err(DisplayControllerError::PositionOutOfRange)
    ));
    assert!(matches!(
        map.get_row(-1),
        Err(DisplayControllerError::PositionOutOfRange)
    ));
    assert!(matches!(
        map.get_column(3),
        Err(DisplayControllerError::PositionOutOfRange)
    ));
    assert!(matches!(
        map.get_element(&Point::new(3, 0)),
        Err(DisplayControllerError::PositionOutOfRange)
    ));
    assert!(matches!(
        map.get_element_mut(&Point::new(0, 2)),
        Err(DisplayControllerError::PositionOutOfRange)
    ));
    assert!(matches!(
        map.get_row_mut(7),
        Err(DisplayControllerError::PositionOutOfRange)
    ));

    *map.get_element_mut(&Point::new(1, 1)).unwrap() = None;
    map.get_row_mut(0).unwrap()[2] = None;

    assert_eq!(
        map.map,
        vec![
            vec![Some(LINE_ELEMENT), Some(LINE_ELEMENT), None],
            vec![Some(LINE_ELEMENT), None, Some(LINE_ELEMENT)],
        ]
    );
}

#[test]
fn reset_fills_the_layout_with_its_default_element() {
    let mut map = Layout::new(&Point::new(2, 2), Some(Element::default()));

    map.draw_item(LINE_ELEMENT, &Point::new(1, 0)).unwrap();
    map.reset();

    assert_eq!(map.map, vec![vec![Some(Element::default()); 2]; 2]);
    assert_eq!(map.dimensions, Point::new(2, 2));
}

#[test]
fn from_map_takes_the_longest_row_as_its_width() {
    let layout = Layout::from_map(
        vec![vec![None], vec![Some(LINE_ELEMENT), None, None], vec![]],
        None,
    );

    assert_eq!(layout.dimensions, Point::new(3, 3));
    assert_eq!(layout.map.len(), 3);
    assert_eq!(layout.default_element, None);
}

#[test]
fn text_becomes_one_cell_for_each_character() {
    let cells = parse_str_to_element_array("a b", None, Some(Color::Red));

    assert_eq!(
        cells,
        vec![
            Some(Element::new('a', DEFAULT_BACKGROUND, Color::Red)),
            None,
            Some(Element::new('b', DEFAULT_BACKGROUND, Color::Red)),
        ]
    );
}

#[test]
fn text_beyond_ascii_is_padded_to_its_length_in_bytes() {
    let cells = parse_str_to_element_array("\u{2764}x", Some(Color::Green), None);

    assert_eq!(
        cells,
        vec![
            Some(Element::new('\u{2764}', Color::Green, DEFAULT_FOREGROUND)),
            Some(Element::new('x', Color::Green, DEFAULT_FOREGROUND)),
            None,
            None,
        ]
    );
}

#[test]
fn a_drawing_in_text_becomes_one_row_for_each_line() {
    let cell = |value: char| Some(Element::new(value, DEFAULT_BACKGROUND, Color::Yellow));

    assert_eq!(
        map_from_str("ab\n c\n", Color::Yellow),
        vec![vec![cell('a'), cell('b')], vec![None, cell('c')], vec![]]
    );
    assert_eq!(map_from_str("", Color::Yellow), vec![vec![]]);

    let layout = Layout::from_ascii("xx xx\n  x\nxx xx", Color::Black);

    assert_eq!(layout.dimensions, Point::new(5, 3));
    assert_eq!(layout.map[1].len(), 3);
}

#[test]
fn a_picture_becomes_one_cell_for_each_pixel() {
    let raw_rgb: Vec<u8> = (0..18).collect();

    let layout = Layout::from_rgb(3, 2, &raw_rgb);

    assert_eq!(layout.dimensions, Point::new(3, 2));
    assert_eq!(
        layout.map[1][2],
        Some(Element::new(
            ' ',
            DEFAULT_BACKGROUND,
            Color::Rgb {
                r: 15,
                g: 16,
                b: 17
            }
        ))
    );
    assert_eq!(
        layout.map[0][1],
        Some(Element::new(
            ' ',
            DEFAULT_BACKGROUND,
            Color::Rgb { r: 3, g: 4, b: 5 }
        ))
    );
}

#[test]
fn draw_element_array_passes_over_gaps_and_stops_at_the_edge() {
    let mut map = Layout::new(&Point::new(4, 1), None);

    map.draw_element_array(vec![Some(LINE_ELEMENT), None, Some(LINE_ELEMENT)], &Point::new(0, 0))
        .unwrap();

    assert_eq!(
        map.map[0],
        vec![Some(LINE_ELEMENT), None, Some(LINE_ELEMENT), None]
    );

    let result = map.draw_element_array(
        vec![None, Some(LINE_ELEMENT), Some(LINE_ELEMENT), None],
        &Point::new(2, 0),
    );

    assert!(matches!(
        result,
        Err(DisplayControllerError::PositionOutOfRange)
    ));
    assert_eq!(
        map.map[0],
        vec![Some(LINE_ELEMENT), None, Some(LINE_ELEMENT), Some(LINE_ELEMENT)]
    );

    // a gap beyond the edge is no failure
    map.draw_element_array(vec![None, None, None], &Point::new(3, 0))
        .unwrap();
}

#[test]
fn draw_str_leaves_what_blanks_cover() {
    let mut map = Layout::new(&Point::new(5, 1), Some(LINE_ELEMENT));

    map.draw_str("a c", &Point::new(1, 0), None, None).unwrap();

    assert_eq!(
        map.map[0],
        vec![
            Some(LINE_ELEMENT),
            Some(Element::new_default_colors('a')),
            Some(LINE_ELEMENT),
            Some(Element::new_default_colors('c')),
            Some(LINE_ELEMENT),
        ]
    );
}

#[test]
fn draw_map_skips_hidden_cells_and_tells_whether_it_drew() {
    let shape = vec![
        vec![Some(LINE_ELEMENT), Some(LINE_ELEMENT)],
        vec![None, Some(LINE_ELEMENT)],
    ];
    let mut map = Layout::new(&Point::new(3, 3), None);

    // half outside at the top-left corner
    assert!(matches!(
        map.draw_map(&shape, Point::new(-1, -1), &Point::default()),
        Ok(true)
    ));
    assert_eq!(
        map.map,
        vec![
            vec![Some(LINE_ELEMENT), None, None],
            vec![None, None, None],
            vec![None, None, None],
        ]
    );

    // wholly outside
    assert!(matches!(
        map.draw_map(&shape, Point::new(3, 0), &Point::default()),
        Ok(false)
    ));
    assert!(matches!(
        map.draw_map(&shape, Point::new(-5, -5), &Point::default()),
        Ok(false)
    ));

    // above the offset nothing is drawn
    assert!(matches!(
        map.draw_map(&shape, Point::new(1, 1), &Point::new(0, 2)),
        Ok(true)
    ));
    assert_eq!(
        map.map,
        vec![
            vec![Some(LINE_ELEMENT), None, None],
            vec![None, None, None],
            vec![None, None, Some(LINE_ELEMENT)],
        ]
    );
}

#[test]
fn draw_map_stops_at_the_first_cell_that_a_ragged_grid_lacks() {
    let shape = vec![vec![Some(LINE_ELEMENT); 3]; 2];
    // three columns by its longest row, but the second row has one cell only
    let mut map = Layout::from_map(vec![vec![None; 3], vec![None], vec![None; 3]], None);

    assert_eq!(map.dimensions, Point::new(3, 3));

    let result = map.draw_map(&shape, Point::new(0, 0), &Point::default());

    assert!(matches!(
        result,
        Err(DisplayControllerError::PositionOutOfRange)
    ));
    assert_eq!(
        map.map,
        vec![
            vec![Some(LINE_ELEMENT); 3],
            vec![Some(LINE_ELEMENT)],
            vec![None; 3],
        ]
    );

    // where no cell is missing the ragged grid is drawn on like any other
    assert!(matches!(
        map.draw_map(&shape, Point::new(0, 2), &Point::default()),
        Ok(true)
    ));
    assert_eq!(map.map[2], vec![Some(LINE_ELEMENT); 3]);
}
