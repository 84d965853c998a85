use qr_symbol::bits::shift_in;
use qr_symbol::grid::SymbolGrid;
use qr_symbol::header::decode_header;
use qr_symbol::winding::{
    read_field, walk, winding_steps, TraversalBoundsError, WindingShape, WindingStep,
};

const UP_4: [(i64, i64); 4] = [(1, 1), (0, 1), (1, 0), (0, 0)];
const UP_8: [(i64, i64); 8] = [(1, 3), (0, 3), (1, 2), (0, 2), (1, 1), (0, 1), (1, 0), (0, 0)];
const DOWN_8: [(i64, i64); 8] = [(1, 0), (0, 0), (1, 1), (0, 1), (1, 2), (0, 2), (1, 3), (0, 3)];
const LEFT_8: [(i64, i64); 8] = [(3, 1), (2, 1), (3, 0), (2, 0), (1, 1), (0, 1), (1, 0), (0, 0)];
const LEFT_UP_8: [(i64, i64); 8] = [(3, 0), (2, 0), (3, 1), (2, 1), (1, 1), (0, 1), (1, 0), (0, 0)];

fn grid_with(n: usize, dark: &[(i64, i64)]) -> SymbolGrid {
    let rows: Vec<String> = (0..n as i64)
        .map(|y| (0..n as i64).map(|x| if dark.contains(&(x, y)) { 'B' } else { '.' }).collect())
        .collect();
    SymbolGrid::load(&rows).unwrap()
}

/// The coordinates that spell `value` when sampled at `anchor` along `offsets`.
fn spell(dark: &mut Vec<(i64, i64)>, anchor: (i64, i64), offsets: &[(i64, i64)], value: u32) {
    let n = offsets.len();
    for (i, off) in offsets.iter().enumerate() {
        if (value >> (n - 1 - i)) & 1 == 1 {
            dark.push((anchor.0 + off.0, anchor.1 + off.1));
        }
    }
}

fn header_grid(n: usize, encoding: u32, length: u32, text: &[u8; 12]) -> SymbolGrid {
    let path: [(i64, i64, &[(i64, i64)]); 12] = [
        (0, 0, &UP_8),
        (-2, -2, &LEFT_8),
        (0, 2, &DOWN_8),
        (0, 4, &DOWN_8),
        (-2, 4, &LEFT_UP_8),
        (0, -4, &UP_8),
        (0, -4, &UP_8),
        (-2, -2, &LEFT_8),
        (0, 2, &DOWN_8),
        (0, 4, &DOWN_8),
        (-2, 4, &LEFT_UP_8),
        (0, -4, &UP_8),
    ];
    let mut dark = Vec::new();
    let mut cursor = (n as i64 - 2, n as i64 - 2);
    spell(&mut dark, cursor, &UP_4, encoding);
    cursor.1 -= 4;
    spell(&mut dark, cursor, &UP_8, length);
    cursor.1 -= 4;
    for (k, (dx, dy, offsets)) in path.iter().enumerate() {
        cursor.0 += dx;
        cursor.1 += dy;
        spell(&mut dark, cursor, offsets, text[k] as u32);
    }
    grid_with(n, &dark)
}

#[test]
fn shapes_hold_their_offsets_in_order() {
    assert_eq!(WindingShape::Up4.offset_table(), vec![(1, 1), (0, 1), (1, 0), (0, 0)]);
    assert_eq!(
        WindingShape::Up8.offset_table(),
        vec![(1, 3), (0, 3), (1, 2), (0, 2), (1, 1), (0, 1), (1, 0), (0, 0)]
    );
    assert_eq!(
        WindingShape::Down8.offset_table(),
        vec![(1, 0), (0, 0), (1, 1), (0, 1), (1, 2), (0, 2), (1, 3), (0, 3)]
    );
    assert_eq!(
        WindingShape::Left8.offset_table(),
        vec![(3, 1), (2, 1), (3, 0), (2, 0), (1, 1), (0, 1), (1, 0), (0, 0)]
    );
    assert_eq!(
        WindingShape::LeftUp8.offset_table(),
        vec![(3, 0), (2, 0), (3, 1), (2, 1), (1, 1), (0, 1), (1, 0), (0, 0)]
    );
}

#[test]
fn winding_path_has_twelve_steps() {
    let path = winding_steps();
    let expected = [
        (0, 0, WindingShape::Up8),
        (-2, -2, WindingShape::Left8),
        (0, 2, WindingShape::Down8),
        (0, 4, WindingShape::Down8),
        (-2, 4, WindingShape::LeftUp8),
        (0, -4, WindingShape::Up8),
        (0, -4, WindingShape::Up8),
        (-2, -2, WindingShape::Left8),
        (0, 2, WindingShape::Down8),
        (0, 4, WindingShape::Down8),
        (-2, 4, WindingShape::LeftUp8),
        (0, -4, WindingShape::Up8),
    ];
    assert_eq!(path.len(), 12);
    for (step, (dx, dy, shape)) in path.iter().zip(expected.iter()) {
        assert_eq!(step.dx, *dx);
        assert_eq!(step.dy, *dy);
        assert_eq!(step.shape, *shape);
    }
}

#[test]
fn shift_in_doubles_and_adds() {
    assert_eq!(shift_in(0, 1), 1);
    assert_eq!(shift_in(0b100, 1), 0b1001);
    assert_eq!(shift_in(0b1001, 0), 0b10010);
    assert_eq!(shift_in(0x7fff_ffff, 1), 0xffff_ffff);
}

#[test]
fn first_offset_is_the_most_significant_bit() {
    // sampled in order: Dark, Light, Light, Dark
    let grid = grid_with(21, &[(1, 1), (0, 0)]);
    assert_eq!(read_field(&grid, (0, 0), WindingShape::Up4), Ok(0b1001));
    assert_eq!(read_field(&grid, (0, 0), WindingShape::Up4), Ok(9));
}

#[test]
fn each_offset_of_up_4_has_its_bit() {
    for (i, off) in UP_4.iter().enumerate() {
        let grid = grid_with(21, &[(5 + off.0, 9 + off.1)]);
        assert_eq!(read_field(&grid, (5, 9), WindingShape::Up4), Ok(8 >> i));
    }
}

#[test]
fn each_offset_of_the_long_shapes_has_its_bit() {
    let shapes: [(WindingShape, &[(i64, i64); 8]); 4] = [
        (WindingShape::Up8, &UP_8),
        (WindingShape::Down8, &DOWN_8),
        (WindingShape::Left8, &LEFT_8),
        (WindingShape::LeftUp8, &LEFT_UP_8),
    ];
    for (shape, offsets) in shapes {
        for (i, off) in offsets.iter().enumerate() {
            let grid = grid_with(25, &[(10 + off.0, 12 + off.1)]);
            assert_eq!(read_field(&grid, (10, 12), shape), Ok(0x80 >> i));
        }
    }
}

#[test]
fn a_dark_region_reads_as_all_ones() {
    let rows: Vec<String> = (0..21).map(|_| "B".repeat(21)).collect();
    let grid = SymbolGrid::load(&rows).unwrap();
    assert_eq!(read_field(&grid, (3, 3), WindingShape::Up4), Ok(15));
    assert_eq!(read_field(&grid, (3, 3), WindingShape::Down8), Ok(255));
    assert_eq!(read_field(&grid, (17, 19), WindingShape::Left8), Ok(255));
}

#[test]
fn reading_twice_gives_the_same_field() {
    let grid = grid_with(21, &[(4, 4), (5, 6), (4, 7), (5, 5)]);
    let first = read_field(&grid, (4, 4), WindingShape::Up8);
    let second = read_field(&grid, (4, 4), WindingShape::Up8);
    assert_eq!(first, second);
    // sampled in order: (5, 7), (4, 7), (5, 6), (4, 6), (5, 5), (4, 5), (5, 4), (4, 4)
    assert_eq!(first, Ok(0b0110_1001));
    let outside = read_field(&grid, (20, 4), WindingShape::Up8);
    assert_eq!(outside, read_field(&grid, (20, 4), WindingShape::Up8));
    assert_eq!(grid.module_at(4, 4), Some(qr_symbol::grid::Module::Dark));
}

#[test]
fn reading_outside_reports_the_first_coordinate_outside() {
    let grid = grid_with(21, &[]);
    assert_eq!(
        read_field(&grid, (20, 20), WindingShape::Up4),
        Err(TraversalBoundsError { x: 21, y: 21 })
    );
    assert_eq!(
        read_field(&grid, (-1, 0), WindingShape::Up4),
        Err(TraversalBoundsError { x: -1, y: 1 })
    );
    assert_eq!(
        read_field(&grid, (0, -1), WindingShape::Up4),
        Err(TraversalBoundsError { x: 1, y: -1 })
    );
    assert_eq!(
        read_field(&grid, (19, 18), WindingShape::Up8),
        Err(TraversalBoundsError { x: 20, y: 21 })
    );
    assert_eq!(
        read_field(&grid, (18, 0), WindingShape::Left8),
        Err(TraversalBoundsError { x: 21, y: 1 })
    );
    assert_eq!(
        read_field(&grid, (19, 20), WindingShape::Down8),
        Err(TraversalBoundsError { x: 20, y: 21 })
    );
}

#[test]
fn reading_at_the_last_anchor_inside_succeeds() {
    let grid = grid_with(21, &[(20, 20)]);
    assert_eq!(read_field(&grid, (19, 19), WindingShape::Up4), Ok(8));
    assert_eq!(read_field(&grid, (19, 17), WindingShape::Up8), Ok(0x80));
    assert_eq!(read_field(&grid, (17, 19), WindingShape::Left8), Ok(0x80));
    assert_eq!(read_field(&grid, (0, 0), WindingShape::LeftUp8), Ok(0));
}

#[test]
fn reading_far_outside_does_not_wrap() {
    let grid = grid_with(21, &[]);
    assert_eq!(
        read_field(&grid, (i32::MAX, i32::MAX), WindingShape::Up4),
        Err(TraversalBoundsError { x: i32::MAX as i64 + 1, y: i32::MAX as i64 + 1 })
    );
    assert_eq!(
        read_field(&grid, (i32::MIN, 3), WindingShape::Left8),
        Err(TraversalBoundsError { x: i32::MIN as i64 + 3, y: 4 })
    );
}

#[test]
fn walk_displaces_before_it_reads() {
    let grid = grid_with(21, &[(7, 7), (3, 12)]);
    let path = vec![
        WindingStep { dx: 2, dy: 3, shape: WindingShape::Up4 },
        WindingStep { dx: -4, dy: 4, shape: WindingShape::Down8 },
    ];
    // the first field is read at (6, 6), the second at (2, 10)
    assert_eq!(walk(&grid, (4, 3), &path), Ok(vec![8, 0b0000_1000]));
    assert_eq!(walk(&grid, (4, 3), &Vec::new()), Ok(Vec::new()));
}

#[test]
fn walk_that_leaves_the_grid_fails() {
    let grid = grid_with(21, &[]);
    let path = vec![
        WindingStep { dx: 0, dy: 0, shape: WindingShape::Up8 },
        WindingStep { dx: 0, dy: -4, shape: WindingShape::Up8 },
        WindingStep { dx: 0, dy: -4, shape: WindingShape::Up8 },
    ];
    assert_eq!(walk(&grid, (0, 4), &path), Err(TraversalBoundsError { x: 1, y: -1 }));
    assert_eq!(walk(&grid, (0, 8), &path), Ok(vec![0, 0, 0]));
    let path = vec![WindingStep { dx: i32::MAX, dy: i32::MIN, shape: WindingShape::Up4 }];
    assert_eq!(
        walk(&grid, (i32::MAX, i32::MIN), &path),
        Err(TraversalBoundsError { x: 2 * (i32::MAX as i64) + 1, y: 2 * (i32::MIN as i64) + 1 })
    );
    let path = winding_steps();
    assert_eq!(walk(&grid, (7, 11), &path), Err(TraversalBoundsError { x: -1, y: 20 }));
}

#[test]
fn header_of_a_light_grid_is_zero() {
    let grid = grid_with(21, &[]);
    let header = decode_header(&grid).unwrap();
    assert_eq!(header.encoding_indicator, 0);
    assert_eq!(header.length, 0);
    assert_eq!(header.header_text, "\0".repeat(12));
}

#[test]
fn header_of_a_dark_grid_is_all_ones() {
    let rows: Vec<String> = (0..29).map(|_| "B".repeat(29)).collect();
    let grid = SymbolGrid::load(&rows).unwrap();
    let header = decode_header(&grid).unwrap();
    assert_eq!(header.encoding_indicator, 15);
    assert_eq!(header.length, 255);
    assert_eq!(header.header_text, "\u{ff}".repeat(12));
    assert_eq!(header.header_text.chars().count(), 12);
}

#[test]
fn header_fields_are_read_where_the_path_leads() {
    // bottom right module: the most significant bit of the indicator
    let header = decode_header(&grid_with(21, &[(20, 20)])).unwrap();
    assert_eq!((header.encoding_indicator, header.length), (8, 0));
    // the anchor of the length field: its least significant bit
    let header = decode_header(&grid_with(21, &[(19, 15)])).unwrap();
    assert_eq!((header.encoding_indicator, header.length), (0, 1));
    assert_eq!(header.header_text, "\0".repeat(12));
    // the anchor of the first character
    let header = decode_header(&grid_with(21, &[(19, 11)])).unwrap();
    assert_eq!(header.header_text, format!("\u{1}{}", "\0".repeat(11)));
    // the second character is read leftwards from (17, 9)
    let header = decode_header(&grid_with(21, &[(20, 10)])).unwrap();
    assert_eq!(header.header_text, format!("\0\u{80}{}", "\0".repeat(10)));
    // the last character is read upwards from (11, 15)
    let header = decode_header(&grid_with(21, &[(12, 18)])).unwrap();
    assert_eq!(header.header_text, format!("{}\u{80}", "\0".repeat(11)));
}

#[test]
fn header_text_is_spelled_along_the_path() {
    for n in [21usize, 25, 41, 177] {
        let grid = header_grid(n, 0b0100, 12, b"Hello, QR 1!");
        let header = decode_header(&grid).unwrap();
        assert_eq!(header.encoding_indicator, 4);
        assert_eq!(header.length, 12);
        assert_eq!(header.header_text, "Hello, QR 1!");
    }
}

#[test]
fn header_character_above_ascii_is_one_character() {
    let text = [0xe9, b'a', 0xff, 0x80, 0, 1, 2, 3, 0x7f, b'z', b'B', b'.'];
    let header = decode_header(&header_grid(21, 0b1111, 0xa5, &text)).unwrap();
    assert_eq!(header.encoding_indicator, 15);
    assert_eq!(header.length, 0xa5);
    let expected: String = text.iter().map(|&b| b as char).collect();
    assert_eq!(header.header_text, expected);
}
