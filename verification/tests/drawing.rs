use text_3d_graphics::geometry::{ivec2, uvec2, IVec2};
use text_3d_graphics::printing::{CharBuffer, RgbColor};

const WHITE: RgbColor = RgbColor(255, 255, 255);
const RED: RgbColor = RgbColor(255, 0, 0);

fn blank(width: u32, height: u32) -> CharBuffer {
    CharBuffer::new(uvec2(width, height), ' ', WHITE).unwrap()
}

fn mark(_: IVec2, _: &CharBuffer) -> (Option<char>, Option<RgbColor>) {
    (Some('#'), Some(RED))
}

/// Counts how often each cell is shaded: ' ' becomes '1', '1' becomes '2'.
fn count(pos: IVec2, buffer: &CharBuffer) -> (Option<char>, Option<RgbColor>) {
    let seen = buffer.get_char(uvec2(pos.x as u32, pos.y as u32)).unwrap().0;
    let next = match seen {
        ' ' => '1',
        '1' => '2',
        _ => '*',
    };
    (Some(next), None)
}

/// The rows of the buffer as strings of its characters.
fn picture(buffer: &CharBuffer) -> Vec<String> {
    let dimensions = *buffer.dimensions();
    (0..dimensions.y)
        .map(|y| (0..dimensions.x).map(|x| buffer.get_char(uvec2(x, y)).unwrap().0).collect())
        .collect()
}

fn marked(buffer: &CharBuffer) -> Vec<(u32, u32)> {
    let dimensions = *buffer.dimensions();
    let mut cells = Vec::new();
    for y in 0..dimensions.y {
        for x in 0..dimensions.x {
            if buffer.get_char(uvec2(x, y)).unwrap() == ('#', RED) {
                cells.push((x, y));
            } else {
                assert_eq!(buffer.get_char(uvec2(x, y)).unwrap(), (' ', WHITE));
            }
        }
    }
    cells
}

#[test]
fn vertical_line_of_sixteen_rows() {
    for height in [16u32, 17, 40] {
        let mut buffer = blank(3, height);
        assert_eq!(buffer.draw_line(ivec2(0, 0), ivec2(0, 15), mark), Ok(()));
        let expected: Vec<(u32, u32)> = (0..16).map(|y| (0, y)).collect();
        assert_eq!(marked(&buffer), expected);
    }
    let mut buffer = blank(3, 16);
    assert_eq!(buffer.draw_line(ivec2(0, 15), ivec2(0, 0), count), Ok(()));
    for y in 0..16 {
        assert_eq!(buffer.get_char(uvec2(0, y)).unwrap().0, '1');
    }
}

#[test]
fn vertical_line_is_clipped_to_the_rows_of_the_buffer() {
    let mut buffer = blank(3, 4);
    assert_eq!(buffer.draw_line(ivec2(1, -5), ivec2(1, 100), count), Ok(()));
    assert_eq!(picture(&buffer), vec![" 1 ", " 1 ", " 1 ", " 1 "]);
    let mut above = blank(3, 4);
    assert_eq!(above.draw_line(ivec2(1, -5), ivec2(1, -1), mark), Ok(()));
    assert_eq!(marked(&above), vec![]);
    let mut below = blank(3, 4);
    assert_eq!(below.draw_line(ivec2(1, 4), ivec2(1, 9), mark), Ok(()));
    assert_eq!(marked(&below), vec![]);
}

#[test]
fn vertical_line_beside_the_buffer_is_skipped() {
    let mut buffer = CharBuffer::new(uvec2(5, 5), '+', WHITE).unwrap();
    assert_eq!(buffer.draw_line(ivec2(-1, 0), ivec2(-1, 3), mark), Ok(()));
    assert_eq!(buffer.draw_line(ivec2(5, 0), ivec2(5, 3), mark), Ok(()));
    assert_eq!(buffer.draw_line(ivec2(5, 3), ivec2(5, 1), mark), Ok(()));
    assert_eq!(buffer.draw_line(ivec2(i32::MIN, -9), ivec2(i32::MIN, 9), mark), Ok(()));
    assert_eq!(buffer.draw_line(ivec2(i32::MAX, i32::MIN), ivec2(i32::MAX, i32::MAX), mark), Ok(()));
    for y in 0..5 {
        for x in 0..5 {
            assert_eq!(buffer.get_char(uvec2(x, y)), Some(('+', WHITE)));
        }
    }
    // Beside the buffer and beyond its rows as well.
    let mut small = blank(3, 4);
    assert_eq!(small.draw_line(ivec2(3, 4), ivec2(3, 8), mark), Ok(()));
    assert_eq!(small.draw_line(ivec2(-1, -8), ivec2(-1, -1), mark), Ok(()));
    assert_eq!(marked(&small), vec![]);
    // The last column inside is drawn.
    assert_eq!(small.draw_line(ivec2(2, 0), ivec2(2, 3), mark), Ok(()));
    assert_eq!(marked(&small), vec![(2, 0), (2, 1), (2, 2), (2, 3)]);
}

#[test]
fn the_shader_is_not_asked_for_cells_outside_the_buffer() {
    let asked = std::cell::RefCell::new(Vec::new());
    let record = |pos: IVec2, _: &CharBuffer| {
        asked.borrow_mut().push((pos.x, pos.y));
        (Some('#'), None)
    };
    let mut buffer = blank(3, 3);
    assert_eq!(buffer.draw_line(ivec2(-1, 0), ivec2(-1, 2), &record), Ok(()));
    assert_eq!(buffer.draw_line(ivec2(1, -2), ivec2(1, 1), &record), Ok(()));
    assert_eq!(buffer.draw_line(ivec2(-2, 2), ivec2(1, 2), &record), Ok(()));
    assert_eq!(*asked.borrow(), vec![(1, 0), (1, 1), (0, 2), (1, 2)]);
}

#[test]
fn line_from_a_point_to_itself() {
    let mut buffer = blank(4, 4);
    assert_eq!(buffer.draw_line(ivec2(2, 1), ivec2(2, 1), count), Ok(()));
    assert_eq!(picture(&buffer), vec!["    ", "  1 ", "    ", "    "]);
    for p in [ivec2(4, 0), ivec2(0, 4), ivec2(-1, 2), ivec2(2, -1), ivec2(i32::MAX, i32::MIN)] {
        let mut untouched = blank(4, 4);
        assert_eq!(untouched.draw_line(p, p, mark), Ok(()));
        assert_eq!(marked(&untouched), vec![]);
    }
}

#[test]
fn shallow_line_steps_by_column() {
    let mut buffer = blank(5, 3);
    assert_eq!(buffer.draw_line(ivec2(0, 0), ivec2(4, 2), count), Ok(()));
    assert_eq!(picture(&buffer), vec!["11   ", "  11 ", "    1"]);
    let mut reversed = blank(5, 3);
    assert_eq!(reversed.draw_line(ivec2(4, 2), ivec2(0, 0), count), Ok(()));
    assert_eq!(picture(&reversed), vec!["11   ", "  11 ", "    1"]);
    let mut falling = blank(5, 3);
    assert_eq!(falling.draw_line(ivec2(0, 2), ivec2(4, 0), count), Ok(()));
    assert_eq!(picture(&falling), vec!["   11", " 11  ", "1    "]);
}

#[test]
fn steep_line_steps_by_row() {
    let mut buffer = blank(3, 5);
    assert_eq!(buffer.draw_line(ivec2(0, 0), ivec2(2, 4), count), Ok(()));
    assert_eq!(picture(&buffer), vec!["1  ", "1  ", " 1 ", " 1 ", "  1"]);
    let mut falling = blank(3, 5);
    assert_eq!(falling.draw_line(ivec2(0, 4), ivec2(2, 0), count), Ok(()));
    assert_eq!(picture(&falling), vec!["  1", " 1 ", " 1 ", "1  ", "1  "]);
    let mut reversed = blank(3, 5);
    assert_eq!(reversed.draw_line(ivec2(2, 0), ivec2(0, 4), count), Ok(()));
    assert_eq!(picture(&reversed), vec!["  1", " 1 ", " 1 ", "1  ", "1  "]);
}

#[test]
fn diagonal_and_horizontal_lines_are_shallow() {
    let mut diagonal = blank(4, 4);
    assert_eq!(diagonal.draw_line(ivec2(0, 0), ivec2(3, 3), count), Ok(()));
    assert_eq!(picture(&diagonal), vec!["1   ", " 1  ", "  1 ", "   1"]);
    let mut horizontal = blank(4, 2);
    assert_eq!(horizontal.draw_line(ivec2(3, 1), ivec2(0, 1), count), Ok(()));
    assert_eq!(picture(&horizontal), vec!["    ", "1111"]);
}

#[test]
fn pixels_outside_the_buffer_are_skipped() {
    let mut buffer = blank(3, 3);
    assert_eq!(buffer.draw_line(ivec2(-2, 1), ivec2(5, 1), count), Ok(()));
    assert_eq!(picture(&buffer), vec!["   ", "111", "   "]);
    let mut crossing = blank(3, 3);
    assert_eq!(crossing.draw_line(ivec2(-3, -3), ivec2(6, 6), count), Ok(()));
    assert_eq!(picture(&crossing), vec!["1  ", " 1 ", "  1"]);
    let mut steep = blank(3, 3);
    assert_eq!(steep.draw_line(ivec2(1, -7), ivec2(2, 9), count), Ok(()));
    assert_eq!(picture(&steep), vec![" 1 ", " 1 ", " 1 "]);
    let mut missed = blank(3, 3);
    assert_eq!(missed.draw_line(ivec2(-9, 5), ivec2(9, 7), mark), Ok(()));
    assert_eq!(marked(&missed), vec![]);
}

#[test]
fn whole_quotient_truncates_toward_zero() {
    // From (-3, -1) to (3, 1): y = (-1 * 6 + (x + 3) * 2) / 6, truncated
    // toward zero, so columns -2..=2 all fall in row 0.
    let mut buffer = blank(3, 2);
    assert_eq!(buffer.draw_line(ivec2(-3, -1), ivec2(3, 1), count), Ok(()));
    assert_eq!(picture(&buffer), vec!["111", "   "]);
}

#[test]
fn line_shader_sees_the_buffer_and_may_keep_fields() {
    let mut buffer = blank(3, 1);
    buffer.set_char(uvec2(1, 0), Some('k'), Some(RED)).unwrap();
    let keep_marked = |pos: IVec2, seen: &CharBuffer| {
        if seen.get_char(uvec2(pos.x as u32, pos.y as u32)).unwrap().0 == 'k' {
            (None, None)
        } else {
            (Some('o'), None)
        }
    };
    assert_eq!(buffer.draw_line(ivec2(0, 0), ivec2(2, 0), keep_marked), Ok(()));
    assert_eq!(buffer.get_char(uvec2(0, 0)), Some(('o', WHITE)));
    assert_eq!(buffer.get_char(uvec2(1, 0)), Some(('k', RED)));
    assert_eq!(buffer.get_char(uvec2(2, 0)), Some(('o', WHITE)));
}

#[test]
fn triangle_with_a_level_side() {
    let mut buffer = blank(5, 5);
    assert_eq!(buffer.draw_triangle([ivec2(0, 0), ivec2(4, 0), ivec2(0, 4)], count), Ok(()));
    assert_eq!(picture(&buffer), vec!["11111", "1111 ", "111  ", "11   ", "1    "]);
    let mut pointing_up = blank(5, 3);
    assert_eq!(pointing_up.draw_triangle([ivec2(0, 2), ivec2(2, 0), ivec2(4, 2)], count), Ok(()));
    assert_eq!(picture(&pointing_up), vec!["  1  ", " 111 ", "11111"]);
}

#[test]
fn triangle_is_cut_at_its_middle_corner_and_every_cell_is_shaded_once() {
    let mut buffer = blank(5, 5);
    assert_eq!(buffer.draw_triangle([ivec2(2, 0), ivec2(0, 2), ivec2(4, 4)], count), Ok(()));
    assert_eq!(picture(&buffer), vec!["  1  ", " 111 ", "1111 ", "  11 ", "    1"]);
    // The order of the corners does not matter.
    let mut shuffled = blank(5, 5);
    assert_eq!(shuffled.draw_triangle([ivec2(4, 4), ivec2(2, 0), ivec2(0, 2)], count), Ok(()));
    assert_eq!(picture(&shuffled), vec!["  1  ", " 111 ", "1111 ", "  11 ", "    1"]);
}

#[test]
fn a_shader_that_goes_by_the_cell_meets_every_cell_as_it_was() {
    let mut buffer = CharBuffer::new(uvec2(5, 5), '+', WHITE).unwrap();
    let toggle = |p: IVec2, seen: &CharBuffer| match seen.get_char(uvec2(p.x as u32, p.y as u32)) {
        Some(('+', _)) => (Some('#'), None),
        _ => (Some('+'), None),
    };
    assert_eq!(buffer.draw_triangle([ivec2(0, 0), ivec2(4, 2), ivec2(0, 4)], toggle), Ok(()));
    assert_eq!(picture(&buffer), vec!["#++++", "###++", "#####", "###++", "#++++"]);
    let mut line = CharBuffer::new(uvec2(5, 5), '+', WHITE).unwrap();
    assert_eq!(line.draw_line(ivec2(0, 0), ivec2(4, 2), toggle), Ok(()));
    assert_eq!(picture(&line), vec!["##+++", "++##+", "++++#", "+++++", "+++++"]);
}

#[test]
fn triangle_is_shaded_by_rising_rows_and_columns() {
    let mut buffer = blank(5, 5);
    let order = std::cell::RefCell::new(Vec::new());
    let record = |pos: IVec2, _: &CharBuffer| {
        order.borrow_mut().push((pos.x, pos.y));
        (Some('#'), None)
    };
    assert_eq!(buffer.draw_triangle([ivec2(2, 0), ivec2(0, 2), ivec2(4, 4)], record), Ok(()));
    let expected = vec![
        (2, 0), (1, 1), (2, 1), (3, 1), (0, 2), (1, 2), (2, 2), (3, 2), (2, 3), (3, 3), (4, 4),
    ];
    assert_eq!(*order.borrow(), expected);
    // With two corners in the last row the part toward the least row goes
    // through that row itself.
    order.borrow_mut().clear();
    let mut flat = blank(3, 3);
    assert_eq!(flat.draw_triangle([ivec2(0, 2), ivec2(2, 2), ivec2(1, 0)], record), Ok(()));
    assert_eq!(*order.borrow(), vec![(1, 0), (0, 1), (1, 1), (2, 1), (0, 2), (1, 2), (2, 2)]);
}

#[test]
fn corners_in_one_row_draw_nothing() {
    for corners in [
        [ivec2(0, 1), ivec2(2, 1), ivec2(4, 1)],
        [ivec2(3, 3), ivec2(3, 3), ivec2(3, 3)],
        [ivec2(-5, 0), ivec2(9, 0), ivec2(2, 0)],
    ] {
        let mut buffer = blank(5, 5);
        assert_eq!(buffer.draw_triangle(corners, mark), Ok(()));
        assert_eq!(marked(&buffer), vec![]);
    }
}

#[test]
fn corners_on_a_slanted_line_draw_the_line() {
    let mut buffer = blank(3, 3);
    assert_eq!(buffer.draw_triangle([ivec2(0, 0), ivec2(1, 1), ivec2(2, 2)], count), Ok(()));
    assert_eq!(picture(&buffer), vec!["1  ", " 1 ", "  1"]);
}

#[test]
fn triangle_is_clipped_to_the_buffer() {
    let mut buffer = blank(3, 3);
    assert_eq!(buffer.draw_triangle([ivec2(-10, -10), ivec2(30, -10), ivec2(-10, 30)], mark), Ok(()));
    assert_eq!(marked(&buffer).len(), 9);
    let mut missed = blank(3, 3);
    assert_eq!(missed.draw_triangle([ivec2(5, 5), ivec2(9, 5), ivec2(5, 9)], mark), Ok(()));
    assert_eq!(marked(&missed), vec![]);
    // Corners at the ends of the coordinate range: the side from the first to
    // the last corner is the diagonal x = y.
    let mut far = blank(3, 3);
    assert_eq!(
        far.draw_triangle([ivec2(i32::MIN, i32::MIN), ivec2(i32::MAX, i32::MIN), ivec2(i32::MAX, i32::MAX)], mark),
        Ok(())
    );
    assert_eq!(marked(&far), vec![(0, 0), (1, 0), (2, 0), (1, 1), (2, 1), (2, 2)]);
}

#[test]
fn triangle_shader_may_colour_by_position() {
    let mut buffer = blank(50, 50);
    let shade = |p: IVec2, _: &CharBuffer| (Some('.'), Some(RgbColor(200, (p.y * 5) as u8, (p.x * 5) as u8)));
    assert_eq!(buffer.draw_triangle([ivec2(5, 2), ivec2(44, 30), ivec2(20, 45)], shade), Ok(()));
    assert_eq!(buffer.get_char(uvec2(5, 2)), Some(('.', RgbColor(200, 10, 25))));
    assert_eq!(buffer.get_char(uvec2(44, 30)), Some(('.', RgbColor(200, 150, 220))));
    assert_eq!(buffer.get_char(uvec2(20, 45)), Some(('.', RgbColor(200, 225, 100))));
    assert_eq!(buffer.get_char(uvec2(0, 0)), Some((' ', WHITE)));
    assert_eq!(buffer.get_char(uvec2(49, 49)), Some((' ', WHITE)));
}

#[test]
fn lines_across_the_whole_coordinate_range() {
    let mut buffer = blank(3, 3);
    assert_eq!(buffer.draw_line(ivec2(i32::MIN, i32::MIN), ivec2(i32::MAX, i32::MAX), count), Ok(()));
    assert_eq!(picture(&buffer), vec!["1  ", " 1 ", "  1"]);
    assert_eq!(buffer.draw_line(ivec2(1, i32::MIN), ivec2(1, i32::MAX), count), Ok(()));
    assert_eq!(buffer.draw_line(ivec2(i32::MAX, 1), ivec2(i32::MIN, 1), count), Ok(()));
    assert_eq!(picture(&buffer), vec!["11 ", "1*1", " 11"]);
    let mut steep = blank(3, 3);
    assert_eq!(steep.draw_line(ivec2(0, i32::MIN), ivec2(2, i32::MAX), count), Ok(()));
    // The line passes the column 1 at the row -1/2: rows 0 to 2 are just
    // beyond it.
    assert_eq!(picture(&steep), vec![" 1 ", " 1 ", " 1 "]);
}
