use text_3d_graphics::geometry::{ivec2, uvec2};
use text_3d_graphics::printing::{CharBuffer, RgbColor};
use text_3d_graphics::rasterizing::compositing::{
    clear_depths, composite_triangle, DepthBuffer, ScreenTriangle, ScreenVertex, EMPTY_DEPTH, FARTHEST_DEPTH,
};
use text_3d_graphics::rasterizing::RasterizationError;

/// The depths of a frame as a scene's rasterizer holds them.
struct Depths {
    depth_buffer: Option<DepthBuffer>,
}

impl Depths {
    fn new() -> Self {
        Depths { depth_buffer: None }
    }

    fn clear_frame(&mut self) {
        clear_depths(&mut self.depth_buffer);
    }

    fn rasterize_triangle(&mut self, t: ScreenTriangle, frame: &mut CharBuffer) -> Result<(), RasterizationError> {
        composite_triangle(&mut self.depth_buffer, t, frame)
    }
}

const WHITE: RgbColor = RgbColor(255, 255, 255);
const RED: RgbColor = RgbColor(255, 0, 0);
const BLUE: RgbColor = RgbColor(0, 0, 255);

fn blank(width: u32, height: u32) -> CharBuffer {
    CharBuffer::new(uvec2(width, height), ' ', WHITE).unwrap()
}

fn triangle(corners: [(i32, i32, i32); 3], color: RgbColor) -> ScreenTriangle {
    let vertex = |(x, y, depth): (i32, i32, i32)| ScreenVertex { position: ivec2(x, y), depth };
    ScreenTriangle { v: [vertex(corners[0]), vertex(corners[1]), vertex(corners[2])], color }
}

/// The rows of the buffer, each cell as 'r', 'b' or ' ' by what it shows.
fn picture(buffer: &CharBuffer) -> Vec<String> {
    let dimensions = *buffer.dimensions();
    (0..dimensions.y)
        .map(|y| {
            (0..dimensions.x)
                .map(|x| match buffer.get_char(uvec2(x, y)).unwrap() {
                    ('.', RED) => 'r',
                    ('.', BLUE) => 'b',
                    (' ', WHITE) => ' ',
                    other => panic!("unexpected cell {:?}", other),
                })
                .collect()
        })
        .collect()
}

#[test]
fn depth_buffer_starts_empty() {
    let depths = DepthBuffer::new(uvec2(3, 2)).unwrap();
    assert_eq!(depths.dimensions(), uvec2(3, 2));
    assert_eq!(EMPTY_DEPTH, i32::MIN);
    for y in 0..2 {
        for x in 0..3 {
            assert_eq!(depths.get_value(uvec2(x, y)), Some(EMPTY_DEPTH));
        }
    }
    assert_eq!(depths.get_value(uvec2(3, 0)), None);
    assert_eq!(depths.get_value(uvec2(0, 2)), None);
}

#[test]
fn depth_buffer_stores_by_column_and_row() {
    let mut depths = DepthBuffer::new(uvec2(3, 2)).unwrap();
    depths.set_value(uvec2(2, 1), 42);
    depths.set_value(uvec2(0, 0), -7);
    assert_eq!(depths.get_value(uvec2(2, 1)), Some(42));
    assert_eq!(depths.get_value(uvec2(0, 0)), Some(-7));
    assert_eq!(depths.get_value(uvec2(1, 1)), Some(EMPTY_DEPTH));
    assert_eq!(depths.get_value(uvec2(2, 0)), Some(EMPTY_DEPTH));
    // Outside the buffer a store is dropped.
    depths.set_value(uvec2(3, 1), 5);
    depths.set_value(uvec2(2, 2), 5);
    assert_eq!(depths.get_value(uvec2(3, 1)), None);
    assert_eq!(depths.get_value(uvec2(2, 1)), Some(42));
    depths.clear();
    for y in 0..2 {
        for x in 0..3 {
            assert_eq!(depths.get_value(uvec2(x, y)), Some(EMPTY_DEPTH));
        }
    }
}

#[test]
fn a_triangle_fills_the_cells_it_covers() {
    let mut rasterizer = Depths::new();
    assert!(rasterizer.depth_buffer.is_none());
    let mut frame = blank(5, 5);
    let t = triangle([(0, 0, 7), (4, 0, 7), (0, 4, 7)], RED);
    assert_eq!(rasterizer.rasterize_triangle(t, &mut frame), Ok(()));
    assert_eq!(picture(&frame), vec!["rrrrr", "rrrr ", "rrr  ", "rr   ", "r    "]);
    let depths = rasterizer.depth_buffer.as_ref().unwrap();
    assert_eq!(depths.dimensions(), uvec2(5, 5));
    assert_eq!(depths.get_value(uvec2(1, 1)), Some(7));
    assert_eq!(depths.get_value(uvec2(4, 4)), Some(EMPTY_DEPTH));
}

#[test]
fn depth_follows_the_plane_through_the_corners() {
    let mut rasterizer = Depths::new();
    let mut frame = blank(5, 5);
    // depth = x + 2 * y on this triangle.
    let t = triangle([(0, 0, 0), (4, 0, 4), (0, 4, 8)], RED);
    assert_eq!(rasterizer.rasterize_triangle(t, &mut frame), Ok(()));
    let depths = rasterizer.depth_buffer.as_ref().unwrap();
    assert_eq!(depths.get_value(uvec2(0, 0)), Some(0));
    assert_eq!(depths.get_value(uvec2(4, 0)), Some(4));
    assert_eq!(depths.get_value(uvec2(0, 4)), Some(8));
    assert_eq!(depths.get_value(uvec2(1, 1)), Some(3));
    assert_eq!(depths.get_value(uvec2(2, 2)), Some(6));
    assert_eq!(depths.get_value(uvec2(3, 3)), Some(EMPTY_DEPTH));
}

#[test]
fn depth_offset_truncates_toward_zero() {
    let mut rasterizer = Depths::new();
    let mut frame = blank(4, 4);
    // depth = 10 - x / 3 and 10 + x / 3 along the first row, truncated.
    let falling = triangle([(0, 0, 10), (3, 0, 9), (0, 3, 10)], RED);
    assert_eq!(rasterizer.rasterize_triangle(falling, &mut frame), Ok(()));
    let depths = rasterizer.depth_buffer.as_ref().unwrap();
    assert_eq!(depths.get_value(uvec2(1, 0)), Some(10));
    assert_eq!(depths.get_value(uvec2(2, 0)), Some(10));
    assert_eq!(depths.get_value(uvec2(3, 0)), Some(9));
    rasterizer.clear_frame();
    let rising = triangle([(0, 0, 10), (3, 0, 11), (0, 3, 10)], RED);
    assert_eq!(rasterizer.rasterize_triangle(rising, &mut frame), Ok(()));
    let depths = rasterizer.depth_buffer.as_ref().unwrap();
    assert_eq!(depths.get_value(uvec2(1, 0)), Some(10));
    assert_eq!(depths.get_value(uvec2(2, 0)), Some(10));
    assert_eq!(depths.get_value(uvec2(3, 0)), Some(11));
}

#[test]
fn the_nearer_triangle_shows_in_either_order() {
    let near = triangle([(0, 0, 10), (4, 0, 10), (0, 4, 10)], RED);
    let far = triangle([(4, 4, 5), (4, 0, 5), (0, 0, 5)], BLUE);
    let expected = vec!["rrrrr", "rrrrb", "rrrbb", "rr bb", "r   b"];

    let mut first = Depths::new();
    let mut frame = blank(5, 5);
    first.clear_frame();
    assert_eq!(first.rasterize_triangle(near, &mut frame), Ok(()));
    assert_eq!(first.rasterize_triangle(far, &mut frame), Ok(()));
    assert_eq!(picture(&frame), expected);

    let mut second = Depths::new();
    let mut other = blank(5, 5);
    second.clear_frame();
    assert_eq!(second.rasterize_triangle(far, &mut other), Ok(()));
    assert_eq!(picture(&other), vec!["bbbbb", " bbbb", "  bbb", "   bb", "    b"]);
    assert_eq!(second.rasterize_triangle(near, &mut other), Ok(()));
    assert_eq!(picture(&other), expected);

    for y in 0..5 {
        for x in 0..5 {
            assert_eq!(
                first.depth_buffer.as_ref().unwrap().get_value(uvec2(x, y)),
                second.depth_buffer.as_ref().unwrap().get_value(uvec2(x, y))
            );
        }
    }
    assert_eq!(first.depth_buffer.as_ref().unwrap().get_value(uvec2(1, 1)), Some(10));
    assert_eq!(first.depth_buffer.as_ref().unwrap().get_value(uvec2(4, 2)), Some(5));
}

#[test]
fn slanted_triangles_are_compared_cell_by_cell() {
    // RED rises toward the right, BLUE toward the bottom: each is nearer in
    // a part of the square that both cover.
    let red = triangle([(0, 0, 0), (3, 0, 6), (0, 3, 0)], RED);
    let blue = triangle([(0, 0, 0), (3, 0, 0), (0, 3, 6)], BLUE);
    let mut one = Depths::new();
    let mut frame = blank(4, 4);
    assert_eq!(one.rasterize_triangle(red, &mut frame), Ok(()));
    assert_eq!(one.rasterize_triangle(blue, &mut frame), Ok(()));
    let mut two = Depths::new();
    let mut other = blank(4, 4);
    assert_eq!(two.rasterize_triangle(blue, &mut other), Ok(()));
    assert_eq!(two.rasterize_triangle(red, &mut other), Ok(()));
    for y in 0..4 {
        for x in 0..4 {
            if x != y {
                assert_eq!(frame.get_char(uvec2(x, y)), other.get_char(uvec2(x, y)));
            }
            assert_eq!(
                one.depth_buffer.as_ref().unwrap().get_value(uvec2(x, y)),
                two.depth_buffer.as_ref().unwrap().get_value(uvec2(x, y))
            );
        }
    }
    assert_eq!(frame.get_char(uvec2(2, 0)), Some(('.', RED)));
    assert_eq!(frame.get_char(uvec2(0, 2)), Some(('.', BLUE)));
    assert_eq!(one.depth_buffer.as_ref().unwrap().get_value(uvec2(2, 0)), Some(4));
    assert_eq!(one.depth_buffer.as_ref().unwrap().get_value(uvec2(0, 2)), Some(4));
    // On the diagonal the two tie: the one drawn first stays.
    assert_eq!(frame.get_char(uvec2(1, 1)), Some(('.', RED)));
    assert_eq!(other.get_char(uvec2(1, 1)), Some(('.', BLUE)));
}

#[test]
fn the_empty_mark_loses_against_every_triangle() {
    assert_eq!(FARTHEST_DEPTH, EMPTY_DEPTH + 1);
    // Corners that come with the least integer are drawn just above it.
    let mut rasterizer = Depths::new();
    let mut frame = blank(3, 3);
    let t = triangle([(0, 0, EMPTY_DEPTH), (2, 0, EMPTY_DEPTH), (0, 2, EMPTY_DEPTH)], RED);
    assert_eq!(rasterizer.rasterize_triangle(t, &mut frame), Ok(()));
    assert_eq!(picture(&frame), vec!["rrr", "rr ", "r  "]);
    let depths = rasterizer.depth_buffer.as_ref().unwrap();
    assert_eq!(depths.get_value(uvec2(0, 0)), Some(FARTHEST_DEPTH));
    assert_eq!(depths.get_value(uvec2(1, 1)), Some(FARTHEST_DEPTH));
    assert_eq!(depths.get_value(uvec2(2, 2)), Some(EMPTY_DEPTH));
    // So are corners on one line, and a plane that falls below the range.
    let mut slivers = Depths::new();
    let mut other = blank(3, 3);
    let sliver = triangle([(0, 0, EMPTY_DEPTH), (1, 1, EMPTY_DEPTH), (2, 2, EMPTY_DEPTH)], BLUE);
    assert_eq!(slivers.rasterize_triangle(sliver, &mut other), Ok(()));
    assert_eq!(picture(&other), vec!["b  ", " b ", "  b"]);
    assert_eq!(slivers.depth_buffer.as_ref().unwrap().get_value(uvec2(1, 1)), Some(FARTHEST_DEPTH));
    let mut steep = Depths::new();
    let mut third = blank(3, 1);
    let falling = triangle([(-1, 0, 0), (0, 0, i32::MIN), (-1, 1, 0)], RED);
    assert_eq!(steep.rasterize_triangle(falling, &mut third), Ok(()));
    assert_eq!(picture(&third), vec!["r  "]);
    assert_eq!(steep.depth_buffer.as_ref().unwrap().get_value(uvec2(0, 0)), Some(FARTHEST_DEPTH));
    // Anything nearer then wins over them.
    let nearer = triangle([(0, 0, FARTHEST_DEPTH + 1), (2, 0, FARTHEST_DEPTH + 1), (0, 2, FARTHEST_DEPTH + 1)], BLUE);
    assert_eq!(rasterizer.rasterize_triangle(nearer, &mut frame), Ok(()));
    assert_eq!(picture(&frame), vec!["bbb", "bb ", "b  "]);
}

#[test]
fn clear_frame_lets_a_farther_triangle_show_again() {
    let mut rasterizer = Depths::new();
    rasterizer.clear_frame();
    assert!(rasterizer.depth_buffer.is_none());
    let mut frame = blank(3, 3);
    let near = triangle([(0, 0, 9), (2, 0, 9), (0, 2, 9)], RED);
    let far = triangle([(0, 0, 1), (2, 0, 1), (0, 2, 1)], BLUE);
    assert_eq!(rasterizer.rasterize_triangle(near, &mut frame), Ok(()));
    assert_eq!(rasterizer.rasterize_triangle(far, &mut frame), Ok(()));
    assert_eq!(picture(&frame), vec!["rrr", "rr ", "r  "]);
    rasterizer.clear_frame();
    assert_eq!(rasterizer.depth_buffer.as_ref().unwrap().get_value(uvec2(0, 0)), Some(EMPTY_DEPTH));
    assert_eq!(rasterizer.rasterize_triangle(far, &mut frame), Ok(()));
    assert_eq!(picture(&frame), vec!["bbb", "bb ", "b  "]);
}

#[test]
fn depth_buffer_follows_the_extent_of_the_frame() {
    let mut rasterizer = Depths::new();
    let mut small = blank(2, 2);
    let near = triangle([(0, 0, 9), (5, 0, 9), (0, 5, 9)], RED);
    let far = triangle([(0, 0, 1), (5, 0, 1), (0, 5, 1)], BLUE);
    assert_eq!(rasterizer.rasterize_triangle(near, &mut small), Ok(()));
    assert_eq!(picture(&small), vec!["rr", "rr"]);
    assert_eq!(rasterizer.depth_buffer.as_ref().unwrap().dimensions(), uvec2(2, 2));
    // A frame of another extent starts from empty depths.
    let mut large = blank(3, 3);
    assert_eq!(rasterizer.rasterize_triangle(far, &mut large), Ok(()));
    assert_eq!(picture(&large), vec!["bbb", "bbb", "bbb"]);
    assert_eq!(rasterizer.depth_buffer.as_ref().unwrap().dimensions(), uvec2(3, 3));
    assert_eq!(rasterizer.depth_buffer.as_ref().unwrap().get_value(uvec2(2, 2)), Some(1));
}

#[test]
fn corners_on_one_line_take_the_depth_of_the_nearest() {
    let mut rasterizer = Depths::new();
    let mut frame = blank(3, 3);
    let sliver = triangle([(0, 0, 1), (1, 1, 8), (2, 2, 3)], RED);
    assert_eq!(rasterizer.rasterize_triangle(sliver, &mut frame), Ok(()));
    assert_eq!(picture(&frame), vec!["r  ", " r ", "  r"]);
    for i in 0..3 {
        assert_eq!(rasterizer.depth_buffer.as_ref().unwrap().get_value(uvec2(i, i)), Some(8));
    }
    let level = triangle([(0, 1, 9), (1, 1, 9), (2, 1, 9)], BLUE);
    assert_eq!(rasterizer.rasterize_triangle(level, &mut frame), Ok(()));
    assert_eq!(picture(&frame), vec!["r  ", " r ", "  r"]);
}

#[test]
fn depths_beyond_the_range_are_clamped() {
    let mut rasterizer = Depths::new();
    let mut frame = blank(3, 1);
    // The plane rises by i32::MAX per column from 0 at column -1.
    let t = triangle([(-1, 0, 0), (0, 0, i32::MAX), (-1, 1, 0)], RED);
    assert_eq!(rasterizer.rasterize_triangle(t, &mut frame), Ok(()));
    assert_eq!(picture(&frame), vec!["r  "]);
    assert_eq!(rasterizer.depth_buffer.as_ref().unwrap().get_value(uvec2(0, 0)), Some(i32::MAX));
}
