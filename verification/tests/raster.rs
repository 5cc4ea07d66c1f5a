use graphics_buffer::buffer::PixelBuffer;
use graphics_buffer::color::Color;
use graphics_buffer::geometry::{ClipRegion, Point, Transform};
use graphics_buffer::raster::{DrawError, Rasterizer};

fn blue() -> Color {
    Color::new(0, 0, 255, 255)
}

#[test]
fn rectangle_two_by_two_at_one_one() {
    let mut buffer = PixelBuffer::create(4, 4);
    buffer.clear(Color::transparent());
    let mut raster = Rasterizer::new(buffer);
    raster.fill_rect(&Transform::identity(), 256, 256, 768, 768, blue());
    let buffer = raster.into_buffer();
    for y in 0..4u32 {
        for x in 0..4u32 {
            let inside = (x == 1 || x == 2) && (y == 1 || y == 2);
            let expected = if inside { blue() } else { Color::transparent() };
            assert_eq!(buffer.get_pixel(x, y), expected, "pixel ({}, {})", x, y);
        }
    }
}

#[test]
fn degenerate_polygon_is_refused() {
    let mut raster = Rasterizer::new(PixelBuffer::create(3, 3));
    let points = vec![Point::from_pixels(0, 0), Point::from_pixels(3, 3)];
    let result = raster.fill_polygon(&Transform::identity(), &points, blue());
    assert_eq!(result, Err(DrawError::DegeneratePolygon(2)));
    assert_eq!(raster.into_buffer().into_bytes(), vec![0u8; 36]);
}

#[test]
fn triangle_covers_pixel_centres_inside() {
    let mut raster = Rasterizer::new(PixelBuffer::create(4, 4));
    let points = vec![Point::from_pixels(0, 0), Point::from_pixels(4, 0), Point::from_pixels(0, 4)];
    assert_eq!(raster.fill_polygon(&Transform::identity(), &points, blue()), Ok(()));
    let buffer = raster.into_buffer();
    for y in 0..4u32 {
        for x in 0..4u32 {
            // the centre (x + 1/2, y + 1/2) lies inside if x + y + 1 < 4,
            // and on the slanted edge if x + y + 1 == 4
            let inside = x + y + 1 < 4;
            let expected = if inside { blue() } else { Color::transparent() };
            assert_eq!(buffer.get_pixel(x, y), expected, "pixel ({}, {})", x, y);
        }
    }
}

#[test]
fn clip_confines_a_larger_rectangle() {
    let mut raster = Rasterizer::new(PixelBuffer::create(5, 5));
    raster.push_clip(ClipRegion::new(1, 2, 2, 2));
    raster.fill_rect(&Transform::identity(), 0, 0, 5 * 256, 5 * 256, blue());
    assert!(raster.pop_clip());
    assert!(!raster.pop_clip());
    let buffer = raster.into_buffer();
    for y in 0..5u32 {
        for x in 0..5u32 {
            let inside = (1..3).contains(&x) && (2..4).contains(&y);
            let expected = if inside { blue() } else { Color::transparent() };
            assert_eq!(buffer.get_pixel(x, y), expected, "pixel ({}, {})", x, y);
        }
    }
}

fn white() -> Color {
    Color::new(255, 255, 255, 255)
}

fn white_buffer(width: u32, height: u32) -> PixelBuffer {
    let mut buffer = PixelBuffer::create(width, height);
    buffer.clear(white());
    buffer
}

/// The pixels of `buffer` that differ from `background`, row by row.
fn changed(buffer: &PixelBuffer, background: Color) -> Vec<(u32, u32)> {
    let mut out = Vec::new();
    for y in 0..buffer.height() {
        for x in 0..buffer.width() {
            if buffer.get_pixel(x, y) != background {
                out.push((x, y));
            }
        }
    }
    out
}

#[test]
fn opaque_full_rectangle_replaces_every_pixel() {
    let mut buffer = PixelBuffer::create(5, 3);
    buffer.set_pixel(2, 1, Color::new(9, 9, 9, 9));
    let mut raster = Rasterizer::new(buffer);
    raster.fill_rect(&Transform::identity(), 0, 0, 5 * 256, 3 * 256, blue());
    let buffer = raster.into_buffer();
    for y in 0..3u32 {
        for x in 0..5u32 {
            assert_eq!(buffer.get_pixel(x, y), blue());
        }
    }
}

#[test]
fn translucent_rectangle_blends() {
    let mut raster = Rasterizer::new(white_buffer(3, 3));
    raster.fill_rect(&Transform::identity(), 256, 0, 512, 768, Color::new(255, 0, 0, 128));
    let buffer = raster.into_buffer();
    for y in 0..3u32 {
        assert_eq!(buffer.get_pixel(0, y), white());
        assert_eq!(buffer.get_pixel(1, y), Color::new(255, 127, 127, 191));
        assert_eq!(buffer.get_pixel(2, y), white());
    }
}

#[test]
fn fill_span_respects_clip_and_buffer() {
    let mut raster = Rasterizer::new(PixelBuffer::create(6, 3));
    raster.fill_span(1, 2, 100, blue());
    assert_eq!(changed(raster.buffer(), Color::transparent()), vec![(2, 1), (3, 1), (4, 1), (5, 1)]);
    raster.fill_span(3, 0, 6, blue());
    raster.fill_span(0, 4, 4, blue());
    raster.fill_span(0, 5, 2, blue());
    assert_eq!(changed(raster.buffer(), Color::transparent()).len(), 4);
    raster.push_clip(ClipRegion::new(0, 0, 2, 1));
    raster.fill_span(0, 0, 6, blue());
    raster.fill_span(2, 0, 6, blue());
    assert_eq!(
        changed(raster.buffer(), Color::transparent()),
        vec![(0, 0), (1, 0), (2, 1), (3, 1), (4, 1), (5, 1)]
    );
}

#[test]
fn zero_area_polygons_draw_nothing() {
    let mut raster = Rasterizer::new(PixelBuffer::create(6, 6));
    let identity = Transform::identity();
    let line = vec![Point::new(0, 0), Point::new(700, 700), Point::new(1400, 1400)];
    assert_eq!(raster.fill_polygon(&identity, &line, blue()), Ok(()));
    let dot = vec![Point::new(384, 384), Point::new(384, 384), Point::new(384, 384)];
    assert_eq!(raster.fill_polygon(&identity, &dot, blue()), Ok(()));
    let flat = vec![Point::new(0, 384), Point::new(1536, 384), Point::new(700, 384)];
    assert_eq!(raster.fill_polygon(&identity, &flat, blue()), Ok(()));
    let upright = vec![Point::new(384, 0), Point::new(384, 1536), Point::new(384, 700), Point::new(384, 100)];
    assert_eq!(raster.fill_polygon(&identity, &upright, blue()), Ok(()));
    raster.fill_rect(&identity, 100, 100, 100, 900, blue());
    raster.fill_rect(&identity, 100, 100, 900, 100, blue());
    assert_eq!(changed(raster.buffer(), Color::transparent()), vec![]);
}

#[test]
fn degenerate_polygons_of_every_length() {
    let mut raster = Rasterizer::new(white_buffer(2, 2));
    let identity = Transform::identity();
    assert_eq!(raster.fill_polygon(&identity, &Vec::new(), blue()), Err(DrawError::DegeneratePolygon(0)));
    assert_eq!(
        raster.fill_polygon(&identity, &vec![Point::new(0, 0)], blue()),
        Err(DrawError::DegeneratePolygon(1))
    );
    assert_eq!(
        raster.fill_polygon(&identity, &vec![Point::new(0, 0), Point::new(512, 512)], blue()),
        Err(DrawError::DegeneratePolygon(2))
    );
    assert_eq!(raster.into_buffer().into_bytes(), vec![255u8; 16]);
}

#[test]
fn primitive_outside_the_clip_is_a_no_op() {
    let mut raster = Rasterizer::new(PixelBuffer::create(8, 8));
    raster.push_clip(ClipRegion::new(0, 0, 3, 3));
    raster.fill_rect(&Transform::identity(), 4 * 256, 4 * 256, 8 * 256, 8 * 256, blue());
    raster.fill_rect(&Transform::identity(), -900, -900, -100, -100, blue());
    raster.fill_rect(&Transform::identity(), 9 * 256, 0, 20 * 256, 256, blue());
    assert_eq!(changed(raster.buffer(), Color::transparent()), vec![]);
}

#[test]
fn empty_clip_draws_nothing() {
    let mut raster = Rasterizer::new(PixelBuffer::create(4, 4));
    raster.push_clip(ClipRegion::new(2, 2, 0, 0));
    raster.fill_rect(&Transform::identity(), 0, 0, 1024, 1024, blue());
    raster.push_clip(ClipRegion::new(0, 0, 4, 4));
    raster.fill_rect(&Transform::identity(), 0, 0, 1024, 1024, blue());
    assert_eq!(changed(raster.buffer(), Color::transparent()), vec![]);
}

#[test]
fn nested_clips_intersect() {
    let mut raster = Rasterizer::new(PixelBuffer::create(5, 5));
    assert_eq!(raster.clip(), ClipRegion { x0: 0, y0: 0, x1: 5, y1: 5 });
    raster.push_clip(ClipRegion::new(0, 0, 3, 3));
    raster.push_clip(ClipRegion::new(2, 1, 3, 3));
    assert_eq!(raster.clip(), ClipRegion { x0: 2, y0: 1, x1: 3, y1: 3 });
    raster.fill_rect(&Transform::identity(), 0, 0, 5 * 256, 5 * 256, blue());
    assert_eq!(changed(raster.buffer(), Color::transparent()), vec![(2, 1), (2, 2)]);
    assert!(raster.pop_clip());
    assert_eq!(raster.clip(), ClipRegion { x0: 0, y0: 0, x1: 3, y1: 3 });
    assert!(raster.pop_clip());
    assert_eq!(raster.clip(), ClipRegion { x0: 0, y0: 0, x1: 5, y1: 5 });
    assert!(!raster.pop_clip());
    assert_eq!(raster.clip(), ClipRegion { x0: 0, y0: 0, x1: 5, y1: 5 });
}

#[test]
fn clip_beyond_the_buffer_is_cut_down() {
    let mut raster = Rasterizer::new(PixelBuffer::create(3, 3));
    raster.push_clip(ClipRegion::new(1, 1, 100, 100));
    raster.fill_rect(&Transform::identity(), -5000, -5000, 5000, 5000, blue());
    assert_eq!(changed(raster.buffer(), Color::transparent()), vec![(1, 1), (2, 1), (1, 2), (2, 2)]);
}

#[test]
fn clear_ignores_the_clip() {
    let mut raster = Rasterizer::new(PixelBuffer::create(3, 2));
    raster.push_clip(ClipRegion::new(0, 0, 1, 1));
    raster.clear(blue());
    let buffer = raster.into_buffer();
    for y in 0..2u32 {
        for x in 0..3u32 {
            assert_eq!(buffer.get_pixel(x, y), blue());
        }
    }
}

#[test]
fn pixel_centres_decide_coverage() {
    // the rectangle from 0.5 to 2.5: the centre 0.5 lies on its left side,
    // which belongs to it, the centre 2.5 on its right side, which does not
    let mut raster = Rasterizer::new(PixelBuffer::create(4, 4));
    raster.fill_rect(&Transform::identity(), 128, 128, 640, 640, blue());
    assert_eq!(changed(raster.buffer(), Color::transparent()), vec![(0, 0), (1, 0), (0, 1), (1, 1)]);
    // a step less on the left and a step more on the right
    let mut raster = Rasterizer::new(PixelBuffer::create(4, 4));
    raster.fill_rect(&Transform::identity(), 129, 129, 641, 641, blue());
    assert_eq!(changed(raster.buffer(), Color::transparent()), vec![(1, 1), (2, 1), (1, 2), (2, 2)]);
}

#[test]
fn rectangle_with_swapped_corners() {
    let mut raster = Rasterizer::new(PixelBuffer::create(4, 4));
    raster.fill_rect(&Transform::identity(), 768, 768, 256, 256, blue());
    assert_eq!(changed(raster.buffer(), Color::transparent()), vec![(1, 1), (2, 1), (1, 2), (2, 2)]);
}

#[test]
fn orientation_does_not_matter() {
    let clockwise = vec![
        Point::from_pixels(1, 0),
        Point::from_pixels(5, 2),
        Point::from_pixels(3, 5),
        Point::from_pixels(0, 3),
    ];
    let mut counter = clockwise.clone();
    counter.reverse();
    let mut first = Rasterizer::new(PixelBuffer::create(6, 6));
    let mut second = Rasterizer::new(PixelBuffer::create(6, 6));
    assert_eq!(first.fill_polygon(&Transform::identity(), &clockwise, blue()), Ok(()));
    assert_eq!(second.fill_polygon(&Transform::identity(), &counter, blue()), Ok(()));
    let first = first.into_buffer().into_bytes();
    assert_eq!(first, second.into_buffer().into_bytes());
    assert!(first.iter().any(|b| *b != 0));
}

#[test]
fn concave_polygon() {
    // an L: the square 0..4 without its upper right quarter
    let points = vec![
        Point::from_pixels(0, 0),
        Point::from_pixels(2, 0),
        Point::from_pixels(2, 2),
        Point::from_pixels(4, 2),
        Point::from_pixels(4, 4),
        Point::from_pixels(0, 4),
    ];
    let mut raster = Rasterizer::new(PixelBuffer::create(5, 5));
    assert_eq!(raster.fill_polygon(&Transform::identity(), &points, blue()), Ok(()));
    let buffer = raster.into_buffer();
    for y in 0..5u32 {
        for x in 0..5u32 {
            let inside = (x < 2 && y < 4) || (x < 4 && (2..4).contains(&y));
            let expected = if inside { blue() } else { Color::transparent() };
            assert_eq!(buffer.get_pixel(x, y), expected, "pixel ({}, {})", x, y);
        }
    }
}

#[test]
fn even_odd_rule_leaves_doubly_wound_parts_empty() {
    // the outline of a square, run through twice
    let mut points = Vec::new();
    for _ in 0..2 {
        points.push(Point::from_pixels(1, 1));
        points.push(Point::from_pixels(4, 1));
        points.push(Point::from_pixels(4, 4));
        points.push(Point::from_pixels(1, 4));
    }
    let mut raster = Rasterizer::new(PixelBuffer::create(5, 5));
    assert_eq!(raster.fill_polygon(&Transform::identity(), &points, blue()), Ok(()));
    assert_eq!(changed(raster.buffer(), Color::transparent()), vec![]);
    // a large square and a small one inside it, joined in one outline: the
    // small square is wound twice and stays empty
    let ring = vec![
        Point::from_pixels(0, 0),
        Point::from_pixels(5, 0),
        Point::from_pixels(5, 5),
        Point::from_pixels(0, 5),
        Point::from_pixels(0, 0),
        Point::from_pixels(2, 2),
        Point::from_pixels(3, 2),
        Point::from_pixels(3, 3),
        Point::from_pixels(2, 3),
        Point::from_pixels(2, 2),
    ];
    let mut raster = Rasterizer::new(PixelBuffer::create(5, 5));
    assert_eq!(raster.fill_polygon(&Transform::identity(), &ring, blue()), Ok(()));
    let buffer = raster.into_buffer();
    for y in 0..5u32 {
        for x in 0..5u32 {
            let expected = if x == 2 && y == 2 { Color::transparent() } else { blue() };
            assert_eq!(buffer.get_pixel(x, y), expected, "pixel ({}, {})", x, y);
        }
    }
}

#[test]
fn transform_maps_the_points() {
    let double = Transform::scaling(2 * 65536, 2 * 65536);
    let moved = Transform::translation(256, 512).multiply(&double);
    let mut raster = Rasterizer::new(PixelBuffer::create(6, 6));
    // the unit square becomes the square from (1, 2) to (3, 4)
    raster.fill_rect(&moved, 0, 0, 256, 256, blue());
    assert_eq!(changed(raster.buffer(), Color::transparent()), vec![(1, 2), (2, 2), (1, 3), (2, 3)]);
}

#[test]
fn sheared_polygon() {
    // x' = x + y: the unit square times three becomes a parallelogram
    let shear = Transform::new(65536, 65536, 0, 0, 65536, 0);
    let mut raster = Rasterizer::new(PixelBuffer::create(7, 3));
    raster.fill_rect(&shear, 0, 0, 768, 768, blue());
    let buffer = raster.into_buffer();
    for y in 0..3u32 {
        for x in 0..7u32 {
            // centre (x + 1/2, y + 1/2) is inside if y + 1/2 <= x + 1/2 < y + 1/2 + 3
            let inside = y <= x && x < y + 3;
            let expected = if inside { blue() } else { Color::transparent() };
            assert_eq!(buffer.get_pixel(x, y), expected, "pixel ({}, {})", x, y);
        }
    }
}

#[test]
fn far_coordinates_saturate_without_harm() {
    let mut raster = Rasterizer::new(PixelBuffer::create(3, 3));
    let points = vec![
        Point::new(i32::MIN, i32::MIN),
        Point::new(i32::MAX, i32::MIN),
        Point::new(i32::MAX, i32::MAX),
        Point::new(i32::MIN, i32::MAX),
    ];
    assert_eq!(raster.fill_polygon(&Transform::identity(), &points, blue()), Ok(()));
    assert_eq!(changed(raster.buffer(), Color::transparent()).len(), 9);
    let grow = Transform::scaling(i32::MAX, i32::MAX);
    let mut raster = Rasterizer::new(PixelBuffer::create(3, 3));
    assert_eq!(raster.fill_polygon(&grow, &points, blue()), Ok(()));
    assert_eq!(changed(raster.buffer(), Color::transparent()).len(), 9);
}

#[test]
fn drawing_twice_blends_twice() {
    let mut raster = Rasterizer::new(white_buffer(1, 1));
    let red = Color::new(255, 0, 0, 128);
    raster.fill_rect(&Transform::identity(), 0, 0, 256, 256, red);
    raster.fill_rect(&Transform::identity(), 0, 0, 256, 256, red);
    let once = red.over(white());
    assert_eq!(raster.buffer().get_pixel(0, 0), red.over(once));
    // (0 * 128 + 127 * 127 + 127) / 255 = 63
    assert_eq!(raster.buffer().get_pixel(0, 0), Color::new(255, 63, 63, 159));
}

#[test]
fn empty_buffer_accepts_drawing() {
    let mut raster = Rasterizer::new(PixelBuffer::create(0, 0));
    raster.fill_rect(&Transform::identity(), 0, 0, 1000, 1000, blue());
    raster.fill_span(0, 0, 10, blue());
    raster.clear(blue());
    assert_eq!(raster.into_buffer().into_bytes(), Vec::<u8>::new());
}

#[test]
fn set_pixel_ignores_the_clip() {
    let mut raster = Rasterizer::new(PixelBuffer::create(3, 3));
    raster.push_clip(ClipRegion::new(0, 0, 1, 1));
    raster.set_pixel(2, 2, Color::new(1, 2, 3, 4));
    assert_eq!(raster.clip(), ClipRegion { x0: 0, y0: 0, x1: 1, y1: 1 });
    assert_eq!(changed(raster.buffer(), Color::transparent()), vec![(2, 2)]);
    assert_eq!(raster.buffer().get_pixel(2, 2), Color::new(1, 2, 3, 4));
}

#[test]
fn coverage_moves_with_the_polygon() {
    let shape = vec![
        Point::new(100, 30),
        Point::new(700, 200),
        Point::new(650, 900),
        Point::new(300, 500),
        Point::new(40, 800),
    ];
    let moved: Vec<Point> = shape.iter().map(|p| Point::new(p.x + 2 * 256, p.y + 3 * 256)).collect();
    let mut first = Rasterizer::new(PixelBuffer::create(8, 8));
    let mut second = Rasterizer::new(PixelBuffer::create(8, 8));
    assert_eq!(first.fill_polygon(&Transform::identity(), &shape, blue()), Ok(()));
    assert_eq!(second.fill_polygon(&Transform::identity(), &moved, blue()), Ok(()));
    let before = changed(first.buffer(), Color::transparent());
    let after = changed(second.buffer(), Color::transparent());
    assert!(!before.is_empty());
    let expected: Vec<(u32, u32)> = before.iter().map(|(x, y)| (x + 2, y + 3)).collect();
    assert_eq!(after, expected);
    // the same through a translation
    let mut third = Rasterizer::new(PixelBuffer::create(8, 8));
    assert_eq!(third.fill_polygon(&Transform::translation(512, 768), &shape, blue()), Ok(()));
    assert_eq!(changed(third.buffer(), Color::transparent()), expected);
}
