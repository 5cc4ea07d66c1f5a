use graphics_buffer::buffer::PixelBuffer;
use graphics_buffer::color::Color;
use graphics_buffer::geometry::{ClipRegion, Transform};
use graphics_buffer::raster::Rasterizer;
use graphics_buffer::texture::{TextureHandle, UploadError};

fn image() -> PixelBuffer {
    // two columns, three rows; pixel (u, v) has red = 10 * (3 * u + v + 1)
    let mut image = PixelBuffer::create(2, 3);
    for v in 0..3u32 {
        for u in 0..2u32 {
            image.set_pixel(u, v, Color::new((10 * (3 * u + v + 1)) as u8, 0, 0, 255));
        }
    }
    image
}

fn opaque_white() -> Color {
    Color::new(255, 255, 255, 255)
}

fn whole(image: &PixelBuffer) -> ClipRegion {
    ClipRegion::new(0, 0, image.width(), image.height())
}

fn reds(buffer: &PixelBuffer) -> Vec<Vec<u8>> {
    (0..buffer.height())
        .map(|y| (0..buffer.width()).map(|x| buffer.get_pixel(x, y).r).collect())
        .collect()
}

#[test]
fn blit_copies_pixel_for_pixel() {
    let image = image();
    let mut raster = Rasterizer::new(PixelBuffer::create(4, 4));
    raster.blit(&Transform::identity(), &image, whole(&image), 256, 0, opaque_white());
    let buffer = raster.into_buffer();
    assert_eq!(
        reds(&buffer),
        vec![vec![0, 10, 40, 0], vec![0, 20, 50, 0], vec![0, 30, 60, 0], vec![0, 0, 0, 0]]
    );
    assert_eq!(buffer.get_pixel(1, 0), Color::new(10, 0, 0, 255));
    assert_eq!(buffer.get_pixel(0, 0), Color::transparent());
}

#[test]
fn blit_through_a_scaling() {
    let image = image();
    let mut raster = Rasterizer::new(PixelBuffer::create(4, 6));
    let double = Transform::scaling(2 * 65536, 2 * 65536);
    raster.blit(&double, &image, whole(&image), 0, 0, opaque_white());
    assert_eq!(
        reds(raster.buffer()),
        vec![
            vec![10, 10, 40, 40],
            vec![10, 10, 40, 40],
            vec![20, 20, 50, 50],
            vec![20, 20, 50, 50],
            vec![30, 30, 60, 60],
            vec![30, 30, 60, 60]
        ]
    );
}

#[test]
fn blit_a_part_of_the_image() {
    let image = image();
    let mut raster = Rasterizer::new(PixelBuffer::create(3, 3));
    // the second column, rows 1 and 2, with its corner at pixel (2, 0)
    raster.blit(&Transform::identity(), &image, ClipRegion::new(1, 1, 1, 2), 512, 0, opaque_white());
    assert_eq!(reds(raster.buffer()), vec![vec![0, 0, 50], vec![0, 0, 60], vec![0, 0, 0]]);
}

#[test]
fn blit_source_beyond_the_image() {
    let image = image();
    let mut raster = Rasterizer::new(PixelBuffer::create(4, 4));
    // the rectangle begins in column 1 and reaches beyond the image
    raster.blit(&Transform::identity(), &image, ClipRegion::new(1, 2, 10, 10), 0, 0, opaque_white());
    assert_eq!(
        reds(raster.buffer()),
        vec![vec![60, 0, 0, 0], vec![0, 0, 0, 0], vec![0, 0, 0, 0], vec![0, 0, 0, 0]]
    );
    raster.blit(&Transform::identity(), &image, ClipRegion::new(2, 0, 10, 10), 0, 0, opaque_white());
    raster.blit(&Transform::identity(), &image, ClipRegion::new(0, 3, 10, 10), 0, 0, opaque_white());
    raster.blit(&Transform::identity(), &image, ClipRegion::new(1, 1, 0, 0), 0, 0, opaque_white());
    assert_eq!(reds(raster.buffer())[0], vec![60, 0, 0, 0]);
}

#[test]
fn blit_respects_the_clip() {
    let image = image();
    let mut raster = Rasterizer::new(PixelBuffer::create(3, 3));
    raster.push_clip(ClipRegion::new(1, 0, 2, 2));
    raster.blit(&Transform::identity(), &image, whole(&image), 0, 0, opaque_white());
    assert_eq!(reds(raster.buffer()), vec![vec![0, 40, 0], vec![0, 50, 0], vec![0, 0, 0]]);
}

#[test]
fn blit_blends_translucent_pixels() {
    let mut image = PixelBuffer::create(2, 1);
    image.set_pixel(0, 0, Color::new(255, 0, 0, 128));
    image.set_pixel(1, 0, Color::new(1, 2, 3, 0));
    let mut target = PixelBuffer::create(2, 1);
    target.clear(Color::new(255, 255, 255, 255));
    let mut raster = Rasterizer::new(target);
    raster.blit(&Transform::identity(), &image, whole(&image), 0, 0, opaque_white());
    assert_eq!(raster.buffer().get_pixel(0, 0), Color::new(255, 127, 127, 191));
    assert_eq!(raster.buffer().get_pixel(1, 0), Color::new(255, 255, 255, 255));
}

#[test]
fn blit_multiplies_by_the_tint() {
    let mut image = PixelBuffer::create(1, 1);
    image.set_pixel(0, 0, Color::new(200, 100, 50, 255));
    let mut raster = Rasterizer::new(PixelBuffer::create(1, 1));
    raster.blit(&Transform::identity(), &image, whole(&image), 0, 0, Color::new(255, 128, 0, 255));
    // 100 * 128 = 12800; (12800 + 127) / 255 = 50.69 -> 50
    assert_eq!(raster.buffer().get_pixel(0, 0), Color::new(200, 50, 0, 255));
    let mut raster = Rasterizer::new(PixelBuffer::create(1, 1));
    raster.blit(&Transform::identity(), &image, whole(&image), 0, 0, Color::new(255, 255, 255, 0));
    assert_eq!(raster.buffer().get_pixel(0, 0), Color::transparent());
}

#[test]
fn blit_partly_outside_the_buffer() {
    let image = image();
    let mut raster = Rasterizer::new(PixelBuffer::create(2, 2));
    raster.blit(&Transform::identity(), &image, whole(&image), -256, -512, opaque_white());
    assert_eq!(reds(raster.buffer()), vec![vec![60, 0], vec![0, 0]]);
}

#[test]
fn texture_handle_from_the_answer_of_the_surface() {
    let buffer = PixelBuffer::create(7, 5);
    assert_eq!(
        TextureHandle::from_upload(&buffer, Some(42)),
        Ok(TextureHandle { id: 42, width: 7, height: 5 })
    );
    assert_eq!(TextureHandle::from_upload(&buffer, None), Err(UploadError::Rejected(7, 5)));
}

#[test]
fn texture_handle_goes_stale_with_the_dimensions() {
    let buffer = PixelBuffer::create(7, 5);
    let handle = TextureHandle::from_upload(&buffer, Some(1)).unwrap();
    assert!(handle.describes(&buffer));
    assert!(handle.describes(&PixelBuffer::create(7, 5)));
    assert!(!handle.describes(&PixelBuffer::create(5, 7)));
    assert!(!handle.describes(&PixelBuffer::create(7, 6)));
}
