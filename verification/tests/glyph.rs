use graphics_buffer::cache::GlyphCache;
use graphics_buffer::glyph::{Font, GlyphEntry, GlyphError, GlyphKey, MAX_MASK_PIXELS};

fn sample_font() -> Font {
    let mut font = Font::new(2, 2).unwrap();
    assert!(font.add_glyph('A', 2, vec![255, 0, 128, 64]));
    assert!(font.add_glyph('B', 3, vec![1, 2, 3, 4]));
    font
}

fn parts(entry: &GlyphEntry) -> (u32, u32, Vec<u8>, i32, i32) {
    (entry.width(), entry.height(), entry.coverage().to_vec(), entry.advance_x(), entry.advance_y())
}

#[test]
fn font_needs_a_cell() {
    assert!(Font::new(0, 4).is_none());
    assert!(Font::new(4, 0).is_none());
    assert!(Font::new(1, 1).is_some());
}

#[test]
fn add_glyph_checks_length_and_duplicates() {
    let mut font = Font::new(2, 3).unwrap();
    assert!(!font.add_glyph('x', 1, vec![0; 5]));
    assert!(!font.add_glyph('x', 1, vec![0; 7]));
    assert!(!font.has_glyph('x'));
    assert!(font.add_glyph('x', 1, vec![0; 6]));
    assert!(font.has_glyph('x'));
    assert!(!font.add_glyph('x', 9, vec![255; 6]));
    assert!(font.add_glyph('y', 1, vec![255; 6]));
    // the first glyph for 'x' is the one that stays
    assert_eq!(font.rasterize(3, 'x').unwrap().coverage(), &[0u8; 6][..]);
}

#[test]
fn rasterize_at_the_size_of_the_cell() {
    let entry = sample_font().rasterize(2, 'A').unwrap();
    assert_eq!(parts(&entry), (2, 2, vec![255, 0, 128, 64], 512, 0));
    let entry = sample_font().rasterize(2, 'B').unwrap();
    assert_eq!(parts(&entry), (2, 2, vec![1, 2, 3, 4], 768, 0));
}

#[test]
fn rasterize_twice_the_size() {
    let entry = sample_font().rasterize(4, 'A').unwrap();
    assert_eq!(
        parts(&entry),
        (
            4,
            4,
            vec![255, 255, 0, 0, 255, 255, 0, 0, 128, 128, 64, 64, 128, 128, 64, 64],
            1024,
            0
        )
    );
}

#[test]
fn rasterize_at_odd_sizes() {
    let entry = sample_font().rasterize(3, 'A').unwrap();
    assert_eq!(parts(&entry), (3, 3, vec![255, 255, 0, 255, 255, 0, 128, 128, 64], 768, 0));
    let entry = sample_font().rasterize(1, 'A').unwrap();
    assert_eq!(parts(&entry), (1, 1, vec![255], 256, 0));
    let entry = sample_font().rasterize(0, 'A').unwrap();
    assert_eq!(parts(&entry), (0, 0, vec![], 0, 0));
}

#[test]
fn rasterize_a_cell_that_is_not_square() {
    let mut font = Font::new(3, 2).unwrap();
    assert!(font.add_glyph('n', 3, vec![10, 20, 30, 40, 50, 60]));
    let entry = font.rasterize(4, 'n').unwrap();
    assert_eq!(entry.width(), 6);
    assert_eq!(entry.height(), 4);
    assert_eq!(
        entry.coverage(),
        &[
            10, 10, 20, 20, 30, 30, 10, 10, 20, 20, 30, 30, 40, 40, 50, 50, 60, 60, 40, 40, 50, 50,
            60, 60
        ][..]
    );
    assert_eq!(entry.advance_x(), 3 * 4 * 256 / 2);
    // at size 1 the width is 3 / 2, rounded down
    let entry = font.rasterize(1, 'n').unwrap();
    assert_eq!(parts(&entry), (1, 1, vec![10], 384, 0));
    assert_eq!(entry.coverage_at(0, 0), 10);
}

#[test]
fn rasterize_reports_a_missing_glyph() {
    assert_eq!(sample_font().rasterize(2, 'C').err(), Some(GlyphError::MissingGlyph('C')));
}

#[test]
fn rasterize_refuses_a_mask_that_is_too_large() {
    assert_eq!(MAX_MASK_PIXELS, 16_777_216);
    let mut font = Font::new(2, 1).unwrap();
    assert!(font.add_glyph('w', 1, vec![7, 9]));
    // 8192 * 4096 pixels
    assert_eq!(font.rasterize(4096, 'w').err(), Some(GlyphError::MaskTooLarge));
    // 4096 * 2048 pixels: half the limit
    let entry = font.rasterize(2048, 'w').unwrap();
    assert_eq!(entry.width(), 4096);
    assert_eq!(entry.height(), 2048);
    assert_eq!(entry.coverage_at(2047, 5), 7);
    assert_eq!(entry.coverage_at(2048, 2047), 9);
    // a missing glyph is reported before the size
    assert_eq!(font.rasterize(4096, 'v').err(), Some(GlyphError::MissingGlyph('v')));
}

#[test]
fn advance_saturates() {
    let mut font = Font::new(1, 1).unwrap();
    assert!(font.add_glyph('m', 65535, vec![1]));
    let entry = font.rasterize(4096, 'm').unwrap();
    assert_eq!(entry.advance_x(), i32::MAX);
    let entry = font.rasterize(2, 'm').unwrap();
    assert_eq!(entry.advance_x(), 65535 * 2 * 256);
}

#[test]
fn entry_new_checks_the_length() {
    assert!(GlyphEntry::new(2, 3, vec![0; 5], 0, 0).is_none());
    assert!(GlyphEntry::new(2, 3, vec![0; 7], 0, 0).is_none());
    let entry = GlyphEntry::new(2, 3, vec![1, 2, 3, 4, 5, 6], -7, 9).unwrap();
    assert_eq!(parts(&entry), (2, 3, vec![1, 2, 3, 4, 5, 6], -7, 9));
    assert_eq!(entry.coverage_at(1, 2), 6);
    assert_eq!(entry.coverage_at(0, 1), 3);
    assert_eq!(parts(&entry.clone()), parts(&entry));
    assert!(GlyphEntry::new(0, 0, Vec::new(), 0, 0).is_some());
}

#[test]
fn keys_pack_into_distinct_numbers() {
    let key = GlyphKey { font: 1, size: 2, ch: 'A' };
    assert_eq!(key.pack(), (1u64 << 48) + (2u64 << 32) + 65);
    let top = GlyphKey { font: u16::MAX, size: u16::MAX, ch: char::MAX };
    assert_eq!(top.pack(), 0xffff_ffff_0010_ffff);
    assert_ne!(GlyphKey { font: 0, size: 1, ch: 'A' }.pack(), GlyphKey { font: 1, size: 0, ch: 'A' }.pack());
}

#[test]
fn cache_registers_fonts_in_order() {
    let mut cache = GlyphCache::new();
    assert_eq!(cache.font_count(), 0);
    assert_eq!(cache.add_font(sample_font()), Some(0));
    assert_eq!(cache.add_font(Font::new(1, 1).unwrap()), Some(1));
    assert_eq!(cache.font_count(), 2);
    assert_eq!(cache.len(), 0);
}

#[test]
fn get_or_rasterize_twice_is_identical() {
    let mut cache = GlyphCache::new();
    let font = cache.add_font(sample_font()).unwrap();
    assert!(!cache.contains(font, 4, 'A'));
    let first = cache.get_or_rasterize(font, 4, 'A').unwrap();
    assert!(cache.contains(font, 4, 'A'));
    assert_eq!(cache.len(), 1);
    let second = cache.get_or_rasterize(font, 4, 'A').unwrap();
    assert_eq!(cache.len(), 1);
    assert_eq!(parts(&first), parts(&second));
    assert_eq!(parts(&first), parts(&sample_font().rasterize(4, 'A').unwrap()));
}

#[test]
fn cache_keeps_one_entry_per_key() {
    let mut cache = GlyphCache::new();
    let font = cache.add_font(sample_font()).unwrap();
    let other = cache.add_font(sample_font()).unwrap();
    cache.get_or_rasterize(font, 4, 'A').unwrap();
    cache.get_or_rasterize(font, 3, 'A').unwrap();
    cache.get_or_rasterize(font, 4, 'B').unwrap();
    cache.get_or_rasterize(other, 4, 'A').unwrap();
    cache.get_or_rasterize(font, 4, 'A').unwrap();
    assert_eq!(cache.len(), 4);
    assert_eq!(cache.get_or_rasterize(font, 3, 'A').unwrap().width(), 3);
    assert_eq!(cache.get_or_rasterize(font, 4, 'B').unwrap().advance_x(), 1536);
}

#[test]
fn cache_reports_failures_and_does_not_keep_them() {
    let mut cache = GlyphCache::new();
    let font = cache.add_font(sample_font()).unwrap();
    assert_eq!(cache.get_or_rasterize(font, 4, 'z').err(), Some(GlyphError::MissingGlyph('z')));
    assert_eq!(cache.get_or_rasterize(7, 4, 'A').err(), Some(GlyphError::UnknownFont(7)));
    assert_eq!(cache.get_or_rasterize(font, 65535, 'A').err(), Some(GlyphError::MaskTooLarge));
    assert_eq!(cache.len(), 0);
    assert!(!cache.contains(font, 4, 'z'));
    assert!(!cache.contains(7, 4, 'A'));
}

#[test]
fn evicted_glyph_comes_back_identical() {
    let mut cache = GlyphCache::new();
    let font = cache.add_font(sample_font()).unwrap();
    let first = cache.get_or_rasterize(font, 3, 'A').unwrap();
    cache.get_or_rasterize(font, 3, 'B').unwrap();
    assert!(cache.evict(font, 3, 'A'));
    assert!(!cache.evict(font, 3, 'A'));
    assert!(!cache.evict(font, 9, 'A'));
    assert!(!cache.contains(font, 3, 'A'));
    assert!(cache.contains(font, 3, 'B'));
    assert_eq!(cache.len(), 1);
    let again = cache.get_or_rasterize(font, 3, 'A').unwrap();
    assert_eq!(parts(&first), parts(&again));
    assert_eq!(cache.len(), 2);
}

#[test]
fn clear_drops_entries_and_keeps_fonts() {
    let mut cache = GlyphCache::new();
    let font = cache.add_font(sample_font()).unwrap();
    cache.get_or_rasterize(font, 3, 'A').unwrap();
    cache.get_or_rasterize(font, 5, 'A').unwrap();
    cache.clear();
    assert_eq!(cache.len(), 0);
    assert_eq!(cache.font_count(), 1);
    assert!(!cache.contains(font, 3, 'A'));
    assert_eq!(cache.get_or_rasterize(font, 3, 'A').unwrap().width(), 3);
}

#[test]
fn later_fonts_leave_earlier_glyphs_alone() {
    let mut cache = GlyphCache::new();
    let font = cache.add_font(sample_font()).unwrap();
    let first = cache.get_or_rasterize(font, 2, 'A').unwrap();
    let mut other = Font::new(2, 2).unwrap();
    assert!(other.add_glyph('A', 1, vec![9, 9, 9, 9]));
    let second_font = cache.add_font(other).unwrap();
    assert!(cache.evict(font, 2, 'A'));
    assert_eq!(parts(&cache.get_or_rasterize(font, 2, 'A').unwrap()), parts(&first));
    assert_eq!(
        parts(&cache.get_or_rasterize(second_font, 2, 'A').unwrap()),
        (2, 2, vec![9, 9, 9, 9], 256, 0)
    );
}
