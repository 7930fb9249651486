use monochroma::{Biterator, Bitmap, ModeCopy, ModeOr, ModeXor, Rectangle};

#[test]
fn basic_biterator() {
    let in_bits = [0x01234567, 0x89ABCDEF];
    assert_eq!(
        Biterator::new(&in_bits, 0, 4).collect_words(),
        &[0x12345678, 0x9ABCDEF0],
    );
    assert_eq!(
        Biterator::new(&in_bits, 4, 0).collect_words(),
        &[0x00123456, 0x789ABCDE, 0xF0000000],
    );
    assert_eq!(
        Biterator::new(&in_bits, 4, 8).collect_words(),
        &[0x02345678, 0x9ABCDEF0],
    );
}

#[test]
fn biterator_single_word() {
    let in_bits = [0xF000000F];
    assert_eq!(Biterator::new(&in_bits, 0, 4).collect_words(), &[0x000000F0]);
    assert_eq!(
        Biterator::new(&in_bits, 8, 0).collect_words(),
        &[0x00F00000, 0x0F000000]
    );
}

#[test]
fn biterator_next_ends_with_none() {
    let in_bits = [0xFFFFFFFF];
    let mut it = Biterator::new(&in_bits, 31, 0);
    assert_eq!(it.next(), Some(0x00000001));
    assert_eq!(it.next(), Some(0xFFFFFFFE));
    assert_eq!(it.next(), None);
    assert_eq!(it.next(), None);
}

fn pixel(bm: &Bitmap, x: u32, y: u32) -> bool {
    let rb = (bm.get_width() + 7) / 8;
    let bytes = bm.to_bytes();
    let b = bytes[(y * rb + x / 8) as usize];
    (b >> (7 - x % 8)) & 1 == 1
}

/// A deterministic pseudo-random bitmap.
fn noise(width: u32, height: u32, seed: u32) -> Bitmap {
    let rb = ((width + 7) / 8) as usize;
    let mut state = seed.wrapping_mul(2654435761).wrapping_add(12345);
    let mut bytes = Vec::new();
    for _ in 0..rb * height as usize {
        state ^= state << 13;
        state ^= state >> 17;
        state ^= state << 5;
        bytes.push((state >> 8) as u8);
    }
    Bitmap::from_bytes(width, height, &bytes)
}

#[test]
fn blit_round_trip_reproduces_source() {
    for &width in &[1u32, 7, 31, 32, 33, 40, 64, 70, 96, 100] {
        let src = noise(width, 5, width);
        let mut dst = Bitmap::new(width, 5);
        dst.blit_bits(ModeCopy(()), None, &src, None, 0, 0);
        for y in 0..5 {
            for x in 0..width {
                assert_eq!(pixel(&dst, x, y), pixel(&src, x, y), "width {} at ({}, {})", width, x, y);
            }
        }
        if width % 8 == 0 {
            assert_eq!(dst.to_bytes(), src.to_bytes());
        }
    }
}

/// Reference copy, one pixel at a time.
fn naive_blit(dst: &Bitmap, src: &Bitmap, sx: u32, sy: u32, w: u32, h: u32, dx: u32, dy: u32) -> Vec<Vec<bool>> {
    let mut out = Vec::new();
    for y in 0..dst.get_height() {
        let mut row = Vec::new();
        for x in 0..dst.get_width() {
            if x >= dx && x < dx + w && y >= dy && y < dy + h {
                row.push(pixel(src, sx + x - dx, sy + y - dy));
            } else {
                row.push(pixel(dst, x, y));
            }
        }
        out.push(row);
    }
    out
}

fn pixels(bm: &Bitmap) -> Vec<Vec<bool>> {
    (0..bm.get_height())
        .map(|y| (0..bm.get_width()).map(|x| pixel(bm, x, y)).collect())
        .collect()
}

#[test]
fn blit_matches_per_pixel_copy_for_every_alignment() {
    let src = noise(100, 4, 7);
    for src_left in [0u32, 3, 32, 45] {
        for dst_left in 0u32..40 {
            for w in [1u32, 5, 27, 32, 40] {
                let base = noise(90, 6, dst_left + 100 * w);
                let mut dst = base.clone();
                let rect = Rectangle {
                    left: src_left as i32,
                    top: 1,
                    right: (src_left + w) as i32,
                    bottom: 4,
                };
                dst.blit_bits(ModeCopy(()), None, &src, Some(rect), dst_left as i32, 2);
                let expected = naive_blit(&base, &src, src_left, 1, w, 3, dst_left, 2);
                assert_eq!(pixels(&dst), expected, "src_left {} dst_left {} w {}", src_left, dst_left, w);
            }
        }
    }
}

#[test]
fn blit_clips_against_destination_edges() {
    let src = noise(20, 20, 3);
    let base = Bitmap::new(16, 16);
    let mut dst = base.clone();
    dst.blit_bits(ModeCopy(()), None, &src, None, -5, -3);
    // source pixel (x + 5, y + 3) lands at (x, y); the source ends at x = 19
    let expected = naive_blit(&base, &src, 5, 3, 15, 16, 0, 0);
    assert_eq!(pixels(&dst), expected);
}

#[test]
fn blit_honours_clip_rectangle() {
    let src = noise(40, 10, 11);
    let base = noise(40, 10, 12);
    let mut dst = base.clone();
    let clip = Rectangle { left: 10, top: 2, right: 30, bottom: 6 };
    dst.blit_bits(ModeCopy(()), Some(clip), &src, None, 0, 0);
    let expected = naive_blit(&base, &src, 10, 2, 20, 4, 10, 2);
    assert_eq!(pixels(&dst), expected);
}

#[test]
fn blit_clip_with_nonzero_origin_still_copies() {
    let src = noise(8, 8, 5);
    let base = Bitmap::new(64, 64);
    let mut dst = base.clone();
    let clip = Rectangle { left: 40, top: 40, right: 64, bottom: 64 };
    dst.blit_bits(ModeCopy(()), Some(clip), &src, None, 50, 50);
    let expected = naive_blit(&base, &src, 0, 0, 8, 8, 50, 50);
    assert_eq!(pixels(&dst), expected);
}

#[test]
fn blit_negative_source_origin_moves_destination() {
    let src = noise(10, 10, 21);
    let base = Bitmap::new(30, 30);
    let mut dst = base.clone();
    let rect = Rectangle { left: -4, top: -2, right: 6, bottom: 8 };
    dst.blit_bits(ModeCopy(()), None, &src, Some(rect), 10, 10);
    let expected = naive_blit(&base, &src, 0, 0, 6, 8, 14, 12);
    assert_eq!(pixels(&dst), expected);
}

#[test]
fn blit_entirely_outside_is_a_no_op() {
    let src = noise(10, 10, 2);
    let base = noise(20, 20, 9);
    let mut dst = base.clone();
    dst.blit_bits(ModeCopy(()), None, &src, None, 20, 0);
    dst.blit_bits(ModeCopy(()), None, &src, None, 0, 25);
    dst.blit_bits(ModeCopy(()), None, &src, None, -10, 0);
    dst.blit_bits(ModeCopy(()), None, &src, None, i32::MIN, i32::MAX);
    assert_eq!(dst.to_bytes(), base.to_bytes());
}

#[test]
fn blit_or_and_xor_modes_combine() {
    let src = Bitmap::from_bytes(8, 1, &[0b1100_1100]);
    let mut dst = Bitmap::from_bytes(8, 1, &[0b1010_1010]);
    dst.blit_bits(ModeOr(()), None, &src, None, 0, 0);
    assert_eq!(dst.to_bytes(), vec![0b1110_1110]);
    dst.blit_bits(ModeXor(()), None, &src, None, 0, 0);
    assert_eq!(dst.to_bytes(), vec![0b0010_0010]);
}

#[test]
fn blit_at_extreme_coordinates_keeps_correspondence() {
    let src = noise(12, 6, 31);
    let base = Bitmap::new(40, 10);
    let mut dst = base.clone();
    // the rectangle's left edge at i32::MIN lands at i32::MIN + 5, so source
    // pixel x lands at x + 5
    let rect = Rectangle { left: i32::MIN, top: i32::MIN, right: i32::MAX, bottom: i32::MAX };
    dst.blit_bits(ModeCopy(()), None, &src, Some(rect), i32::MIN + 5, i32::MIN + 2);
    let expected = naive_blit(&base, &src, 0, 0, 12, 6, 5, 2);
    assert_eq!(pixels(&dst), expected);
}
