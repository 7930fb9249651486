use monochroma::{
    Bitmap, ModeAnd, ModeCopy, ModeInverseAnd, ModeInverseCopy, ModeInverseOr, ModeInverseXor,
    ModeOr, ModeXor, Pattern, Rectangle,
};

fn rect(left: i32, top: i32, right: i32, bottom: i32) -> Rectangle {
    Rectangle { left, top, right, bottom }
}

fn noise(width: u32, height: u32, seed: u32) -> Bitmap {
    let rb = ((width + 7) / 8) as usize;
    let mut state = seed.wrapping_mul(2654435761).wrapping_add(777);
    let mut bytes = Vec::new();
    for _ in 0..rb * height as usize {
        state ^= state << 13;
        state ^= state >> 17;
        state ^= state << 5;
        bytes.push((state >> 8) as u8);
    }
    Bitmap::from_bytes(width, height, &bytes)
}

fn pixel(bm: &Bitmap, x: u32, y: u32) -> bool {
    let rb = (bm.get_width() + 7) / 8;
    let b = bm.to_bytes()[(y * rb + x / 8) as usize];
    (b >> (7 - x % 8)) & 1 == 1
}

#[test]
fn fill_sets_exactly_the_rectangle() {
    let mut bm = Bitmap::new(80, 6);
    bm.fill_rect(ModeCopy(()), None, rect(5, 1, 70, 4));
    for y in 0..6 {
        for x in 0..80 {
            let inside = (5..70).contains(&x) && (1..4).contains(&y);
            assert_eq!(pixel(&bm, x, y), inside, "({}, {})", x, y);
        }
    }
}

#[test]
fn fill_within_one_word() {
    let mut bm = Bitmap::new(16, 1);
    bm.fill_rect(ModeCopy(()), None, rect(3, 0, 6, 1));
    assert_eq!(bm.to_bytes(), vec![0b0001_1100, 0]);
}

#[test]
fn fill_copy_twice_equals_once() {
    let base = noise(70, 9, 1);
    let r = rect(3, 2, 66, 8);
    let mut once = base.clone();
    once.fill_rect(ModeCopy(Pattern::medium_gray()), None, r);
    let mut twice = once.clone();
    twice.fill_rect(ModeCopy(Pattern::medium_gray()), None, r);
    assert_eq!(once.to_bytes(), twice.to_bytes());
}

#[test]
fn fill_xor_twice_restores() {
    let base = noise(70, 9, 2);
    let r = rect(-5, 1, 50, 20);
    let mut bm = base.clone();
    bm.fill_rect(ModeXor(()), None, r);
    assert_ne!(bm.to_bytes(), base.to_bytes());
    bm.fill_rect(ModeXor(()), None, r);
    assert_eq!(bm.to_bytes(), base.to_bytes());
}

#[test]
fn fill_outside_clip_changes_nothing() {
    let base = noise(64, 8, 3);
    let mut bm = base.clone();
    bm.fill_rect(ModeCopy(()), Some(rect(0, 0, 10, 10)), rect(20, 0, 40, 8));
    bm.fill_rect(ModeInverseCopy(()), Some(rect(0, 0, 64, 3)), rect(0, 4, 64, 8));
    assert_eq!(bm.to_bytes(), base.to_bytes());
}

#[test]
fn fill_is_clipped() {
    let mut bm = Bitmap::new(16, 2);
    bm.fill_rect(ModeCopy(()), Some(rect(4, 0, 12, 1)), rect(0, 0, 16, 2));
    assert_eq!(bm.to_bytes(), vec![0x0F, 0xF0, 0, 0]);
}

#[test]
fn fill_with_pattern_follows_rows() {
    let mut bm = Bitmap::new(8, 2);
    bm.fill_rect(ModeCopy(Pattern::medium_gray()), None, rect(0, 0, 8, 2));
    assert_eq!(bm.to_bytes(), vec![0xAA, 0x55]);
}

#[test]
fn every_mode_combines_as_documented() {
    let existing = 0b1100_1100u8;
    let cases: Vec<(u8, Box<dyn Fn(&mut Bitmap)>)> = vec![
        (0xFF, Box::new(|b: &mut Bitmap| b.fill_rect(ModeCopy(()), None, rect(0, 0, 8, 1)))),
        (0x00, Box::new(|b: &mut Bitmap| b.fill_rect(ModeInverseCopy(()), None, rect(0, 0, 8, 1)))),
        (0xCC, Box::new(|b: &mut Bitmap| b.fill_rect(ModeAnd(()), None, rect(0, 0, 8, 1)))),
        (0x00, Box::new(|b: &mut Bitmap| b.fill_rect(ModeInverseAnd(()), None, rect(0, 0, 8, 1)))),
        (0xFF, Box::new(|b: &mut Bitmap| b.fill_rect(ModeOr(()), None, rect(0, 0, 8, 1)))),
        (0xCC, Box::new(|b: &mut Bitmap| b.fill_rect(ModeInverseOr(()), None, rect(0, 0, 8, 1)))),
        (0x33, Box::new(|b: &mut Bitmap| b.fill_rect(ModeXor(()), None, rect(0, 0, 8, 1)))),
        (0xCC, Box::new(|b: &mut Bitmap| b.fill_rect(ModeInverseXor(()), None, rect(0, 0, 8, 1)))),
    ];
    for (expected, op) in cases {
        let mut bm = Bitmap::from_bytes(8, 1, &[existing]);
        op(&mut bm);
        assert_eq!(bm.to_bytes(), vec![expected]);
    }
}

#[test]
fn stroke_too_thick_is_a_fill() {
    let base = noise(40, 12, 4);
    let r = rect(2, 1, 30, 11);
    let mut stroked = base.clone();
    stroked.stroke_rect(ModeXor(()), None, r, 14, 1);
    let mut filled = base.clone();
    filled.fill_rect(ModeXor(()), None, r);
    assert_eq!(stroked.to_bytes(), filled.to_bytes());
    let mut stroked = base.clone();
    stroked.stroke_rect(ModeXor(()), None, r, 1, u32::MAX);
    assert_eq!(stroked.to_bytes(), filled.to_bytes());
}

#[test]
fn stroke_draws_a_border_once() {
    let mut bm = Bitmap::new(8, 6);
    bm.stroke_rect(ModeXor(()), None, rect(1, 1, 7, 5), 1, 1);
    assert_eq!(
        bm.to_bytes(),
        vec![0x00, 0b0111_1110, 0b0100_0010, 0b0100_0010, 0b0111_1110, 0x00]
    );
}
