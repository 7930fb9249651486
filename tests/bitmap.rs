use monochroma::{get_word_pitch, Bitmap, Pattern, Rectangle};

#[test]
fn word_pitch_rounds_up() {
    assert_eq!(get_word_pitch(0), 0);
    assert_eq!(get_word_pitch(1), 1);
    assert_eq!(get_word_pitch(32), 1);
    assert_eq!(get_word_pitch(33), 2);
    assert_eq!(get_word_pitch(u32::MAX), 134217728);
}

#[test]
fn new_bitmap_is_blank() {
    let bm = Bitmap::new(37, 3);
    assert_eq!(bm.get_width(), 37);
    assert_eq!(bm.get_height(), 3);
    assert_eq!(bm.to_bytes(), vec![0u8; 15]);
    assert_eq!(bm.get_bounds(), Rectangle { left: 0, top: 0, right: 37, bottom: 3 });
}

#[test]
fn bytes_round_trip() {
    let bytes: Vec<u8> = (0u8..30).map(|b| b.wrapping_mul(37)).collect();
    let bm = Bitmap::from_bytes(40, 6, &bytes);
    assert_eq!(bm.to_bytes(), bytes);
}

#[test]
fn zero_width_bitmap_has_no_bytes() {
    let bm = Bitmap::from_bytes(0, 4, &[]);
    assert_eq!(bm.to_bytes(), Vec::<u8>::new());
}

#[test]
fn pattern_bytes_round_trip() {
    let bytes = [0x01, 0x80, 0xFF, 0x00, 0x55, 0xAA, 0x0F, 0xF0];
    assert_eq!(Pattern::from_bytes(&bytes).to_bytes(), bytes);
    assert_eq!(Pattern::medium_gray().to_bytes(), [0xAA, 0x55, 0xAA, 0x55, 0xAA, 0x55, 0xAA, 0x55]);
    assert_eq!(Pattern::light_gray().to_bytes(), [0x88, 0x22, 0x88, 0x22, 0x88, 0x22, 0x88, 0x22]);
    assert_eq!(Pattern::dark_gray().to_bytes(), [0x77, 0xDD, 0x77, 0xDD, 0x77, 0xDD, 0x77, 0xDD]);
}
