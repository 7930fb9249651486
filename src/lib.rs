//! Processing of monochrome (one bit per pixel) bitmapped graphics: packed
//! bitmaps, rectangle geometry, and clipped, masked transfer operations
//! (fill, stroke and blit) under a choice of boolean transfer modes and
//! repeating 8x8 patterns.
pub mod bitmap;
pub mod rectangle;

pub use bitmap::draw::blit::Biterator;
pub use bitmap::draw::pattern::{Pattern, PatternTrait};
pub use bitmap::draw::transfer::{
    ModeAnd, ModeCopy, ModeInverseAnd, ModeInverseCopy, ModeInverseOr, ModeInverseXor, ModeOr,
    ModeXor, TransferMode,
};
pub use bitmap::{get_word_pitch, Bitmap, BitmapWord, BITMAP_WORD_BITS, BITMAP_WORD_BYTES};
pub use rectangle::Rectangle;
