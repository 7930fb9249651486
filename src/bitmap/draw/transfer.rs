use vstd::prelude::*;

use crate::bitmap::BitmapWord;
use crate::bitmap::draw::pattern::PatternTrait;

verus! {

/// Any means of combining source and destination bits.
///
/// Implemented by the `Mode` types, where `p` is the new bits masked by the
/// pattern word:
/// - `ModeCopy` = `p`
/// - `ModeInverseCopy` = `!p`
/// - `ModeAnd` = `p & existing`
/// - `ModeInverseAnd` = `!p & existing` (also known as "bit clear")
/// - `ModeOr` = `p | existing`
/// - `ModeInverseOr` = `!p | existing`
/// - `ModeXor` = `p ^ existing`
/// - `ModeInverseXor` = `!p ^ existing`
///
/// Each takes a `Pattern` to combine with the bits, or `()` to use the bits
/// directly.
pub trait TransferMode {
    /// The word that results from combining `new` into `existing` at word
    /// index `i` of row `y`.
    spec fn combine_spec(&self, new: u32, existing: u32, i: u32, y: u32) -> u32;

    fn combine(&self, new: BitmapWord, existing: BitmapWord, word_index: u32, y: u32) -> (r:
        BitmapWord)
        ensures
            r == self.combine_spec(new, existing, word_index, y),
    ;
}

impl<T: TransferMode> TransferMode for &T {
    open spec fn combine_spec(&self, new: u32, existing: u32, i: u32, y: u32) -> u32 {
        T::combine_spec(*self, new, existing, i, y)
    }

    fn combine(&self, new: BitmapWord, existing: BitmapWord, word_index: u32, y: u32) -> (r:
        BitmapWord) {
        T::combine(*self, new, existing, word_index, y)
    }
}

/// Simply overwrite the existing bits.
pub struct ModeCopy<Pattern: PatternTrait>(pub Pattern);

impl<Pattern: PatternTrait> TransferMode for ModeCopy<Pattern> {
    open spec fn combine_spec(&self, new: u32, existing: u32, i: u32, y: u32) -> u32 {
        new & self.0.pattern_word(i, y)
    }

    fn combine(&self, new: BitmapWord, existing: BitmapWord, i: u32, y: u32) -> (r: BitmapWord) {
        new & self.0.get_pattern_word(i, y)
    }
}

/// Simply overwrite the existing bits with the *inversion* of the new bits.
pub struct ModeInverseCopy<Pattern: PatternTrait>(pub Pattern);

impl<Pattern: PatternTrait> TransferMode for ModeInverseCopy<Pattern> {
    open spec fn combine_spec(&self, new: u32, existing: u32, i: u32, y: u32) -> u32 {
        !(new & self.0.pattern_word(i, y))
    }

    fn combine(&self, new: BitmapWord, existing: BitmapWord, i: u32, y: u32) -> (r: BitmapWord) {
        !(new & self.0.get_pattern_word(i, y))
    }
}

/// Bitwise AND. Results in a set pixel when the new AND existing pixel are
/// set.
pub struct ModeAnd<Pattern: PatternTrait>(pub Pattern);

impl<Pattern: PatternTrait> TransferMode for ModeAnd<Pattern> {
    open spec fn combine_spec(&self, new: u32, existing: u32, i: u32, y: u32) -> u32 {
        (new & self.0.pattern_word(i, y)) & existing
    }

    fn combine(&self, new: BitmapWord, existing: BitmapWord, i: u32, y: u32) -> (r: BitmapWord) {
        (new & self.0.get_pattern_word(i, y)) & existing
    }
}

/// Bitwise AND with inverted input. Results in a set pixel when the new pixel
/// is clear AND the existing pixel is set. (The "bit clear" transfer mode.)
pub struct ModeInverseAnd<Pattern: PatternTrait>(pub Pattern);

impl<Pattern: PatternTrait> TransferMode for ModeInverseAnd<Pattern> {
    open spec fn combine_spec(&self, new: u32, existing: u32, i: u32, y: u32) -> u32 {
        !(new & self.0.pattern_word(i, y)) & existing
    }

    fn combine(&self, new: BitmapWord, existing: BitmapWord, i: u32, y: u32) -> (r: BitmapWord) {
        !(new & self.0.get_pattern_word(i, y)) & existing
    }
}

/// Bitwise OR. Results in a set pixel when the new OR existing pixel are
/// set.
pub struct ModeOr<Pattern: PatternTrait>(pub Pattern);

impl<Pattern: PatternTrait> TransferMode for ModeOr<Pattern> {
    open spec fn combine_spec(&self, new: u32, existing: u32, i: u32, y: u32) -> u32 {
        (new & self.0.pattern_word(i, y)) | existing
    }

    fn combine(&self, new: BitmapWord, existing: BitmapWord, i: u32, y: u32) -> (r: BitmapWord) {
        (new & self.0.get_pattern_word(i, y)) | existing
    }
}

/// Bitwise OR with inverted input. Results in a set pixel when the new pixel
/// is clear OR the existing pixel is set.
pub struct ModeInverseOr<Pattern: PatternTrait>(pub Pattern);

impl<Pattern: PatternTrait> TransferMode for ModeInverseOr<Pattern> {
    open spec fn combine_spec(&self, new: u32, existing: u32, i: u32, y: u32) -> u32 {
        !(new & self.0.pattern_word(i, y)) | existing
    }

    fn combine(&self, new: BitmapWord, existing: BitmapWord, i: u32, y: u32) -> (r: BitmapWord) {
        !(new & self.0.get_pattern_word(i, y)) | existing
    }
}

/// Bitwise XOR. Results in a set pixel when the new and existing pixels are
/// different.
pub struct ModeXor<Pattern: PatternTrait>(pub Pattern);

impl<Pattern: PatternTrait> TransferMode for ModeXor<Pattern> {
    open spec fn combine_spec(&self, new: u32, existing: u32, i: u32, y: u32) -> u32 {
        (new & self.0.pattern_word(i, y)) ^ existing
    }

    fn combine(&self, new: BitmapWord, existing: BitmapWord, i: u32, y: u32) -> (r: BitmapWord) {
        (new & self.0.get_pattern_word(i, y)) ^ existing
    }
}

/// Bitwise XOR with inverted input. Results in a set pixel when the new and
/// existing pixels are the same.
pub struct ModeInverseXor<Pattern: PatternTrait>(pub Pattern);

impl<Pattern: PatternTrait> TransferMode for ModeInverseXor<Pattern> {
    open spec fn combine_spec(&self, new: u32, existing: u32, i: u32, y: u32) -> u32 {
        !(new & self.0.pattern_word(i, y)) ^ existing
    }

    fn combine(&self, new: BitmapWord, existing: BitmapWord, i: u32, y: u32) -> (r: BitmapWord) {
        !(new & self.0.get_pattern_word(i, y)) ^ existing
    }
}

} // verus!
