use vstd::prelude::*;

use crate::bitmap::{be_word, BitmapWord};

verus! {

/// A screen-aligned pattern of bits that can be applied to any draw mode.
/// Implemented by `()` (no pattern), `Pattern` (an 8x8 pattern), and
/// whatever else a user wants.
pub trait PatternTrait {
    /// The pattern bits for word index `i` of row `y`.
    spec fn pattern_word(&self, i: u32, y: u32) -> u32;

    /// Returns the pattern bits for the given word index `i` and row `y`.
    fn get_pattern_word(&self, i: u32, y: u32) -> (r: BitmapWord)
        ensures
            r == self.pattern_word(i, y),
    ;
}

impl<T: PatternTrait> PatternTrait for &T {
    open spec fn pattern_word(&self, i: u32, y: u32) -> u32 {
        T::pattern_word(*self, i, y)
    }

    fn get_pattern_word(&self, i: u32, y: u32) -> (r: BitmapWord) {
        T::get_pattern_word(*self, i, y)
    }
}

/// No pattern: every bit passes.
impl PatternTrait for () {
    open spec fn pattern_word(&self, i: u32, y: u32) -> u32 {
        !0u32
    }

    fn get_pattern_word(&self, i: u32, y: u32) -> (r: BitmapWord) {
        !0u32
    }
}

/// A byte repeated in all four bytes of a word.
pub open spec fn broadcast_byte(x: u8) -> u32 {
    be_word(x, x, x, x)
}

/// A screen-aligned 8x8 pattern that can be applied to any draw operation.
pub struct Pattern {
    words: [BitmapWord; 8],
}

impl View for Pattern {
    type V = Seq<u32>;

    /// The eight row words; row `y` of the screen uses word `y % 8`.
    closed spec fn view(&self) -> Seq<u32> {
        self.words@
    }
}

impl Pattern {
    fn broadcast(x: u8) -> (r: u32)
        ensures
            r == broadcast_byte(x),
    {
        ((x as u32) << 24u32) | ((x as u32) << 16u32) | ((x as u32) << 8u32) | (x as u32)
    }

    /// Create a pattern from an 8x8 bitmap composed of bytes, one byte per
    /// row, each byte repeated across the whole word.
    pub fn from_bytes(bytes: &[u8; 8]) -> (r: Pattern)
        ensures
            r@ == Seq::new(8, |k: int| broadcast_byte(bytes@[k])),
    {
        let r = Pattern {
            words: [
                Pattern::broadcast(bytes[0]),
                Pattern::broadcast(bytes[1]),
                Pattern::broadcast(bytes[2]),
                Pattern::broadcast(bytes[3]),
                Pattern::broadcast(bytes[4]),
                Pattern::broadcast(bytes[5]),
                Pattern::broadcast(bytes[6]),
                Pattern::broadcast(bytes[7]),
            ],
        };
        assert(r@ =~= Seq::new(8, |k: int| broadcast_byte(bytes@[k])));
        r
    }

    /// Return this pattern as a 8x8 bitmap composed of bytes: the low byte of
    /// each row word.
    pub fn to_bytes(&self) -> (r: [u8; 8])
        ensures
            r@ == Seq::new(8, |k: int| (self@[k] & 0xff) as u8),
    {
        let r = [
            (self.words[0] & 0xff) as u8,
            (self.words[1] & 0xff) as u8,
            (self.words[2] & 0xff) as u8,
            (self.words[3] & 0xff) as u8,
            (self.words[4] & 0xff) as u8,
            (self.words[5] & 0xff) as u8,
            (self.words[6] & 0xff) as u8,
            (self.words[7] & 0xff) as u8,
        ];
        assert(r@ =~= Seq::new(8, |k: int| (self@[k] & 0xff) as u8));
        r
    }

    /// A pattern where 50% of pixels are set.
    pub fn medium_gray() -> (r: Pattern)
        ensures
            r@ == seq![
                0xAAAAAAAAu32,
                0x55555555,
                0xAAAAAAAA,
                0x55555555,
                0xAAAAAAAA,
                0x55555555,
                0xAAAAAAAA,
                0x55555555,
            ],
    {
        let r = Pattern {
            words: [
                0xAAAAAAAA,
                0x55555555,
                0xAAAAAAAA,
                0x55555555,
                0xAAAAAAAA,
                0x55555555,
                0xAAAAAAAA,
                0x55555555,
            ],
        };
        assert(r@ =~= seq![0xAAAAAAAAu32, 0x55555555, 0xAAAAAAAA, 0x55555555, 0xAAAAAAAA, 0x55555555, 0xAAAAAAAA, 0x55555555]);
        r
    }

    /// A pattern where 25% of pixels are set.
    pub fn light_gray() -> (r: Pattern)
        ensures
            r@ == seq![
                0x88888888u32,
                0x22222222,
                0x88888888,
                0x22222222,
                0x88888888,
                0x22222222,
                0x88888888,
                0x22222222,
            ],
    {
        let r = Pattern {
            words: [
                0x88888888,
                0x22222222,
                0x88888888,
                0x22222222,
                0x88888888,
                0x22222222,
                0x88888888,
                0x22222222,
            ],
        };
        assert(r@ =~= seq![0x88888888u32, 0x22222222, 0x88888888, 0x22222222, 0x88888888, 0x22222222, 0x88888888, 0x22222222]);
        r
    }

    /// A pattern where 75% of pixels are set.
    pub fn dark_gray() -> (r: Pattern)
        ensures
            r@ == seq![
                0x77777777u32,
                0xDDDDDDDD,
                0x77777777,
                0xDDDDDDDD,
                0x77777777,
                0xDDDDDDDD,
                0x77777777,
                0xDDDDDDDD,
            ],
    {
        let r = Pattern {
            words: [
                0x77777777,
                0xDDDDDDDD,
                0x77777777,
                0xDDDDDDDD,
                0x77777777,
                0xDDDDDDDD,
                0x77777777,
                0xDDDDDDDD,
            ],
        };
        assert(r@ =~= seq![0x77777777u32, 0xDDDDDDDD, 0x77777777, 0xDDDDDDDD, 0x77777777, 0xDDDDDDDD, 0x77777777, 0xDDDDDDDD]);
        r
    }
}

impl PatternTrait for Pattern {
    open spec fn pattern_word(&self, i: u32, y: u32) -> u32 {
        self@[(y % 8) as int]
    }

    fn get_pattern_word(&self, i: u32, y: u32) -> (r: BitmapWord) {
        self.words[(y % 8) as usize]
    }
}

/// Turning bytes into a pattern and back gives the same bytes.
pub proof fn lemma_pattern_bytes_round_trip(bytes: Seq<u8>)
    requires
        bytes.len() == 8,
    ensures
        Seq::new(8, |k: int| (Seq::new(8, |j: int| broadcast_byte(bytes[j]))[k] & 0xff) as u8)
            == bytes,
{
    assert forall|k: int| 0 <= k < 8 implies (broadcast_byte(bytes[k]) & 0xff) as u8 == bytes[k] by {
        let x = bytes[k];
        assert((be_word(x, x, x, x) & 0xff) as u8 == x) by (bit_vector);
    }
    assert(Seq::new(8, |k: int| (Seq::new(8, |j: int| broadcast_byte(bytes[j]))[k] & 0xff) as u8)
        =~= bytes);
}

} // verus!
