use vstd::prelude::*;

use crate::rectangle::Rectangle;

pub mod draw;

verus! {

/// A "word" within a 1-bit image: 32 pixels, the most significant bit being
/// the leftmost pixel and the least significant bit the rightmost.
pub type BitmapWord = u32;

/// The number of bytes in a `BitmapWord`.
pub const BITMAP_WORD_BYTES: usize = 4;

/// The number of bits (and therefore pixels) in a `BitmapWord`.
pub const BITMAP_WORD_BITS: usize = 32;

/// Number of words needed to hold one row of `width` pixels.
pub open spec fn word_pitch(width: nat) -> nat {
    (width + 31) / 32
}

/// Number of bytes needed to hold one row of `width` pixels.
pub open spec fn byte_pitch(width: nat) -> nat {
    (width + 7) / 8
}

/// The mathematical content of a bitmap: its dimensions and its packed words,
/// row after row, each row `word_pitch(width)` words long.
pub struct BitmapView {
    pub width: nat,
    pub height: nat,
    pub words: Seq<u32>,
}

impl BitmapView {
    pub open spec fn pitch(self) -> nat {
        word_pitch(self.width)
    }

    pub open spec fn wf(self) -> bool {
        &&& self.width <= u32::MAX
        &&& self.height <= u32::MAX
        &&& self.words.len() == self.pitch() * self.height
        &&& self.words.len() <= u32::MAX
    }

    pub open spec fn bounds(self) -> Rectangle {
        Rectangle { left: 0, top: 0, right: self.width as i32, bottom: self.height as i32 }
    }
}

/// Calculate the number of words required to store one N-pixel row of a
/// 1-bit image.
pub fn get_word_pitch(width: u32) -> (r: u32)
    ensures
        r == word_pitch(width as nat),
{
    width / 32 + if width % 32 != 0 { 1 } else { 0 }
}

/// A 1-bit image.
#[derive(Clone)]
pub struct Bitmap {
    width: u32,
    height: u32,
    words_per_row: u32,
    words: Vec<BitmapWord>,
}

impl View for Bitmap {
    type V = BitmapView;

    closed spec fn view(&self) -> BitmapView {
        BitmapView { width: self.width as nat, height: self.height as nat, words: self.words@ }
    }
}

/// Byte `c` of row `y` of rows of `byte_pitch(width)` bytes; bytes beyond the
/// end of the row read as zero.
pub open spec fn packed_byte(bytes: Seq<u8>, width: nat, y: int, c: int) -> u8 {
    if 0 <= c < byte_pitch(width) {
        bytes[y * byte_pitch(width) + c]
    } else {
        0
    }
}

/// A word made of four bytes, the first one most significant.
pub open spec fn be_word(a: u8, b: u8, c: u8, d: u8) -> u32 {
    ((a as u32) << 24u32) | ((b as u32) << 16u32) | ((c as u32) << 8u32) | (d as u32)
}

/// Word `i` of row `y`, read big-endian from the row's bytes.
pub open spec fn packed_word(bytes: Seq<u8>, width: nat, y: int, i: int) -> u32 {
    be_word(
        packed_byte(bytes, width, y, 4 * i),
        packed_byte(bytes, width, y, 4 * i + 1),
        packed_byte(bytes, width, y, 4 * i + 2),
        packed_byte(bytes, width, y, 4 * i + 3),
    )
}

/// The words of a `width` x `height` bitmap packed from rows of bytes.
pub open spec fn words_from_bytes(width: nat, height: nat, bytes: Seq<u8>) -> Seq<u32> {
    Seq::new(
        word_pitch(width) * height,
        |k: int| packed_word(bytes, width, k / word_pitch(width) as int, k % word_pitch(width) as int),
    )
}

/// Byte `c` of row `y` of a bitmap: byte `c % 4` (counting from the most
/// significant) of word `c / 4` of the row.
pub open spec fn unpacked_byte(v: BitmapView, y: int, c: int) -> u8 {
    ((v.words[y * v.pitch() + c / 4] >> (24 - 8 * (c % 4)) as u32) & 0xff) as u8
}

/// The rows of a bitmap as bytes, `byte_pitch(width)` bytes per row.
pub open spec fn bytes_of(v: BitmapView) -> Seq<u8> {
    Seq::new(
        byte_pitch(v.width) * v.height,
        |k: int| unpacked_byte(v, k / byte_pitch(v.width) as int, k % byte_pitch(v.width) as int),
    )
}

/// Pixel `j` of a word, counting from the most significant bit.
pub open spec fn word_bit(w: u32, j: u32) -> bool {
    (w >> (31 - j) as u32) & 1 == 1
}

/// The pixel at column `x` of row `y` is set.
pub open spec fn pixel(v: BitmapView, x: int, y: int) -> bool {
    word_bit(v.words[y * v.pitch() + x / 32], (x % 32) as u32)
}

/// Byte `c` of the row starting at `row_base`, or zero past the row's end.
fn byte_or_zero(bytes: &[u8], row_base: usize, rb: u32, c: usize) -> (r: u8)
    requires
        row_base + rb <= bytes@.len(),
    ensures
        r == (if c < rb { bytes@[row_base + c] } else { 0u8 }),
{
    if c < rb as usize {
        let len = bytes.len();
        assert(row_base + c < len);
        bytes[row_base + c]
    } else {
        0
    }
}

/// Each byte of a row lies in one of the row's words.
proof fn lemma_byte_in_word_row(width: nat, c: nat)
    requires
        c < byte_pitch(width),
    ensures
        c / 4 < word_pitch(width),
{
    assert(c / 4 < word_pitch(width)) by (nonlinear_arith)
        requires c < (width + 7) / 8;
}

impl Bitmap {
    /// The stored dimensions and word layout agree with each other.
    pub closed spec fn wf(&self) -> bool {
        &&& self.words_per_row == word_pitch(self.width as nat)
        &&& self@.wf()
    }

    /// Create a new blank bitmap of the given dimensions.
    pub fn new(width: u32, height: u32) -> (r: Bitmap)
        requires
            word_pitch(width as nat) * height <= u32::MAX,
        ensures
            r.wf(),
            r@.width == width,
            r@.height == height,
            r@.words == Seq::new(word_pitch(width as nat) * (height as nat), |k: int| 0u32),
    {
        let words_per_row = get_word_pitch(width);
        let n = words_per_row * height;
        let mut words: Vec<BitmapWord> = Vec::with_capacity(n as usize);
        let mut k: u32 = 0;
        while k < n
            invariant
                k <= n,
                words@ == Seq::new(k as nat, |j: int| 0u32),
            decreases n - k,
        {
            words.push(0);
            k += 1;
            assert(words@ =~= Seq::new(k as nat, |j: int| 0u32));
        }
        assert(words@ =~= Seq::new(word_pitch(width as nat) * (height as nat), |k: int| 0u32));
        Bitmap { width, height, words_per_row, words }
    }

    /// Create a new bitmap initialized with the given pixels. One byte = 8
    /// pixels, most significant bit on the left; each row is
    /// `byte_pitch(width)` bytes long.
    pub fn from_bytes(width: u32, height: u32, bytes: &[u8]) -> (r: Bitmap)
        requires
            bytes@.len() == byte_pitch(width as nat) * height,
            word_pitch(width as nat) * height <= u32::MAX,
        ensures
            r.wf(),
            r@.width == width,
            r@.height == height,
            r@.words == words_from_bytes(width as nat, height as nat, bytes@),
    {
        let rb = width / 8 + if width % 8 != 0 { 1u32 } else { 0u32 };
        let words_per_row = get_word_pitch(width);
        let ghost p = words_per_row as nat;
        let ghost spec_words = words_from_bytes(width as nat, height as nat, bytes@);
        let mut words: Vec<BitmapWord> = Vec::with_capacity((words_per_row * height) as usize);
        let blen = bytes.len();
        let mut y: u32 = 0;
        let mut row_base: usize = 0;
        while y < height
            invariant
                blen == bytes@.len(),
                rb == byte_pitch(width as nat),
                p == words_per_row,
                p == word_pitch(width as nat),
                p * height <= u32::MAX,
                bytes@.len() == rb * height,
                y <= height,
                row_base == y * rb,
                words@.len() == y * p,
                spec_words == words_from_bytes(width as nat, height as nat, bytes@),
                forall|k: int| 0 <= k < words@.len() ==> #[trigger] words@[k] == spec_words[k],
            decreases height - y,
        {
            assert((y + 1) * rb <= height * rb) by (nonlinear_arith)
                requires y < height;
            assert((y + 1) * p <= height * p) by (nonlinear_arith)
                requires y < height;
            assert(row_base + rb == (y + 1) * rb) by (nonlinear_arith)
                requires row_base == y * rb;
            let mut i: u32 = 0;
            while i < words_per_row
                invariant
                    blen == bytes@.len(),
                    rb == byte_pitch(width as nat),
                    p == words_per_row,
                    p == word_pitch(width as nat),
                    p * height <= u32::MAX,
                    bytes@.len() == rb * height,
                    y < height,
                    row_base == y * rb,
                    row_base + rb <= bytes@.len(),
                    (y + 1) * p <= height * p,
                    i <= words_per_row,
                    words@.len() == y * p + i,
                    spec_words == words_from_bytes(width as nat, height as nat, bytes@),
                    forall|k: int| 0 <= k < words@.len() ==> #[trigger] words@[k] == spec_words[k],
                decreases words_per_row - i,
            {
                let b0 = byte_or_zero(bytes, row_base, rb, 4 * (i as usize));
                let b1 = byte_or_zero(bytes, row_base, rb, 4 * (i as usize) + 1);
                let b2 = byte_or_zero(bytes, row_base, rb, 4 * (i as usize) + 2);
                let b3 = byte_or_zero(bytes, row_base, rb, 4 * (i as usize) + 3);
                let w = ((b0 as u32) << 24u32) | ((b1 as u32) << 16u32) | ((b2 as u32) << 8u32)
                    | (b3 as u32);
                proof {
                    let k = y * p + i;
                    vstd::arithmetic::div_mod::lemma_fundamental_div_mod_converse(
                        k as int,
                        p as int,
                        y as int,
                        i as int,
                    );
                    assert(k < p * height) by (nonlinear_arith)
                        requires k == y * p + i, i < p, y < height;
                    assert(w == spec_words[k as int]);
                    assert((y + 1) * p == y * p + p) by (nonlinear_arith);
                }
                words.push(w);
                i += 1;
            }
            assert(words@.len() == (y + 1) * p) by (nonlinear_arith)
                requires words@.len() == y * p + p;
            row_base += rb as usize;
            y += 1;
        }
        assert(words@.len() == spec_words.len()) by (nonlinear_arith)
            requires
                words@.len() == y * p,
                y == height,
                spec_words.len() == p * height,
        ;
        assert(words@ =~= spec_words);
        Bitmap { width, height, words_per_row, words }
    }

    /// Turn this bitmap into an array of byte pixels, most significant bit on
    /// the left, `byte_pitch(width)` bytes per row with no padding between
    /// rows.
    pub fn to_bytes(&self) -> (r: Vec<u8>)
        requires
            self.wf(),
        ensures
            r@ == bytes_of(self@),
    {
        let rb = self.width / 8 + if self.width % 8 != 0 { 1u32 } else { 0u32 };
        let ghost p = self.words_per_row as nat;
        let ghost spec_bytes = bytes_of(self@);
        let mut ret: Vec<u8> = Vec::new();
        let mut y: u32 = 0;
        let mut row_base: usize = 0;
        while y < self.height
            invariant
                self.wf(),
                rb == byte_pitch(self.width as nat),
                p == self.words_per_row,
                y <= self.height,
                row_base == y * p,
                ret@.len() == y * rb,
                spec_bytes == bytes_of(self@),
                forall|k: int| 0 <= k < ret@.len() ==> #[trigger] ret@[k] == spec_bytes[k],
            decreases self.height - y,
        {
            assert(row_base + p <= p * self.height) by (nonlinear_arith)
                requires y < self.height, row_base == y * p;
            assert(row_base + p == (y + 1) * p) by (nonlinear_arith)
                requires row_base == y * p;
            assert((y + 1) * rb <= self.height * rb) by (nonlinear_arith)
                requires y < self.height;
            let mut c: u32 = 0;
            while c < rb
                invariant
                    self.wf(),
                    rb == byte_pitch(self.width as nat),
                    p == self.words_per_row,
                        y < self.height,
                    row_base == y * p,
                    row_base + p <= self.words@.len(),
                    (y + 1) * rb <= self.height * rb,
                    c <= rb,
                    ret@.len() == y * rb + c,
                    spec_bytes == bytes_of(self@),
                    forall|k: int| 0 <= k < ret@.len() ==> #[trigger] ret@[k] == spec_bytes[k],
                decreases rb - c,
            {
                proof {
                    lemma_byte_in_word_row(self.width as nat, c as nat);
                }
                let word = self.words[row_base + (c / 4) as usize];
                let b = ((word >> (24 - 8 * (c % 4))) & 0xff) as u8;
                proof {
                    let k = y * rb + c;
                    vstd::arithmetic::div_mod::lemma_fundamental_div_mod_converse(
                        k as int,
                        rb as int,
                        y as int,
                        c as int,
                    );
                    assert(k < rb * self.height) by (nonlinear_arith)
                        requires k == y * rb + c, c < rb, y < self.height;
                    assert(b == spec_bytes[k as int]);
                }
                ret.push(b);
                c += 1;
            }
            assert(ret@.len() == (y + 1) * rb) by (nonlinear_arith)
                requires ret@.len() == y * rb + rb;
            row_base += self.words_per_row as usize;
            y += 1;
        }
        assert(ret@.len() == spec_bytes.len()) by (nonlinear_arith)
            requires
                ret@.len() == y * rb,
                y == self.height,
                spec_bytes.len() == rb * self.height,
        ;
        assert(ret@ =~= spec_bytes);
        ret
    }

    pub fn get_width(&self) -> (r: u32)
        ensures
            r == self@.width,
    {
        self.width
    }

    pub fn get_height(&self) -> (r: u32)
        ensures
            r == self@.height,
    {
        self.height
    }

    pub fn get_bounds(&self) -> (r: Rectangle)
        requires
            self@.width <= i32::MAX,
            self@.height <= i32::MAX,
        ensures
            r == self@.bounds(),
    {
        Rectangle { left: 0, top: 0, right: self.width as i32, bottom: self.height as i32 }
    }
}

impl Default for Bitmap {
    /// An empty bitmap, zero pixels wide and high.
    fn default() -> (r: Bitmap)
        ensures
            r.wf(),
            r@.width == 0,
            r@.height == 0,
    {
        Bitmap { width: 0, height: 0, words_per_row: 0, words: Vec::new() }
    }
}

/// Packing rows of bytes into a bitmap and unpacking them again gives the
/// same bytes.
pub proof fn lemma_bytes_round_trip(width: nat, height: nat, bytes: Seq<u8>)
    requires
        width <= u32::MAX,
        height <= u32::MAX,
        bytes.len() == byte_pitch(width) * height,
        word_pitch(width) * height <= u32::MAX,
    ensures
        bytes_of(BitmapView { width, height, words: words_from_bytes(width, height, bytes) }) == bytes,
{
    let v = BitmapView { width, height, words: words_from_bytes(width, height, bytes) };
    let rb = byte_pitch(width) as int;
    let p = word_pitch(width) as int;
    assert forall|k: int| 0 <= k < bytes.len() implies #[trigger] bytes_of(v)[k] == bytes[k] by {
        vstd::arithmetic::div_mod::lemma_fundamental_div_mod(k, rb);
        let y = k / rb;
        let c = k % rb;
        assert(0 <= y < height) by (nonlinear_arith)
            requires k == rb * y + c, 0 <= c < rb, 0 <= k < rb * height;
        let i = c / 4;
        let t = c % 4;
        assert(i < p) by (nonlinear_arith)
            requires i == c / 4, 0 <= c < rb, rb == (width + 7) / 8, p == (width + 31) / 32;
        let wi = y * p + i;
        assert(0 <= wi < p * height) by (nonlinear_arith)
            requires wi == y * p + i, 0 <= i < p, 0 <= y < height;
        vstd::arithmetic::div_mod::lemma_fundamental_div_mod_converse(wi, p, y, i);
        let b0 = packed_byte(bytes, width, y, 4 * i);
        let b1 = packed_byte(bytes, width, y, 4 * i + 1);
        let b2 = packed_byte(bytes, width, y, 4 * i + 2);
        let b3 = packed_byte(bytes, width, y, 4 * i + 3);
        assert(v.words[wi] == be_word(b0, b1, b2, b3));
        if t == 0 {
            assert(((be_word(b0, b1, b2, b3) >> 24u32) & 0xff) as u8 == b0) by (bit_vector);
        } else if t == 1 {
            assert(((be_word(b0, b1, b2, b3) >> 16u32) & 0xff) as u8 == b1) by (bit_vector);
        } else if t == 2 {
            assert(((be_word(b0, b1, b2, b3) >> 8u32) & 0xff) as u8 == b2) by (bit_vector);
        } else {
            assert(((be_word(b0, b1, b2, b3) >> 0u32) & 0xff) as u8 == b3) by (bit_vector);
        }
        assert(c == 4 * i + t);
    }
    assert(bytes_of(v) =~= bytes);
}

/// Bit `j` of a word packed big-endian from four bytes is bit `7 - j % 8` of
/// byte `j / 8`.
proof fn lemma_be_word_bit(a: u8, b: u8, c: u8, d: u8, j: u32)
    requires
        j < 32,
    ensures
        word_bit(be_word(a, b, c, d), j) == ({
            let byte = if j < 8 {
                a
            } else if j < 16 {
                b
            } else if j < 24 {
                c
            } else {
                d
            };
            (byte >> (7 - j % 8) as u8) & 1 == 1
        }),
{
    let w = be_word(a, b, c, d);
    if j < 8 {
        assert((w >> (31 - j) as u32) & 1 == 1 <==> (a >> (7 - j % 8) as u8) & 1 == 1) by (bit_vector)
            requires w == be_word(a, b, c, d), j < 8;
    } else if j < 16 {
        assert((w >> (31 - j) as u32) & 1 == 1 <==> (b >> (7 - j % 8) as u8) & 1 == 1) by (bit_vector)
            requires w == be_word(a, b, c, d), 8 <= j < 16;
    } else if j < 24 {
        assert((w >> (31 - j) as u32) & 1 == 1 <==> (c >> (7 - j % 8) as u8) & 1 == 1) by (bit_vector)
            requires w == be_word(a, b, c, d), 16 <= j < 24;
    } else {
        assert((w >> (31 - j) as u32) & 1 == 1 <==> (d >> (7 - j % 8) as u8) & 1 == 1) by (bit_vector)
            requires w == be_word(a, b, c, d), 24 <= j < 32;
    }
}

/// In a bitmap packed from rows of bytes, pixel `(x, y)` is bit `7 - x % 8`
/// (the most significant bit being the leftmost pixel) of byte `x / 8` of
/// row `y`.
pub proof fn lemma_from_bytes_pixels(width: nat, height: nat, bytes: Seq<u8>, x: int, y: int)
    requires
        width <= u32::MAX,
        height <= u32::MAX,
        bytes.len() == byte_pitch(width) * height,
        word_pitch(width) * height <= u32::MAX,
        0 <= x < width,
        0 <= y < height,
    ensures
        pixel(BitmapView { width, height, words: words_from_bytes(width, height, bytes) }, x, y) == ((
        bytes[y * byte_pitch(width) + x / 8] >> (7 - x % 8) as u8) & 1 == 1),
{
    let v = BitmapView { width, height, words: words_from_bytes(width, height, bytes) };
    let p = word_pitch(width) as int;
    let rb = byte_pitch(width) as int;
    let i = x / 32;
    let j = (x % 32) as u32;
    assert(i < p) by (nonlinear_arith)
        requires i == x / 32, x < width, p == (width + 31) / 32, x >= 0;
    assert(x / 8 < rb) by (nonlinear_arith)
        requires x < width, rb == (width + 7) / 8, x >= 0;
    let k = y * p + i;
    assert(0 <= k < p * height) by (nonlinear_arith)
        requires k == y * p + i, 0 <= i < p, 0 <= y < height;
    vstd::arithmetic::div_mod::lemma_fundamental_div_mod_converse(k, p, y, i);
    lemma_be_word_bit(
        packed_byte(bytes, width, y, 4 * i),
        packed_byte(bytes, width, y, 4 * i + 1),
        packed_byte(bytes, width, y, 4 * i + 2),
        packed_byte(bytes, width, y, 4 * i + 3),
        j,
    );
    assert(x / 8 == 4 * i + j / 8);
    assert((j % 8) as int == x % 8);
}

/// A well-formed bitmap has a well-formed view: its words fill exactly
/// `word_pitch(width)` words per row.
pub proof fn lemma_view_wf(b: &Bitmap)
    requires
        b.wf(),
    ensures
        b@.wf(),
{
}

} // verus!
