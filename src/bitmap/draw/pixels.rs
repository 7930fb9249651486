use vstd::prelude::*;

use crate::bitmap::draw::blit::{
    blit_region_view, blit_view, copy_region, eaten_word, lemma_row_fits, row_shift, shifted_word,
    source_row, word_at, CopyRegion,
};
use crate::bitmap::draw::transfer::ModeCopy;
use crate::bitmap::draw::shapes::{fill_region, fill_view, masked_write};
use crate::bitmap::draw::{left_mask, right_mask, span_mask, start_word, stop_word};
use crate::bitmap::{pixel, word_bit, BitmapView};
use crate::rectangle::Rectangle;

verus! {

proof fn lemma_bit_or(a: u32, b: u32, j: u32)
    requires
        j < 32,
    ensures
        word_bit(a | b, j) == (word_bit(a, j) || word_bit(b, j)),
{
    assert(((a | b) >> (31 - j) as u32) & 1 == 1 <==> (((a >> (31 - j) as u32) & 1 == 1) || ((b
        >> (31 - j) as u32) & 1 == 1))) by (bit_vector)
        requires j < 32;
}

proof fn lemma_bit_and(a: u32, b: u32, j: u32)
    requires
        j < 32,
    ensures
        word_bit(a & b, j) == (word_bit(a, j) && word_bit(b, j)),
{
    assert(((a & b) >> (31 - j) as u32) & 1 == 1 <==> (((a >> (31 - j) as u32) & 1 == 1) && ((b
        >> (31 - j) as u32) & 1 == 1))) by (bit_vector)
        requires j < 32;
}

proof fn lemma_bit_shl(a: u32, s: u32, j: u32)
    requires
        j < 32,
        s < 32,
    ensures
        word_bit(a << s, j) == (j + s < 32 && word_bit(a, (j + s) as u32)),
{
    let t = (j + s) as u32;
    assert(((a << s) >> (31 - j) as u32) & 1 == 1 <==> (j + s < 32 && ((a >> (31 - t) as u32) & 1
        == 1))) by (bit_vector)
        requires j < 32, s < 32, t == j + s;
}

proof fn lemma_bit_shr(a: u32, s: u32, j: u32)
    requires
        j < 32,
        s < 32,
    ensures
        word_bit(a >> s, j) == (j >= s && word_bit(a, (j - s) as u32)),
{
    let t = (j - s) as u32;
    assert(((a >> s) >> (31 - j) as u32) & 1 == 1 <==> (j >= s && ((a >> (31 - t) as u32) & 1
        == 1))) by (bit_vector)
        requires j < 32, s < 32, j >= s ==> t == j - s;
}

proof fn lemma_bit_ones_shr(s: u32, j: u32)
    requires
        j < 32,
        s < 32,
    ensures
        word_bit(!0u32 >> s, j) == (j >= s),
{
    assert(((!0u32 >> s) >> (31 - j) as u32) & 1 == 1 <==> j >= s) by (bit_vector)
        requires j < 32, s < 32;
}

proof fn lemma_bit_ones_shl(s: u32, j: u32)
    requires
        j < 32,
        0 < s <= 32,
    ensures
        word_bit(!0u32 << (32 - s) as u32, j) == (j < s),
{
    assert(((!0u32 << (32 - s) as u32) >> (31 - j) as u32) & 1 == 1 <==> j < s) by (bit_vector)
        requires j < 32, 0 < s <= 32;
}

proof fn lemma_bit_basics(a: u32, j: u32)
    requires
        j < 32,
    ensures
        !word_bit(0u32, j),
        word_bit(!0u32, j),
        word_bit(!a, j) == !word_bit(a, j),
{
    assert(!((0u32 >> (31 - j) as u32) & 1 == 1)) by (bit_vector)
        requires j < 32;
    assert((!0u32 >> (31 - j) as u32) & 1 == 1) by (bit_vector)
        requires j < 32;
    assert(((!a) >> (31 - j) as u32) & 1 == 1 <==> !((a >> (31 - j) as u32) & 1 == 1)) by (bit_vector)
        requires j < 32;
}

/// A masked write takes each bit from the new word where the mask is set and
/// from the existing word elsewhere.
pub proof fn lemma_bit_masked_write(existing: u32, combined: u32, m: u32, j: u32)
    requires
        j < 32,
    ensures
        word_bit(masked_write(existing, combined, m), j) == if word_bit(m, j) {
            word_bit(combined, j)
        } else {
            word_bit(existing, j)
        },
{
    lemma_bit_or(existing & !m, combined & m, j);
    lemma_bit_and(existing, !m, j);
    lemma_bit_and(combined, m, j);
    lemma_bit_basics(m, j);
}

/// Pixel `j` of word `w` lies in the mask of the span `[left, right)` exactly
/// when its column lies in the span.
pub proof fn lemma_bit_span_mask(left: u32, right: u32, w: int, j: u32)
    requires
        left < right,
        start_word(left) <= w <= stop_word(right),
        j < 32,
    ensures
        word_bit(span_mask(left, right, w), j) == (left <= 32 * w + j < right),
{
    let lm = if w == start_word(left) { left_mask(left) } else { !0u32 };
    let rm = if w == stop_word(right) { right_mask(right) } else { !0u32 };
    lemma_bit_and(lm, rm, j);
    lemma_bit_basics(0, j);
    lemma_bit_ones_shr(left % 32, j);
    if right % 32 != 0 {
        lemma_bit_ones_shl(right % 32, j);
    }
}

/// Bit `q` of a word sequence, counting from the most significant bit of its
/// first word; zero past either end.
pub open spec fn stream_bit(s: Seq<u32>, q: int) -> bool {
    q >= 0 && word_bit(word_at(s, q / 32), (q % 32) as u32)
}

proof fn lemma_eaten_bit(s: Seq<u32>, eat: u32, k: int, j: u32)
    requires
        eat < 32,
        j < 32,
    ensures
        word_bit(eaten_word(s, eat, k), j) == (32 * k + j >= eat && stream_bit(s, 32 * k + j)),
{
    lemma_bit_and(word_at(s, 0), !0u32 >> eat, j);
    lemma_bit_ones_shr(eat, j);
    lemma_bit_basics(0, j);
    let q = 32 * k + j;
    vstd::arithmetic::div_mod::lemma_fundamental_div_mod_converse(q, 32, k, j as int);
}

/// Bit `j` of output word `k` of a shifted stream is bit
/// `32 * k + j - zeroes + eat` of the input, or zero where that falls among
/// the leading zero bits or the dropped bits.
pub proof fn lemma_shifted_bit(s: Seq<u32>, zeroes: u32, eat: u32, k: int, j: u32)
    requires
        zeroes < 32,
        eat < 32,
        k >= 0,
        j < 32,
    ensures
        word_bit(shifted_word(s, zeroes, eat, k), j) == ({
            let p = 32 * k + j;
            p >= zeroes && stream_bit(s, p - zeroes + eat)
        }),
{
    let p = 32 * k + j;
    if zeroes == eat {
        lemma_eaten_bit(s, eat, k, j);
    } else if zeroes > eat {
        let d = (zeroes - eat) as u32;
        let a = eaten_word(s, eat, k - 1);
        let b = eaten_word(s, eat, k);
        lemma_bit_or(a << (32 - d) as u32, b >> d, j);
        lemma_bit_shl(a, (32 - d) as u32, j);
        lemma_bit_shr(b, d, j);
        if j < d {
            lemma_eaten_bit(s, eat, k - 1, (j + 32 - d) as u32);
            if k == 0 {
                lemma_bit_basics(0, (j + 32 - d) as u32);
            }
        } else {
            lemma_eaten_bit(s, eat, k, (j - d) as u32);
        }
    } else {
        let e = (eat - zeroes) as u32;
        let a = eaten_word(s, eat, k);
        let b = eaten_word(s, eat, k + 1);
        lemma_bit_or(a << e, b >> (32 - e) as u32, j);
        lemma_bit_shl(a, e, j);
        lemma_bit_shr(b, (32 - e) as u32, j);
        if j + e < 32 {
            lemma_eaten_bit(s, eat, k, (j + e) as u32);
        } else {
            lemma_eaten_bit(s, eat, k + 1, (j + e - 32) as u32);
        }
    }
}

/// Filling in plain copy mode sets exactly the pixels of the clipped
/// rectangle and leaves every other pixel as it was.
pub proof fn lemma_fill_copy_pixels(v: BitmapView, clip: Option<Rectangle>, rect: Rectangle, x: int, y: int)
    requires
        v.wf(),
        v.width <= i32::MAX,
        v.height <= i32::MAX,
        0 <= x < v.width,
        0 <= y < v.height,
    ensures
        pixel(fill_view(v, ModeCopy(()), clip, rect), x, y) == (fill_region(v, clip, rect).contains_point(x, y)
            || pixel(v, x, y)),
{
    let mode = ModeCopy(());
    let r = fill_region(v, clip, rect);
    let p = v.pitch() as int;
    let w = x / 32;
    let j = (x % 32) as u32;
    assert(w < p) by (nonlinear_arith)
        requires w == x / 32, x < v.width, p == (v.width + 31) / 32, x >= 0;
    let k = y * p + w;
    assert(0 <= k < v.words.len()) by (nonlinear_arith)
        requires k == y * p + w, 0 <= w < p, 0 <= y < v.height, p >= 0, v.words.len() == p * v.height;
    vstd::arithmetic::div_mod::lemma_fundamental_div_mod_converse(k, p, y, w);
    let old = v.words[k];
    if !r.spec_is_empty() && r.top <= y < r.bottom && start_word(r.left as u32) <= w <= stop_word(
        r.right as u32,
    ) {
        let m = span_mask(r.left as u32, r.right as u32, w);
        lemma_bit_masked_write(old, m & !0u32, m, j);
        lemma_bit_span_mask(r.left as u32, r.right as u32, w, j);
        lemma_bit_and(m, !0u32, j);
        lemma_bit_basics(m, j);
    }
}

/// The source pixel that the blit of region `g` brings to destination pixel
/// `(x, y)`, if any.
pub open spec fn copied_from(g: CopyRegion, x: int, y: int) -> bool {
    g.left <= x - g.dx < g.right && g.top <= y - g.dy < g.bottom
}

/// Destination pixel `(x, y)` after combining region `g` of `src` in plain
/// copy mode.
proof fn lemma_region_copy_pixel(dst: BitmapView, src: BitmapView, g: CopyRegion, x: int, y: int)
    requires
        dst.wf(),
        src.wf(),
        0 <= x < dst.width,
        0 <= y < dst.height,
        !g.is_empty() ==> {
            &&& 0 <= g.left
            &&& g.right <= src.width
            &&& 0 <= g.top
            &&& g.bottom <= src.height
            &&& 0 <= g.left + g.dx
            &&& g.right + g.dx <= dst.width
            &&& 0 <= g.top + g.dy
            &&& g.bottom + g.dy <= dst.height
        },
    ensures
        pixel(blit_region_view(dst, ModeCopy(()), src, g), x, y) == if copied_from(g, x, y) {
            pixel(src, x - g.dx, y - g.dy)
        } else {
            pixel(dst, x, y)
        },
{
    let mode = ModeCopy(());
    let p = dst.pitch() as int;
    let w = x / 32;
    let j = (x % 32) as u32;
    assert(w < p) by (nonlinear_arith)
        requires w == x / 32, x < dst.width, p == (dst.width + 31) / 32, x >= 0;
    let k = y * p + w;
    assert(k < dst.words.len()) by (nonlinear_arith)
        requires k == y * p + w, w < p, 0 <= y < dst.height, p >= 0, dst.words.len() == p * dst.height;
    assert(k >= 0) by (nonlinear_arith)
        requires k == y * p + w, w >= 0, y >= 0, p >= 0;
    vstd::arithmetic::div_mod::lemma_fundamental_div_mod_converse(k, p, y, w);
    let old = dst.words[k];
    let after = blit_region_view(dst, mode, src, g);
    let dl = g.left + g.dx;
    let dr = g.right + g.dx;
    if !g.is_empty() && g.top + g.dy <= y < g.bottom + g.dy && dl / 32 <= w <= (dr - 1) / 32 {
        let sy = y - g.dy;
        let first = g.left / 32;
        let last = (g.right - 1) / 32;
        let sp = src.pitch() as int;
        let base = sy * sp + first;
        assert(sy * sp + sp <= sp * src.height) by (nonlinear_arith)
            requires 0 <= sy < src.height, sp >= 0;
        assert(last < sp) by (nonlinear_arith)
            requires last == (g.right - 1) / 32, g.right <= src.width, sp == (src.width + 31) / 32, g.right > 0;
        assert(sy * sp >= 0) by (nonlinear_arith)
            requires sy >= 0, sp >= 0;
        let (zeroes, eat) = row_shift(g.left, dl);
        let row = src.words.subrange(base, base + last - first + 1);
        let kk = w - dl / 32;
        lemma_row_fits(g.left, g.right, dl, dr);
        let n = source_row(src, g, sy)[kk];
        let m = span_mask(dl as u32, dr as u32, w);
        lemma_bit_masked_write(old, n & !0u32, m, j);
        lemma_bit_span_mask(dl as u32, dr as u32, w, j);
        assert(32 * w + j == x);
        if dl <= x < dr {
            lemma_bit_and(n, !0u32, j);
            lemma_bit_basics(n, j);
            lemma_shifted_bit(row, zeroes, eat, kk, j);
            let sx = x - g.dx;
            let q = sx - 32 * first;
            vstd::arithmetic::div_mod::lemma_fundamental_div_mod_converse(q, 32, sx / 32 - first, sx % 32);
        }
    }
}

/// Blitting in plain copy mode is a per-pixel copy: each destination pixel
/// whose source position lies in the source rectangle, inside the source
/// bitmap, and is placed inside the clip takes that source pixel; every other
/// pixel keeps its value. This holds for every bit alignment of the source
/// and destination.
pub proof fn lemma_blit_copy_pixels(
    dst: BitmapView,
    clip: Option<Rectangle>,
    src: BitmapView,
    src_rect: Option<Rectangle>,
    dst_x: i32,
    dst_y: i32,
    x: int,
    y: int,
)
    requires
        dst.wf(),
        src.wf(),
        dst.width <= i32::MAX,
        dst.height <= i32::MAX,
        src.width <= i32::MAX,
        src.height <= i32::MAX,
        0 <= x < dst.width,
        0 <= y < dst.height,
    ensures
        ({
            let g = copy_region(dst, clip, src, src_rect, dst_x, dst_y);
            pixel(blit_view(dst, ModeCopy(()), clip, src, src_rect, dst_x, dst_y), x, y) == if copied_from(g, x, y) {
                pixel(src, x - g.dx, y - g.dy)
            } else {
                pixel(dst, x, y)
            }
        }),
{
    let g = copy_region(dst, clip, src, src_rect, dst_x, dst_y);
    lemma_region_copy_pixel(dst, src, g, x, y);
}

/// Blitting a bitmap in plain copy mode into a blank bitmap of the same size
/// at the origin, without clip, reproduces every pixel of it, whether or not
/// its width is a multiple of the word size.
pub proof fn lemma_blit_round_trip(src: BitmapView, x: int, y: int)
    requires
        src.wf(),
        src.width <= i32::MAX,
        src.height <= i32::MAX,
        0 <= x < src.width,
        0 <= y < src.height,
    ensures
        ({
            let blank = BitmapView {
                width: src.width,
                height: src.height,
                words: Seq::new(src.words.len(), |k: int| 0u32),
            };
            pixel(blit_view(blank, ModeCopy(()), None, src, None, 0, 0), x, y) == pixel(src, x, y)
        }),
{
    let blank = BitmapView {
        width: src.width,
        height: src.height,
        words: Seq::new(src.words.len(), |k: int| 0u32),
    };
    lemma_blit_copy_pixels(blank, None, src, None, 0, 0, x, y);
}

} // verus!
