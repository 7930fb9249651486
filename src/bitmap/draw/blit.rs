use vstd::prelude::*;

use crate::bitmap::draw::shapes::{effective_clip, lemma_row_of, masked_write};
use crate::bitmap::draw::transfer::TransferMode;
use crate::bitmap::draw::{calculate_span_mask, left_mask, right_mask, span_mask, start_word, stop_word};
use crate::bitmap::{Bitmap, BitmapView, BitmapWord};
use crate::rectangle::Rectangle;

verus! {

/// Word `k` of a sequence of words, or zero past either end.
pub open spec fn word_at(s: Seq<u32>, k: int) -> u32 {
    if 0 <= k < s.len() {
        s[k]
    } else {
        0
    }
}

/// Word `k` of the input once its first `eat` bits are cleared.
pub open spec fn eaten_word(s: Seq<u32>, eat: u32, k: int) -> u32 {
    if k == 0 {
        word_at(s, 0) & (!0u32 >> eat)
    } else {
        word_at(s, k)
    }
}

/// Word `k` of the bit stream made of `zeroes` zero bits followed by the
/// input from its bit `eat` on, padded with zero bits at the end.
pub open spec fn shifted_word(s: Seq<u32>, zeroes: u32, eat: u32, k: int) -> u32 {
    if zeroes == eat {
        eaten_word(s, eat, k)
    } else if zeroes > eat {
        let d = (zeroes - eat) as u32;
        (eaten_word(s, eat, k - 1) << (32 - d) as u32) | (eaten_word(s, eat, k) >> d)
    } else {
        let e = (eat - zeroes) as u32;
        (eaten_word(s, eat, k) << e) | (eaten_word(s, eat, k + 1) >> (32 - e) as u32)
    }
}

/// Number of words needed for that stream: one more than the input when the
/// shift pushes data into a further word, as many as the input otherwise.
pub open spec fn shifted_len(n: nat, zeroes: u32, eat: u32) -> nat {
    if zeroes > eat {
        n + 1
    } else {
        n
    }
}

/// The words of the stream of `zeroes` zero bits followed by `s` from bit
/// `eat` on.
pub open spec fn shifted_words(s: Seq<u32>, zeroes: u32, eat: u32) -> Seq<u32> {
    Seq::new(shifted_len(s.len(), zeroes, eat), |k: int| shifted_word(s, zeroes, eat, k))
}

/// Re-emits a slice of words shifted by a sub-word number of bits: some zero
/// bits are put in front and some bits of the first word are dropped.
pub struct Biterator<'a> {
    /// The next bits to yield.
    bits: BitmapWord,
    /// The bits into which the next input word will be shoved.
    overflowed_bits: BitmapWord,
    words: &'a [BitmapWord],
    /// Index of the next input word to take.
    next_index: usize,
    slip: u32,
    /// The last word is in `bits`.
    at_last: bool,
    /// Everything has been yielded.
    done: bool,
    zeroes: Ghost<u32>,
    eat: Ghost<u32>,
    yielded: Ghost<nat>,
}

impl<'a> Biterator<'a> {
    /// The whole output, from the first word on.
    pub closed spec fn output(&self) -> Seq<u32> {
        shifted_words(self.words@, self.zeroes@, self.eat@)
    }

    /// The words still to be yielded.
    pub closed spec fn remaining(&self) -> Seq<u32> {
        self.output().subrange(self.yielded@ as int, self.output().len() as int)
    }

    pub closed spec fn inv(&self) -> bool {
        let n = self.words@.len();
        let out = self.output();
        let pos = self.yielded@;
        let wide = self.zeroes@ < self.eat@;
        &&& n >= 1
        &&& self.zeroes@ < 32
        &&& self.eat@ < 32
        &&& self.zeroes@ != self.eat@
        &&& self.slip == (if wide {
            self.eat@ - self.zeroes@
        } else {
            32 + self.eat@ - self.zeroes@
        })
        &&& pos <= out.len()
        &&& self.done <==> pos == out.len()
        &&& self.done ==> self.at_last
        &&& !self.done ==> self.bits == out[pos as int]
        &&& self.at_last && !self.done ==> pos + 1 == out.len()
        &&& !self.at_last ==> {
            &&& self.next_index == pos + (if wide {
                2int
            } else {
                1int
            })
            &&& self.next_index <= n
            &&& self.overflowed_bits == eaten_word(self.words@, self.eat@, self.next_index - 1)
                << self.slip
        }
    }

    /// Starts a stream of `zeroes_on_left` zero bits followed by the bits of
    /// `slice` from bit `bits_to_eat` of its first word on.
    pub fn new(slice: &'a [BitmapWord], zeroes_on_left: u32, bits_to_eat: u32) -> (r: Biterator<'a>)
        requires
            bits_to_eat < 32,
            zeroes_on_left < 32,
            slice@.len() >= 1,
            zeroes_on_left != bits_to_eat,
        ensures
            r.inv(),
            r.remaining() == shifted_words(slice@, zeroes_on_left, bits_to_eat),
    {
        let s0 = slice[0];
        let mut huge: u64 = ((s0 as u64) << (bits_to_eat + 32)) >> zeroes_on_left;
        let next_index: usize;
        let slip: u32;
        let at_last: bool;
        let ghost z = zeroes_on_left;
        let ghost t = bits_to_eat;
        if zeroes_on_left < bits_to_eat {
            // an extra input word goes into the first output word
            slip = bits_to_eat - zeroes_on_left;
            if slice.len() > 1 {
                let s1 = slice[1];
                huge = huge | (((s1 as u64) << bits_to_eat) >> zeroes_on_left);
                next_index = 2;
                at_last = false;
                proof {
                    lemma_start_wide(s0, s1, z, t);
                }
            } else {
                next_index = 1;
                at_last = true;
                proof {
                    lemma_start_wide(s0, 0, z, t);
                    let h = ((s0 as u64) << (t + 32) as u64) >> z as u64;
                    assert(h | (((0u32 as u64) << t as u64) >> z as u64) == h) by (bit_vector);
                }
            }
        } else {
            next_index = 1;
            slip = bits_to_eat + 32 - zeroes_on_left;
            at_last = false;
            proof {
                lemma_start_narrow(s0, z, t);
            }
        }
        let bits = (huge >> 32u64) as u32;
        #[verifier::truncate]
        let overflowed_bits = huge as u32;
        let r = Biterator {
            bits,
            overflowed_bits,
            words: slice,
            next_index,
            slip,
            at_last,
            done: false,
            zeroes: Ghost(zeroes_on_left),
            eat: Ghost(bits_to_eat),
            yielded: Ghost(0),
        };
        assert(r.remaining() =~= shifted_words(slice@, zeroes_on_left, bits_to_eat));
        r
    }

    /// Yields the next output word, or `None` once all have been yielded.
    pub fn next(&mut self) -> (r: Option<BitmapWord>)
        requires
            old(self).inv(),
        ensures
            final(self).inv(),
            old(self).remaining().len() == 0 ==> r is None && final(self).remaining() == old(
                self,
            ).remaining(),
            old(self).remaining().len() > 0 ==> r == Some(old(self).remaining()[0])
                && final(self).remaining() == old(self).remaining().drop_first(),
    {
        let ghost prev = self.remaining();
        if self.done {
            assert(prev.len() == 0);
            None
        } else if self.at_last {
            self.done = true;
            self.yielded = Ghost(self.yielded@ + 1);
            assert(self.remaining() =~= prev.drop_first());
            Some(self.bits)
        } else {
            let ret = self.bits;
            let ghost pos = self.yielded@;
            let ghost out = self.output();
            let incoming: u32;
            if self.next_index >= self.words.len() {
                self.at_last = true;
                incoming = 0;
            } else {
                incoming = self.words[self.next_index];
                self.next_index = self.next_index + 1;
            }
            let carried = self.overflowed_bits;
            self.overflowed_bits = incoming << self.slip;
            self.bits = carried | (incoming >> (32 - self.slip));
            self.yielded = Ghost(self.yielded@ + 1);
            assert(self.bits == out[pos + 1int]);
            assert(self.remaining() =~= prev.drop_first());
            Some(ret)
        }
    }

    /// All the words still to be yielded, in order.
    pub fn collect_words(self) -> (r: Vec<BitmapWord>)
        requires
            self.inv(),
        ensures
            r@ == self.remaining(),
    {
        let mut it = self;
        let ghost all = it.remaining();
        let mut out: Vec<BitmapWord> = Vec::new();
        loop
            invariant
                it.inv(),
                all == self.remaining(),
                all == out@ + it.remaining(),
            decreases it.remaining().len(),
        {
            match it.next() {
                Some(w) => {
                    out.push(w);
                    assert(all =~= out@ + it.remaining());
                },
                None => {
                    assert(all =~= out@);
                    return out;
                },
            }
        }
    }
}

/// Where a blit copies to: the source pixels `[left, right) x [top, bottom)`
/// land at `(x + dx, y + dy)` in the destination.
pub struct CopyRegion {
    pub left: int,
    pub top: int,
    pub right: int,
    pub bottom: int,
    pub dx: int,
    pub dy: int,
}

impl CopyRegion {
    pub open spec fn is_empty(self) -> bool {
        self.left >= self.right || self.top >= self.bottom
    }
}

pub open spec fn max3(a: int, b: int, c: int) -> int {
    if a >= b && a >= c {
        a
    } else if b >= c {
        b
    } else {
        c
    }
}

pub open spec fn min3(a: int, b: int, c: int) -> int {
    if a <= b && a <= c {
        a
    } else if b <= c {
        b
    } else {
        c
    }
}

/// The pixels a blit copies: those of the source rectangle (the whole source
/// by default) that lie inside the source bitmap and whose destination,
/// with the rectangle's top-left corner placed at `(dst_x, dst_y)`, lies
/// inside the effective clip of the destination.
pub open spec fn copy_region(
    dst: BitmapView,
    clip: Option<Rectangle>,
    src: BitmapView,
    src_rect: Option<Rectangle>,
    dst_x: i32,
    dst_y: i32,
) -> CopyRegion {
    let c = effective_clip(dst.bounds(), clip);
    let r = match src_rect {
        Some(r) => r,
        None => src.bounds(),
    };
    let dx = dst_x - r.left;
    let dy = dst_y - r.top;
    CopyRegion {
        left: max3(r.left as int, c.left - dx, 0),
        top: max3(r.top as int, c.top - dy, 0),
        right: min3(r.right as int, src.width as int, c.right - dx),
        bottom: min3(r.bottom as int, src.height as int, c.bottom - dy),
        dx,
        dy,
    }
}

/// The bit shift that carries a source row into destination alignment:
/// zero bits to put in front, and bits of the first word to drop.
pub open spec fn row_shift(src_left: int, dst_left: int) -> (u32, u32) {
    let sa = src_left % 32;
    let da = dst_left % 32;
    if sa < da {
        ((da - sa) as u32, 0u32)
    } else {
        (0u32, (sa - da) as u32)
    }
}

/// The source words fed to destination row `y - g.dy`'s words, in order: the
/// words of source row `sy` that the copied span touches, realigned to the
/// destination.
pub open spec fn source_row(src: BitmapView, g: CopyRegion, sy: int) -> Seq<u32> {
    let first = g.left / 32;
    let last = (g.right - 1) / 32;
    let base = sy * src.pitch() + first;
    let (zeroes, eat) = row_shift(g.left, g.left + g.dx);
    shifted_words(src.words.subrange(base, base + last - first + 1), zeroes, eat)
}

/// Word `w` of destination row `y` after the blit: inside the copied rows and
/// word span, the mode combines the realigned source word into it under the
/// span mask; elsewhere the word is kept.
pub open spec fn blitted_word<M: TransferMode>(
    existing: u32,
    mode: M,
    src: BitmapView,
    g: CopyRegion,
    y: int,
    w: int,
) -> u32 {
    let dl = g.left + g.dx;
    let dr = g.right + g.dx;
    if !g.is_empty() && g.top + g.dy <= y < g.bottom + g.dy && dl / 32 <= w <= (dr - 1) / 32 {
        let n = source_row(src, g, y - g.dy)[w - dl / 32];
        masked_write(
            existing,
            mode.combine_spec(n, existing, w as u32, y as u32),
            span_mask(dl as u32, dr as u32, w),
        )
    } else {
        existing
    }
}

/// The destination after copying region `g` of `src` into it.
pub open spec fn blit_region_view<M: TransferMode>(
    dst: BitmapView,
    mode: M,
    src: BitmapView,
    g: CopyRegion,
) -> BitmapView {
    BitmapView {
        words: Seq::new(
            dst.words.len(),
            |k: int| blitted_word(dst.words[k], mode, src, g, k / dst.pitch() as int, k % dst.pitch() as int),
        ),
        ..dst
    }
}

/// The destination after `blit_bits(mode, clip, src, src_rect, dst_x, dst_y)`.
pub open spec fn blit_view<M: TransferMode>(
    dst: BitmapView,
    mode: M,
    clip: Option<Rectangle>,
    src: BitmapView,
    src_rect: Option<Rectangle>,
    dst_x: i32,
    dst_y: i32,
) -> BitmapView {
    blit_region_view(dst, mode, src, copy_region(dst, clip, src, src_rect, dst_x, dst_y))
}

/// A stream of source words for one row.
trait WordSource {
    spec fn ready(&self) -> bool;

    /// The words still to come.
    spec fn pending(&self) -> Seq<u32>;

    fn next_word(&mut self) -> (r: u32)
        requires
            old(self).ready(),
            old(self).pending().len() > 0,
        ensures
            final(self).ready(),
            r == old(self).pending()[0],
            final(self).pending() == old(self).pending().drop_first(),
    ;
}

/// The words of a row taken as they are, when no shift is needed.
struct AlignedWords<'a> {
    words: &'a [BitmapWord],
    next_index: usize,
}

impl<'a> WordSource for AlignedWords<'a> {
    closed spec fn ready(&self) -> bool {
        self.next_index <= self.words@.len()
    }

    closed spec fn pending(&self) -> Seq<u32> {
        self.words@.subrange(self.next_index as int, self.words@.len() as int)
    }

    fn next_word(&mut self) -> (r: u32) {
        let w = self.words[self.next_index];
        self.next_index = self.next_index + 1;
        assert(self.pending() =~= old(self).pending().drop_first());
        w
    }
}

impl<'a> WordSource for Biterator<'a> {
    closed spec fn ready(&self) -> bool {
        self.inv()
    }

    closed spec fn pending(&self) -> Seq<u32> {
        self.remaining()
    }

    fn next_word(&mut self) -> (r: u32) {
        match self.next() {
            Some(w) => w,
            None => 0,
        }
    }
}

/// A stream without shift is its input.
proof fn lemma_unshifted(s: Seq<u32>)
    ensures
        shifted_words(s, 0, 0) == s,
{
    assert forall|k: int| 0 <= k < s.len() implies #[trigger] shifted_words(s, 0, 0)[k] == s[k] by {
        let x = s[k];
        assert(x & (!0u32 >> 0u32) == x) by (bit_vector);
    }
    assert(shifted_words(s, 0, 0) =~= s);
}

proof fn lemma_write_facts(x: u32, c: u32, m: u32)
    ensures
        masked_write(x, c, !0u32) == c,
        m & !0u32 == m,
        !0u32 & m == m,
{
    assert((x & !(!0u32)) | (c & !0u32) == c) by (bit_vector);
    assert(m & !0u32 == m) by (bit_vector);
    assert(!0u32 & m == m) by (bit_vector);
}

/// Combines the words of `row` into words `start..=stop` of the destination
/// row starting at word `base`, under the masks of the span `[dl, dr)`.
fn blit_row<Mode: TransferMode, S: WordSource>(
    words: &mut Vec<u32>,
    mode: &Mode,
    row: &mut S,
    base: usize,
    y: u32,
    dl: u32,
    dr: u32,
    start: u32,
    stop: u32,
    lm: u32,
    rm: u32,
)
    requires
        dl < dr,
        start == start_word(dl),
        stop == stop_word(dr),
        lm == left_mask(dl),
        rm == right_mask(dr),
        start <= stop,
        base + stop < old(words)@.len(),
        old(words)@.len() <= u32::MAX,
        old(row).ready(),
        old(row).pending().len() >= stop - start + 1,
    ensures
        final(words)@.len() == old(words)@.len(),
        forall|j: int|
            0 <= j < old(words)@.len() ==> #[trigger] final(words)@[j] == if base + start <= j <= base
                + stop {
                masked_write(
                    old(words)@[j],
                    mode.combine_spec(
                        old(row).pending()[j - base - start],
                        old(words)@[j],
                        (j - base) as u32,
                        y,
                    ),
                    span_mask(dl, dr, j - base),
                )
            } else {
                old(words)@[j]
            },
{
    let ghost orig = words@;
    let ghost feed = row.pending();
    if start == stop {
        let m = lm & rm;
        let i = base + start as usize;
        let e = words[i];
        let n = row.next_word();
        let c = mode.combine(n, e, start, y);
        words.set(i, (e & !m) | (c & m));
    } else {
        let i = base + start as usize;
        let e = words[i];
        let n = row.next_word();
        let c = mode.combine(n, e, start, y);
        proof {
            lemma_write_facts(e, c, lm);
        }
        words.set(i, (e & !lm) | (c & lm));
        let mut x = start + 1;
        while x < stop
            invariant
                start < x <= stop,
                start == start_word(dl),
                stop == stop_word(dr),
                base + stop < orig.len(),
                orig.len() <= u32::MAX,
                words@.len() == orig.len(),
                feed.len() >= stop - start + 1,
                row.ready(),
                row.pending() == feed.subrange(x - start, feed.len() as int),
                forall|j: int|
                    0 <= j < orig.len() ==> #[trigger] words@[j] == if base + start <= j < base + x {
                        masked_write(
                            orig[j],
                            mode.combine_spec(feed[j - base - start], orig[j], (j - base) as u32, y),
                            span_mask(dl, dr, j - base),
                        )
                    } else {
                        orig[j]
                    },
            decreases stop - x,
        {
            let i = base + x as usize;
            let e = words[i];
            let n = row.next_word();
            let c = mode.combine(n, e, x, y);
            proof {
                lemma_write_facts(e, c, !0u32);
                assert(span_mask(dl, dr, x as int) == !0u32);
            }
            words.set(i, c);
            assert(row.pending() =~= feed.subrange(x + 1 - start, feed.len() as int));
            x += 1;
        }
        let i = base + stop as usize;
        let e = words[i];
        let n = row.next_word();
        let c = mode.combine(n, e, stop, y);
        proof {
            lemma_write_facts(e, c, rm);
        }
        words.set(i, (e & !rm) | (c & rm));
    }
}

/// A copied span needs no more destination words than its realigned source
/// row provides.
pub proof fn lemma_row_fits(sl: int, sr: int, dl: int, dr: int)
    requires
        0 <= sl < sr,
        0 <= dl,
        dr - dl == sr - sl,
    ensures
        (dr - 1) / 32 - dl / 32 + 1 <= (sr - 1) / 32 - sl / 32 + 1 + (if sl % 32 < dl % 32 {
            1int
        } else {
            0int
        }),
{
    let w = sr - sl;
    let sa = sl % 32;
    let da = dl % 32;
    vstd::arithmetic::div_mod::lemma_fundamental_div_mod(sl, 32);
    vstd::arithmetic::div_mod::lemma_fundamental_div_mod(dl, 32);
    let a = sl / 32;
    let b = dl / 32;
    vstd::arithmetic::div_mod::lemma_fundamental_div_mod_converse(sr - 1, 32, a + (sa + w - 1) / 32, (sa + w - 1) % 32);
    vstd::arithmetic::div_mod::lemma_fundamental_div_mod_converse(dr - 1, 32, b + (da + w - 1) / 32, (da + w - 1) % 32);
    assert((da + w - 1) / 32 <= (sa + w - 1) / 32 + (if sa < da { 1int } else { 0int })) by (nonlinear_arith)
        requires 0 <= sa < 32, 0 <= da < 32, w >= 1;
}

impl Bitmap {
    /// Combines the copied region of `src` into `dst`, one destination row at
    /// a time, realigning the source rows when the left edges of the source
    /// and destination spans sit at different bit positions in their words.
    fn inner_blit<Mode: TransferMode>(
        mode: &Mode,
        src: &Bitmap,
        dst: &mut Bitmap,
        g: Ghost<CopyRegion>,
        src_left: u32,
        src_top: u32,
        src_right: u32,
        dst_left: u32,
        dst_top: u32,
        dst_right: u32,
        dst_bottom: u32,
    )
        requires
            old(dst).wf(),
            src.wf(),
            !g@.is_empty(),
            g@.left == src_left,
            g@.right == src_right,
            g@.top == src_top,
            g@.dx == dst_left - src_left,
            g@.dy == dst_top - src_top,
            g@.bottom + g@.dy == dst_bottom,
            dst_right == src_right + g@.dx,
            src_right <= src@.width,
            g@.bottom <= src@.height,
            dst_right <= old(dst)@.width,
            dst_bottom <= old(dst)@.height,
        ensures
            final(dst).wf(),
            final(dst)@ == blit_region_view(old(dst)@, *mode, src@, g@),
    {
        let ghost v = dst@;
        let ghost target = blit_region_view(v, *mode, src@, g@).words;
        let (in_start, in_stop, _, _) = calculate_span_mask(src_left, src_right);
        let in_count = in_stop - in_start + 1;
        let sa = src_left % 32;
        let da = dst_left % 32;
        let zeroes = if sa < da { da - sa } else { 0 };
        let eat = if sa < da { 0 } else { sa - da };
        let (out_start, out_stop, lm, rm) = calculate_span_mask(dst_left, dst_right);
        let sp = src.words_per_row;
        let dp = dst.words_per_row;
        proof {
            lemma_row_fits(src_left as int, src_right as int, dst_left as int, dst_right as int);
        }
        assert(in_stop < sp) by (nonlinear_arith)
            requires in_stop == (src_right - 1) / 32, src_right <= src@.width, sp == (src@.width + 31) / 32, src_right > 0;
        assert(out_stop < dp) by (nonlinear_arith)
            requires out_stop == (dst_right - 1) / 32, dst_right <= v.width, dp == (v.width + 31) / 32, dst_right > 0;
        let mut y = dst_top;
        while y < dst_bottom
            invariant
                dst.wf(),
                v.wf(),
                src.wf(),
                dst@.width == v.width,
                dst@.height == v.height,
                dp == v.pitch(),
                sp == src@.pitch(),
                in_start == start_word(src_left),
                in_stop == stop_word(src_right),
                in_count == in_stop - in_start + 1,
                in_stop < sp,
                out_start == start_word(dst_left),
                out_stop == stop_word(dst_right),
                out_stop < dp,
                out_start <= out_stop,
                lm == left_mask(dst_left),
                rm == right_mask(dst_right),
                dst_left < dst_right,
                (zeroes, eat) == row_shift(src_left as int, dst_left as int),
                zeroes < 32,
                eat < 32,
                zeroes == 0 || eat == 0,
                out_stop - out_start + 1 <= shifted_len(in_count as nat, zeroes, eat),
                dst_top <= y <= dst_bottom,
                dst_bottom <= v.height,
                !g@.is_empty(),
                g@.left == src_left,
                g@.right == src_right,
                g@.top == src_top,
                g@.dx == dst_left - src_left,
                g@.dy == dst_top - src_top,
                g@.bottom + g@.dy == dst_bottom,
                dst_right == src_right + g@.dx,
                g@.bottom <= src@.height,
                target == blit_region_view(v, *mode, src@, g@).words,
                forall|k: int|
                    0 <= k < v.words.len() ==> #[trigger] dst@.words[k] == if k / (dp as int) < y {
                        target[k]
                    } else {
                        v.words[k]
                    },
            decreases dst_bottom - y,
        {
            let sy = src_top + (y - dst_top);
            assert(sy * sp + sp <= sp * src@.height) by (nonlinear_arith)
                requires sy < src@.height;
            let src_base = (sy * sp + in_start) as usize;
            let src_end = src_base + in_count as usize;
            let slice = vstd::slice::slice_subrange(src.words.as_slice(), src_base, src_end);
            assert(y * dp + dp <= dp * v.height) by (nonlinear_arith)
                requires y < v.height;
            let base = (y * dp) as usize;
            let ghost before = dst@.words;
            let ghost feed = source_row(src@, g@, sy as int);
            if zeroes == eat {
                proof {
                    lemma_unshifted(slice@);
                }
                let mut row = AlignedWords { words: slice, next_index: 0 };
                assert(row.pending() =~= slice@);
                blit_row(&mut dst.words, mode, &mut row, base, y, dst_left, dst_right, out_start, out_stop, lm, rm);
            } else {
                let mut row = Biterator::new(slice, zeroes, eat);
                blit_row(&mut dst.words, mode, &mut row, base, y, dst_left, dst_right, out_start, out_stop, lm, rm);
            }
            assert forall|k: int| 0 <= k < v.words.len() implies #[trigger] dst@.words[k] == if k / (
            dp as int) < y + 1 {
                target[k]
            } else {
                v.words[k]
            } by {
                lemma_row_of(k, dp as int, y as int);
                lemma_row_of(k, dp as int, y + 1);
                if k / (dp as int) == y {
                    assert(before[k] == v.words[k]);
                }
            }
            y += 1;
        }
        assert forall|k: int| 0 <= k < v.words.len() implies #[trigger] dst@.words[k] == target[k] by {
            if k / (dp as int) >= y {
                assert(k / (dp as int) >= dst_bottom);
            }
        }
        assert(dst@.words =~= target);
    }
}

fn max3_i64(a: i64, b: i64, c: i64) -> (r: i64)
    ensures
        r == max3(a as int, b as int, c as int),
{
    if a >= b && a >= c {
        a
    } else if b >= c {
        b
    } else {
        c
    }
}

fn min3_i64(a: i64, b: i64, c: i64) -> (r: i64)
    ensures
        r == min3(a as int, b as int, c as int),
{
    if a <= b && a <= c {
        a
    } else if b <= c {
        b
    } else {
        c
    }
}

impl Bitmap {
    /// Blit the given rectangle of pixels from the source into ourselves,
    /// with the top-left corner of the rectangle being placed at the given x
    /// and y coordinates. Only pixels inside the source bitmap and, once
    /// placed, inside the clip rectangle and this bitmap are copied.
    pub fn blit_bits<Mode: TransferMode>(
        &mut self,
        mode: Mode,
        clip_rect: Option<Rectangle>,
        src: &Bitmap,
        src_rect: Option<Rectangle>,
        dst_x: i32,
        dst_y: i32,
    )
        requires
            old(self).wf(),
            src.wf(),
            old(self)@.width <= i32::MAX,
            old(self)@.height <= i32::MAX,
            src@.width <= i32::MAX,
            src@.height <= i32::MAX,
        ensures
            final(self).wf(),
            final(self)@ == blit_view(old(self)@, mode, clip_rect, src@, src_rect, dst_x, dst_y),
    {
        let ghost v = self@;
        let ghost g = copy_region(v, clip_rect, src@, src_rect, dst_x, dst_y);
        let bounds = self.get_bounds();
        let clip = match clip_rect {
            Some(c) => c.intersection(bounds),
            None => bounds,
        };
        let r = match src_rect {
            Some(r) => r,
            None => src.get_bounds(),
        };
        let dx = dst_x as i64 - r.left as i64;
        let dy = dst_y as i64 - r.top as i64;
        let left = max3_i64(r.left as i64, clip.left as i64 - dx, 0);
        let top = max3_i64(r.top as i64, clip.top as i64 - dy, 0);
        let right = min3_i64(r.right as i64, src.width as i64, clip.right as i64 - dx);
        let bottom = min3_i64(r.bottom as i64, src.height as i64, clip.bottom as i64 - dy);
        if left >= right || top >= bottom {
            assert(self@.words =~= blit_view(v, mode, clip_rect, src@, src_rect, dst_x, dst_y).words);
            return;
        }
        Bitmap::inner_blit(
            &mode,
            src,
            self,
            Ghost(g),
            left as u32,
            top as u32,
            right as u32,
            (left + dx) as u32,
            (top + dy) as u32,
            (right + dx) as u32,
            (bottom + dy) as u32,
        );
    }
}

proof fn lemma_start_wide(s0: u32, s1: u32, z: u32, t: u32)
    requires
        z < t < 32,
    ensures
        ({
            let huge = ((((s0 as u64) << (t + 32) as u64) >> z as u64) | (((s1 as u64) << t as u64)
                >> z as u64));
            let e = (t - z) as u32;
            &&& (huge >> 32u64) as u32 == ((s0 & (!0u32 >> t)) << e) | (s1 >> (32 - e) as u32)
            &&& huge as u32 == s1 << e
        }),
{
    let c0 = s0 & (!0u32 >> t);
    let e = (t - z) as u32;
    let hi = (e + 32) as u32;
    assert(((s0 as u64) << (t + 32) as u64) == ((c0 as u64) << (t + 32) as u64)) by (bit_vector)
        requires
            c0 == s0 & (!0u32 >> t),
            t < 32,
    ;
    assert((((c0 as u64) << (t + 32) as u64) >> z as u64) == ((c0 as u64) << hi as u64))
        by (bit_vector)
        requires
            c0 == s0 & (!0u32 >> t),
            z < t < 32,
            hi == 32 + t - z,
    ;
    assert((((s1 as u64) << t as u64) >> z as u64) == ((s1 as u64) << e as u64)) by (bit_vector)
        requires
            z < t < 32,
            e == t - z,
    ;
    let a = (c0 as u64) << hi as u64;
    let b = (s1 as u64) << e as u64;
    assert(((a | b) >> 32u64) as u32 == (c0 << e) | (s1 >> (32 - e) as u32)) by (bit_vector)
        requires
            c0 == s0 & (!0u32 >> t),
            z < t < 32,
            e == t - z,
            hi == e + 32,
            a == (c0 as u64) << hi as u64,
            b == (s1 as u64) << e as u64,
    ;
    assert((a | b) as u32 == s1 << e) by (bit_vector)
        requires
            e < 32,
            hi == e + 32,
            a == (c0 as u64) << hi as u64,
            b == (s1 as u64) << e as u64,
    ;
}

proof fn lemma_start_narrow(s0: u32, z: u32, t: u32)
    requires
        t < z < 32,
    ensures
        ({
            let huge = ((s0 as u64) << (t + 32) as u64) >> z as u64;
            let d = (z - t) as u32;
            &&& (huge >> 32u64) as u32 == (0u32 << (32 - d) as u32) | ((s0 & (!0u32 >> t)) >> d)
            &&& huge as u32 == (s0 & (!0u32 >> t)) << (32 + t - z) as u32
        }),
{
    let s1 = s0 & (!0u32 >> t);
    let d = (z - t) as u32;
    let sh = (32 + t - z) as u32;
    assert(((s0 as u64) << (t + 32) as u64) == ((s1 as u64) << (t + 32) as u64)) by (bit_vector)
        requires
            s1 == s0 & (!0u32 >> t),
            t < 32,
    ;
    assert((((s1 as u64) << (t + 32) as u64) >> z as u64) == ((s1 as u64) << sh as u64)) by (bit_vector)
        requires
            s1 == s0 & (!0u32 >> t),
            t < z < 32,
            sh == 32 + t - z,
    ;
    assert((((s1 as u64) << sh as u64) >> 32u64) as u32 == (0u32 << (32 - d) as u32) | (s1 >> d))
        by (bit_vector)
        requires
            t < z < 32,
            sh == 32 + t - z,
            d == z - t,
    ;
    assert(((s1 as u64) << sh as u64) as u32 == s1 << sh) by (bit_vector)
        requires
            sh < 32,
    ;
}

} // verus!
