use vstd::prelude::*;

use crate::bitmap::draw::pattern::PatternTrait;
use crate::bitmap::draw::transfer::{ModeCopy, ModeXor, TransferMode};
use crate::bitmap::draw::{calculate_span_mask, left_mask, right_mask, span_mask, start_word, stop_word};
use crate::bitmap::{Bitmap, BitmapView};
use crate::rectangle::{lemma_intersection_laws, Rectangle};

verus! {

/// The clip rectangle in effect: the given clip limited to the bitmap's
/// bounds, or the whole bitmap when no clip is given.
pub open spec fn effective_clip(bounds: Rectangle, clip: Option<Rectangle>) -> Rectangle {
    match clip {
        Some(c) => c.spec_intersection(bounds),
        None => bounds,
    }
}

/// A word written under mask `m`: the bits inside `m` come from `combined`,
/// the others stay as they were.
pub open spec fn masked_write(existing: u32, combined: u32, m: u32) -> u32 {
    (existing & !m) | (combined & m)
}

/// Word `w` of row `y` after filling region `r` (already clipped to the
/// bitmap): inside the region's rows and word span, the mode combines the
/// span mask into the word under that mask; elsewhere the word is kept.
pub open spec fn filled_word<M: TransferMode>(existing: u32, mode: M, r: Rectangle, y: int, w: int) -> u32 {
    if !r.spec_is_empty() && r.top <= y < r.bottom && start_word(r.left as u32) <= w <= stop_word(
        r.right as u32,
    ) {
        let m = span_mask(r.left as u32, r.right as u32, w);
        masked_write(existing, mode.combine_spec(m, existing, w as u32, y as u32), m)
    } else {
        existing
    }
}

/// The region a fill of `rect` touches: `rect` limited to the effective clip.
pub open spec fn fill_region(v: BitmapView, clip: Option<Rectangle>, rect: Rectangle) -> Rectangle {
    rect.spec_intersection(effective_clip(v.bounds(), clip))
}

/// A bitmap after `fill_rect(mode, clip, rect)`.
pub open spec fn fill_view<M: TransferMode>(
    v: BitmapView,
    mode: M,
    clip: Option<Rectangle>,
    rect: Rectangle,
) -> BitmapView {
    let r = fill_region(v, clip, rect);
    BitmapView {
        words: Seq::new(
            v.words.len(),
            |k: int| filled_word(v.words[k], mode, r, k / v.pitch() as int, k % v.pitch() as int),
        ),
        ..v
    }
}

/// The four bands of a border of the given thickness inside `rect`: top,
/// left, right and bottom. The side bands span only the rows strictly between
/// the top and bottom bands.
pub open spec fn stroke_bands(rect: Rectangle, xt: u32, yt: u32) -> (
    Rectangle,
    Rectangle,
    Rectangle,
    Rectangle,
) {
    let inner_top = (rect.top + yt) as i32;
    let inner_bottom = (rect.bottom - yt) as i32;
    (
        Rectangle { left: rect.left, top: rect.top, right: rect.right, bottom: inner_top },
        Rectangle {
            left: rect.left,
            top: inner_top,
            right: (rect.left + xt) as i32,
            bottom: inner_bottom,
        },
        Rectangle {
            left: (rect.right - xt) as i32,
            top: inner_top,
            right: rect.right,
            bottom: inner_bottom,
        },
        Rectangle { left: rect.left, top: inner_bottom, right: rect.right, bottom: rect.bottom },
    )
}

/// The border is too thick for the rectangle: its opposite bands would meet.
pub open spec fn stroke_too_thick(rect: Rectangle, xt: u32, yt: u32) -> bool {
    rect.spec_width() <= 2 * xt || rect.spec_height() <= 2 * yt
}

/// A bitmap after `stroke_rect(mode, clip, rect, xt, yt)`.
pub open spec fn stroke_view<M: TransferMode>(
    v: BitmapView,
    mode: M,
    clip: Option<Rectangle>,
    rect: Rectangle,
    xt: u32,
    yt: u32,
) -> BitmapView {
    if stroke_too_thick(rect, xt, yt) {
        fill_view(v, mode, clip, rect)
    } else {
        let (t, l, r, b) = stroke_bands(rect, xt, yt);
        fill_view(fill_view(fill_view(fill_view(v, mode, clip, t), mode, clip, l), mode, clip, r), mode, clip, b)
    }
}

/// Row and column of a word index in a bitmap of `p` words per row.
pub proof fn lemma_row_of(j: int, p: int, y: int)
    requires
        p > 0,
        j >= 0,
        y >= 0,
    ensures
        (j / p == y) <==> (y * p <= j < y * p + p),
        (j / p < y) <==> (j < y * p),
        j / p == y ==> j % p == j - y * p,
{
    vstd::arithmetic::div_mod::lemma_fundamental_div_mod(j, p);
    let q = j / p;
    let m = j % p;
    assert(0 <= m < p);
    if q < y {
        assert(q * p + p <= y * p) by (nonlinear_arith)
            requires q < y, p > 0;
    } else if q > y {
        assert(y * p + p <= q * p) by (nonlinear_arith)
            requires q > y, p > 0;
    }
    assert(j == q * p + m) by (nonlinear_arith)
        requires j == p * q + m;
}

proof fn lemma_mask_facts(x: u32, c: u32, m: u32)
    ensures
        masked_write(x, c, !0u32) == c,
        m & !0u32 == m,
        !0u32 & m == m,
{
    assert((x & !(!0u32)) | (c & !0u32) == c) by (bit_vector);
    assert(m & !0u32 == m) by (bit_vector);
    assert(!0u32 & m == m) by (bit_vector);
}

impl Bitmap {
    /// Applies the mode across words `start..=stop` of the row starting at
    /// word `base`.
    fn fill_row<Mode: TransferMode>(
        words: &mut Vec<u32>,
        mode: &Mode,
        r: Rectangle,
        base: usize,
        y: u32,
        start: u32,
        stop: u32,
        lm: u32,
        rm: u32,
    )
        requires
            !r.spec_is_empty(),
            0 <= r.left,
            r.top <= y < r.bottom,
            start == start_word(r.left as u32),
            stop == stop_word(r.right as u32),
            lm == left_mask(r.left as u32),
            rm == right_mask(r.right as u32),
            start <= stop,
            base + stop < old(words)@.len(),
            old(words)@.len() <= u32::MAX,
        ensures
            final(words)@.len() == old(words)@.len(),
            forall|j: int|
                0 <= j < old(words)@.len() ==> #[trigger] final(words)@[j] == if base + start <= j
                    <= base + stop {
                    filled_word(old(words)@[j], *mode, r, y as int, j - base)
                } else {
                    old(words)@[j]
                },
    {
        let ghost orig = words@;
        if start == stop {
            let m = lm & rm;
            let i = base + start as usize;
            let e = words[i];
            let c = mode.combine(m, e, start, y);
            words.set(i, (e & !m) | (c & m));
        } else {
            let i = base + start as usize;
            let e = words[i];
            let c = mode.combine(lm, e, start, y);
            proof {
                lemma_mask_facts(e, c, lm);
            }
            words.set(i, (e & !lm) | (c & lm));
            let mut x = start + 1;
            while x < stop
                invariant
                    start < x <= stop,
                    !r.spec_is_empty(),
                    0 <= r.left,
                    r.top <= y < r.bottom,
                    start == start_word(r.left as u32),
                    stop == stop_word(r.right as u32),
                    base + stop < orig.len(),
                    orig.len() <= u32::MAX,
                    words@.len() == orig.len(),
                    forall|j: int|
                        0 <= j < orig.len() ==> #[trigger] words@[j] == if base + start <= j < base
                            + x {
                            filled_word(orig[j], *mode, r, y as int, j - base)
                        } else {
                            orig[j]
                        },
                decreases stop - x,
            {
                let i = base + x as usize;
                let e = words[i];
                let c = mode.combine(!0u32, e, x, y);
                proof {
                    lemma_mask_facts(e, c, !0u32);
                }
                words.set(i, c);
                x += 1;
            }
            let i = base + stop as usize;
            let e = words[i];
            let c = mode.combine(rm, e, stop, y);
            proof {
                lemma_mask_facts(e, c, rm);
            }
            words.set(i, (e & !rm) | (c & rm));
        }
    }

    fn fill_with<Mode: TransferMode>(&mut self, mode: &Mode, clip_rect: Option<Rectangle>, rectangle: Rectangle)
        requires
            old(self).wf(),
            old(self)@.width <= i32::MAX,
            old(self)@.height <= i32::MAX,
        ensures
            final(self).wf(),
            final(self)@ == fill_view(old(self)@, *mode, clip_rect, rectangle),
    {
        let ghost v = self@;
        let bounds = self.get_bounds();
        let clip = match clip_rect {
            Some(c) => c.intersection(bounds),
            None => bounds,
        };
        let r = rectangle.intersection(clip);
        if r.is_empty() {
            assert(self@.words =~= fill_view(v, *mode, clip_rect, rectangle).words);
            return;
        }
        let left = r.left as u32;
        let right = r.right as u32;
        let top = r.top as u32;
        let bottom = r.bottom as u32;
        let (start, stop, lm, rm) = calculate_span_mask(left, right);
        let p = self.words_per_row;
        let ghost target = fill_view(v, *mode, clip_rect, rectangle).words;
        assert(p > 0);
        assert(stop < p) by (nonlinear_arith)
            requires stop == (right - 1) / 32, right <= v.width, p == (v.width + 31) / 32, right > 0;
        let mut y = top;
        while y < bottom
            invariant
                self.wf(),
                v.wf(),
                self@.width == v.width,
                self@.height == v.height,
                p == v.pitch(),
                p > 0,
                stop < p,
                top <= y <= bottom,
                bottom <= v.height,
                r == fill_region(v, clip_rect, rectangle),
                !r.spec_is_empty(),
                left == r.left,
                right == r.right,
                top == r.top,
                bottom == r.bottom,
                start == start_word(left),
                stop == stop_word(right),
                lm == left_mask(left),
                rm == right_mask(right),
                start <= stop,
                target == fill_view(v, *mode, clip_rect, rectangle).words,
                forall|k: int|
                    0 <= k < v.words.len() ==> #[trigger] self@.words[k] == if k / (p as int) < y {
                        target[k]
                    } else {
                        v.words[k]
                    },
            decreases bottom - y,
        {
            assert(y * p + p <= p * v.height) by (nonlinear_arith)
                requires y < v.height, p > 0;
            let base = (y * p) as usize;
            let ghost before = self@.words;
            Bitmap::fill_row(&mut self.words, mode, r, base, y, start, stop, lm, rm);
            assert forall|k: int| 0 <= k < v.words.len() implies #[trigger] self@.words[k] == if k / (
            p as int) < y + 1 {
                target[k]
            } else {
                v.words[k]
            } by {
                lemma_row_of(k, p as int, y as int);
                lemma_row_of(k, p as int, y + 1);
                if k / (p as int) == y {
                    assert(before[k] == v.words[k]);
                }
            }
            y += 1;
        }
        assert forall|k: int| 0 <= k < v.words.len() implies #[trigger] self@.words[k] == target[k] by {
            if k / (p as int) >= y {
                assert(k / (p as int) >= r.bottom);
            }
        }
        assert(self@.words =~= target);
    }

    /// Fill in all pixels of the given rectangle, limited to the clip
    /// rectangle and the bitmap's bounds.
    pub fn fill_rect<Mode: TransferMode>(&mut self, mode: Mode, clip_rect: Option<Rectangle>, rectangle: Rectangle)
        requires
            old(self).wf(),
            old(self)@.width <= i32::MAX,
            old(self)@.height <= i32::MAX,
        ensures
            final(self).wf(),
            final(self)@ == fill_view(old(self)@, mode, clip_rect, rectangle),
    {
        self.fill_with(&mode, clip_rect, rectangle)
    }
    /// Draw a line border around the given rectangle, `x_thickness` pixels
    /// wide on the left and right and `y_thickness` pixels high on the top and
    /// bottom. The drawn pixels are strictly inside the given rectangle. A
    /// border too thick for the rectangle fills the whole rectangle.
    pub fn stroke_rect<Mode: TransferMode>(
        &mut self,
        mode: Mode,
        clip_rect: Option<Rectangle>,
        rectangle: Rectangle,
        x_thickness: u32,
        y_thickness: u32,
    )
        requires
            old(self).wf(),
            old(self)@.width <= i32::MAX,
            old(self)@.height <= i32::MAX,
        ensures
            final(self).wf(),
            final(self)@ == stroke_view(old(self)@, mode, clip_rect, rectangle, x_thickness, y_thickness),
    {
        if rectangle.get_width() as u64 <= x_thickness as u64 * 2 || rectangle.get_height() as u64
            <= y_thickness as u64 * 2 {
            self.fill_with(&mode, clip_rect, rectangle);
        } else {
            let xt = x_thickness as i32;
            let yt = y_thickness as i32;
            let inner_top = rectangle.top + yt;
            let inner_bottom = rectangle.bottom - yt;
            self.fill_with(
                &mode,
                clip_rect,
                Rectangle {
                    left: rectangle.left,
                    top: rectangle.top,
                    right: rectangle.right,
                    bottom: inner_top,
                },
            );
            self.fill_with(
                &mode,
                clip_rect,
                Rectangle {
                    left: rectangle.left,
                    top: inner_top,
                    right: rectangle.left + xt,
                    bottom: inner_bottom,
                },
            );
            self.fill_with(
                &mode,
                clip_rect,
                Rectangle {
                    left: rectangle.right - xt,
                    top: inner_top,
                    right: rectangle.right,
                    bottom: inner_bottom,
                },
            );
            self.fill_with(
                &mode,
                clip_rect,
                Rectangle {
                    left: rectangle.left,
                    top: inner_bottom,
                    right: rectangle.right,
                    bottom: rectangle.bottom,
                },
            );
        }
    }
}

/// A fill leaves the bitmap's dimensions alone and touches only words inside
/// the clipped region.
proof fn lemma_fill_view_shape<M: TransferMode>(v: BitmapView, mode: M, clip: Option<Rectangle>, rect: Rectangle)
    ensures
        fill_view(v, mode, clip, rect).width == v.width,
        fill_view(v, mode, clip, rect).height == v.height,
        fill_view(v, mode, clip, rect).words.len() == v.words.len(),
        fill_region(fill_view(v, mode, clip, rect), clip, rect) == fill_region(v, clip, rect),
{
}

/// Filling the same rectangle twice in copy mode gives the same bitmap as
/// filling it once.
pub proof fn lemma_fill_copy_idempotent<P: PatternTrait>(
    v: BitmapView,
    mode: ModeCopy<P>,
    clip: Option<Rectangle>,
    rect: Rectangle,
)
    ensures
        fill_view(fill_view(v, mode, clip, rect), mode, clip, rect) == fill_view(v, mode, clip, rect),
{
    let once = fill_view(v, mode, clip, rect);
    let twice = fill_view(once, mode, clip, rect);
    let r = fill_region(v, clip, rect);
    lemma_fill_view_shape(v, mode, clip, rect);
    assert forall|k: int| 0 <= k < v.words.len() implies #[trigger] twice.words[k] == once.words[k] by {
        let y = k / v.pitch() as int;
        let w = k % v.pitch() as int;
        let o = v.words[k];
        if !r.spec_is_empty() && r.top <= y < r.bottom && start_word(r.left as u32) <= w <= stop_word(
            r.right as u32,
        ) {
            let m = span_mask(r.left as u32, r.right as u32, w);
            let pw = mode.0.pattern_word(w as u32, y as u32);
            assert(masked_write(masked_write(o, m & pw, m), m & pw, m) == masked_write(o, m & pw, m))
                by (bit_vector);
        }
    }
    assert(twice.words =~= once.words);
}

/// Filling the same rectangle twice in xor mode restores the bitmap.
pub proof fn lemma_fill_xor_twice_restores<P: PatternTrait>(
    v: BitmapView,
    mode: ModeXor<P>,
    clip: Option<Rectangle>,
    rect: Rectangle,
)
    ensures
        fill_view(fill_view(v, mode, clip, rect), mode, clip, rect) == v,
{
    let once = fill_view(v, mode, clip, rect);
    let twice = fill_view(once, mode, clip, rect);
    let r = fill_region(v, clip, rect);
    lemma_fill_view_shape(v, mode, clip, rect);
    assert forall|k: int| 0 <= k < v.words.len() implies #[trigger] twice.words[k] == v.words[k] by {
        let y = k / v.pitch() as int;
        let w = k % v.pitch() as int;
        let o = v.words[k];
        if !r.spec_is_empty() && r.top <= y < r.bottom && start_word(r.left as u32) <= w <= stop_word(
            r.right as u32,
        ) {
            let m = span_mask(r.left as u32, r.right as u32, w);
            let pw = mode.0.pattern_word(w as u32, y as u32);
            let o1 = masked_write(o, (m & pw) ^ o, m);
            assert(masked_write(o1, (m & pw) ^ o1, m) == o) by (bit_vector)
                requires o1 == masked_write(o, (m & pw) ^ o, m);
        }
    }
    assert(twice.words =~= v.words);
}

/// A fill whose rectangle has no pixel in common with the clip rectangle
/// changes nothing.
pub proof fn lemma_fill_outside_clip_unchanged<M: TransferMode>(
    v: BitmapView,
    mode: M,
    clip: Rectangle,
    rect: Rectangle,
)
    requires
        rect.spec_intersection(clip).spec_is_empty(),
    ensures
        fill_view(v, mode, Some(clip), rect) == v,
{
    let r = fill_region(v, Some(clip), rect);
    let c = effective_clip(v.bounds(), Some(clip));
    lemma_intersection_laws(rect, c);
    lemma_intersection_laws(clip, v.bounds());
    lemma_intersection_laws(rect, clip);
    if !r.spec_is_empty() {
        assert(r.contains_point(r.left as int, r.top as int));
        assert(rect.spec_intersection(clip).contains_point(r.left as int, r.top as int));
    }
    assert(fill_view(v, mode, Some(clip), rect).words =~= v.words);
}

/// A border too thick for its rectangle is drawn as a fill of the whole
/// rectangle.
pub proof fn lemma_stroke_too_thick_fills<M: TransferMode>(
    v: BitmapView,
    mode: M,
    clip: Option<Rectangle>,
    rect: Rectangle,
    xt: u32,
    yt: u32,
)
    requires
        rect.spec_width() <= 2 * xt || rect.spec_height() <= 2 * yt,
    ensures
        stroke_view(v, mode, clip, rect, xt, yt) == fill_view(v, mode, clip, rect),
{
}

} // verus!
