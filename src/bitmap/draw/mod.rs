use vstd::prelude::*;

pub mod blit;
pub mod pattern;
pub mod pixels;
pub mod shapes;
pub mod transfer;

verus! {

/// Bits of the word holding pixel `left` at and to the right of that pixel.
pub open spec fn left_mask(left: u32) -> u32 {
    !0u32 >> (left % 32)
}

/// Bits of the word holding pixel `right - 1` at and to the left of that
/// pixel.
pub open spec fn right_mask(right: u32) -> u32 {
    if right % 32 == 0 {
        !0u32
    } else {
        !0u32 << (32 - right % 32) as u32
    }
}

/// Index of the first word touched by the pixel span `[left, right)`.
pub open spec fn start_word(left: u32) -> int {
    left as int / 32
}

/// Index of the last word touched by the pixel span `[left, right)`.
pub open spec fn stop_word(right: u32) -> int {
    (right as int - 1) / 32
}

/// The bits of word `w` of a row that lie in the pixel span `[left, right)`,
/// for a word between the span's first and last words.
pub open spec fn span_mask(left: u32, right: u32, w: int) -> u32 {
    (if w == start_word(left) { left_mask(left) } else { !0u32 }) & (if w == stop_word(right) {
        right_mask(right)
    } else {
        !0u32
    })
}

/// Word indices and edge masks of the pixel span `[left, right)`: the first
/// and last word touched, the mask of the first word from `left` on, and the
/// mask of the last word up to `right`. Neither mask is ever zero.
pub fn calculate_span_mask(left: u32, right: u32) -> (r: (u32, u32, u32, u32))
    requires
        left < right,
    ensures
        r.0 == start_word(left),
        r.1 == stop_word(right),
        r.2 == left_mask(left),
        r.3 == right_mask(right),
        r.0 <= r.1,
        r.2 != 0,
        r.3 != 0,
{
    let start_word = left / 32;
    let stop_word = (right - 1) / 32;
    let lshift = left % 32;
    let left_mask = !0u32 >> lshift;
    let right_mask = if right % 32 == 0 {
        !0u32
    } else {
        !0u32 << (32 - right % 32)
    };
    assert(left_mask != 0) by (bit_vector)
        requires left_mask == !0u32 >> lshift, lshift < 32;
    let rr = right % 32;
    assert(right_mask != 0) by (bit_vector)
        requires
            rr < 32,
            rr == 0 ==> right_mask == !0u32,
            rr != 0 ==> right_mask == !0u32 << (32 - rr) as u32,
    ;
    (start_word, stop_word, left_mask, right_mask)
}

} // verus!
