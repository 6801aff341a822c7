//! Layout of 32-bit pixel buffers and the arithmetic facts about it that the
//! pixel algorithms share.
//!
//! A buffer holds `height` rows of `stride` bytes each; pixel `(x, y)` starts
//! at byte `y * stride + 4 * x`, and its four bytes are the channels in
//! memory order (blue, green, red, alpha for ARGB32 on little-endian hosts).
use vstd::prelude::*;
use vstd::arithmetic::div_mod::lemma_fundamental_div_mod_converse;

verus! {

/// Sum of `d[start + k * step]` for `k` in `[lo, hi)`.
pub open spec fn strided_sum(d: Seq<u8>, start: int, step: int, lo: int, hi: int) -> int
    decreases hi - lo,
{
    if hi <= lo {
        0
    } else {
        strided_sum(d, start, step, lo, hi - 1) + d[start + (hi - 1) * step] as int
    }
}

/// Removing the first term of a strided sum.
pub proof fn lemma_strided_sum_drop_first(d: Seq<u8>, start: int, step: int, lo: int, hi: int)
    requires
        lo < hi,
    ensures
        strided_sum(d, start, step, lo, hi) == d[start + lo * step] as int + strided_sum(
            d,
            start,
            step,
            lo + 1,
            hi,
        ),
    decreases hi - lo,
{
    if lo + 1 < hi {
        lemma_strided_sum_drop_first(d, start, step, lo, hi - 1);
        assert(strided_sum(d, start, step, lo + 1, hi) == strided_sum(d, start, step, lo + 1, hi - 1)
            + d[start + (hi - 1) * step] as int);
    } else {
        assert(hi - 1 == lo);
        assert(strided_sum(d, start, step, lo, hi - 1) == 0);
        assert(strided_sum(d, start, step, lo + 1, hi) == 0);
    }
}

/// A strided sum of `n` bytes is at most `255 * n`.
pub proof fn lemma_strided_sum_bounds(d: Seq<u8>, start: int, step: int, lo: int, hi: int)
    requires
        lo <= hi,
    ensures
        0 <= strided_sum(d, start, step, lo, hi) <= 255 * (hi - lo),
    decreases hi - lo,
{
    if lo < hi {
        lemma_strided_sum_bounds(d, start, step, lo, hi - 1);
    }
}

/// A strided sum grows as its range is extended at the top.
pub proof fn lemma_strided_sum_monotone(d: Seq<u8>, start: int, step: int, lo: int, hi: int, top: int)
    requires
        lo <= hi <= top,
    ensures
        strided_sum(d, start, step, lo, hi) <= strided_sum(d, start, step, lo, top),
    decreases top - hi,
{
    if hi < top {
        lemma_strided_sum_monotone(d, start, step, lo, hi, top - 1);
    }
}

/// Row `y` of a buffer with `stride` bytes per row ends within `height` rows.
pub proof fn lemma_row_fits(y: int, height: int, stride: int)
    requires
        0 <= y < height,
        0 <= stride,
    ensures
        0 <= y * stride,
        y * stride + stride == (y + 1) * stride,
        (y + 1) * stride <= height * stride,
{
    assert(0 <= y * stride) by (nonlinear_arith)
        requires
            0 <= y,
            0 <= stride,
    ;
    assert(y * stride + stride == (y + 1) * stride) by (nonlinear_arith);
    assert((y + 1) * stride <= height * stride) by (nonlinear_arith)
        requires
            y + 1 <= height,
            0 <= stride,
    ;
}

/// A byte at offset `p` within row `y` has row `y` and column offset `p`.
pub proof fn lemma_row_split(y: int, p: int, stride: int)
    requires
        0 <= y,
        0 <= p < stride,
    ensures
        (y * stride + p) / stride == y,
        (y * stride + p) % stride == p,
{
    lemma_fundamental_div_mod_converse(y * stride + p, stride, y, p);
}

/// Column offset `p` names pixel `p / 4` and channel `p % 4`.
pub proof fn lemma_channel_split(x: int, c: int)
    requires
        0 <= c < 4,
    ensures
        (4 * x + c) / 4 == x,
        (4 * x + c) % 4 == c,
{
    lemma_fundamental_div_mod_converse(4 * x + c, 4, x, c);
}

/// Every byte of a buffer lies in some row.
pub proof fn lemma_index_in_row(i: int, height: int, stride: int)
    requires
        0 < stride,
        0 <= i < height * stride,
    ensures
        0 <= i / stride < height,
        0 <= i % stride < stride,
        i == (i / stride) * stride + i % stride,
{
    let y = i / stride;
    let p = i % stride;
    assert(i == y * stride + p && 0 <= p < stride) by (nonlinear_arith)
        requires
            0 < stride,
            y == i / stride,
            p == i % stride,
    ;
    assert(0 <= y) by (nonlinear_arith)
        requires
            0 < stride,
            0 <= i,
            y == i / stride,
    ;
    if y >= height {
        assert(height * stride <= y * stride) by (nonlinear_arith)
            requires
                height <= y,
                0 < stride,
        ;
    }
}

/// A byte before row `y` lies in an earlier row; one after it, in a later row.
pub proof fn lemma_row_order(i: int, y: int, stride: int)
    requires
        0 < stride,
        0 <= i,
        0 <= y,
    ensures
        i < y * stride ==> i / stride < y,
        i >= (y + 1) * stride ==> i / stride > y,
        i >= y * stride ==> i / stride >= y,
        i < (y + 1) * stride ==> i / stride <= y,
{
    let q = i / stride;
    let p = i % stride;
    assert(i == q * stride + p && 0 <= p < stride) by (nonlinear_arith)
        requires
            0 < stride,
            q == i / stride,
            p == i % stride,
    ;
    if i < y * stride && q >= y {
        assert(q * stride >= y * stride) by (nonlinear_arith)
            requires
                q >= y,
                stride > 0,
        ;
    }
    assert((y + 1) * stride == y * stride + stride) by (nonlinear_arith);
    if i >= y * stride && q < y {
        assert(q * stride <= y * stride - stride) by (nonlinear_arith)
            requires
                q <= y - 1,
                stride > 0,
        ;
    }
    if i < (y + 1) * stride && q > y {
        assert(q * stride >= y * stride + stride) by (nonlinear_arith)
            requires
                q >= y + 1,
                stride > 0,
        ;
    }
    if i >= (y + 1) * stride && q <= y {
        assert(q * stride <= y * stride) by (nonlinear_arith)
            requires
                q <= y,
                stride > 0,
        ;
    }
}

} // verus!
