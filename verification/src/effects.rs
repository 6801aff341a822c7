//! Pixel effects on 32-bit buffers: box blur and pixelation.
//!
//! The buffers hold `height` rows of `stride` bytes; only the first
//! `4 * width` bytes of a row are pixels, the rest is padding.
use vstd::prelude::*;
use vstd::arithmetic::div_mod::lemma_fundamental_div_mod_converse;
use crate::pixels::{
    strided_sum,
    lemma_strided_sum_drop_first,
    lemma_strided_sum_bounds,
    lemma_strided_sum_monotone,
    lemma_row_fits,
    lemma_row_split,
    lemma_channel_split,
    lemma_index_in_row,
    lemma_row_order,
};

verus! {

/// `2^32`, the fixed-point scale of the blur's reciprocal table.
pub open spec fn fixed_one() -> int {
    0x1_0000_0000
}

/// The reciprocal that the blur multiplies a window sum by, `ceil(2^32 / count)`.
pub open spec fn reciprocal(count: int) -> int {
    (fixed_one() + count - 1) / count
}

/// The blurred channel value for a window sum and its size: the sum times the
/// reciprocal, shifted right by 32 bits, truncated to a byte.
pub open spec fn scaled_mean(sum: int, count: int) -> int {
    ((sum * reciprocal(count)) / fixed_one()) % 256
}

/// First index of the window of radius `r` around `i`.
pub open spec fn window_start(i: int, r: int) -> int {
    if i > r {
        i - r
    } else {
        0
    }
}

/// One past the last index of the window of radius `r` around `i` in `[0, n)`.
pub open spec fn window_end(i: int, r: int, n: int) -> int {
    if i + r + 1 < n {
        i + r + 1
    } else {
        n
    }
}

/// The largest window of radius `r` inside `[0, n)`.
pub open spec fn window_cap(r: int, n: int) -> int {
    if 2 * r + 1 < n {
        2 * r + 1
    } else {
        n
    }
}

/// Channel `c` of pixel `x` after the horizontal pass over the row at `base`.
pub open spec fn horizontal_value(d: Seq<u8>, base: int, width: int, r: int, x: int, c: int) -> u8 {
    if c < 3 {
        let lo = window_start(x, r);
        let hi = window_end(x, r, width);
        scaled_mean(strided_sum(d, base + c, 4, lo, hi), hi - lo) as u8
    } else {
        d[base + 4 * x + c]
    }
}

/// The horizontal pass: every pixel channel but alpha becomes the scaled mean
/// of its row window; alpha is copied; padding bytes are zero.
pub open spec fn horizontal_pass(d: Seq<u8>, width: int, stride: int, r: int) -> Seq<u8> {
    Seq::new(
        d.len(),
        |i: int|
            {
                let p = i % stride;
                if p < 4 * width {
                    horizontal_value(d, (i / stride) * stride, width, r, p / 4, p % 4)
                } else {
                    0u8
                }
            },
    )
}

/// Byte `p` of row `y` after the vertical pass reads column offset `p` of `s`.
pub open spec fn vertical_value(s: Seq<u8>, stride: int, height: int, r: int, y: int, p: int) -> u8 {
    let lo = window_start(y, r);
    let hi = window_end(y, r, height);
    scaled_mean(strided_sum(s, p, stride, lo, hi), hi - lo) as u8
}

/// The vertical pass from `s` into `d`: colour channels of pixels become the
/// scaled mean of their column window in `s`; alpha and padding keep `d`.
pub open spec fn vertical_pass(
    s: Seq<u8>,
    d: Seq<u8>,
    width: int,
    height: int,
    stride: int,
    r: int,
) -> Seq<u8> {
    Seq::new(
        d.len(),
        |i: int|
            {
                let p = i % stride;
                if p < 4 * width && p % 4 < 3 {
                    vertical_value(s, stride, height, r, i / stride, p)
                } else {
                    d[i]
                }
            },
    )
}

/// One blur pass: horizontal, then vertical.
pub open spec fn blur_pass(d: Seq<u8>, width: int, height: int, stride: int, r: int) -> Seq<u8> {
    vertical_pass(horizontal_pass(d, width, stride, r), d, width, height, stride, r)
}

/// `times` blur passes.
pub open spec fn box_blur(
    d: Seq<u8>,
    width: int,
    height: int,
    stride: int,
    r: int,
    times: nat,
) -> Seq<u8>
    decreases times,
{
    if times == 0 {
        d
    } else {
        blur_pass(box_blur(d, width, height, stride, r, (times - 1) as nat), width, height, stride, r)
    }
}

/// Sum of channel `c` over the horizontal window of radius `r` around pixel
/// `x` of the row at `base`.
pub open spec fn row_window_sum(d: Seq<u8>, base: int, width: int, r: int, x: int, c: int) -> int {
    strided_sum(d, base + c, 4, window_start(x, r), window_end(x, r, width))
}

/// Sum of column offset `p` over the vertical window of radius `r` around
/// row `y`.
pub open spec fn column_window_sum(s: Seq<u8>, stride: int, height: int, r: int, y: int, p: int) -> int {
    strided_sum(s, p, stride, window_start(y, r), window_end(y, r, height))
}

/// Every colour window sum of the row at `base` fits in a `u32`.
pub open spec fn row_sums_fit(d: Seq<u8>, base: int, width: int, r: int) -> bool {
    forall|x: int, c: int|
        0 <= x < width && 0 <= c < 3 ==> #[trigger] row_window_sum(d, base, width, r, x, c) <= u32::MAX
}

/// Every colour window sum of the horizontal pass fits in a `u32`.
pub open spec fn horizontal_sums_fit(d: Seq<u8>, width: int, height: int, stride: int, r: int) -> bool {
    forall|y: int| 0 <= y < height ==> #[trigger] row_sums_fit(d, y * stride, width, r)
}

/// Every colour window sum of the vertical pass over `s` fits in a `u32`.
pub open spec fn vertical_sums_fit(s: Seq<u8>, width: int, height: int, stride: int, r: int) -> bool {
    forall|y: int, p: int|
        0 <= y < height && 0 <= p < 4 * width && p % 4 < 3 ==> #[trigger] column_window_sum(
            s,
            stride,
            height,
            r,
            y,
            p,
        ) <= u32::MAX
}

/// The window sums of one blur pass over `d` fit in `u32` accumulators.
pub open spec fn pass_sums_fit(d: Seq<u8>, width: int, height: int, stride: int, r: int) -> bool {
    &&& horizontal_sums_fit(d, width, height, stride, r)
    &&& vertical_sums_fit(horizontal_pass(d, width, stride, r), width, height, stride, r)
}

/// The window sums of each of `times` blur passes fit in `u32` accumulators.
pub open spec fn blur_sums_fit(
    d: Seq<u8>,
    width: int,
    height: int,
    stride: int,
    r: int,
    times: nat,
) -> bool
    decreases times,
{
    times == 0 || (blur_sums_fit(d, width, height, stride, r, (times - 1) as nat) && pass_sums_fit(
        box_blur(d, width, height, stride, r, (times - 1) as nat),
        width,
        height,
        stride,
        r,
    ))
}

proof fn lemma_blur_sums_fit_prefix(d: Seq<u8>, width: int, height: int, stride: int, r: int, k: nat, times: nat)
    requires
        k <= times,
        blur_sums_fit(d, width, height, stride, r, times),
    ensures
        blur_sums_fit(d, width, height, stride, r, k),
    decreases times - k,
{
    if k < times {
        lemma_blur_sums_fit_prefix(d, width, height, stride, r, k, (times - 1) as nat);
    }
}

/// The reciprocal table holds `reciprocal(c)` at every index `c >= 1`.
pub open spec fn is_reciprocal_table(t: Seq<u64>) -> bool {
    forall|c: int| 1 <= c < t.len() ==> #[trigger] t[c] == reciprocal(c) && t[c] <= fixed_one()
}

fn reciprocal_table(max_count: usize) -> (t: Vec<u64>)
    requires
        max_count < u32::MAX,
    ensures
        t.len() == max_count + 1,
        is_reciprocal_table(t@),
{
    let mut t: Vec<u64> = Vec::new();
    t.push(0);
    let mut c: usize = 1;
    while c <= max_count
        invariant
            1 <= c <= max_count + 1,
            max_count < u32::MAX,
            t.len() == c,
            is_reciprocal_table(t@),
        decreases max_count + 1 - c,
    {
        let cc = c as u64;
        assert(cc <= u64::MAX - 0x1_0000_0000);
        let q: u64 = (0x1_0000_0000u64 + cc - 1) / cc;
        assert(q <= 0x1_0000_0000) by (nonlinear_arith)
            requires
                cc >= 1,
                q == (0x1_0000_0000 + cc - 1) / (cc as int),
        ;
        t.push(q);
        c = c + 1;
    }
    t
}

fn scaled(sum: u32, f: u64) -> (v: u8)
    requires
        f <= fixed_one(),
    ensures
        v == ((sum as int * f as int) / fixed_one()) % 256,
{
    assert(sum as int * f as int <= u64::MAX) by (nonlinear_arith)
        requires
            sum <= u32::MAX,
            f <= 0x1_0000_0000,
    ;
    let prod: u64 = sum as u64 * f;
    ((prod / 0x1_0000_0000u64) % 256) as u8
}

/// The window around `i` is nonempty and no wider than `window_cap`.
proof fn lemma_window_size(i: int, r: int, n: int)
    requires
        0 <= i < n,
        0 <= r,
    ensures
        0 <= window_start(i, r) <= i < window_end(i, r, n) <= n,
        window_end(i, r, n) - window_start(i, r) <= window_cap(r, n),
{
}

/// Horizontal pass over one row: writes the `4 * width` pixel bytes of the
/// row at `base` in `scratch` from the same row of `data`. The window sums
/// are kept in `u32` accumulators; the result tells whether every sum fit,
/// and only then is the row written.
fn blur_row(
    data: &Vec<u8>,
    scratch: &mut Vec<u8>,
    table: &Vec<u64>,
    base: usize,
    width: usize,
    r: usize,
) -> (fits: bool)
    requires
        old(scratch).len() == data.len(),
        1 <= width,
        base + 4 * width <= data.len(),
        is_reciprocal_table(table@),
        window_cap(r as int, width as int) < table.len(),
        window_cap(r as int, width as int) < u32::MAX,
    ensures
        final(scratch).len() == data.len(),
        fits == row_sums_fit(data@, base as int, width as int, r as int),
        fits ==> forall|i: int|
            base <= i < base + 4 * width ==> #[trigger] final(scratch)@[i] == horizontal_value(
                data@,
                base as int,
                width as int,
                r as int,
                (i - base) / 4,
                (i - base) % 4,
            ),
        fits ==> forall|i: int|
            0 <= i < data.len() && !(base <= i < base + 4 * width) ==> #[trigger] final(scratch)@[i]
                == old(scratch)@[i],
{
    let ghost d = data@;
    let ghost cap = window_cap(r as int, width as int);
    let init_end = if r < width - 1 {
        r
    } else {
        width - 1
    };
    assert(window_start(0, r as int) == 0 && window_end(0, r as int, width as int) == init_end + 1);
    let mut b_acc: u32 = 0;
    let mut g_acc: u32 = 0;
    let mut r_acc: u32 = 0;
    let mut x: usize = 0;
    while x <= init_end
        invariant
            x <= init_end + 1,
            init_end < width,
            window_start(0, r as int) == 0,
            window_end(0, r as int, width as int) == init_end + 1,
            base + 4 * width <= data.len(),
            d == data@,
            scratch.len() == data.len(),
            b_acc == strided_sum(d, base as int, 4, 0, x as int),
            g_acc == strided_sum(d, base + 1, 4, 0, x as int),
            r_acc == strided_sum(d, base + 2, 4, 0, x as int),
        decreases init_end + 1 - x,
    {
        let px = base + x * 4;
        let nb = b_acc.checked_add(data[px] as u32);
        let ng = g_acc.checked_add(data[px + 1] as u32);
        let nr = r_acc.checked_add(data[px + 2] as u32);
        match (nb, ng, nr) {
            (Some(vb), Some(vg), Some(vr)) => {
                b_acc = vb;
                g_acc = vg;
                r_acc = vr;
            },
            _ => {
                proof {
                    let top = init_end + 1;
                    lemma_strided_sum_monotone(d, base as int, 4, 0, x + 1, top as int);
                    lemma_strided_sum_monotone(d, base + 1, 4, 0, x + 1, top as int);
                    lemma_strided_sum_monotone(d, base + 2, 4, 0, x + 1, top as int);
                    if nb is None {
                        assert(row_window_sum(d, base as int, width as int, r as int, 0, 0) > u32::MAX);
                    } else if ng is None {
                        assert(row_window_sum(d, base as int, width as int, r as int, 0, 1) > u32::MAX);
                    } else {
                        assert(row_window_sum(d, base as int, width as int, r as int, 0, 2) > u32::MAX);
                    }
                }
                return false;
            },
        }
        x = x + 1;
    }
    let mut count: u32 = (init_end + 1) as u32;
    let mut x: usize = 0;
    while x < width
        invariant
            x <= width,
            1 <= width,
            cap == window_cap(r as int, width as int),
            cap < u32::MAX,
            cap < table.len(),
            is_reciprocal_table(table@),
            base + 4 * width <= data.len(),
            d == data@,
            scratch.len() == data.len(),
            count as int == window_end(x as int, r as int, width as int) - window_start(
                x as int,
                r as int,
            ),
            x < width ==> b_acc == row_window_sum(d, base as int, width as int, r as int, x as int, 0),
            x < width ==> g_acc == row_window_sum(d, base as int, width as int, r as int, x as int, 1),
            x < width ==> r_acc == row_window_sum(d, base as int, width as int, r as int, x as int, 2),
            forall|k: int, c: int|
                0 <= k < x && 0 <= c < 3 ==> #[trigger] row_window_sum(
                    d,
                    base as int,
                    width as int,
                    r as int,
                    k,
                    c,
                ) <= u32::MAX,
            forall|i: int|
                base <= i < base + 4 * x ==> #[trigger] scratch@[i] == horizontal_value(
                    d,
                    base as int,
                    width as int,
                    r as int,
                    (i - base) / 4,
                    (i - base) % 4,
                ),
            forall|i: int|
                0 <= i < data.len() && !(base <= i < base + 4 * x) ==> #[trigger] scratch@[i]
                    == old(scratch)@[i],
        decreases width - x,
    {
        let ghost lo = window_start(x as int, r as int);
        let ghost hi = window_end(x as int, r as int, width as int);
        proof {
            lemma_window_size(x as int, r as int, width as int);
            lemma_strided_sum_bounds(d, base as int, 4, lo, hi);
            lemma_strided_sum_bounds(d, base + 1, 4, lo, hi);
            lemma_strided_sum_bounds(d, base + 2, 4, lo, hi);
        }
        let dst = base + x * 4;
        let f = table[count as usize];
        let vb = scaled(b_acc, f);
        let vg = scaled(g_acc, f);
        let vr = scaled(r_acc, f);
        let va = data[dst + 3];
        scratch[dst] = vb;
        scratch[dst + 1] = vg;
        scratch[dst + 2] = vr;
        scratch[dst + 3] = va;
        assert forall|i: int| base <= i < base + 4 * (x + 1) implies #[trigger] scratch@[i]
            == horizontal_value(d, base as int, width as int, r as int, (i - base) / 4, (i - base) % 4)
        by {
            if i >= dst {
                lemma_channel_split(x as int, i - dst);
            }
        }
        assert forall|k: int, c: int| 0 <= k < x + 1 && 0 <= c < 3 implies #[trigger] row_window_sum(
            d,
            base as int,
            width as int,
            r as int,
            k,
            c,
        ) <= u32::MAX by {
            if k == x {
                if c == 0 {
                    assert(b_acc == row_window_sum(d, base as int, width as int, r as int, k, c));
                } else if c == 1 {
                    assert(g_acc == row_window_sum(d, base as int, width as int, r as int, k, c));
                } else {
                    assert(r_acc == row_window_sum(d, base as int, width as int, r as int, k, c));
                }
            }
        }
        if x >= r {
            let old_px = base + (x - r) * 4;
            proof {
                lemma_strided_sum_drop_first(d, base as int, 4, lo, hi);
                lemma_strided_sum_drop_first(d, base + 1, 4, lo, hi);
                lemma_strided_sum_drop_first(d, base + 2, 4, lo, hi);
                lemma_strided_sum_bounds(d, base as int, 4, lo + 1, hi);
                lemma_strided_sum_bounds(d, base + 1, 4, lo + 1, hi);
                lemma_strided_sum_bounds(d, base + 2, 4, lo + 1, hi);
            }
            b_acc = b_acc - data[old_px] as u32;
            g_acc = g_acc - data[old_px + 1] as u32;
            r_acc = r_acc - data[old_px + 2] as u32;
            count = count - 1;
        }
        if r < width - 1 - x {
            let new_px = base + (x + r + 1) * 4;
            proof {
                lemma_window_size(x + 1, r as int, width as int);
            }
            let nb = b_acc.checked_add(data[new_px] as u32);
            let ng = g_acc.checked_add(data[new_px + 1] as u32);
            let nr = r_acc.checked_add(data[new_px + 2] as u32);
            match (nb, ng, nr) {
                (Some(sb), Some(sg), Some(sr)) => {
                    b_acc = sb;
                    g_acc = sg;
                    r_acc = sr;
                },
                _ => {
                    proof {
                        if nb is None {
                            assert(row_window_sum(d, base as int, width as int, r as int, x + 1, 0) > u32::MAX);
                        } else if ng is None {
                            assert(row_window_sum(d, base as int, width as int, r as int, x + 1, 1) > u32::MAX);
                        } else {
                            assert(row_window_sum(d, base as int, width as int, r as int, x + 1, 2) > u32::MAX);
                        }
                    }
                    return false;
                },
            }
            count = count + 1;
        }
        x = x + 1;
    }
    true
}

/// Horizontal pass over every row of `data` into `scratch`; the result tells
/// whether every window sum fit in a `u32`, and only then is the pass done.
fn blur_rows(
    data: &Vec<u8>,
    scratch: &mut Vec<u8>,
    table: &Vec<u64>,
    width: usize,
    height: usize,
    stride: usize,
    r: usize,
) -> (fits: bool)
    requires
        old(scratch).len() == data.len(),
        data.len() == height * stride,
        1 <= width,
        1 <= height,
        4 * width <= stride,
        is_reciprocal_table(table@),
        window_cap(r as int, width as int) < table.len(),
        window_cap(r as int, width as int) < u32::MAX,
        forall|i: int|
            0 <= i < data.len() && i % (stride as int) >= 4 * width ==> #[trigger] old(scratch)@[i]
                == 0,
    ensures
        final(scratch).len() == data.len(),
        fits == horizontal_sums_fit(data@, width as int, height as int, stride as int, r as int),
        fits ==> final(scratch)@ == horizontal_pass(data@, width as int, stride as int, r as int),
{
    let ghost d = data@;
    let ghost target = horizontal_pass(d, width as int, stride as int, r as int);
    let mut y: usize = 0;
    while y < height
        invariant
            y <= height,
            data.len() == height * stride,
            scratch.len() == data.len(),
            d == data@,
            1 <= width,
            4 * width <= stride,
            is_reciprocal_table(table@),
            window_cap(r as int, width as int) < table.len(),
            window_cap(r as int, width as int) < u32::MAX,
            target == horizontal_pass(d, width as int, stride as int, r as int),
            forall|k: int| 0 <= k < y ==> #[trigger] row_sums_fit(d, k * stride, width as int, r as int),
            forall|i: int|
                0 <= i < data.len() && i % (stride as int) >= 4 * width
                    ==> #[trigger] old(scratch)@[i] == 0,
            forall|i: int| 0 <= i < y * stride ==> #[trigger] scratch@[i] == target[i],
            forall|i: int| y * stride <= i < data.len() ==> #[trigger] scratch@[i] == old(scratch)@[i],
        decreases height - y,
    {
        proof {
            lemma_row_fits(y as int, height as int, stride as int);
        }
        let base = y * stride;
        let ghost before = scratch@;
        if !blur_row(data, scratch, table, base, width, r) {
            assert(!row_sums_fit(d, y * stride, width as int, r as int));
            return false;
        }
        assert forall|i: int| 0 <= i < (y + 1) * stride implies #[trigger] scratch@[i] == target[i] by {
            if i >= base {
                lemma_row_split(y as int, i - base, stride as int);
                if i < base + 4 * width {
                } else {
                    assert(before[i] == old(scratch)@[i]);
                }
            } else {
                assert(before[i] == target[i]);
            }
        }
        assert forall|i: int| (y + 1) * stride <= i < data.len() implies #[trigger] scratch@[i]
            == old(scratch)@[i] by {
            assert(before[i] == old(scratch)@[i]);
        }
        y = y + 1;
    }
    proof {
        lemma_row_fits((height - 1) as int, height as int, stride as int);
    }
    assert(scratch@ =~= target);
    true
}

/// Column sums of the colour channels of `s` over rows `[lo, hi)`.
pub open spec fn column_sums_are(
    b: Seq<u32>,
    g: Seq<u32>,
    rr: Seq<u32>,
    s: Seq<u8>,
    width: int,
    stride: int,
    lo: int,
    hi: int,
) -> bool {
    &&& b.len() == width
    &&& g.len() == width
    &&& rr.len() == width
    &&& forall|x: int| 0 <= x < width ==> #[trigger] b[x] == strided_sum(s, 4 * x, stride, lo, hi)
    &&& forall|x: int| 0 <= x < width ==> #[trigger] g[x] == strided_sum(s, 4 * x + 1, stride, lo, hi)
    &&& forall|x: int| 0 <= x < width ==> #[trigger] rr[x] == strided_sum(s, 4 * x + 2, stride, lo, hi)
}

/// Every colour column sum of `s` over rows `[lo, hi)` fits in a `u32`.
pub open spec fn columns_fit(s: Seq<u8>, width: int, stride: int, lo: int, hi: int) -> bool {
    forall|p: int|
        0 <= p < 4 * width && p % 4 < 3 ==> #[trigger] strided_sum(s, p, stride, lo, hi) <= u32::MAX
}

/// Adds row `y` of `s` to the column sums over `[lo, y)`; the result tells
/// whether every new sum fits in a `u32`, and only then are the sums those
/// over `[lo, y + 1)`.
fn add_row(
    b: &mut Vec<u32>,
    g: &mut Vec<u32>,
    rr: &mut Vec<u32>,
    s: &Vec<u8>,
    width: usize,
    stride: usize,
    y: usize,
    lo: Ghost<int>,
) -> (fits: bool)
    requires
        column_sums_are(old(b)@, old(g)@, old(rr)@, s@, width as int, stride as int, lo@, y as int),
        0 <= lo@ <= y,
        4 * width <= stride,
        y * stride + stride <= s.len(),
    ensures
        fits == columns_fit(s@, width as int, stride as int, lo@, y + 1),
        fits ==> column_sums_are(
            final(b)@,
            final(g)@,
            final(rr)@,
            s@,
            width as int,
            stride as int,
            lo@,
            y + 1,
        ),
{
    let row = y * stride;
    let mut x: usize = 0;
    while x < width
        invariant
            x <= width,
            row == y * stride,
            4 * width <= stride,
            y * stride + stride <= s.len(),
            0 <= lo@ <= y,
            b.len() == width,
            g.len() == width,
            rr.len() == width,
            forall|k: int|
                0 <= k < x ==> #[trigger] b@[k] == strided_sum(s@, 4 * k, stride as int, lo@, y + 1),
            forall|k: int|
                0 <= k < x ==> #[trigger] g@[k] == strided_sum(
                    s@,
                    4 * k + 1,
                    stride as int,
                    lo@,
                    y + 1,
                ),
            forall|k: int|
                0 <= k < x ==> #[trigger] rr@[k] == strided_sum(
                    s@,
                    4 * k + 2,
                    stride as int,
                    lo@,
                    y + 1,
                ),
            forall|k: int|
                x <= k < width ==> #[trigger] b@[k] == strided_sum(s@, 4 * k, stride as int, lo@, y as int),
            forall|k: int|
                x <= k < width ==> #[trigger] g@[k] == strided_sum(
                    s@,
                    4 * k + 1,
                    stride as int,
                    lo@,
                    y as int,
                ),
            forall|k: int|
                x <= k < width ==> #[trigger] rr@[k] == strided_sum(
                    s@,
                    4 * k + 2,
                    stride as int,
                    lo@,
                    y as int,
                ),
        decreases width - x,
    {
        let px = row + x * 4;
        let nb = b[x].checked_add(s[px] as u32);
        let ng = g[x].checked_add(s[px + 1] as u32);
        let nr = rr[x].checked_add(s[px + 2] as u32);
        match (nb, ng, nr) {
            (Some(vb), Some(vg), Some(vr)) => {
                b[x] = vb;
                g[x] = vg;
                rr[x] = vr;
            },
            _ => {
                proof {
                    let k = x as int;
                    if nb is None {
                        assert(strided_sum(s@, 4 * k, stride as int, lo@, y + 1) > u32::MAX);
                    } else if ng is None {
                        assert(strided_sum(s@, 4 * k + 1, stride as int, lo@, y + 1) > u32::MAX);
                    } else {
                        assert(strided_sum(s@, 4 * k + 2, stride as int, lo@, y + 1) > u32::MAX);
                    }
                }
                return false;
            },
        }
        x = x + 1;
    }
    assert forall|p: int| 0 <= p < 4 * width && p % 4 < 3 implies #[trigger] strided_sum(
        s@,
        p,
        stride as int,
        lo@,
        y + 1,
    ) <= u32::MAX by {
        let k = p / 4;
        assert(p == 4 * k + p % 4);
        if p % 4 == 0 {
            assert(b@[k] == strided_sum(s@, 4 * k, stride as int, lo@, y + 1));
        } else if p % 4 == 1 {
            assert(g@[k] == strided_sum(s@, 4 * k + 1, stride as int, lo@, y + 1));
        } else {
            assert(rr@[k] == strided_sum(s@, 4 * k + 2, stride as int, lo@, y + 1));
        }
    }
    true
}

/// Removes row `lo` of `s` from the column sums over `[lo, hi)`.
fn deduct_row(
    b: &mut Vec<u32>,
    g: &mut Vec<u32>,
    rr: &mut Vec<u32>,
    s: &Vec<u8>,
    width: usize,
    stride: usize,
    lo: usize,
    hi: Ghost<int>,
)
    requires
        column_sums_are(old(b)@, old(g)@, old(rr)@, s@, width as int, stride as int, lo as int, hi@),
        lo < hi@,
        4 * width <= stride,
        lo * stride + stride <= s.len(),
    ensures
        column_sums_are(
            final(b)@,
            final(g)@,
            final(rr)@,
            s@,
            width as int,
            stride as int,
            lo + 1,
            hi@,
        ),
{
    let row = lo * stride;
    let mut x: usize = 0;
    while x < width
        invariant
            x <= width,
            row == lo * stride,
            lo < hi@,
            4 * width <= stride,
            lo * stride + stride <= s.len(),
            b.len() == width,
            g.len() == width,
            rr.len() == width,
            forall|k: int|
                0 <= k < x ==> #[trigger] b@[k] == strided_sum(s@, 4 * k, stride as int, lo + 1, hi@),
            forall|k: int|
                0 <= k < x ==> #[trigger] g@[k] == strided_sum(
                    s@,
                    4 * k + 1,
                    stride as int,
                    lo + 1,
                    hi@,
                ),
            forall|k: int|
                0 <= k < x ==> #[trigger] rr@[k] == strided_sum(
                    s@,
                    4 * k + 2,
                    stride as int,
                    lo + 1,
                    hi@,
                ),
            forall|k: int|
                x <= k < width ==> #[trigger] b@[k] == strided_sum(s@, 4 * k, stride as int, lo as int, hi@),
            forall|k: int|
                x <= k < width ==> #[trigger] g@[k] == strided_sum(
                    s@,
                    4 * k + 1,
                    stride as int,
                    lo as int,
                    hi@,
                ),
            forall|k: int|
                x <= k < width ==> #[trigger] rr@[k] == strided_sum(
                    s@,
                    4 * k + 2,
                    stride as int,
                    lo as int,
                    hi@,
                ),
        decreases width - x,
    {
        proof {
            lemma_strided_sum_drop_first(s@, 4 * x, stride as int, lo as int, hi@);
            lemma_strided_sum_drop_first(s@, 4 * x + 1, stride as int, lo as int, hi@);
            lemma_strided_sum_drop_first(s@, 4 * x + 2, stride as int, lo as int, hi@);
            lemma_strided_sum_bounds(s@, 4 * x, stride as int, lo + 1, hi@);
            lemma_strided_sum_bounds(s@, 4 * x + 1, stride as int, lo + 1, hi@);
            lemma_strided_sum_bounds(s@, 4 * x + 2, stride as int, lo + 1, hi@);
        }
        let px = row + x * 4;
        let nb = b[x] - s[px] as u32;
        let ng = g[x] - s[px + 1] as u32;
        let nr = rr[x] - s[px + 2] as u32;
        b[x] = nb;
        g[x] = ng;
        rr[x] = nr;
        x = x + 1;
    }
}

/// Writes row `y` of the vertical pass from the column sums of its window.
fn write_row(
    data: &mut Vec<u8>,
    b: &Vec<u32>,
    g: &Vec<u32>,
    rr: &Vec<u32>,
    s: Ghost<Seq<u8>>,
    f: u64,
    row: usize,
    width: usize,
    height: usize,
    stride: usize,
    r: usize,
    y: usize,
)
    requires
        column_sums_are(
            b@,
            g@,
            rr@,
            s@,
            width as int,
            stride as int,
            window_start(y as int, r as int),
            window_end(y as int, r as int, height as int),
        ),
        f == reciprocal(window_end(y as int, r as int, height as int) - window_start(y as int, r as int)),
        f <= fixed_one(),
        row == y * stride,
        row + stride <= old(data).len(),
        4 * width <= stride,
    ensures
        final(data).len() == old(data).len(),
        forall|i: int|
            row <= i < row + 4 * width && (i - row) % 4 < 3 ==> #[trigger] final(data)@[i]
                == vertical_value(s@, stride as int, height as int, r as int, y as int, i - row),
        forall|i: int|
            0 <= i < old(data).len() && !(row <= i < row + 4 * width && (i - row) % 4 < 3)
                ==> #[trigger] final(data)@[i] == old(data)@[i],
{
    let mut x: usize = 0;
    while x < width
        invariant
            x <= width,
            column_sums_are(
                b@,
                g@,
                rr@,
                s@,
                width as int,
                stride as int,
                window_start(y as int, r as int),
                window_end(y as int, r as int, height as int),
            ),
            f == reciprocal(
                window_end(y as int, r as int, height as int) - window_start(y as int, r as int),
            ),
            f <= fixed_one(),
            row + stride <= data.len(),
            data.len() == old(data).len(),
            4 * width <= stride,
            forall|i: int|
                row <= i < row + 4 * x && (i - row) % 4 < 3 ==> #[trigger] data@[i]
                    == vertical_value(s@, stride as int, height as int, r as int, y as int, i - row),
            forall|i: int|
                0 <= i < old(data).len() && !(row <= i < row + 4 * x && (i - row) % 4 < 3)
                    ==> #[trigger] data@[i] == old(data)@[i],
        decreases width - x,
    {
        let dst = row + x * 4;
        let vb = scaled(b[x], f);
        let vg = scaled(g[x], f);
        let vr = scaled(rr[x], f);
        data[dst] = vb;
        data[dst + 1] = vg;
        data[dst + 2] = vr;
        assert forall|i: int|
            row <= i < row + 4 * (x + 1) && (i - row) % 4 < 3 implies #[trigger] data@[i]
                == vertical_value(s@, stride as int, height as int, r as int, y as int, i - row) by {
            if i >= dst {
                lemma_channel_split(x as int, i - dst);
            }
        }
        assert forall|i: int|
            0 <= i < old(data).len() && !(row <= i < row + 4 * (x + 1) && (i - row) % 4 < 3)
                implies #[trigger] data@[i] == old(data)@[i] by {
            if dst <= i < dst + 4 {
                lemma_channel_split(x as int, i - dst);
            }
        }
        x = x + 1;
    }
}

/// Vertical pass from `scratch` into the colour channels of `data`; the
/// result tells whether every window sum fit in a `u32`, and only then is
/// the pass done.
fn blur_columns(
    scratch: &Vec<u8>,
    data: &mut Vec<u8>,
    table: &Vec<u64>,
    width: usize,
    height: usize,
    stride: usize,
    r: usize,
) -> (fits: bool)
    requires
        old(data).len() == scratch.len(),
        scratch.len() == height * stride,
        1 <= width,
        1 <= height,
        4 * width <= stride,
        is_reciprocal_table(table@),
        window_cap(r as int, height as int) < table.len(),
        window_cap(r as int, height as int) < u32::MAX,
    ensures
        final(data).len() == old(data).len(),
        fits == vertical_sums_fit(scratch@, width as int, height as int, stride as int, r as int),
        fits ==> final(data)@ == vertical_pass(
            scratch@,
            old(data)@,
            width as int,
            height as int,
            stride as int,
            r as int,
        ),
{
    let ghost s = scratch@;
    let ghost target = vertical_pass(s, old(data)@, width as int, height as int, stride as int, r as int);
    let ghost cap = window_cap(r as int, height as int);
    let init_end = if r < height - 1 {
        r
    } else {
        height - 1
    };
    assert(window_start(0, r as int) == 0 && window_end(0, r as int, height as int) == init_end + 1);
    let mut b: Vec<u32> = vec![0u32; width];
    let mut g: Vec<u32> = vec![0u32; width];
    let mut rr: Vec<u32> = vec![0u32; width];
    assert(column_sums_are(b@, g@, rr@, s, width as int, stride as int, 0, 0));
    let mut y: usize = 0;
    while y <= init_end
        invariant
            y <= init_end + 1,
            init_end < height,
            window_start(0, r as int) == 0,
            window_end(0, r as int, height as int) == init_end + 1,
            s == scratch@,
            scratch.len() == height * stride,
            data.len() == old(data).len(),
            4 * width <= stride,
            column_sums_are(b@, g@, rr@, s, width as int, stride as int, 0, y as int),
        decreases init_end + 1 - y,
    {
        proof {
            lemma_row_fits(y as int, height as int, stride as int);
        }
        if !add_row(&mut b, &mut g, &mut rr, scratch, width, stride, y, Ghost(0)) {
            proof {
                let p = choose|p: int|
                    0 <= p < 4 * width && p % 4 < 3 && !(#[trigger] strided_sum(
                        s,
                        p,
                        stride as int,
                        0,
                        y + 1,
                    ) <= u32::MAX);
                lemma_strided_sum_monotone(s, p, stride as int, 0, y + 1, init_end + 1);
                assert(column_window_sum(s, stride as int, height as int, r as int, 0, p) > u32::MAX);
            }
            return false;
        }
        y = y + 1;
    }
    let mut count: u32 = (init_end + 1) as u32;
    let mut y: usize = 0;
    while y < height
        invariant
            y <= height,
            1 <= height,
            cap == window_cap(r as int, height as int),
            cap < u32::MAX,
            cap < table.len(),
            is_reciprocal_table(table@),
            s == scratch@,
            scratch.len() == height * stride,
            data.len() == scratch.len(),
            old(data).len() == scratch.len(),
            4 * width <= stride,
            target == vertical_pass(s, old(data)@, width as int, height as int, stride as int, r as int),
            count as int == window_end(y as int, r as int, height as int) - window_start(y as int, r as int),
            y < height ==> column_sums_are(
                b@,
                g@,
                rr@,
                s,
                width as int,
                stride as int,
                window_start(y as int, r as int),
                window_end(y as int, r as int, height as int),
            ),
            forall|k: int, p: int|
                0 <= k < y && 0 <= p < 4 * width && p % 4 < 3 ==> #[trigger] column_window_sum(
                    s,
                    stride as int,
                    height as int,
                    r as int,
                    k,
                    p,
                ) <= u32::MAX,
            forall|i: int| 0 <= i < y * stride ==> #[trigger] data@[i] == target[i],
            forall|i: int| y * stride <= i < data.len() ==> #[trigger] data@[i] == old(data)@[i],
        decreases height - y,
    {
        let ghost lo = window_start(y as int, r as int);
        let ghost hi = window_end(y as int, r as int, height as int);
        proof {
            lemma_row_fits(y as int, height as int, stride as int);
            lemma_window_size(y as int, r as int, height as int);
        }
        assert forall|k: int, p: int|
            0 <= k < y + 1 && 0 <= p < 4 * width && p % 4 < 3 implies #[trigger] column_window_sum(
            s,
            stride as int,
            height as int,
            r as int,
            k,
            p,
        ) <= u32::MAX by {
            if k == y {
                let x = p / 4;
                assert(p == 4 * x + p % 4);
                if p % 4 == 0 {
                    assert(b@[x] == strided_sum(s, 4 * x, stride as int, lo, hi));
                } else if p % 4 == 1 {
                    assert(g@[x] == strided_sum(s, 4 * x + 1, stride as int, lo, hi));
                } else {
                    assert(rr@[x] == strided_sum(s, 4 * x + 2, stride as int, lo, hi));
                }
            }
        }
        let f = table[count as usize];
        let row = y * stride;
        let ghost before = data@;
        write_row(data, &b, &g, &rr, Ghost(s), f, row, width, height, stride, r, y);
        assert forall|i: int| 0 <= i < (y + 1) * stride implies #[trigger] data@[i] == target[i] by {
            if i >= row {
                lemma_row_split(y as int, i - row, stride as int);
                let p = i - row;
                assert(i / (stride as int) == y && i % (stride as int) == p);
                if p < 4 * width && p % 4 < 3 {
                    assert(data@[i] == vertical_value(s, stride as int, height as int, r as int, y as int, p));
                } else {
                    assert(data@[i] == before[i]);
                    assert(before[i] == old(data)@[i]);
                }
            } else {
                assert(before[i] == target[i]);
            }
        }
        assert forall|i: int| (y + 1) * stride <= i < data.len() implies #[trigger] data@[i]
            == old(data)@[i] by {
            assert(before[i] == old(data)@[i]);
        }
        if y >= r {
            proof {
                lemma_row_fits((y - r) as int, height as int, stride as int);
            }
            deduct_row(&mut b, &mut g, &mut rr, scratch, width, stride, y - r, Ghost(hi));
            count = count - 1;
        }
        if r < height - 1 - y {
            proof {
                lemma_row_fits((y + r + 1) as int, height as int, stride as int);
                lemma_window_size((y + 1) as int, r as int, height as int);
            }
            let added = add_row(
                &mut b,
                &mut g,
                &mut rr,
                scratch,
                width,
                stride,
                y + r + 1,
                Ghost(window_start((y + 1) as int, r as int)),
            );
            if !added {
                proof {
                    let p = choose|p: int|
                        0 <= p < 4 * width && p % 4 < 3 && !(#[trigger] strided_sum(
                            s,
                            p,
                            stride as int,
                            window_start((y + 1) as int, r as int),
                            y + r + 2,
                        ) <= u32::MAX);
                    assert(column_window_sum(s, stride as int, height as int, r as int, y + 1, p) > u32::MAX);
                }
                return false;
            }
            count = count + 1;
        }
        y = y + 1;
    }
    proof {
        lemma_row_fits((height - 1) as int, height as int, stride as int);
    }
    assert(data@ =~= target);
    true
}

/// Box blur of the colour channels of the pixels of a 32-bit buffer: `times`
/// passes of a horizontal then a vertical sliding window of radius `radius`,
/// each window sum scaled by the fixed-point reciprocal of its size. Alpha
/// and row padding are left as they are; a radius or pass count of zero
/// leaves the buffer unchanged.
///
/// The window sums are kept in `u32` accumulators. The result tells whether
/// every sum of every pass fits in them; when one does not, the blur stops
/// there and what the buffer holds is unspecified.
pub fn blur_pixels(
    data: &mut Vec<u8>,
    width: usize,
    height: usize,
    stride: usize,
    radius: u32,
    times: u32,
) -> (fits: bool)
    requires
        old(data).len() == height * stride,
        4 * width <= stride,
        radius > 0 && times > 0 ==> {
            &&& 1 <= width
            &&& 1 <= height
            &&& window_cap(radius as int, width as int) < u32::MAX
            &&& window_cap(radius as int, height as int) < u32::MAX
        },
    ensures
        final(data).len() == old(data).len(),
        radius == 0 || times == 0 ==> fits && final(data)@ == old(data)@,
        radius > 0 && times > 0 ==> fits == blur_sums_fit(
            old(data)@,
            width as int,
            height as int,
            stride as int,
            radius as int,
            times as nat,
        ),
        radius > 0 && times > 0 && fits ==> final(data)@ == box_blur(
            old(data)@,
            width as int,
            height as int,
            stride as int,
            radius as int,
            times as nat,
        ),
{
    if radius == 0 || times == 0 {
        return true;
    }
    let r = radius as usize;
    let ghost orig = data@;
    let mut scratch: Vec<u8> = vec![0u8; data.len()];
    let two_r1: u64 = 2 * (radius as u64) + 1;
    let longest: u64 = if width < height {
        height as u64
    } else {
        width as u64
    };
    let max_count: usize = if two_r1 < longest {
        two_r1 as usize
    } else {
        longest as usize
    };
    let table = reciprocal_table(max_count);
    let mut pass: u32 = 0;
    while pass < times
        invariant
            pass <= times,
            data.len() == height * stride,
            old(data).len() == height * stride,
            orig == old(data)@,
            radius > 0,
            scratch.len() == data.len(),
            1 <= width,
            1 <= height,
            4 * width <= stride,
            r == radius,
            is_reciprocal_table(table@),
            window_cap(r as int, width as int) < table.len(),
            window_cap(r as int, height as int) < table.len(),
            window_cap(r as int, width as int) < u32::MAX,
            window_cap(r as int, height as int) < u32::MAX,
            forall|i: int|
                0 <= i < scratch.len() && i % (stride as int) >= 4 * width ==> #[trigger] scratch@[i]
                    == 0,
            data@ == box_blur(orig, width as int, height as int, stride as int, r as int, pass as nat),
            blur_sums_fit(orig, width as int, height as int, stride as int, r as int, pass as nat),
        decreases times - pass,
    {
        let ghost before = data@;
        if !blur_rows(data, &mut scratch, &table, width, height, stride, r) {
            proof {
                assert(!blur_sums_fit(orig, width as int, height as int, stride as int, r as int, (pass + 1) as nat));
                if blur_sums_fit(orig, width as int, height as int, stride as int, r as int, times as nat) {
                    lemma_blur_sums_fit_prefix(orig, width as int, height as int, stride as int, r as int, (pass + 1) as nat, times as nat);
                }
            }
            return false;
        }
        if !blur_columns(&scratch, data, &table, width, height, stride, r) {
            proof {
                assert(!blur_sums_fit(orig, width as int, height as int, stride as int, r as int, (pass + 1) as nat));
                if blur_sums_fit(orig, width as int, height as int, stride as int, r as int, times as nat) {
                    lemma_blur_sums_fit_prefix(orig, width as int, height as int, stride as int, r as int, (pass + 1) as nat, times as nat);
                }
            }
            return false;
        }
        assert(data@ == box_blur(orig, width as int, height as int, stride as int, r as int, (pass + 1) as nat));
        assert(blur_sums_fit(orig, width as int, height as int, stride as int, r as int, (pass + 1) as nat));
        pass = pass + 1;
    }
    true
}

/// First index of the block of size `p` that holds `i`.
pub open spec fn block_start(i: int, p: int) -> int {
    i - i % p
}

/// One past the last index, within `[0, n)`, of the block of size `p` that holds `i`.
pub open spec fn block_end(i: int, p: int, n: int) -> int {
    if block_start(i, p) + p < n {
        block_start(i, p) + p
    } else {
        n
    }
}

/// Sum of channel `c` over the pixels of columns `[x0, x1)` and rows `[y0, y1)`.
pub open spec fn rect_sum(
    d: Seq<u8>,
    stride: int,
    c: int,
    x0: int,
    x1: int,
    y0: int,
    y1: int,
) -> int
    decreases y1 - y0,
{
    if y1 <= y0 {
        0
    } else {
        rect_sum(d, stride, c, x0, x1, y0, y1 - 1) + strided_sum(d, (y1 - 1) * stride + c, 4, x0, x1)
    }
}

/// Channel `c` of pixel `(x, y)` after pixelation: the mean, rounded down, of
/// channel `c` over the pixels of its block.
pub open spec fn pixelated_value(
    d: Seq<u8>,
    width: int,
    height: int,
    stride: int,
    p: int,
    x: int,
    y: int,
    c: int,
) -> u8 {
    let x0 = block_start(x, p);
    let x1 = block_end(x, p, width);
    let y0 = block_start(y, p);
    let y1 = block_end(y, p, height);
    (rect_sum(d, stride, c, x0, x1, y0, y1) / ((x1 - x0) * (y1 - y0))) as u8
}

/// Pixelation with blocks of `p` by `p` pixels aligned to the origin: colour
/// channels become their block mean; alpha and padding are kept.
pub open spec fn pixelate(d: Seq<u8>, width: int, height: int, stride: int, p: int) -> Seq<u8> {
    Seq::new(
        d.len(),
        |i: int|
            {
                let q = i % stride;
                if q < 4 * width && q % 4 < 3 {
                    pixelated_value(d, width, height, stride, p, q / 4, i / stride, q % 4)
                } else {
                    d[i]
                }
            },
    )
}

/// Byte `i` lies in the rectangle of columns `[x0, x1)` and rows `[y0, y1)`.
pub open spec fn in_rect(i: int, stride: int, x0: int, x1: int, y0: int, y1: int) -> bool {
    &&& y0 <= i / stride < y1
    &&& 4 * x0 <= i % stride < 4 * x1
}

/// The start of the last block of size `p` in `[0, n)`.
pub open spec fn last_block_start(n: int, p: int) -> int {
    if n <= 0 {
        0
    } else {
        block_start(n - 1, p)
    }
}

proof fn lemma_block_of(i: int, j: int, p: int, n: int)
    requires
        0 < p,
        0 <= j,
        j * p <= i < j * p + p,
    ensures
        block_start(i, p) == j * p,
        block_end(i, p, n) == (if j * p + p < n {
            j * p + p
        } else {
            n
        }),
{
    lemma_fundamental_div_mod_converse(i, p, j, i - j * p);
}

proof fn lemma_rect_sum_bounds(d: Seq<u8>, stride: int, c: int, x0: int, x1: int, y0: int, y1: int)
    requires
        x0 <= x1,
        y0 <= y1,
    ensures
        0 <= rect_sum(d, stride, c, x0, x1, y0, y1) <= 255 * ((x1 - x0) * (y1 - y0)),
    decreases y1 - y0,
{
    if y0 < y1 {
        lemma_rect_sum_bounds(d, stride, c, x0, x1, y0, y1 - 1);
        lemma_strided_sum_bounds(d, (y1 - 1) * stride + c, 4, x0, x1);
        assert((x1 - x0) * (y1 - 1 - y0) + (x1 - x0) == (x1 - x0) * (y1 - y0)) by (nonlinear_arith);
    }
}

/// Sums of the colour channels over a rectangle of pixels, read from `data`
/// where it still agrees with `orig`.
fn block_sums(
    data: &Vec<u8>,
    orig: Ghost<Seq<u8>>,
    stride: usize,
    x0: usize,
    x1: usize,
    y0: usize,
    y1: usize,
) -> (sums: (u64, u64, u64))
    requires
        x0 < x1,
        y0 < y1,
        4 * x1 <= stride,
        y1 * stride <= data.len(),
        255 * ((x1 - x0) * (y1 - y0)) <= u64::MAX,
        forall|i: int|
            0 <= i < data.len() && in_rect(i, stride as int, x0 as int, x1 as int, y0 as int, y1 as int)
                ==> #[trigger] data@[i] == orig@[i],
    ensures
        sums.0 == rect_sum(orig@, stride as int, 0, x0 as int, x1 as int, y0 as int, y1 as int),
        sums.1 == rect_sum(orig@, stride as int, 1, x0 as int, x1 as int, y0 as int, y1 as int),
        sums.2 == rect_sum(orig@, stride as int, 2, x0 as int, x1 as int, y0 as int, y1 as int),
{
    let ghost o = orig@;
    let ghost bw = (x1 - x0) as int;
    let mut sb: u64 = 0;
    let mut sg: u64 = 0;
    let mut sr: u64 = 0;
    let mut yy: usize = y0;
    while yy < y1
        invariant
            y0 <= yy <= y1,
            x0 < x1,
            bw == x1 - x0,
            4 * x1 <= stride,
            y1 * stride <= data.len(),
            255 * (bw * (y1 - y0)) <= u64::MAX,
            o == orig@,
            forall|i: int|
                0 <= i < data.len() && in_rect(
                    i,
                    stride as int,
                    x0 as int,
                    x1 as int,
                    y0 as int,
                    y1 as int,
                ) ==> #[trigger] data@[i] == o[i],
            sb == rect_sum(o, stride as int, 0, x0 as int, x1 as int, y0 as int, yy as int),
            sg == rect_sum(o, stride as int, 1, x0 as int, x1 as int, y0 as int, yy as int),
            sr == rect_sum(o, stride as int, 2, x0 as int, x1 as int, y0 as int, yy as int),
        decreases y1 - yy,
    {
        proof {
            lemma_row_fits(yy as int, y1 as int, stride as int);
            lemma_rect_sum_bounds(o, stride as int, 0, x0 as int, x1 as int, y0 as int, yy as int);
            lemma_rect_sum_bounds(o, stride as int, 1, x0 as int, x1 as int, y0 as int, yy as int);
            lemma_rect_sum_bounds(o, stride as int, 2, x0 as int, x1 as int, y0 as int, yy as int);
            assert(bw * (yy - y0) + bw <= bw * (y1 - y0)) by (nonlinear_arith)
                requires
                    0 < bw,
                    yy < y1,
            ;
        }
        let row = yy * stride;
        let ghost base_b = sb as int;
        let ghost base_g = sg as int;
        let ghost base_r = sr as int;
        let mut xx: usize = x0;
        while xx < x1
            invariant
                x0 <= xx <= x1,
                y0 <= yy < y1,
                row == yy * stride,
                bw == x1 - x0,
                4 * x1 <= stride,
                row + stride <= data.len(),
                0 <= base_b <= 255 * (bw * (yy - y0)),
                0 <= base_g <= 255 * (bw * (yy - y0)),
                0 <= base_r <= 255 * (bw * (yy - y0)),
                bw * (yy - y0) + bw <= bw * (y1 - y0),
                255 * (bw * (y1 - y0)) <= u64::MAX,
                forall|i: int|
                    0 <= i < data.len() && in_rect(
                        i,
                        stride as int,
                        x0 as int,
                        x1 as int,
                        y0 as int,
                        y1 as int,
                    ) ==> #[trigger] data@[i] == o[i],
                sb == base_b + strided_sum(o, row + 0, 4, x0 as int, xx as int),
                sg == base_g + strided_sum(o, row + 1, 4, x0 as int, xx as int),
                sr == base_r + strided_sum(o, row + 2, 4, x0 as int, xx as int),
            decreases x1 - xx,
        {
            let idx = row + xx * 4;
            proof {
                lemma_strided_sum_bounds(o, row + 0, 4, x0 as int, xx as int);
                lemma_strided_sum_bounds(o, row + 1, 4, x0 as int, xx as int);
                lemma_strided_sum_bounds(o, row + 2, 4, x0 as int, xx as int);
                lemma_row_split(yy as int, 4 * xx, stride as int);
                lemma_row_split(yy as int, 4 * xx + 1, stride as int);
                lemma_row_split(yy as int, 4 * xx + 2, stride as int);
                assert(data@[idx as int] == o[idx as int]);
                assert(data@[idx + 1] == o[idx + 1]);
                assert(data@[idx + 2] == o[idx + 2]);
            }
            sb = sb + data[idx] as u64;
            sg = sg + data[idx + 1] as u64;
            sr = sr + data[idx + 2] as u64;
            xx = xx + 1;
        }
        yy = yy + 1;
    }
    (sb, sg, sr)
}

/// Sets the colour channels of every pixel of a rectangle.
fn fill_block(
    data: &mut Vec<u8>,
    stride: usize,
    x0: usize,
    x1: usize,
    y0: usize,
    y1: usize,
    vb: u8,
    vg: u8,
    vr: u8,
)
    requires
        x0 < x1,
        y0 <= y1,
        4 * x1 <= stride,
        y1 * stride <= old(data).len(),
    ensures
        final(data).len() == old(data).len(),
        forall|i: int|
            0 <= i < old(data).len() ==> #[trigger] final(data)@[i] == (if in_rect(
                i,
                stride as int,
                x0 as int,
                x1 as int,
                y0 as int,
                y1 as int,
            ) && (i % (stride as int)) % 4 < 3 {
                if (i % (stride as int)) % 4 == 0 {
                    vb
                } else if (i % (stride as int)) % 4 == 1 {
                    vg
                } else {
                    vr
                }
            } else {
                old(data)@[i]
            }),
{
    let ghost st = stride as int;
    let mut yy: usize = y0;
    while yy < y1
        invariant
            y0 <= yy <= y1,
            x0 < x1,
            st == stride,
            4 * x1 <= stride,
            y1 * stride <= old(data).len(),
            data.len() == old(data).len(),
            forall|i: int|
                0 <= i < old(data).len() ==> #[trigger] data@[i] == (if in_rect(
                    i,
                    st,
                    x0 as int,
                    x1 as int,
                    y0 as int,
                    yy as int,
                ) && (i % st) % 4 < 3 {
                    if (i % st) % 4 == 0 {
                        vb
                    } else if (i % st) % 4 == 1 {
                        vg
                    } else {
                        vr
                    }
                } else {
                    old(data)@[i]
                }),
        decreases y1 - yy,
    {
        proof {
            lemma_row_fits(yy as int, y1 as int, st);
        }
        let row = yy * stride;
        let ghost before = data@;
        let mut xx: usize = x0;
        while xx < x1
            invariant
                x0 <= xx <= x1,
                y0 <= yy < y1,
                st == stride,
                row == yy * stride,
                4 * x1 <= stride,
                row + stride <= data.len(),
                data.len() == old(data).len(),
                forall|i: int|
                    0 <= i < old(data).len() ==> #[trigger] data@[i] == (if row + 4 * x0 <= i < row
                        + 4 * xx && (i - row) % 4 < 3 {
                        if (i - row) % 4 == 0 {
                            vb
                        } else if (i - row) % 4 == 1 {
                            vg
                        } else {
                            vr
                        }
                    } else {
                        before[i]
                    }),
            decreases x1 - xx,
        {
            let idx = row + xx * 4;
            data[idx] = vb;
            data[idx + 1] = vg;
            data[idx + 2] = vr;
            assert forall|i: int| 0 <= i < old(data).len() implies #[trigger] data@[i] == (if row + 4
                * x0 <= i < row + 4 * (xx + 1) && (i - row) % 4 < 3 {
                if (i - row) % 4 == 0 {
                    vb
                } else if (i - row) % 4 == 1 {
                    vg
                } else {
                    vr
                }
            } else {
                before[i]
            }) by {
                if idx <= i < idx + 4 {
                    lemma_channel_split(xx as int, i - idx);
                }
            }
            xx = xx + 1;
        }
        assert forall|i: int| 0 <= i < old(data).len() implies #[trigger] data@[i] == (if in_rect(
            i,
            st,
            x0 as int,
            x1 as int,
            y0 as int,
            yy + 1,
        ) && (i % st) % 4 < 3 {
            if (i % st) % 4 == 0 {
                vb
            } else if (i % st) % 4 == 1 {
                vg
            } else {
                vr
            }
        } else {
            old(data)@[i]
        }) by {
            if row <= i < row + stride {
                lemma_row_split(yy as int, i - row, st);
            } else {
                lemma_row_order(i, yy as int, st);
            }
        }
        yy = yy + 1;
    }
}

proof fn lemma_block_start_bound(n: int, j: int, p: int)
    requires
        0 < p,
        0 <= j,
        j * p < n,
    ensures
        j * p <= last_block_start(n, p),
{
    let q = (n - 1) / p;
    let r = (n - 1) % p;
    assert(n - 1 == q * p + r && 0 <= r < p) by (nonlinear_arith)
        requires
            p > 0,
            q == (n - 1) / p,
            r == (n - 1) % p,
    ;
    assert(j * p <= q * p) by (nonlinear_arith)
        requires
            j * p <= q * p + r,
            r < p,
            p > 0,
    ;
}

/// The block of size `p` that holds pixel `(x, y)` has at most `u32::MAX`
/// pixels, and the sum of each colour channel over it fits in a `u32`.
pub open spec fn block_fits(d: Seq<u8>, width: int, height: int, stride: int, p: int, x: int, y: int) -> bool {
    let x0 = block_start(x, p);
    let x1 = block_end(x, p, width);
    let y0 = block_start(y, p);
    let y1 = block_end(y, p, height);
    &&& (x1 - x0) * (y1 - y0) <= u32::MAX
    &&& rect_sum(d, stride, 0, x0, x1, y0, y1) <= u32::MAX
    &&& rect_sum(d, stride, 1, x0, x1, y0, y1) <= u32::MAX
    &&& rect_sum(d, stride, 2, x0, x1, y0, y1) <= u32::MAX
}

/// Every block's pixel count and colour sums fit in a `u32`, the counters
/// that pixelation keeps per block.
pub open spec fn block_sums_fit(d: Seq<u8>, width: int, height: int, stride: int, p: int) -> bool {
    forall|x: int, y: int|
        0 <= x < width && 0 <= y < height ==> #[trigger] block_fits(d, width, height, stride, p, x, y)
}

/// Pixelation of the colour channels of a 32-bit buffer in blocks of
/// `pixel_size` by `pixel_size` pixels, each channel set to the mean of the
/// block, rounded down; blocks at the right and bottom edges are clipped.
/// Alpha and padding are kept; a pixel size of at most one changes nothing.
pub fn pixelate_pixels(
    data: &mut Vec<u8>,
    width: usize,
    height: usize,
    stride: usize,
    pixel_size: u32,
)
    requires
        old(data).len() == height * stride,
        4 * width <= stride,
        pixel_size > 1 && width > 0 && height > 0 ==> {
            &&& pixel_size <= 0x8000_0000
            &&& last_block_start(width as int, pixel_size as int) + pixel_size - 1 <= 0x7fff_ffff
            &&& last_block_start(height as int, pixel_size as int) + pixel_size - 1 <= 0x7fff_ffff
            &&& block_sums_fit(old(data)@, width as int, height as int, stride as int, pixel_size as int)
        },
    ensures
        final(data)@ == (if pixel_size <= 1 {
            old(data)@
        } else {
            pixelate(old(data)@, width as int, height as int, stride as int, pixel_size as int)
        }),
{
    if pixel_size <= 1 {
        return;
    }
    let ghost o = data@;
    let ghost target = pixelate(o, width as int, height as int, stride as int, pixel_size as int);
    if width == 0 || height == 0 {
        if stride == 0 || height == 0 {
            assert(data.len() == 0) by (nonlinear_arith)
                requires
                    data.len() == height * stride,
                    stride == 0 || height == 0,
            ;
        }
        assert(data@ =~= target);
        return;
    }
    let p = pixel_size as usize;
    let ghost st = stride as int;
    let ghost pp = p as int;
    proof {
        lemma_block_start_bound(height as int, 0, pp);
        lemma_block_start_bound(width as int, 0, pp);
    }
    let mut y0: usize = 0;
    let ghost mut jy: int = 0;
    while y0 < height
        invariant
            1 <= width,
            1 <= height,
            4 * width <= stride,
            data.len() == height * stride,
            o.len() == data.len(),
            st == stride,
            pp == p,
            2 <= p <= 0x8000_0000,
            last_block_start(height as int, pp) + pp - 1 <= 0x7fff_ffff,
            last_block_start(width as int, pp) + pp - 1 <= 0x7fff_ffff,
            0 <= last_block_start(width as int, pp),
            block_sums_fit(o, width as int, height as int, st, pp),
            target == pixelate(o, width as int, height as int, st, pp),
            0 <= jy,
            y0 == jy * pp,
            y0 < height ==> y0 <= last_block_start(height as int, pp),
            forall|i: int|
                0 <= i < data.len() ==> #[trigger] data@[i] == (if i < y0 * st {
                    target[i]
                } else {
                    o[i]
                }),
        decreases height + p - y0,
    {
        let y1 = if p < height - y0 {
            y0 + p
        } else {
            height
        };
        assert(y1 * st <= data.len()) by (nonlinear_arith)
            requires
                y1 <= height,
                st >= 0,
                data.len() == height * st,
        ;
        let mut x0: usize = 0;
        let ghost mut jx: int = 0;
        while x0 < width
            invariant
                1 <= width,
                1 <= height,
                4 * width <= stride,
                data.len() == height * stride,
                o.len() == data.len(),
                st == stride,
                pp == p,
                2 <= p <= 0x8000_0000,
                last_block_start(width as int, pp) + pp - 1 <= 0x7fff_ffff,
                block_sums_fit(o, width as int, height as int, st, pp),
                target == pixelate(o, width as int, height as int, st, pp),
                0 <= jy,
                y0 == jy * pp,
                y0 < y1 <= height,
                y1 == (if pp < height - y0 {
                    y0 + pp
                } else {
                    height as int
                }),
                y1 * st <= data.len(),
                0 <= jx,
                x0 == jx * pp,
                x0 < width ==> x0 <= last_block_start(width as int, pp),
                forall|i: int|
                    0 <= i < data.len() ==> #[trigger] data@[i] == (if i < y0 * st {
                        target[i]
                    } else if i < y1 * st && i % st < 4 * x0 {
                        target[i]
                    } else {
                        o[i]
                    }),
            decreases width + p - x0,
        {
            let x1 = if p < width - x0 {
                x0 + p
            } else {
                width
            };
            proof {
                lemma_block_of(x0 as int, jx, pp, width as int);
                lemma_block_of(y0 as int, jy, pp, height as int);
                assert(block_fits(o, width as int, height as int, st, pp, x0 as int, y0 as int));
            }
            assert((x1 - x0) * (y1 - y0) <= u32::MAX);
            assert(0 < (x1 - x0) * (y1 - y0)) by (nonlinear_arith)
                requires
                    0 < x1 - x0,
                    0 < y1 - y0,
            ;
            assert forall|i: int|
                0 <= i < data.len() && in_rect(i, st, x0 as int, x1 as int, y0 as int, y1 as int)
                    implies #[trigger] data@[i] == o[i] by {
                lemma_index_in_row(i, height as int, st);
                lemma_row_order(i, y0 as int, st);
            }
            let (sb, sg, sr) = block_sums(data, Ghost(o), stride, x0, x1, y0, y1);
            let count: u64 = (x1 - x0) as u64 * (y1 - y0) as u64;
            proof {
                lemma_rect_sum_bounds(o, st, 0, x0 as int, x1 as int, y0 as int, y1 as int);
                lemma_rect_sum_bounds(o, st, 1, x0 as int, x1 as int, y0 as int, y1 as int);
                lemma_rect_sum_bounds(o, st, 2, x0 as int, x1 as int, y0 as int, y1 as int);
                assert(sb / count <= 255 && sg / count <= 255 && sr / count <= 255) by (nonlinear_arith)
                    requires
                        count > 0,
                        sb <= 255 * count,
                        sg <= 255 * count,
                        sr <= 255 * count,
                ;
            }
            let vb = (sb / count) as u8;
            let vg = (sg / count) as u8;
            let vr = (sr / count) as u8;
            let ghost before = data@;
            fill_block(data, stride, x0, x1, y0, y1, vb, vg, vr);
            assert forall|i: int| 0 <= i < data.len() implies #[trigger] data@[i] == (if i < y0 * st {
                target[i]
            } else if i < y1 * st && i % st < 4 * (x0 + pp) {
                target[i]
            } else {
                o[i]
            }) by {
                lemma_index_in_row(i, height as int, st);
                lemma_row_order(i, y0 as int, st);
                lemma_row_order(i, (y1 - 1) as int, st);
                lemma_row_order(i, y1 as int, st);
                let q = i % st;
                let yy = i / st;
                if y0 * st <= i < y1 * st && 4 * x0 <= q < 4 * x1 {
                    assert(in_rect(i, st, x0 as int, x1 as int, y0 as int, y1 as int));
                    if q % 4 < 3 {
                        lemma_block_of(q / 4, jx, pp, width as int);
                        lemma_block_of(yy, jy, pp, height as int);
                        assert(target[i] == pixelated_value(
                            o,
                            width as int,
                            height as int,
                            st,
                            pp,
                            q / 4,
                            yy,
                            q % 4,
                        ));
                    }
                }
            }
            proof {
                assert((jx + 1) * pp == jx * pp + pp) by (nonlinear_arith);
                if x0 + pp < width {
                    lemma_block_start_bound(width as int, jx + 1, pp);
                }
                jx = jx + 1;
            }
            x0 = x0 + p;
        }
        assert forall|i: int| 0 <= i < data.len() implies #[trigger] data@[i] == (if i < (y0 + pp)
            * st {
            target[i]
        } else {
            o[i]
        }) by {
            lemma_index_in_row(i, height as int, st);
            lemma_row_order(i, y0 as int, st);
            lemma_row_order(i, (y1 - 1) as int, st);
            assert((y0 + pp) * st >= y1 * st) by (nonlinear_arith)
                requires
                    y0 + pp >= y1,
                    st >= 0,
            ;
            if y1 * st <= i && i < (y0 + pp) * st {
                assert(y1 == height);
            }
        }
        proof {
            assert((jy + 1) * pp == jy * pp + pp) by (nonlinear_arith);
            if y0 + pp < height {
                lemma_block_start_bound(height as int, jy + 1, pp);
            }
            jy = jy + 1;
        }
        y0 = y0 + p;
    }
    assert(y0 * st >= height * st) by (nonlinear_arith)
        requires
            y0 >= height,
            st >= 0,
    ;
    assert(data@ =~= target);
}

/// Whether every block of a pixelation in blocks of `pixel_size` has at
/// most `u32::MAX` pixels and colour sums that fit in a `u32`; the counters
/// of the pixelation overflow otherwise.
pub fn pixelate_sums_fit(
    data: &Vec<u8>,
    width: usize,
    height: usize,
    stride: usize,
    pixel_size: u32,
) -> (fits: bool)
    requires
        data.len() == height * stride,
        4 * width <= stride,
        pixel_size > 1,
    ensures
        fits == block_sums_fit(data@, width as int, height as int, stride as int, pixel_size as int),
{
    let ghost o = data@;
    let p = pixel_size as usize;
    let ghost pp = p as int;
    let ghost st = stride as int;
    if width == 0 || height == 0 {
        return true;
    }
    let mut y0: usize = 0;
    let ghost mut jy: int = 0;
    while y0 < height
        invariant
            1 <= width,
            1 <= height,
            4 * width <= stride,
            data.len() == height * stride,
            o == data@,
            st == stride,
            pp == p,
            pp == pixel_size,
            2 <= p,
            0 <= jy,
            y0 <= height,
            y0 < height ==> y0 == jy * pp,
            forall|x: int, y: int|
                0 <= x < width && 0 <= y < y0 ==> #[trigger] block_fits(
                    o,
                    width as int,
                    height as int,
                    st,
                    pp,
                    x,
                    y,
                ),
        decreases height - y0,
    {
        let y1 = if p < height - y0 {
            y0 + p
        } else {
            height
        };
        assert(y1 * st <= data.len()) by (nonlinear_arith)
            requires
                y1 <= height,
                st >= 0,
                data.len() == height * st,
        ;
        let mut x0: usize = 0;
        let ghost mut jx: int = 0;
        while x0 < width
            invariant
                1 <= width,
                1 <= height,
                4 * width <= stride,
                data.len() == height * stride,
                o == data@,
                st == stride,
                pp == p,
                pp == pixel_size,
                2 <= p,
                0 <= jy,
                y0 == jy * pp,
                y0 < y1 <= height,
                y1 == (if pp < height - y0 {
                    y0 + pp
                } else {
                    height as int
                }),
                y1 * st <= data.len(),
                0 <= jx,
                x0 <= width,
                x0 < width ==> x0 == jx * pp,
                forall|x: int, y: int|
                    0 <= x < width && 0 <= y < height && (y < y0 || (y < y1 && x < x0))
                        ==> #[trigger] block_fits(o, width as int, height as int, st, pp, x, y),
            decreases width - x0,
        {
            let x1 = if p < width - x0 {
                x0 + p
            } else {
                width
            };
            proof {
                lemma_block_of(x0 as int, jx, pp, width as int);
                lemma_block_of(y0 as int, jy, pp, height as int);
            }
            assert((x1 - x0) * (y1 - y0) <= width * height <= data.len()) by (nonlinear_arith)
                requires
                    0 < x1 - x0 <= width,
                    0 < y1 - y0 <= height,
                    4 * width <= stride,
                    data.len() == height * stride,
            ;
            let area = (x1 - x0) * (y1 - y0);
            if area > 0xffff_ffff {
                assert(!block_fits(o, width as int, height as int, st, pp, x0 as int, y0 as int));
                assert(!block_sums_fit(data@, width as int, height as int, stride as int, pixel_size as int));
                return false;
            }
            assert(0 < (x1 - x0) * (y1 - y0)) by (nonlinear_arith)
                requires
                    0 < x1 - x0,
                    0 < y1 - y0,
            ;
            let (sb, sg, sr) = block_sums(data, Ghost(o), stride, x0, x1, y0, y1);
            if sb > 0xffff_ffff || sg > 0xffff_ffff || sr > 0xffff_ffff {
                assert(!block_fits(o, width as int, height as int, st, pp, x0 as int, y0 as int));
                assert(!block_sums_fit(data@, width as int, height as int, stride as int, pixel_size as int));
                return false;
            }
            assert forall|x: int, y: int|
                0 <= x < width && 0 <= y < height && (y < y0 || (y < y1 && x < x1)) implies #[trigger] block_fits(
                o,
                width as int,
                height as int,
                st,
                pp,
                x,
                y,
            ) by {
                if y0 <= y < y1 && x0 <= x < x1 {
                    lemma_block_of(x, jx, pp, width as int);
                    lemma_block_of(y, jy, pp, height as int);
                }
            }
            proof {
                assert((jx + 1) * pp == jx * pp + pp) by (nonlinear_arith);
                jx = jx + 1;
            }
            x0 = x1;
        }
        proof {
            assert((jy + 1) * pp == jy * pp + pp) by (nonlinear_arith);
            jy = jy + 1;
        }
        y0 = y1;
    }
    true
}

// ---------------------------------------------------------------- laws

/// For windows of 1 to 4096 pixels, the blur's fixed-point scaling is the
/// exact mean of the window, rounded down; a window of one pixel keeps its
/// value.
pub proof fn lemma_scaled_mean_is_mean(sum: int, count: int)
    requires
        1 <= count <= 4096,
        0 <= sum <= 255 * count,
    ensures
        scaled_mean(sum, count) == sum / count,
{
    let big = fixed_one();
    let kk = (big + count - 1) / count;
    let m = (big + count - 1) % count;
    assert(big + count - 1 == count * kk + m && 0 <= m < count) by (nonlinear_arith)
        requires
            count > 0,
            kk == (big + count - 1) / count,
            m == (big + count - 1) % count,
    ;
    assert(0 <= kk <= big) by (nonlinear_arith)
        requires
            count >= 1,
            big == 0x1_0000_0000,
            count * kk <= big + count - 1,
            count * kk >= big,
    ;
    assert(reciprocal(count) == kk);
    let q = sum / count;
    let r = sum % count;
    assert(sum == count * q + r && 0 <= r < count) by (nonlinear_arith)
        requires
            count > 0,
            q == sum / count,
            r == sum % count,
    ;
    assert(0 <= q <= 255) by (nonlinear_arith)
        requires
            sum == count * q + r,
            0 <= r < count,
            0 <= sum <= 255 * count,
            count > 0,
    ;
    let d = count * kk - big;
    assert(0 <= d < count);
    assert(sum * kk == q * big + (q * d + r * kk)) by (nonlinear_arith)
        requires
            sum == count * q + r,
            d == count * kk - big,
    ;
    assert(0 <= q * d + r * kk < big) by (nonlinear_arith)
        requires
            0 <= q <= 255,
            0 <= d < count,
            0 <= r < count,
            1 <= count <= 4096,
            count * kk == big + d,
            kk >= 0,
            big == 0x1_0000_0000,
    ;
    lemma_fundamental_div_mod_converse(sum * kk, big, q, q * d + r * kk);
    lemma_fundamental_div_mod_converse(q, 256, 0, q);
}

/// Byte `k` of a strided range.
pub open spec fn strided_at(d: Seq<u8>, start: int, step: int, k: int) -> int {
    d[start + k * step] as int
}

/// Channel `c` of pixel `(x, y)` in a buffer with rows `stride` bytes apart.
pub open spec fn pixel_channel(d: Seq<u8>, stride: int, c: int, x: int, y: int) -> int {
    d[y * stride + 4 * x + c] as int
}

proof fn lemma_strided_sum_const(d: Seq<u8>, start: int, step: int, lo: int, hi: int, v: int)
    requires
        lo <= hi,
        forall|k: int| lo <= k < hi ==> #[trigger] strided_at(d, start, step, k) == v,
    ensures
        strided_sum(d, start, step, lo, hi) == v * (hi - lo),
    decreases hi - lo,
{
    if lo < hi {
        lemma_strided_sum_const(d, start, step, lo, hi - 1, v);
        assert(strided_at(d, start, step, hi - 1) == v);
        assert(v * (hi - 1 - lo) + v == v * (hi - lo)) by (nonlinear_arith);
    } else {
        assert(v * (hi - lo) == 0) by (nonlinear_arith)
            requires
                hi == lo,
        ;
    }
}

proof fn lemma_rect_sum_const(d: Seq<u8>, stride: int, c: int, x0: int, x1: int, y0: int, y1: int, v: int)
    requires
        x0 <= x1,
        y0 <= y1,
        forall|x: int, y: int|
            x0 <= x < x1 && y0 <= y < y1 ==> #[trigger] pixel_channel(d, stride, c, x, y) == v,
    ensures
        rect_sum(d, stride, c, x0, x1, y0, y1) == v * ((x1 - x0) * (y1 - y0)),
    decreases y1 - y0,
{
    if y0 < y1 {
        lemma_rect_sum_const(d, stride, c, x0, x1, y0, y1 - 1, v);
        assert forall|k: int| x0 <= k < x1 implies #[trigger] strided_at(
            d,
            (y1 - 1) * stride + c,
            4,
            k,
        ) == v by {
            assert(pixel_channel(d, stride, c, k, y1 - 1) == v);
        }
        lemma_strided_sum_const(d, (y1 - 1) * stride + c, 4, x0, x1, v);
        assert(v * ((x1 - x0) * (y1 - 1 - y0)) + v * (x1 - x0) == v * ((x1 - x0) * (y1 - y0)))
            by (nonlinear_arith);
    } else {
        assert(v * ((x1 - x0) * (y1 - y0)) == 0) by (nonlinear_arith)
            requires
                y1 == y0,
        ;
    }
}

/// The block of size `p` that holds `i` in `[0, n)` is nonempty, holds `i`,
/// and is the block of every index in it.
proof fn lemma_block_bounds(i: int, p: int, n: int)
    requires
        0 <= i < n,
        1 <= p,
    ensures
        0 <= block_start(i, p) <= i < block_end(i, p, n) <= n,
        forall|k: int|
            block_start(i, p) <= k < block_end(i, p, n) ==> #[trigger] block_start(k, p) == block_start(i, p)
                && block_end(k, p, n) == block_end(i, p, n),
{
    vstd::arithmetic::div_mod::lemma_fundamental_div_mod(i, p);
    vstd::arithmetic::div_mod::lemma_mod_pos_bound(i, p);
    let j = i / p;
    assert(0 <= j) by (nonlinear_arith)
        requires
            0 <= i,
            1 <= p,
            j == i / p,
    ;
    assert(p * j == j * p) by (nonlinear_arith);
    assert forall|k: int|
        block_start(i, p) <= k < block_end(i, p, n) implies #[trigger] block_start(k, p) == block_start(i, p)
            && block_end(k, p, n) == block_end(i, p, n) by {
        lemma_block_of(k, j, p, n);
    }
}

proof fn lemma_pixelated_again(d: Seq<u8>, width: int, height: int, stride: int, p: int, i: int)
    requires
        1 <= p,
        4 * width <= stride,
        d.len() == height * stride,
        0 <= i < d.len(),
        i % stride < 4 * width,
        (i % stride) % 4 < 3,
    ensures
        pixelate(pixelate(d, width, height, stride, p), width, height, stride, p)[i] == pixelate(
            d,
            width,
            height,
            stride,
            p,
        )[i],
{
    let e = pixelate(d, width, height, stride, p);
    lemma_index_in_row(i, height, stride);
    let q = i % stride;
    let y = i / stride;
    let x = q / 4;
    let c = q % 4;
    assert(q == 4 * x + c && 0 <= x < width) by (nonlinear_arith)
        requires
            0 <= q < 4 * width,
            x == q / 4,
            c == q % 4,
    ;
    let v = pixelated_value(d, width, height, stride, p, x, y, c);
    lemma_block_bounds(x, p, width);
    lemma_block_bounds(y, p, height);
    let x0 = block_start(x, p);
    let x1 = block_end(x, p, width);
    let y0 = block_start(y, p);
    let y1 = block_end(y, p, height);
    assert forall|xx: int, yy: int|
        x0 <= xx < x1 && y0 <= yy < y1 implies #[trigger] pixel_channel(e, stride, c, xx, yy) == v as int by {
        let j = yy * stride + 4 * xx + c;
        assert(0 <= 4 * xx + c < stride);
        lemma_row_split(yy, 4 * xx + c, stride);
        lemma_channel_split(xx, c);
        lemma_row_fits(yy, height, stride);
        assert(j < d.len());
        assert(block_start(xx, p) == x0 && block_end(xx, p, width) == x1);
        assert(block_start(yy, p) == y0 && block_end(yy, p, height) == y1);
        assert(e[j] == pixelated_value(d, width, height, stride, p, xx, yy, c));
    }
    lemma_rect_sum_const(e, stride, c, x0, x1, y0, y1, v as int);
    let area = (x1 - x0) * (y1 - y0);
    assert(area > 0) by (nonlinear_arith)
        requires
            x0 < x1,
            y0 < y1,
            area == (x1 - x0) * (y1 - y0),
    ;
    assert(v as int * area == area * v as int) by (nonlinear_arith);
    vstd::arithmetic::div_mod::lemma_div_multiples_vanish(v as int, area);
    assert(pixelated_value(e, width, height, stride, p, x, y, c) == v);
}

/// Pixelating twice with the same block size gives what pixelating once
/// gives.
pub proof fn lemma_pixelate_twice(d: Seq<u8>, width: int, height: int, stride: int, p: int)
    requires
        1 <= p,
        0 <= width,
        4 * width <= stride,
        d.len() == height * stride,
    ensures
        pixelate(pixelate(d, width, height, stride, p), width, height, stride, p) == pixelate(
            d,
            width,
            height,
            stride,
            p,
        ),
{
    let e = pixelate(d, width, height, stride, p);
    let f = pixelate(e, width, height, stride, p);
    assert forall|i: int| 0 <= i < f.len() implies #[trigger] f[i] == e[i] by {
        let q = i % stride;
        if q < 4 * width && q % 4 < 3 {
            lemma_pixelated_again(d, width, height, stride, p, i);
        }
    }
    assert(f =~= e);
}

/// Blurring with `t1` passes and then with `t2` more is blurring with
/// `t1 + t2` passes, and the window sums of all the passes fit exactly when
/// those of the first `t1` passes and of the `t2` passes after them fit.
pub proof fn lemma_blur_passes_compose(
    d: Seq<u8>,
    width: int,
    height: int,
    stride: int,
    r: int,
    t1: nat,
    t2: nat,
)
    ensures
        box_blur(box_blur(d, width, height, stride, r, t1), width, height, stride, r, t2)
            == box_blur(d, width, height, stride, r, t1 + t2),
        blur_sums_fit(d, width, height, stride, r, t1 + t2) <==> (blur_sums_fit(
            d,
            width,
            height,
            stride,
            r,
            t1,
        ) && blur_sums_fit(box_blur(d, width, height, stride, r, t1), width, height, stride, r, t2)),
    decreases t2,
{
    if t2 > 0 {
        lemma_blur_passes_compose(d, width, height, stride, r, t1, (t2 - 1) as nat);
        assert((t1 + t2 - 1) as nat == t1 + (t2 - 1) as nat);
    }
}

/// Blurring never changes alpha bytes or row padding.
pub proof fn lemma_blur_keeps_alpha_and_padding(
    d: Seq<u8>,
    width: int,
    height: int,
    stride: int,
    r: int,
    times: nat,
    i: int,
)
    requires
        0 <= i < d.len(),
        i % stride >= 4 * width || (i % stride) % 4 == 3,
    ensures
        box_blur(d, width, height, stride, r, times).len() == d.len(),
        box_blur(d, width, height, stride, r, times)[i] == d[i],
    decreases times,
{
    if times > 0 {
        lemma_blur_keeps_alpha_and_padding(d, width, height, stride, r, (times - 1) as nat, i);
    }
}

/// Pixelating never changes alpha bytes or row padding.
pub proof fn lemma_pixelate_keeps_alpha_and_padding(
    d: Seq<u8>,
    width: int,
    height: int,
    stride: int,
    p: int,
    i: int,
)
    requires
        0 <= i < d.len(),
        i % stride >= 4 * width || (i % stride) % 4 == 3,
    ensures
        pixelate(d, width, height, stride, p)[i] == d[i],
{
}

} // verus!
