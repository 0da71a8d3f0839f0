//! Interleaved sample layout: where the sample of channel `c` of the pixel
//! at column `x`, row `y` lives in a flat, row-major buffer.
use vstd::arithmetic::div_mod::*;
use vstd::arithmetic::mul::*;
use vstd::prelude::*;

verus! {

/// Position of sample `c` of pixel `(x, y)` in a row-major buffer of an image
/// that is `width` pixels wide with `channels` interleaved samples per pixel.
pub open spec fn sample_index(width: int, channels: int, x: int, y: int, c: int) -> int {
    (y * width + x) * channels + c
}

/// Number of samples of a `width` x `height` image with `channels` samples per pixel.
pub open spec fn sample_count(width: int, height: int, channels: int) -> int {
    width * height * channels
}

/// Column of the pixel that holds the sample at position `i`.
pub open spec fn column_of(width: int, channels: int, i: int) -> int {
    (i / channels) % width
}

/// Row of the pixel that holds the sample at position `i`.
pub open spec fn row_of(width: int, channels: int, i: int) -> int {
    (i / channels) / width
}

/// Channel of the sample at position `i`.
pub open spec fn channel_of(channels: int, i: int) -> int {
    i % channels
}

/// A sample position of an in-range coordinate lies inside the buffer.
pub proof fn lemma_index_in_range(w: int, h: int, ch: int, x: int, y: int, c: int)
    requires
        0 <= x < w,
        0 <= y < h,
        0 <= c < ch,
    ensures
        0 <= sample_index(w, ch, x, y, c) < sample_count(w, h, ch),
{
    assert(0 <= y * w + x <= w * h - 1) by (nonlinear_arith)
        requires
            0 <= x < w,
            0 <= y < h,
    ;
    let p = y * w + x;
    assert(0 <= p * ch + c < (w * h) * ch) by (nonlinear_arith)
        requires
            0 <= p <= w * h - 1,
            0 <= c < ch,
    ;
    lemma_mul_is_associative(w, h, ch);
}

/// Every position inside the buffer is the position of exactly the coordinate
/// that `column_of`, `row_of` and `channel_of` give back.
pub proof fn lemma_index_split(w: int, h: int, ch: int, i: int)
    requires
        w >= 0,
        h >= 0,
        ch >= 0,
        0 <= i < sample_count(w, h, ch),
    ensures
        w > 0,
        ch > 0,
        0 <= column_of(w, ch, i) < w,
        0 <= row_of(w, ch, i) < h,
        0 <= channel_of(ch, i) < ch,
        sample_index(w, ch, column_of(w, ch, i), row_of(w, ch, i), channel_of(ch, i)) == i,
{
    assert(w > 0 && ch > 0) by (nonlinear_arith)
        requires
            w >= 0,
            h >= 0,
            ch >= 0,
            0 <= i < w * h * ch,
    ;
    let p = i / ch;
    let c = i % ch;
    lemma_fundamental_div_mod(i, ch);
    lemma_mod_bound(i, ch);
    lemma_mul_is_associative(w, h, ch);
    lemma_mul_nonnegative(w, h);
    assert(p < w * h) by {
        lemma_div_by_multiple_is_strongly_ordered(i, (w * h) * ch, w * h, ch);
        lemma_div_by_multiple(w * h, ch);
        lemma_mul_is_commutative(w * h, ch);
    }
    assert(p >= 0) by {
        lemma_div_pos_is_pos(i, ch);
    }
    let x = p % w;
    let y = p / w;
    lemma_fundamental_div_mod(p, w);
    lemma_mod_bound(p, w);
    assert(y >= 0) by {
        lemma_div_pos_is_pos(p, w);
    }
    assert(y < h) by {
        lemma_div_by_multiple_is_strongly_ordered(p, w * h, h, w);
        lemma_div_by_multiple(h, w);
        lemma_mul_is_commutative(w, h);
    }
    assert(p == y * w + x) by {
        lemma_mul_is_commutative(w, y);
    }
    assert(i == p * ch + c) by {
        lemma_mul_is_commutative(ch, p);
    }
}

/// Splitting the position of an in-range coordinate gives that coordinate back.
pub proof fn lemma_index_join(w: int, ch: int, x: int, y: int, c: int)
    requires
        0 <= x < w,
        0 <= y,
        0 <= c < ch,
    ensures
        column_of(w, ch, sample_index(w, ch, x, y, c)) == x,
        row_of(w, ch, sample_index(w, ch, x, y, c)) == y,
        channel_of(ch, sample_index(w, ch, x, y, c)) == c,
{
    let p = y * w + x;
    let i = p * ch + c;
    lemma_fundamental_div_mod_converse(i, ch, p, c);
    lemma_fundamental_div_mod_converse(p, w, y, x);
}

/// Two in-range coordinates share a position only if they are equal.
pub proof fn lemma_index_injective(
    w: int,
    ch: int,
    x1: int,
    y1: int,
    c1: int,
    x2: int,
    y2: int,
    c2: int,
)
    requires
        0 <= x1 < w,
        0 <= y1,
        0 <= c1 < ch,
        0 <= x2 < w,
        0 <= y2,
        0 <= c2 < ch,
        sample_index(w, ch, x1, y1, c1) == sample_index(w, ch, x2, y2, c2),
    ensures
        x1 == x2,
        y1 == y2,
        c1 == c2,
{
    lemma_index_join(w, ch, x1, y1, c1);
    lemma_index_join(w, ch, x2, y2, c2);
}

/// The position of the last sample of a pixel plus one is the position of the
/// next pixel's first sample.
pub proof fn lemma_next_pixel(w: int, ch: int, x: int, y: int)
    ensures
        sample_index(w, ch, x, y, ch) == sample_index(w, ch, x + 1, y, 0),
        sample_index(w, ch, w, y, 0) == sample_index(w, ch, 0, y + 1, 0),
{
    assert((y * w + x) * ch + ch == (y * w + x + 1) * ch) by (nonlinear_arith);
    assert(y * w + w == (y + 1) * w) by (nonlinear_arith);
}

/// The buffer of a `width` x `height` image with `channels` samples per pixel
/// whose sample `c` of pixel `(x, y)` is `f(x, y, c)`.
pub open spec fn remap<T>(width: int, height: int, channels: int, f: spec_fn(int, int, int) -> T) -> Seq<
    T,
> {
    Seq::new(
        sample_count(width, height, channels) as nat,
        |i: int| f(column_of(width, channels, i), row_of(width, channels, i), channel_of(channels, i)),
    )
}

/// A sample count is never negative.
pub proof fn lemma_count_nonnegative(w: int, h: int, ch: int)
    requires
        w >= 0,
        h >= 0,
        ch >= 0,
    ensures
        sample_count(w, h, ch) >= 0,
        sample_count(w, h, ch) == sample_count(h, w, ch),
{
    assert(w * h * ch >= 0) by (nonlinear_arith)
        requires
            w >= 0,
            h >= 0,
            ch >= 0,
    ;
    lemma_mul_is_commutative(w, h);
}

/// Sample `c` of pixel `(x, y)` of a remapped buffer is `f(x, y, c)`.
pub proof fn lemma_remap_at<T>(
    w: int,
    h: int,
    ch: int,
    f: spec_fn(int, int, int) -> T,
    x: int,
    y: int,
    c: int,
)
    requires
        0 <= x < w,
        0 <= y < h,
        0 <= c < ch,
    ensures
        0 <= sample_index(w, ch, x, y, c) < remap(w, h, ch, f).len(),
        remap(w, h, ch, f)[sample_index(w, ch, x, y, c)] == f(x, y, c),
{
    lemma_count_nonnegative(w, h, ch);
    lemma_index_in_range(w, h, ch, x, y, c);
    lemma_index_join(w, ch, x, y, c);
}

/// Two pixel functions that agree on every in-range sample give the same buffer.
pub proof fn lemma_remap_ext<T>(
    w: int,
    h: int,
    ch: int,
    f: spec_fn(int, int, int) -> T,
    g: spec_fn(int, int, int) -> T,
)
    requires
        w >= 0,
        h >= 0,
        ch >= 0,
        forall|x: int, y: int, c: int|
            0 <= x < w && 0 <= y < h && 0 <= c < ch ==> #[trigger] f(x, y, c) == #[trigger] g(x, y, c),
    ensures
        remap(w, h, ch, f) == remap(w, h, ch, g),
{
    lemma_count_nonnegative(w, h, ch);
    let a = remap(w, h, ch, f);
    let b = remap(w, h, ch, g);
    assert forall|i: int| 0 <= i < a.len() implies a[i] == b[i] by {
        lemma_index_split(w, h, ch, i);
        let x = column_of(w, ch, i);
        let y = row_of(w, ch, i);
        let c = channel_of(ch, i);
        assert(f(x, y, c) == g(x, y, c));
    }
    assert(a =~= b);
}

/// Remapping a buffer by reading every sample at its own position gives the
/// buffer back.
pub proof fn lemma_remap_identity<T>(w: int, h: int, ch: int, s: Seq<T>)
    requires
        w >= 0,
        h >= 0,
        ch >= 0,
        s.len() == sample_count(w, h, ch),
    ensures
        remap(w, h, ch, |x: int, y: int, c: int| s[sample_index(w, ch, x, y, c)]) == s,
{
    let r = remap(w, h, ch, |x: int, y: int, c: int| s[sample_index(w, ch, x, y, c)]);
    lemma_count_nonnegative(w, h, ch);
    assert forall|i: int| 0 <= i < r.len() implies r[i] == s[i] by {
        lemma_index_split(w, h, ch, i);
    }
    assert(r =~= s);
}

} // verus!
