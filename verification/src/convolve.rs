//! Convolution of a single-channel image with a square kernel. Kernel taps
//! that fall outside the image are skipped; the arithmetic on samples and
//! weights is supplied by the caller.
use crate::raster::RawImage;
use vstd::prelude::*;

verus! {

/// Whether kernel cell `(kx, ky)` of a `k` x `k` kernel centred on pixel
/// `(x, y)` lands inside a `w` x `h` image.
pub open spec fn tap_in_image(w: int, h: int, k: int, x: int, y: int, ky: int, kx: int) -> bool {
    let ix = x + kx - k / 2;
    let iy = y + ky - k / 2;
    0 <= ix < w && 0 <= iy < h
}

/// A tap: the sample position it reads, and the kernel row and column of its weight.
pub open spec fn tap(w: int, k: int, x: int, y: int, ky: int, kx: int) -> (int, int, int) {
    ((y + ky - k / 2) * w + (x + kx - k / 2), ky, kx)
}

/// The in-image taps among the first `n` cells of kernel row `ky`, left to right.
pub open spec fn row_taps(w: int, h: int, k: int, x: int, y: int, ky: int, n: int) -> Seq<
    (int, int, int),
>
    decreases n,
{
    if n <= 0 {
        Seq::empty()
    } else {
        let before = row_taps(w, h, k, x, y, ky, n - 1);
        if tap_in_image(w, h, k, x, y, ky, n - 1) {
            before.push(tap(w, k, x, y, ky, n - 1))
        } else {
            before
        }
    }
}

/// The in-image taps of the first `rows` kernel rows, row by row.
pub open spec fn window_taps(w: int, h: int, k: int, x: int, y: int, rows: int) -> Seq<
    (int, int, int),
>
    decreases rows,
{
    if rows <= 0 {
        Seq::empty()
    } else {
        window_taps(w, h, k, x, y, rows - 1) + row_taps(w, h, k, x, y, rows - 1, k)
    }
}

/// The (sample, weight) pairs that a list of taps reads.
pub open spec fn tap_inputs<T, W>(samples: Seq<T>, kernel: Seq<Vec<W>>, taps: Seq<(int, int, int)>) -> Seq<
    (T, W),
> {
    taps.map_values(|t: (int, int, int)| (samples[t.0], kernel[t.1]@[t.2]))
}

/// `trace` records a run of folding `step` over `items` from `start`: it
/// begins with `start`, and each next entry is a possible result of `step`
/// on the previous entry and the next item.
pub open spec fn fold_trace<T, W, F: Fn(T, T, W) -> T>(step: F, start: T, items: Seq<(T, W)>, trace: Seq<T>) -> bool {
    &&& trace.len() == items.len() + 1
    &&& trace[0] == start
    &&& forall|i: int|
        0 <= i < items.len() ==> step.ensures((trace[i], items[i].0, items[i].1), #[trigger] trace[i + 1])
}

/// `end` is a possible result of folding `step` over `items` from `start`.
pub open spec fn folds_to<T, W, F: Fn(T, T, W) -> T>(step: F, start: T, items: Seq<(T, W)>, end: T) -> bool {
    exists|trace: Seq<T>| #[trigger] fold_trace(step, start, items, trace) && trace.last() == end
}

/// The kernel's extent and the image's size keep every position that the
/// convolution computes within `i32`, as the convolution's arithmetic demands,
/// and the buffers cover what it reads.
pub open spec fn convolvable<T, W>(image: &RawImage<T>, kernel: Seq<Vec<W>>) -> bool {
    let w = image.x_size as int;
    let h = image.y_size as int;
    let k = kernel.len() as int;
    &&& w <= i32::MAX
    &&& h <= i32::MAX
    &&& k <= i32::MAX
    &&& w * h <= i32::MAX + 1
    &&& (w > 0 && h > 0 && k > 0) ==> w + k - 2 <= i32::MAX && h + k - 2 <= i32::MAX
    &&& (w * h > 0 && k > 0) ==> image.data.len() >= w * h
    &&& forall|r: int| 0 <= r < k ==> #[trigger] kernel[r].len() >= k
}

/// Accumulates the taps of pixel `(x, y)`.
fn convolve_pixel<T: Copy, W: Copy, F: Fn(T, T, W) -> T>(
    image: &RawImage<T>,
    kernel: &[Vec<W>],
    x: u32,
    y: u32,
    zero: T,
    accumulate: &F,
) -> (acc: T)
    requires
        convolvable(image, kernel@),
        x < image.x_size,
        y < image.y_size,
        forall|a: T, s: T, wt: W| accumulate.requires((a, s, wt)),
    ensures
        folds_to(
            *accumulate,
            zero,
            tap_inputs(
                image.data@,
                kernel@,
                window_taps(
                    image.x_size as int,
                    image.y_size as int,
                    kernel@.len() as int,
                    x as int,
                    y as int,
                    kernel@.len() as int,
                ),
            ),
            acc,
        ),
{
    let ghost w = image.x_size as int;
    let ghost h = image.y_size as int;
    let k = kernel.len();
    let ghost ki = k as int;
    let half: i64 = (k / 2) as i64;
    let width = image.x_size as i64;
    let height = image.y_size as i64;
    let mut acc = zero;
    let ghost mut trace: Seq<T> = seq![zero];
    assert(tap_inputs(image.data@, kernel@, window_taps(w, h, ki, x as int, y as int, 0)) =~= Seq::<
        (T, W),
    >::empty());
    for ky in 0..k
        invariant
            convolvable(image, kernel@),
            k == kernel@.len(),
            ki == k,
            w == image.x_size,
            h == image.y_size,
            width == w,
            height == h,
            half == ki / 2,
            x < image.x_size,
            y < image.y_size,
            forall|a: T, s: T, wt: W| accumulate.requires((a, s, wt)),
            fold_trace(
                *accumulate,
                zero,
                tap_inputs(image.data@, kernel@, window_taps(w, h, ki, x as int, y as int, ky as int)),
                trace,
            ),
            trace.last() == acc,
    {
        let ghost window = window_taps(w, h, ki, x as int, y as int, ky as int);
        for kx in 0..k
            invariant
                convolvable(image, kernel@),
                k == kernel@.len(),
                ki == k,
                w == image.x_size,
                h == image.y_size,
                width == w,
                height == h,
                half == ki / 2,
                x < image.x_size,
                y < image.y_size,
                ky < k,
                window == window_taps(w, h, ki, x as int, y as int, ky as int),
                forall|a: T, s: T, wt: W| accumulate.requires((a, s, wt)),
                fold_trace(
                    *accumulate,
                    zero,
                    tap_inputs(
                        image.data@,
                        kernel@,
                        window + row_taps(w, h, ki, x as int, y as int, ky as int, kx as int),
                    ),
                    trace,
                ),
                trace.last() == acc,
        {
            let ghost before = window + row_taps(w, h, ki, x as int, y as int, ky as int, kx as int);
            let ix = x as i64 + kx as i64 - half;
            let iy = y as i64 + ky as i64 - half;
            if 0 <= ix && ix < width && 0 <= iy && iy < height {
                assert(iy * width + ix < w * h) by (nonlinear_arith)
                    requires
                        0 <= ix < width,
                        0 <= iy < height,
                        width == w,
                        height == h,
                ;
                assert(0 <= iy * width + ix) by (nonlinear_arith)
                    requires
                        0 <= ix,
                        0 <= iy,
                        0 <= width,
                ;
                let idx = (iy * width + ix) as usize;
                assert(kernel@[ky as int].len() >= k);
                let sample = image.data[idx];
                let weight = kernel[ky][kx];
                let next = accumulate(acc, sample, weight);
                proof {
                    let t = tap(w, ki, x as int, y as int, ky as int, kx as int);
                    assert(t == (idx as int, ky as int, kx as int));
                    let after = window + row_taps(w, h, ki, x as int, y as int, ky as int, kx + 1);
                    assert(after =~= before.push(t));
                    assert(tap_inputs(image.data@, kernel@, after) =~= tap_inputs(
                        image.data@,
                        kernel@,
                        before,
                    ).push((sample, weight)));
                    let items = tap_inputs(image.data@, kernel@, after);
                    let longer = trace.push(next);
                    assert forall|i: int| 0 <= i < items.len() implies (*accumulate).ensures(
                        (longer[i], items[i].0, items[i].1),
                        #[trigger] longer[i + 1],
                    ) by {
                        if i < items.len() - 1 {
                            assert(longer[i] == trace[i]);
                            assert(longer[i + 1] == trace[i + 1]);
                        }
                    }
                    trace = longer;
                }
                acc = next;
            } else {
                assert(row_taps(w, h, ki, x as int, y as int, ky as int, kx + 1) == row_taps(
                    w,
                    h,
                    ki,
                    x as int,
                    y as int,
                    ky as int,
                    kx as int,
                ));
            }
        }
        assert(window_taps(w, h, ki, x as int, y as int, ky + 1) == window + row_taps(
            w,
            h,
            ki,
            x as int,
            y as int,
            ky as int,
            ki,
        ));
    }
    assert(fold_trace(
        *accumulate,
        zero,
        tap_inputs(image.data@, kernel@, window_taps(w, h, ki, x as int, y as int, ki)),
        trace,
    ));
    acc
}

/// The output of pixel `(x, y)` is `finish` applied to a possible fold of
/// `accumulate` from `zero` over the pixel's in-image taps.
pub open spec fn convolved_pixel<T, W, F: Fn(T, T, W) -> T, G: Fn(T) -> T>(
    samples: Seq<T>,
    width: int,
    height: int,
    kernel: Seq<Vec<W>>,
    zero: T,
    accumulate: F,
    finish: G,
    x: int,
    y: int,
    out: T,
) -> bool {
    exists|acc: T|
        #[trigger] folds_to(
            accumulate,
            zero,
            tap_inputs(samples, kernel, window_taps(width, height, kernel.len() as int, x, y, kernel.len() as int)),
            acc,
        ) && finish.ensures((acc,), out)
}

/// Convolves the image, read as one sample per pixel, with a square kernel
/// centred on each pixel (offset `kernel.len() / 2`). For every pixel the
/// in-image taps are visited row by row, left to right; each is folded into
/// an accumulator that starts at `zero` with `accumulate(acc, sample,
/// weight)`, and `finish` turns the accumulator into the output sample.
/// The result is single-channel with the size of the input.
pub fn apply_kernel<T: Copy, W: Copy, F: Fn(T, T, W) -> T, G: Fn(T) -> T>(
    image: &RawImage<T>,
    kernel: &[Vec<W>],
    zero: T,
    accumulate: F,
    finish: G,
) -> (out: RawImage<T>)
    requires
        convolvable(image, kernel@),
        forall|a: T, s: T, wt: W| accumulate.requires((a, s, wt)),
        forall|a: T| finish.requires((a,)),
    ensures
        out.x_size == image.x_size,
        out.y_size == image.y_size,
        out.channels == 1,
        out.data.len() == image.x_size * image.y_size,
        forall|x: int, y: int|
            0 <= x < image.x_size && 0 <= y < image.y_size ==> convolved_pixel(
                image.data@,
                image.x_size as int,
                image.y_size as int,
                kernel@,
                zero,
                accumulate,
                finish,
                x,
                y,
                #[trigger] out.data[y * image.x_size + x],
            ),
{
    let ghost w = image.x_size as int;
    let ghost h = image.y_size as int;
    let mut new_data: Vec<T> = Vec::new();
    for y in 0..image.y_size
        invariant
            convolvable(image, kernel@),
            w == image.x_size,
            h == image.y_size,
            forall|a: T, s: T, wt: W| accumulate.requires((a, s, wt)),
            forall|a: T| finish.requires((a,)),
            new_data.len() == y * w,
            forall|xx: int, yy: int|
                0 <= xx < w && 0 <= yy < y ==> convolved_pixel(
                    image.data@,
                    w,
                    h,
                    kernel@,
                    zero,
                    accumulate,
                    finish,
                    xx,
                    yy,
                    #[trigger] new_data@[yy * w + xx],
                ),
    {
        for x in 0..image.x_size
            invariant
                convolvable(image, kernel@),
                w == image.x_size,
                h == image.y_size,
                y < h,
                forall|a: T, s: T, wt: W| accumulate.requires((a, s, wt)),
                forall|a: T| finish.requires((a,)),
                new_data.len() == y * w + x,
                forall|xx: int, yy: int|
                    (0 <= xx < w && 0 <= yy < y) || (0 <= xx < x && yy == y) ==> convolved_pixel(
                        image.data@,
                        w,
                        h,
                        kernel@,
                        zero,
                        accumulate,
                        finish,
                        xx,
                        yy,
                        #[trigger] new_data@[yy * w + xx],
                    ),
        {
            let acc = convolve_pixel(image, kernel, x, y, zero, &accumulate);
            let value = finish(acc);
            let ghost before = new_data@;
            new_data.push(value);
            proof {
                assert forall|xx: int, yy: int|
                    (0 <= xx < w && 0 <= yy < y) || (0 <= xx < x + 1 && yy == y) implies convolved_pixel(
                    image.data@,
                    w,
                    h,
                    kernel@,
                    zero,
                    accumulate,
                    finish,
                    xx,
                    yy,
                    #[trigger] new_data@[yy * w + xx],
                ) by {
                    if xx == x && yy == y {
                        assert(new_data@[yy * w + xx] == value);
                    } else {
                        assert(yy * w + xx < y * w + x) by (nonlinear_arith)
                            requires
                                (0 <= xx < w && 0 <= yy < y) || (0 <= xx < x && yy == y),
                        ;
                        assert(0 <= yy * w + xx) by (nonlinear_arith)
                            requires
                                0 <= xx,
                                0 <= yy,
                                0 <= w,
                        ;
                        assert(new_data@[yy * w + xx] == before[yy * w + xx]);
                    }
                }
            }
        }
        assert(y * w + w == (y + 1) * w) by (nonlinear_arith);
    }
    assert(h * w == w * h) by (nonlinear_arith);
    RawImage { data: new_data, x_size: image.x_size, y_size: image.y_size, channels: 1 }
}

proof fn lemma_row_taps_shape(w: int, h: int, k: int, x: int, y: int, ky: int, n: int)
    ensures
        forall|i: int|
            0 <= i < row_taps(w, h, k, x, y, ky, n).len() ==> {
                let t = #[trigger] row_taps(w, h, k, x, y, ky, n)[i];
                &&& t.1 == ky
                &&& 0 <= t.2 < n
                &&& tap_in_image(w, h, k, x, y, ky, t.2)
                &&& t == tap(w, k, x, y, ky, t.2)
            },
        forall|i: int, j: int|
            0 <= i < j < row_taps(w, h, k, x, y, ky, n).len() ==> (#[trigger] row_taps(
                w,
                h,
                k,
                x,
                y,
                ky,
                n,
            )[i]).2 < (#[trigger] row_taps(w, h, k, x, y, ky, n)[j]).2,
        forall|kx: int|
            0 <= kx < n && tap_in_image(w, h, k, x, y, ky, kx) ==> exists|i: int|
                0 <= i < row_taps(w, h, k, x, y, ky, n).len() && #[trigger] row_taps(
                    w,
                    h,
                    k,
                    x,
                    y,
                    ky,
                    n,
                )[i] == tap(w, k, x, y, ky, kx),
    decreases n,
{
    if n > 0 {
        lemma_row_taps_shape(w, h, k, x, y, ky, n - 1);
        let prev = row_taps(w, h, k, x, y, ky, n - 1);
        let cur = row_taps(w, h, k, x, y, ky, n);
        assert forall|kx: int| 0 <= kx < n && tap_in_image(w, h, k, x, y, ky, kx) implies exists|i: int|
            0 <= i < cur.len() && #[trigger] cur[i] == tap(w, k, x, y, ky, kx) by {
            if kx == n - 1 {
                assert(cur[cur.len() - 1] == tap(w, k, x, y, ky, kx));
            } else {
                let i = choose|i: int| 0 <= i < prev.len() && #[trigger] prev[i] == tap(w, k, x, y, ky, kx);
                assert(cur[i] == prev[i]);
            }
        }
    }
}

proof fn lemma_window_taps_shape(w: int, h: int, k: int, x: int, y: int, rows: int)
    ensures
        forall|i: int|
            0 <= i < window_taps(w, h, k, x, y, rows).len() ==> {
                let t = #[trigger] window_taps(w, h, k, x, y, rows)[i];
                &&& 0 <= t.1 < rows
                &&& 0 <= t.2 < k
                &&& tap_in_image(w, h, k, x, y, t.1, t.2)
                &&& t == tap(w, k, x, y, t.1, t.2)
            },
        forall|i: int, j: int|
            0 <= i < j < window_taps(w, h, k, x, y, rows).len() ==> {
                let a = #[trigger] window_taps(w, h, k, x, y, rows)[i];
                let b = #[trigger] window_taps(w, h, k, x, y, rows)[j];
                a.1 < b.1 || (a.1 == b.1 && a.2 < b.2)
            },
        forall|ky: int, kx: int|
            0 <= ky < rows && 0 <= kx < k && tap_in_image(w, h, k, x, y, ky, kx) ==> exists|i: int|
                0 <= i < window_taps(w, h, k, x, y, rows).len() && #[trigger] window_taps(
                    w,
                    h,
                    k,
                    x,
                    y,
                    rows,
                )[i] == tap(w, k, x, y, ky, kx),
    decreases rows,
{
    if rows > 0 {
        lemma_window_taps_shape(w, h, k, x, y, rows - 1);
        lemma_row_taps_shape(w, h, k, x, y, rows - 1, k);
        let prev = window_taps(w, h, k, x, y, rows - 1);
        let row = row_taps(w, h, k, x, y, rows - 1, k);
        let cur = window_taps(w, h, k, x, y, rows);
        assert(cur == prev + row);
        assert forall|i: int| 0 <= i < cur.len() implies {
            let t = #[trigger] cur[i];
            &&& 0 <= t.1 < rows
            &&& 0 <= t.2 < k
            &&& tap_in_image(w, h, k, x, y, t.1, t.2)
            &&& t == tap(w, k, x, y, t.1, t.2)
        } by {
            if i < prev.len() {
                assert(cur[i] == prev[i]);
            } else {
                assert(cur[i] == row[i - prev.len()]);
            }
        }
        assert forall|i: int, j: int| 0 <= i < j < cur.len() implies {
            let a = #[trigger] cur[i];
            let b = #[trigger] cur[j];
            a.1 < b.1 || (a.1 == b.1 && a.2 < b.2)
        } by {
            if j < prev.len() {
                assert(cur[i] == prev[i]);
                assert(cur[j] == prev[j]);
            } else if i < prev.len() {
                assert(cur[i] == prev[i]);
                assert(cur[j] == row[j - prev.len()]);
            } else {
                assert(cur[i] == row[i - prev.len()]);
                assert(cur[j] == row[j - prev.len()]);
            }
        }
        assert forall|ky: int, kx: int|
            0 <= ky < rows && 0 <= kx < k && tap_in_image(w, h, k, x, y, ky, kx) implies exists|i: int|
            0 <= i < cur.len() && #[trigger] cur[i] == tap(w, k, x, y, ky, kx) by {
            if ky < rows - 1 {
                let i = choose|i: int| 0 <= i < prev.len() && #[trigger] prev[i] == tap(w, k, x, y, ky, kx);
                assert(cur[i] == prev[i]);
            } else {
                let i = choose|i: int| 0 <= i < row.len() && #[trigger] row[i] == tap(w, k, x, y, ky, kx);
                assert(cur[prev.len() + i] == row[i]);
            }
        }
    }
}

/// The taps of pixel `(x, y)` under a `k` x `k` kernel are exactly the
/// kernel cells `(ky, kx)` whose target `(x + kx - k/2, y + ky - k/2)` lies
/// inside the `w` x `h` image, each paired with that target's row-major
/// position `(y + ky - k/2) * w + (x + kx - k/2)`, visited row by row and
/// left to right within a row.
pub proof fn law_taps_are_the_in_image_cells(w: int, h: int, k: int, x: int, y: int)
    requires
        k >= 0,
    ensures
        forall|p: int, ky: int, kx: int|
            #[trigger] window_taps(w, h, k, x, y, k).contains((p, ky, kx)) <==> (0 <= ky < k && 0 <= kx
                < k && 0 <= x + kx - k / 2 < w && 0 <= y + ky - k / 2 < h && p == (y + ky - k / 2) * w
                + (x + kx - k / 2)),
        forall|i: int, j: int|
            0 <= i < j < window_taps(w, h, k, x, y, k).len() ==> {
                let a = #[trigger] window_taps(w, h, k, x, y, k)[i];
                let b = #[trigger] window_taps(w, h, k, x, y, k)[j];
                a.1 < b.1 || (a.1 == b.1 && a.2 < b.2)
            },
{
    lemma_window_taps_shape(w, h, k, x, y, k);
    let taps = window_taps(w, h, k, x, y, k);
    assert forall|p: int, ky: int, kx: int|
        #[trigger] taps.contains((p, ky, kx)) <==> (0 <= ky < k && 0 <= kx < k && 0 <= x + kx - k / 2 < w
            && 0 <= y + ky - k / 2 < h && p == (y + ky - k / 2) * w + (x + kx - k / 2)) by {
        if taps.contains((p, ky, kx)) {
            let i = choose|i: int| 0 <= i < taps.len() && taps[i] == (p, ky, kx);
            assert(taps[i] == (p, ky, kx));
        }
        if 0 <= ky < k && 0 <= kx < k && 0 <= x + kx - k / 2 < w && 0 <= y + ky - k / 2 < h && p == (y
            + ky - k / 2) * w + (x + kx - k / 2) {
            assert(tap_in_image(w, h, k, x, y, ky, kx));
            let i = choose|i: int| 0 <= i < taps.len() && #[trigger] taps[i] == tap(w, k, x, y, ky, kx);
            assert(taps[i] == (p, ky, kx));
        }
    }
}

/// A one-cell kernel reads exactly the pixel itself, at every pixel of any
/// image: the convolution applies `accumulate` once to the pixel's sample.
pub proof fn law_single_cell_kernel_reads_the_pixel(w: int, h: int, x: int, y: int)
    requires
        0 <= x < w,
        0 <= y < h,
    ensures
        window_taps(w, h, 1, x, y, 1) == seq![(y * w + x, 0int, 0int)],
{
    assert(row_taps(w, h, 1, x, y, 0, 0) == Seq::<(int, int, int)>::empty());
    assert(window_taps(w, h, 1, x, y, 0) == Seq::<(int, int, int)>::empty());
    assert(window_taps(w, h, 1, x, y, 1) =~= seq![(y * w + x, 0int, 0int)]);
}

} // verus!
