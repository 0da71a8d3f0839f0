//! The image type: a flat, row-major buffer of interleaved samples, and the
//! pixel-level reads and writes on it.
use crate::layout::{lemma_index_in_range, lemma_index_injective, sample_count, sample_index};
use vstd::prelude::*;

verus! {

/// An image as a flat buffer of samples. Pixel `(x, y)` occupies the
/// `channels` consecutive samples that start at `(y * x_size + x) * channels`.
/// The sample type is left open: the editing pipeline stores intensities in
/// `[0, 1]`, the codecs work on bytes.
#[derive(Debug, PartialEq)]
pub struct RawImage<T> {
    pub data: Vec<T>,
    pub x_size: u32,
    pub y_size: u32,
    pub channels: usize,
}

/// One pixel with four components. Single-channel images report their one
/// sample in `r`, `g` and `b`.
#[derive(Debug, PartialEq)]
pub struct Pixel<T> {
    pub r: T,
    pub g: T,
    pub b: T,
    pub a: T,
}

/// Mathematical model of an image.
pub struct Raster<T> {
    pub width: nat,
    pub height: nat,
    pub channels: nat,
    pub samples: Seq<T>,
}

impl<T> View for RawImage<T> {
    type V = Raster<T>;

    open spec fn view(&self) -> Raster<T> {
        Raster {
            width: self.x_size as nat,
            height: self.y_size as nat,
            channels: self.channels as nat,
            samples: self.data@,
        }
    }
}

/// The sample layouts that the pixel operations understand: gray and RGB.
pub open spec fn supported_channels(channels: nat) -> bool {
    channels == 1 || channels == 3
}

/// The largest sample position that pixel access can compute.
pub open spec fn max_position() -> int {
    u32::MAX as int
}

impl<T> Raster<T> {
    /// Position of sample `c` of pixel `(x, y)`.
    pub open spec fn index(self, x: int, y: int, c: int) -> int {
        sample_index(self.width as int, self.channels as int, x, y, c)
    }

    /// Sample `c` of pixel `(x, y)`.
    pub open spec fn sample(self, x: int, y: int, c: int) -> T {
        self.samples[self.index(x, y, c)]
    }

    /// Number of samples that `width`, `height` and `channels` call for.
    pub open spec fn expected_len(self) -> int {
        sample_count(self.width as int, self.height as int, self.channels as int)
    }

    /// A gray or RGB image whose buffer holds exactly one sample per channel and pixel.
    pub open spec fn well_formed(self) -> bool {
        &&& supported_channels(self.channels)
        &&& self.samples.len() == self.expected_len()
    }

    /// Every sample position of the image can be computed in `u32`.
    pub open spec fn positions_fit_u32(self) -> bool {
        self.expected_len() <= max_position() + 1
    }

    /// `(x, y)` lies inside the image.
    pub open spec fn contains(self, x: int, y: int) -> bool {
        0 <= x < self.width && 0 <= y < self.height
    }

    /// Pixel access at `(x, y)` neither overflows the `u32` position nor reads
    /// past the buffer.
    pub open spec fn addressable(self, x: int, y: int) -> bool {
        supported_channels(self.channels) ==> {
            let last = self.index(x, y, self.channels - 1);
            &&& last <= max_position()
            &&& last < self.samples.len()
        }
    }

    /// The pixel that access reports at `(x, y)`: the samples of a gray or
    /// RGB pixel with opacity `one`, or all `zero` for other layouts.
    pub open spec fn pixel_at(self, x: int, y: int, zero: T, one: T) -> Pixel<T> {
        if self.channels == 1 {
            let v = self.sample(x, y, 0);
            Pixel { r: v, g: v, b: v, a: one }
        } else if self.channels == 3 {
            Pixel { r: self.sample(x, y, 0), g: self.sample(x, y, 1), b: self.sample(x, y, 2), a: one }
        } else {
            Pixel { r: zero, g: zero, b: zero, a: zero }
        }
    }

    /// The image after writing pixel `p` at `(x, y)`: a gray image takes `p.r`,
    /// an RGB image takes `p.r`, `p.g`, `p.b`; other layouts are left as they are.
    pub open spec fn with_pixel(self, x: int, y: int, p: Pixel<T>) -> Raster<T> {
        let samples = if self.channels == 1 {
            self.samples.update(self.index(x, y, 0), p.r)
        } else if self.channels == 3 {
            self.samples.update(self.index(x, y, 0), p.r).update(self.index(x, y, 1), p.g).update(
                self.index(x, y, 2),
                p.b,
            )
        } else {
            self.samples
        };
        Raster { samples, ..self }
    }
}

/// Whether `(x, y)` lies inside `image`.
pub fn is_valid_coord<T>(image: &RawImage<T>, x: u32, y: u32) -> (valid: bool)
    ensures
        valid == image@.contains(x as int, y as int),
{
    x < image.x_size && y < image.y_size
}

/// Computes the `u32` position of sample `c` of pixel `(x, y)` the way the
/// layout prescribes: `y * width * channels + x * channels + c`.
pub(crate) fn sample_position<T>(image: &RawImage<T>, x: u32, y: u32, c: u32) -> (pos: usize)
    requires
        supported_channels(image.channels as nat),
        c < image.channels,
        image@.index(x as int, y as int, image.channels - 1) <= max_position(),
    ensures
        pos == image@.index(x as int, y as int, c as int),
{
    let w = image.x_size;
    let ghost bound = image@.index(x as int, y as int, image.channels - 1);
    if image.channels == 1 {
        assert(bound == y * w + x) by (nonlinear_arith)
            requires
                bound == (y * w + x) * 1 + 0,
        ;
        let index = y * w + x;
        let ghost target = image@.index(x as int, y as int, c as int);
        assert(target == index) by (nonlinear_arith)
            requires
                c == 0,
                target == (y * w + x) * 1 + c,
                index == y * w + x,
        ;
        index as usize
    } else {
        assert(bound == y * w * 3 + x * 3 + 2) by (nonlinear_arith)
            requires
                bound == (y * w + x) * 3 + 2,
        ;
        assert(y * w <= bound) by (nonlinear_arith)
            requires
                bound == y * w * 3 + x * 3 + 2,
                0 <= y * w,
        ;
        let row_start = y * w * 3;
        let index = row_start + x * 3 + c;
        let ghost target = image@.index(x as int, y as int, c as int);
        assert(target == index) by (nonlinear_arith)
            requires
                target == (y * w + x) * 3 + c,
                row_start == y * w * 3,
                index == row_start + x * 3 + c,
        ;
        index as usize
    }
}

/// Reads pixel `(x, y)`. A gray pixel reports its sample in `r`, `g` and `b`;
/// both gray and RGB pixels report opacity `one`. Layouts other than gray and
/// RGB report a pixel whose four components are `zero`.
pub fn access_pixel_at_coord<T: Copy>(image: &RawImage<T>, x: u32, y: u32, zero: T, one: T) -> (pixel:
    Pixel<T>)
    requires
        image@.addressable(x as int, y as int),
    ensures
        pixel == image@.pixel_at(x as int, y as int, zero, one),
{
    if image.channels == 1 {
        let index = sample_position(image, x, y, 0);
        let v = image.data[index];
        Pixel { r: v, g: v, b: v, a: one }
    } else if image.channels == 3 {
        let r_index = sample_position(image, x, y, 0);
        let g_index = sample_position(image, x, y, 1);
        let b_index = sample_position(image, x, y, 2);
        Pixel { r: image.data[r_index], g: image.data[g_index], b: image.data[b_index], a: one }
    } else {
        Pixel { r: zero, g: zero, b: zero, a: zero }
    }
}

/// Writes pixel `(x, y)`: a gray image stores `pixel.r`, an RGB image stores
/// `pixel.r`, `pixel.g` and `pixel.b`; other layouts are left unchanged.
pub fn change_pixel_at_coord<T: Copy>(image: &mut RawImage<T>, x: u32, y: u32, pixel: Pixel<T>)
    requires
        old(image)@.contains(x as int, y as int),
        old(image)@.addressable(x as int, y as int),
    ensures
        final(image)@ == old(image)@.with_pixel(x as int, y as int, pixel),
{
    if image.channels == 1 {
        let index = sample_position(image, x, y, 0);
        image.data.set(index, pixel.r);
    } else if image.channels == 3 {
        let r_index = sample_position(image, x, y, 0);
        let g_index = sample_position(image, x, y, 1);
        let b_index = sample_position(image, x, y, 2);
        image.data.set(r_index, pixel.r);
        image.data.set(g_index, pixel.g);
        image.data.set(b_index, pixel.b);
    }
}

/// A sample-for-sample copy of `image`.
pub fn clone_image<T: Copy>(image: &RawImage<T>) -> (copy: RawImage<T>)
    ensures
        copy@ == image@,
{
    let mut data: Vec<T> = Vec::with_capacity(image.data.len());
    let n = image.data.len();
    for i in 0..n
        invariant
            n == image.data.len(),
            data@ == image.data@.take(i as int),
    {
        data.push(image.data[i]);
        assert(image.data@.take(i + 1) == image.data@.take(i as int).push(image.data@[i as int]));
    }
    assert(image.data@.take(n as int) == image.data@);
    RawImage { data, x_size: image.x_size, y_size: image.y_size, channels: image.channels }
}

impl<T: Copy> Clone for RawImage<T> {
    fn clone(&self) -> (copy: Self)
        ensures
            copy@ == self@,
    {
        clone_image(self)
    }
}

/// Combines two images of the same shape sample by sample: sample `i` of the
/// result is `op(lhs[i], rhs[i])`. The result has the shape of `lhs`.
pub fn combine_images<T: Copy, F: Fn(T, T) -> T>(lhs: RawImage<T>, rhs: RawImage<T>, op: F) -> (out:
    RawImage<T>)
    requires
        lhs.x_size == rhs.x_size,
        lhs.y_size == rhs.y_size,
        lhs.channels == rhs.channels,
        lhs.data.len() <= rhs.data.len(),
        forall|a: T, b: T| op.requires((a, b)),
    ensures
        out.x_size == lhs.x_size,
        out.y_size == lhs.y_size,
        out.channels == lhs.channels,
        out.data.len() == lhs.data.len(),
        forall|i: int|
            0 <= i < lhs.data.len() ==> op.ensures((lhs.data[i], rhs.data[i]), #[trigger] out.data[i]),
{
    let mut data: Vec<T> = Vec::new();
    let n = lhs.data.len();
    for i in 0..n
        invariant
            n == lhs.data.len(),
            n <= rhs.data.len(),
            forall|a: T, b: T| op.requires((a, b)),
            data.len() == i,
            forall|j: int| 0 <= j < i ==> op.ensures((lhs.data[j], rhs.data[j]), #[trigger] data[j]),
    {
        let v = op(lhs.data[i], rhs.data[i]);
        data.push(v);
    }
    RawImage { data, x_size: lhs.x_size, y_size: lhs.y_size, channels: lhs.channels }
}

/// Reading back a pixel that was just written gives the written components
/// (a gray image reports its one stored component three times) with full
/// opacity, and every other pixel of the image reads as before.
pub proof fn law_read_back_written_pixel<T>(
    image: Raster<T>,
    x: int,
    y: int,
    written: Pixel<T>,
    zero: T,
    one: T,
)
    requires
        image.contains(x, y),
        image.addressable(x, y),
    ensures
        image.with_pixel(x, y, written).pixel_at(x, y, zero, one) == (if image.channels == 1 {
            Pixel { r: written.r, g: written.r, b: written.r, a: one }
        } else if image.channels == 3 {
            Pixel { r: written.r, g: written.g, b: written.b, a: one }
        } else {
            Pixel { r: zero, g: zero, b: zero, a: zero }
        }),
        forall|x2: int, y2: int|
            image.contains(x2, y2) && image.addressable(x2, y2) && !(x2 == x && y2 == y)
                ==> #[trigger] image.with_pixel(
                x,
                y,
                written,
            ).pixel_at(x2, y2, zero, one) == image.pixel_at(x2, y2, zero, one),
{
    let w = image.width as int;
    let ch = image.channels as int;
    if ch == 3 {
        assert(image.index(x, y, 0) != image.index(x, y, 1)) by {
            if image.index(x, y, 0) == image.index(x, y, 1) {
                lemma_index_injective(w, ch, x, y, 0, x, y, 1);
            }
        }
        assert(image.index(x, y, 0) != image.index(x, y, 2)) by {
            if image.index(x, y, 0) == image.index(x, y, 2) {
                lemma_index_injective(w, ch, x, y, 0, x, y, 2);
            }
        }
        assert(image.index(x, y, 1) != image.index(x, y, 2)) by {
            if image.index(x, y, 1) == image.index(x, y, 2) {
                lemma_index_injective(w, ch, x, y, 1, x, y, 2);
            }
        }
    }
    assert forall|x2: int, y2: int|
        image.contains(x2, y2) && image.addressable(x2, y2) && !(x2 == x && y2 == y) implies #[trigger] image.with_pixel(
        x,
        y,
        written,
    ).pixel_at(x2, y2, zero, one) == image.pixel_at(x2, y2, zero, one) by {
        if supported_channels(image.channels) {
            assert forall|c1: int, c2: int| 0 <= c1 < ch && 0 <= c2 < ch implies image.index(x2, y2, c1)
                != image.index(x, y, c2) by {
                if image.index(x2, y2, c1) == image.index(x, y, c2) {
                    lemma_index_injective(w, ch, x2, y2, c1, x, y, c2);
                }
            }
            let after = image.with_pixel(x, y, written);
            let h = image.height as int;
            lemma_index_in_range(w, h, ch, x2, y2, 0);
            lemma_index_in_range(w, h, ch, x2, y2, ch - 1);
            lemma_index_in_range(w, h, ch, x, y, 0);
            lemma_index_in_range(w, h, ch, x, y, ch - 1);
            if ch == 3 {
                lemma_index_in_range(w, h, ch, x2, y2, 1);
                lemma_index_in_range(w, h, ch, x, y, 1);
            }
            assert(image.index(x2, y2, 0) != image.index(x, y, 0));
            assert(after.sample(x2, y2, 0) == image.sample(x2, y2, 0));
            if ch == 3 {
                assert(image.index(x2, y2, 0) != image.index(x, y, 1));
                assert(image.index(x2, y2, 0) != image.index(x, y, 2));
                assert(image.index(x2, y2, 1) != image.index(x, y, 0));
                assert(image.index(x2, y2, 1) != image.index(x, y, 1));
                assert(image.index(x2, y2, 1) != image.index(x, y, 2));
                assert(image.index(x2, y2, 2) != image.index(x, y, 0));
                assert(image.index(x2, y2, 2) != image.index(x, y, 1));
                assert(image.index(x2, y2, 2) != image.index(x, y, 2));
                assert(after.sample(x2, y2, 1) == image.sample(x2, y2, 1));
                assert(after.sample(x2, y2, 2) == image.sample(x2, y2, 2));
            }
        }
    }
}

/// Pixel `(x, y)` of a gray image is sample `y * width + x`; of an RGB image,
/// samples `3 * (y * width + x)`, `+ 1` and `+ 2` are its red, green and blue.
/// Access reads exactly those samples and writing a pixel stores exactly
/// into them.
pub proof fn law_pixel_positions<T>(image: Raster<T>, x: int, y: int, p: Pixel<T>, zero: T, one: T)
    requires
        image.contains(x, y),
        image.addressable(x, y),
    ensures
        image.channels == 1 ==> image.pixel_at(x, y, zero, one).r == image.samples[y * image.width + x]
            && image.pixel_at(x, y, zero, one).g == image.samples[y * image.width + x]
            && image.pixel_at(x, y, zero, one).b == image.samples[y * image.width + x]
            && image.pixel_at(x, y, zero, one).a == one && image.with_pixel(x, y, p).samples
            == image.samples.update(y * image.width + x, p.r),
        image.channels == 3 ==> image.pixel_at(x, y, zero, one).r == image.samples[3 * (y
            * image.width + x)] && image.pixel_at(x, y, zero, one).g == image.samples[3 * (y
            * image.width + x) + 1] && image.pixel_at(x, y, zero, one).b == image.samples[3 * (y
            * image.width + x) + 2] && image.pixel_at(x, y, zero, one).a == one && image.with_pixel(
            x,
            y,
            p,
        ).samples == image.samples.update(3 * (y * image.width + x), p.r).update(
            3 * (y * image.width + x) + 1,
            p.g,
        ).update(3 * (y * image.width + x) + 2, p.b),
        !(image.channels == 1 || image.channels == 3) ==> image.pixel_at(x, y, zero, one).r == zero
            && image.pixel_at(x, y, zero, one).g == zero && image.pixel_at(x, y, zero, one).b == zero
            && image.pixel_at(x, y, zero, one).a == zero && image.with_pixel(x, y, p).samples
            == image.samples,
        image.with_pixel(x, y, p).width == image.width,
        image.with_pixel(x, y, p).height == image.height,
        image.with_pixel(x, y, p).channels == image.channels,
{
    let i = y * image.width + x;
    assert(i * 1 + 0 == i);
    assert(i * 3 + 0 == 3 * i);
}

/// Access at `(x, y)` is possible exactly when, for a gray or RGB image, the
/// position of the pixel's last sample is at most `u32::MAX` and inside the buffer.
pub proof fn law_addressable_pixels<T>(image: Raster<T>, x: int, y: int)
    ensures
        image.addressable(x, y) <==> ((image.channels == 1 || image.channels == 3) ==> ((y
            * image.width + x) * image.channels + image.channels - 1 <= u32::MAX && (y * image.width
            + x) * image.channels + image.channels - 1 < image.samples.len())),
{
}

/// The model of an image is its width, height, channel count and samples,
/// field for field.
pub proof fn law_model_of_image<T>(image: RawImage<T>)
    ensures
        image@.width == image.x_size,
        image@.height == image.y_size,
        image@.channels == image.channels,
        image@.samples == image.data@,
{
}

} // verus!
