//! Geometric and color transforms: quarter-turn rotations and the reduction of
//! RGB images to one channel.
use crate::layout::{
    lemma_count_nonnegative, lemma_index_in_range, lemma_next_pixel, lemma_remap_at,
    lemma_remap_ext, lemma_remap_identity, remap, sample_count, sample_index,
};
use crate::raster::{clone_image, supported_channels, RawImage, Raster};
use crate::text::{decimal, push_decimal};
use vstd::string::StringExecFns;
use vstd::prelude::*;

verus! {

/// The image turned a quarter clockwise: it is `height` wide and `width`
/// tall, and its pixel `(x, y)` is the source pixel `(y, height - 1 - x)`.
/// Layouts other than gray and RGB turn into an empty buffer.
pub open spec fn rotated90<T>(m: Raster<T>) -> Raster<T> {
    Raster {
        width: m.height,
        height: m.width,
        channels: m.channels,
        samples: if supported_channels(m.channels) {
            remap(
                m.height as int,
                m.width as int,
                m.channels as int,
                |x: int, y: int, c: int| m.sample(y, m.height - 1 - x, c),
            )
        } else {
            Seq::empty()
        },
    }
}

/// The image turned upside down: its pixel `(x, y)` is the source pixel
/// `(width - 1 - x, height - 1 - y)`.
pub open spec fn rotated180<T>(m: Raster<T>) -> Raster<T> {
    Raster {
        width: m.width,
        height: m.height,
        channels: m.channels,
        samples: if supported_channels(m.channels) {
            remap(
                m.width as int,
                m.height as int,
                m.channels as int,
                |x: int, y: int, c: int| m.sample(m.width - 1 - x, m.height - 1 - y, c),
            )
        } else {
            Seq::empty()
        },
    }
}

/// The image turned three quarters clockwise (a quarter counter-clockwise):
/// it is `height` wide and `width` tall, and its pixel `(x, y)` is the source
/// pixel `(width - 1 - y, x)`.
pub open spec fn rotated270<T>(m: Raster<T>) -> Raster<T> {
    Raster {
        width: m.height,
        height: m.width,
        channels: m.channels,
        samples: if supported_channels(m.channels) {
            remap(
                m.height as int,
                m.width as int,
                m.channels as int,
                |x: int, y: int, c: int| m.sample(m.width - 1 - y, x, c),
            )
        } else {
            Seq::empty()
        },
    }
}

/// Rotation can read every source pixel: the buffer covers the image and
/// every position fits in `u32`.
pub open spec fn rotatable<T>(m: Raster<T>) -> bool {
    supported_channels(m.channels) ==> {
        &&& m.expected_len() <= m.samples.len()
        &&& m.positions_fit_u32()
    }
}

/// The rotation keeps the number of samples: gray and RGB buffers hold
/// exactly one sample per channel and pixel, other buffers are empty.
pub open spec fn length_preserved_by_rotation<T>(m: Raster<T>) -> bool {
    if supported_channels(m.channels) {
        m.samples.len() == m.expected_len()
    } else {
        m.samples.len() == 0
    }
}

enum Turn {
    Quarter,
    Half,
    ThreeQuarters,
}

spec fn turned<T>(m: Raster<T>, t: Turn) -> Raster<T> {
    match t {
        Turn::Quarter => rotated90(m),
        Turn::Half => rotated180(m),
        Turn::ThreeQuarters => rotated270(m),
    }
}

spec fn turned_source<T>(m: Raster<T>, t: Turn, x: int, y: int) -> (int, int) {
    match t {
        Turn::Quarter => (y, m.height - 1 - x),
        Turn::Half => (m.width - 1 - x, m.height - 1 - y),
        Turn::ThreeQuarters => (m.width - 1 - y, x),
    }
}

proof fn lemma_turned_at<T>(m: Raster<T>, t: Turn, x: int, y: int, c: int)
    requires
        supported_channels(m.channels),
        0 <= x < turned(m, t).width,
        0 <= y < turned(m, t).height,
        0 <= c < m.channels,
    ensures
        m.contains(turned_source(m, t, x, y).0, turned_source(m, t, x, y).1),
        0 <= sample_index(turned(m, t).width as int, m.channels as int, x, y, c) < turned(
            m,
            t,
        ).samples.len(),
        turned(m, t).samples[sample_index(turned(m, t).width as int, m.channels as int, x, y, c)]
            == m.sample(turned_source(m, t, x, y).0, turned_source(m, t, x, y).1, c),
{
    let w = m.width as int;
    let h = m.height as int;
    let ch = m.channels as int;
    match t {
        Turn::Quarter => {
            lemma_remap_at(h, w, ch, |x: int, y: int, c: int| m.sample(y, m.height - 1 - x, c), x, y, c);
        },
        Turn::Half => {
            lemma_remap_at(
                w,
                h,
                ch,
                |x: int, y: int, c: int| m.sample(m.width - 1 - x, m.height - 1 - y, c),
                x,
                y,
                c,
            );
        },
        Turn::ThreeQuarters => {
            lemma_remap_at(h, w, ch, |x: int, y: int, c: int| m.sample(m.width - 1 - y, x, c), x, y, c);
        },
    }
}

/// Appends the samples of pixel `(x, y)` of `image`.
fn push_pixel<T: Copy>(out: &mut Vec<T>, image: &RawImage<T>, x: u32, y: u32)
    requires
        supported_channels(image.channels as nat),
        image@.contains(x as int, y as int),
        rotatable(image@),
    ensures
        final(out)@.len() == old(out)@.len() + image.channels,
        forall|j: int| 0 <= j < old(out)@.len() ==> final(out)@[j] == old(out)@[j],
        forall|c: int|
            0 <= c < image.channels ==> final(out)@[old(out)@.len() + c] == image@.sample(
                x as int,
                y as int,
                c,
            ),
{
    let ghost m = image@;
    proof {
        lemma_index_in_range(
            m.width as int,
            m.height as int,
            m.channels as int,
            x as int,
            y as int,
            m.channels - 1,
        );
    }
    if image.channels == 1 {
        let i = position_of(image, x, y, 0);
        out.push(image.data[i]);
    } else {
        proof {
            lemma_index_in_range(m.width as int, m.height as int, 3, x as int, y as int, 0);
            lemma_index_in_range(m.width as int, m.height as int, 3, x as int, y as int, 1);
        }
        let r = position_of(image, x, y, 0);
        let g = position_of(image, x, y, 1);
        let b = position_of(image, x, y, 2);
        out.push(image.data[r]);
        out.push(image.data[g]);
        out.push(image.data[b]);
    }
}

/// Position of sample `c` of pixel `(x, y)`, for an image whose positions fit in `u32`.
fn position_of<T>(image: &RawImage<T>, x: u32, y: u32, c: u32) -> (pos: usize)
    requires
        supported_channels(image.channels as nat),
        c < image.channels,
        image@.contains(x as int, y as int),
        rotatable(image@),
    ensures
        pos == image@.index(x as int, y as int, c as int),
        pos < image.data.len(),
{
    let ghost m = image@;
    proof {
        lemma_index_in_range(
            m.width as int,
            m.height as int,
            m.channels as int,
            x as int,
            y as int,
            m.channels - 1,
        );
        lemma_index_in_range(
            m.width as int,
            m.height as int,
            m.channels as int,
            x as int,
            y as int,
            c as int,
        );
    }
    crate::raster::sample_position(image, x, y, c)
}

/// Builds the turned image row by row, reading each output pixel from its
/// source pixel.
fn turn<T: Copy>(image: &RawImage<T>, t: Turn) -> (out: RawImage<T>)
    requires
        rotatable(image@),
    ensures
        out@ == turned(image@, t),
{
    let ghost m = image@;
    let ghost target = turned(m, t);
    let ghost ch = image.channels as int;
    let (new_width, new_height) = match t {
        Turn::Half => (image.x_size, image.y_size),
        _ => (image.y_size, image.x_size),
    };
    let ghost nw = new_width as int;
    let mut new_data: Vec<T> = Vec::with_capacity(image.data.len());
    let supported = image.channels == 1 || image.channels == 3;
    assert(sample_index(nw, ch, 0, 0, 0) == 0) by (nonlinear_arith);
    for y in 0..new_height
        invariant
            rotatable(m),
            m == image@,
            target == turned(m, t),
            ch == image.channels,
            supported == supported_channels(m.channels),
            nw == target.width,
            new_width == target.width,
            new_height == target.height,
            supported ==> new_data@.len() == sample_index(nw, ch, 0, y as int, 0),
            !supported ==> new_data@.len() == 0,
            forall|j: int| 0 <= j < new_data@.len() ==> new_data@[j] == target.samples[j],
    {
        proof {
            lemma_next_pixel(nw, ch, 0, y as int);
        }
        for x in 0..new_width
            invariant
                rotatable(m),
                m == image@,
                target == turned(m, t),
                ch == image.channels,
                supported == supported_channels(m.channels),
                nw == target.width,
                new_width == target.width,
                new_height == target.height,
                y < new_height,
                supported ==> new_data@.len() == sample_index(nw, ch, x as int, y as int, 0),
                !supported ==> new_data@.len() == 0,
                forall|j: int| 0 <= j < new_data@.len() ==> new_data@[j] == target.samples[j],
        {
            if supported {
                let (src_x, src_y) = match t {
                    Turn::Quarter => (y, image.y_size - x - 1),
                    Turn::Half => (image.x_size - x - 1, image.y_size - y - 1),
                    Turn::ThreeQuarters => (image.x_size - y - 1, x),
                };
                let ghost before = new_data@;
                let ghost k = before.len() as int;
                proof {
                    lemma_turned_at(m, t, x as int, y as int, 0);
                    assert(turned_source(m, t, x as int, y as int) == (src_x as int, src_y as int));
                }
                push_pixel(&mut new_data, image, src_x, src_y);
                proof {
                    lemma_next_pixel(nw, ch, x as int, y as int);
                    assert forall|j: int| 0 <= j < new_data@.len() implies new_data@[j]
                        == target.samples[j] by {
                        if j >= k {
                            let c = j - k;
                            lemma_turned_at(m, t, x as int, y as int, c);
                            assert(sample_index(nw, ch, x as int, y as int, c) == j);
                        }
                    }
                }
            }
        }
    }
    proof {
        if supported {
            let nh = target.height as int;
            assert(sample_index(nw, ch, 0, nh, 0) == sample_count(nw, nh, ch)) by (nonlinear_arith);
            lemma_count_nonnegative(nw, nh, ch);
        }
        assert(new_data@ =~= target.samples);
    }
    RawImage { data: new_data, x_size: new_width, y_size: new_height, channels: image.channels }
}

/// Turns the image a quarter clockwise.
pub fn rotate90<T: Copy>(image: &RawImage<T>) -> (rotated: RawImage<T>)
    requires
        rotatable(image@),
    ensures
        rotated@ == rotated90(image@),
{
    turn(image, Turn::Quarter)
}

/// Turns the image upside down. The result holds as many samples as the source.
pub fn rotate180<T: Copy>(image: &RawImage<T>) -> (rotated: RawImage<T>)
    requires
        rotatable(image@),
        length_preserved_by_rotation(image@),
    ensures
        rotated@ == rotated180(image@),
        rotated.data.len() == image.data.len(),
{
    let rotated = turn(image, Turn::Half);
    proof {
        lemma_count_nonnegative(image.x_size as int, image.y_size as int, image.channels as int);
    }
    rotated
}

/// Turns the image three quarters clockwise (a quarter counter-clockwise).
/// The result holds as many samples as the source.
pub fn rotate270<T: Copy>(image: &RawImage<T>) -> (rotated: RawImage<T>)
    requires
        rotatable(image@),
        length_preserved_by_rotation(image@),
    ensures
        rotated@ == rotated270(image@),
        rotated.data.len() == image.data.len(),
{
    let rotated = turn(image, Turn::ThreeQuarters);
    proof {
        lemma_count_nonnegative(image.x_size as int, image.y_size as int, image.channels as int);
    }
    rotated
}

/// Two quarter turns clockwise are a half turn.
pub proof fn law_two_quarter_turns_are_half_turn<T>(image: Raster<T>)
    ensures
        rotated90(rotated90(image)) == rotated180(image),
{
    let m = image;
    let w = m.width as int;
    let h = m.height as int;
    let ch = m.channels as int;
    let once = rotated90(m);
    let twice = rotated90(once);
    if supported_channels(m.channels) {
        let f1 = |x: int, y: int, c: int| m.sample(y, m.height - 1 - x, c);
        let f2 = |x: int, y: int, c: int| once.sample(y, once.height - 1 - x, c);
        let g = |x: int, y: int, c: int| m.sample(m.width - 1 - x, m.height - 1 - y, c);
        assert forall|x: int, y: int, c: int| 0 <= x < w && 0 <= y < h && 0 <= c < ch implies #[trigger] f2(
            x,
            y,
            c,
        ) == #[trigger] g(x, y, c) by {
            lemma_remap_at(h, w, ch, f1, y, w - 1 - x, c);
        }
        lemma_remap_ext(w, h, ch, f2, g);
    }
    assert(twice.samples == rotated180(m).samples);
}

/// Three quarter turns clockwise are one quarter turn counter-clockwise.
pub proof fn law_three_quarter_turns<T>(image: Raster<T>)
    ensures
        rotated90(rotated90(rotated90(image))) == rotated270(image),
{
    let m = image;
    law_two_quarter_turns_are_half_turn(m);
    let w = m.width as int;
    let h = m.height as int;
    let ch = m.channels as int;
    let half = rotated180(m);
    if supported_channels(m.channels) {
        let f1 = |x: int, y: int, c: int| m.sample(m.width - 1 - x, m.height - 1 - y, c);
        let f2 = |x: int, y: int, c: int| half.sample(y, half.height - 1 - x, c);
        let g = |x: int, y: int, c: int| m.sample(m.width - 1 - y, x, c);
        assert forall|x: int, y: int, c: int| 0 <= x < h && 0 <= y < w && 0 <= c < ch implies #[trigger] f2(
            x,
            y,
            c,
        ) == #[trigger] g(x, y, c) by {
            lemma_remap_at(w, h, ch, f1, y, h - 1 - x, c);
        }
        lemma_remap_ext(h, w, ch, f2, g);
    }
    assert(rotated90(half).samples == rotated270(m).samples);
}

/// A quarter turn clockwise followed by a quarter turn counter-clockwise gives
/// back a well-formed image.
pub proof fn law_quarter_turn_undone<T>(image: Raster<T>)
    requires
        image.well_formed(),
    ensures
        rotated270(rotated90(image)) == image,
{
    let m = image;
    let w = m.width as int;
    let h = m.height as int;
    let ch = m.channels as int;
    let once = rotated90(m);
    let f1 = |x: int, y: int, c: int| m.sample(y, m.height - 1 - x, c);
    let f2 = |x: int, y: int, c: int| once.sample(once.width - 1 - y, x, c);
    let g = |x: int, y: int, c: int| m.samples[sample_index(w, ch, x, y, c)];
    assert forall|x: int, y: int, c: int| 0 <= x < w && 0 <= y < h && 0 <= c < ch implies #[trigger] f2(
        x,
        y,
        c,
    ) == #[trigger] g(x, y, c) by {
        lemma_remap_at(h, w, ch, f1, h - 1 - y, x, c);
    }
    lemma_remap_ext(w, h, ch, f2, g);
    lemma_remap_identity(w, h, ch, m.samples);
    assert(rotated270(once).samples == m.samples);
}

/// A quarter turn counter-clockwise followed by a quarter turn clockwise gives
/// back a well-formed image.
pub proof fn law_counter_quarter_turn_undone<T>(image: Raster<T>)
    requires
        image.well_formed(),
    ensures
        rotated90(rotated270(image)) == image,
{
    let m = image;
    let w = m.width as int;
    let h = m.height as int;
    let ch = m.channels as int;
    let once = rotated270(m);
    let f1 = |x: int, y: int, c: int| m.sample(m.width - 1 - y, x, c);
    let f2 = |x: int, y: int, c: int| once.sample(y, once.height - 1 - x, c);
    let g = |x: int, y: int, c: int| m.samples[sample_index(w, ch, x, y, c)];
    assert forall|x: int, y: int, c: int| 0 <= x < w && 0 <= y < h && 0 <= c < ch implies #[trigger] f2(
        x,
        y,
        c,
    ) == #[trigger] g(x, y, c) by {
        lemma_remap_at(h, w, ch, f1, y, w - 1 - x, c);
    }
    lemma_remap_ext(w, h, ch, f2, g);
    lemma_remap_identity(w, h, ch, m.samples);
    assert(rotated90(once).samples == m.samples);
}

/// Turning a well-formed image upside down twice gives it back.
pub proof fn law_half_turn_twice<T>(image: Raster<T>)
    requires
        image.well_formed(),
    ensures
        rotated180(rotated180(image)) == image,
{
    let m = image;
    let w = m.width as int;
    let h = m.height as int;
    let ch = m.channels as int;
    let once = rotated180(m);
    let f1 = |x: int, y: int, c: int| m.sample(m.width - 1 - x, m.height - 1 - y, c);
    let f2 = |x: int, y: int, c: int| once.sample(once.width - 1 - x, once.height - 1 - y, c);
    let g = |x: int, y: int, c: int| m.samples[sample_index(w, ch, x, y, c)];
    assert forall|x: int, y: int, c: int| 0 <= x < w && 0 <= y < h && 0 <= c < ch implies #[trigger] f2(
        x,
        y,
        c,
    ) == #[trigger] g(x, y, c) by {
        lemma_remap_at(w, h, ch, f1, w - 1 - x, h - 1 - y, c);
    }
    lemma_remap_ext(w, h, ch, f2, g);
    lemma_remap_identity(w, h, ch, m.samples);
    assert(rotated180(once).samples == m.samples);
}

/// Four quarter turns clockwise give back a well-formed image.
pub proof fn law_four_quarter_turns<T>(image: Raster<T>)
    requires
        image.well_formed(),
    ensures
        rotated90(rotated90(rotated90(rotated90(image)))) == image,
{
    law_three_quarter_turns(image);
    law_counter_quarter_turn_undone(image);
}

/// The message that refuses a rotation angle.
pub open spec fn invalid_angle_message(angle: u32) -> Seq<char> {
    "Invalid angle: "@ + decimal(angle as nat)
}

/// The outcome of rotating by `angle` degrees clockwise: the same image for
/// 0, a turned image for 90, 180 and 270, the refusal message otherwise.
pub open spec fn rotation_outcome<T>(image: Raster<T>, angle: u32) -> Result<Raster<T>, Seq<char>> {
    if angle == 0 {
        Ok(image)
    } else if angle == 90 {
        Ok(rotated90(image))
    } else if angle == 180 {
        Ok(rotated180(image))
    } else if angle == 270 {
        Ok(rotated270(image))
    } else {
        Err(invalid_angle_message(angle))
    }
}

/// What a rotation by `angle` degrees requires of the image.
pub open spec fn can_rotate_by<T>(image: Raster<T>, angle: u32) -> bool {
    &&& (angle == 90 || angle == 180 || angle == 270) ==> rotatable(image)
    &&& (angle == 180 || angle == 270) ==> length_preserved_by_rotation(image)
}

/// Rotates clockwise by `angle` degrees: 0, 90, 180 or 270. Any other angle
/// is refused with the message `Invalid angle: <angle>`.
pub fn rotate_image<T: Copy>(image: &RawImage<T>, angle: u32) -> (result: Result<RawImage<T>, String>)
    requires
        can_rotate_by(image@, angle),
    ensures
        (match result {
            Ok(r) => rotation_outcome(image@, angle) == Ok::<Raster<T>, Seq<char>>(r@),
            Err(msg) => rotation_outcome(image@, angle) == Err::<Raster<T>, Seq<char>>(msg@),
        }),
{
    match angle {
        90 => Ok(rotate90(image)),
        0 => Ok(clone_image(image)),
        180 => Ok(rotate180(image)),
        270 => Ok(rotate270(image)),
        _ => {
            let mut msg = String::from_str("Invalid angle: ");
            push_decimal(&mut msg, angle as u64);
            Err(msg)
        },
    }
}

/// Reduces an RGB image to one channel: output sample `i` is
/// `average(r, g, b)` of the `i`-th consecutive triple of input samples.
/// The input image is left as it is.
pub fn make_grasyscale<T: Copy, F: Fn(T, T, T) -> T>(image: &mut RawImage<T>, average: F) -> (gray:
    RawImage<T>)
    requires
        old(image).channels == 3,
        old(image).data.len() % 3 == 0,
        forall|r: T, g: T, b: T| average.requires((r, g, b)),
    ensures
        final(image)@ == old(image)@,
        gray.x_size == old(image).x_size,
        gray.y_size == old(image).y_size,
        gray.channels == 1,
        gray.data.len() == old(image).data.len() / 3,
        forall|i: int|
            0 <= i < gray.data.len() ==> average.ensures(
                (old(image).data[3 * i], old(image).data[3 * i + 1], old(image).data[3 * i + 2]),
                #[trigger] gray.data[i],
            ),
{
    let n = image.data.len() / 3;
    let mut new_data: Vec<T> = Vec::new();
    for i in 0..n
        invariant
            n == image.data.len() / 3,
            image.data.len() % 3 == 0,
            forall|r: T, g: T, b: T| average.requires((r, g, b)),
            new_data.len() == i,
            forall|j: int|
                0 <= j < i ==> average.ensures(
                    (image.data[3 * j], image.data[3 * j + 1], image.data[3 * j + 2]),
                    #[trigger] new_data[j],
                ),
    {
        let r = image.data[3 * i];
        let g = image.data[3 * i + 1];
        let b = image.data[3 * i + 2];
        new_data.push(average(r, g, b));
    }
    RawImage { data: new_data, x_size: image.x_size, y_size: image.y_size, channels: 1 }
}

/// Rotating by 0 keeps the image, by 90 turns it a quarter clockwise, by 180
/// turns it upside down, by 270 turns it a quarter counter-clockwise, for
/// every image; every other angle is refused.
pub proof fn law_rotation_by_angle<T>(image: Raster<T>)
    ensures
        rotation_outcome(image, 0) == Ok::<Raster<T>, Seq<char>>(image),
        rotation_outcome(image, 90) == Ok::<Raster<T>, Seq<char>>(rotated90(image)),
        rotation_outcome(image, 180) == Ok::<Raster<T>, Seq<char>>(rotated180(image)),
        rotation_outcome(image, 270) == Ok::<Raster<T>, Seq<char>>(rotated270(image)),
        forall|angle: u32|
            !(angle == 0 || angle == 90 || angle == 180 || angle == 270) ==> #[trigger] rotation_outcome(
                image,
                angle,
            ) is Err,
{
}

/// A quarter turn clockwise of a gray or RGB image is `height` wide and
/// `width` tall, and sample `c` of its pixel `(x, y)` is sample `c` of source
/// pixel `(y, height - 1 - x)`, positions counted row-major.
pub proof fn law_quarter_turn_pixels<T>(image: Raster<T>, x: int, y: int, c: int)
    requires
        supported_channels(image.channels),
        0 <= x < image.height,
        0 <= y < image.width,
        0 <= c < image.channels,
    ensures
        rotated90(image).width == image.height,
        rotated90(image).height == image.width,
        rotated90(image).channels == image.channels,
        rotated90(image).samples.len() == image.width * image.height * image.channels,
        rotated90(image).samples[(y * image.height + x) * image.channels + c] == image.samples[((
        image.height - 1 - x) * image.width + y) * image.channels + c],
{
    let m = image;
    let w = m.width as int;
    let h = m.height as int;
    let ch = m.channels as int;
    lemma_remap_at(h, w, ch, |x: int, y: int, c: int| m.sample(y, m.height - 1 - x, c), x, y, c);
    lemma_count_nonnegative(w, h, ch);
}

/// A half turn keeps the size, and sample `c` of pixel `(x, y)` is sample `c`
/// of source pixel `(width - 1 - x, height - 1 - y)`.
pub proof fn law_half_turn_pixels<T>(image: Raster<T>, x: int, y: int, c: int)
    requires
        supported_channels(image.channels),
        0 <= x < image.width,
        0 <= y < image.height,
        0 <= c < image.channels,
    ensures
        rotated180(image).width == image.width,
        rotated180(image).height == image.height,
        rotated180(image).channels == image.channels,
        rotated180(image).samples.len() == image.width * image.height * image.channels,
        rotated180(image).samples[(y * image.width + x) * image.channels + c] == image.samples[((
        image.height - 1 - y) * image.width + (image.width - 1 - x)) * image.channels + c],
{
    let m = image;
    let w = m.width as int;
    let h = m.height as int;
    let ch = m.channels as int;
    lemma_remap_at(
        w,
        h,
        ch,
        |x: int, y: int, c: int| m.sample(m.width - 1 - x, m.height - 1 - y, c),
        x,
        y,
        c,
    );
}

/// A quarter turn counter-clockwise is `height` wide and `width` tall, and
/// sample `c` of its pixel `(x, y)` is sample `c` of source pixel
/// `(width - 1 - y, x)`.
pub proof fn law_counter_quarter_turn_pixels<T>(image: Raster<T>, x: int, y: int, c: int)
    requires
        supported_channels(image.channels),
        0 <= x < image.height,
        0 <= y < image.width,
        0 <= c < image.channels,
    ensures
        rotated270(image).width == image.height,
        rotated270(image).height == image.width,
        rotated270(image).channels == image.channels,
        rotated270(image).samples.len() == image.width * image.height * image.channels,
        rotated270(image).samples[(y * image.height + x) * image.channels + c] == image.samples[((x
            * image.width) + (image.width - 1 - y)) * image.channels + c],
{
    let m = image;
    let w = m.width as int;
    let h = m.height as int;
    let ch = m.channels as int;
    lemma_remap_at(h, w, ch, |x: int, y: int, c: int| m.sample(m.width - 1 - y, x, c), x, y, c);
    lemma_count_nonnegative(w, h, ch);
}

/// Rotating an image whose layout is neither gray nor RGB gives an empty
/// buffer, with width and height swapped for the quarter turns.
pub proof fn law_unsupported_layouts_rotate_to_nothing<T>(image: Raster<T>)
    requires
        !(image.channels == 1 || image.channels == 3),
    ensures
        rotated90(image).samples.len() == 0,
        rotated180(image).samples.len() == 0,
        rotated270(image).samples.len() == 0,
        rotated90(image).width == image.height && rotated90(image).height == image.width,
        rotated270(image).width == image.height && rotated270(image).height == image.width,
        rotated180(image).width == image.width && rotated180(image).height == image.height,
{
}

/// Rotation can read every source pixel exactly when a gray or RGB image's
/// buffer holds at least `width * height * channels` samples and that count
/// is at most 2^32; the half and three-quarter turns also need the buffer to
/// hold exactly that many (and nothing, for other layouts).
pub proof fn law_rotation_preconditions<T>(image: Raster<T>)
    ensures
        rotatable(image) <==> ((image.channels == 1 || image.channels == 3) ==> (image.width
            * image.height * image.channels <= image.samples.len() && image.width * image.height
            * image.channels <= 0x1_0000_0000)),
        length_preserved_by_rotation(image) <==> if image.channels == 1 || image.channels == 3 {
            image.samples.len() == image.width * image.height * image.channels
        } else {
            image.samples.len() == 0
        },
{
}

} // verus!
