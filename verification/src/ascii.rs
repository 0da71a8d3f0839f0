//! ASCII art: one character per luminance sample, from a ten-step ramp that
//! runs from blank (dark) to `@` (bright).
use crate::raster::RawImage;
use crate::text::push_char;
use vstd::prelude::*;

verus! {

/// Number of characters in the ramp.
pub const RAMP_LEN: usize = 10;

/// Character `i` of the ramp ` .:-=+*#%@`.
pub open spec fn ramp_char(i: nat) -> char {
    if i == 0 {
        ' '
    } else if i == 1 {
        '.'
    } else if i == 2 {
        ':'
    } else if i == 3 {
        '-'
    } else if i == 4 {
        '='
    } else if i == 5 {
        '+'
    } else if i == 6 {
        '*'
    } else if i == 7 {
        '#'
    } else if i == 8 {
        '%'
    } else {
        '@'
    }
}

/// The ramp step of an 8-bit luminance: `floor(level / 255 * 9)`.
pub open spec fn ramp_step(level: u8) -> nat {
    (9 * level as nat) / 255
}

/// The ramp step of an 8-bit luminance, `floor(level / 255 * 9)`.
pub fn ramp_index(level: u8) -> (i: usize)
    ensures
        i == ramp_step(level),
        i == (9 * level as int) / 255,
        i < RAMP_LEN,
{
    ((9 * level as u32) / 255) as usize
}

/// The character that stands for an 8-bit luminance.
pub fn luminance_char(level: u8) -> (c: char)
    ensures
        c == ramp_char(ramp_step(level)),
        c == " .:-=+*#%@"@[(9 * level as int) / 255],
{
    proof {
        law_ramp_is_the_literal_ramp();
        assert(ramp_char(ramp_step(level)) == " .:-=+*#%@"@[ramp_step(level) as int]);
    }
    match ramp_index(level) {
        0 => ' ',
        1 => '.',
        2 => ':',
        3 => '-',
        4 => '=',
        5 => '+',
        6 => '*',
        7 => '#',
        8 => '%',
        _ => '@',
    }
}

/// The ramp is the string ` .:-=+*#%@`: step `i` draws its `i`-th character,
/// and the step of luminance `level` is `floor(9 * level / 255)`, from 0 for
/// black to 9 for white.
pub proof fn law_ramp_is_the_literal_ramp()
    ensures
        " .:-=+*#%@"@.len() == 10,
        forall|i: nat| i < 10 ==> #[trigger] ramp_char(i) == " .:-=+*#%@"@[i as int],
        forall|level: u8| #[trigger] ramp_step(level) == (9 * level as int) / 255,
        forall|level: u8| 0 <= #[trigger] ramp_step(level) < 10,
{
    reveal_strlit(" .:-=+*#%@");
    assert forall|level: u8| 0 <= #[trigger] ramp_step(level) < 10 by {
        assert(9 * level as int <= 9 * 255);
    }
}

/// Every character of the picture is the ramp character of its sample:
/// character `x` of row `y` is ` .:-=+*#%@`[floor(9 * sample(x, y) / 255)],
/// and each row ends with a line break.
pub proof fn law_art_draws_the_ramp(width: nat, samples: Seq<u8>, y: nat, x: int)
    requires
        0 <= x < width,
        y * width + x < samples.len(),
    ensures
        ascii_row(width, samples, y).len() == width + 1,
        ascii_row(width, samples, y)[x] == " .:-=+*#%@"@[(9 * samples[y * width + x] as int) / 255],
        ascii_row(width, samples, y)[width as int] == '\n',
{
    law_ramp_is_the_literal_ramp();
    let level = samples[y * width + x];
    assert(ramp_char(ramp_step(level)) == " .:-=+*#%@"@[ramp_step(level) as int]);
}

/// Row `y` of the picture: one character per sample, then a line break.
pub open spec fn ascii_row(width: nat, samples: Seq<u8>, y: nat) -> Seq<char> {
    Seq::new(width, |x: int| ramp_char(ramp_step(samples[y * width + x]))).push('\n')
}

/// The first `rows` rows of the picture.
pub open spec fn ascii_rows(width: nat, samples: Seq<u8>, rows: nat) -> Seq<char>
    decreases rows,
{
    if rows == 0 {
        Seq::empty()
    } else {
        ascii_rows(width, samples, (rows - 1) as nat) + ascii_row(width, samples, (rows - 1) as nat)
    }
}

/// Draws a single-channel 8-bit image as text: row by row, one ramp
/// character per pixel, each row ended by a line break.
pub fn ascii_art(luma: &RawImage<u8>) -> (art: String)
    requires
        luma.x_size * luma.y_size <= luma.data@.len(),
    ensures
        art@ == ascii_rows(luma.x_size as nat, luma.data@, luma.y_size as nat),
{
    let ghost w = luma.x_size as nat;
    let mut art = String::new();
    let width = luma.x_size as usize;
    let n = luma.data.len();
    for y in 0..luma.y_size
        invariant
            n == luma.data@.len(),
            w == luma.x_size,
            width == w,
            luma.x_size * luma.y_size <= luma.data@.len(),
            art@ == ascii_rows(w, luma.data@, y as nat),
    {
        let ghost before = art@;
        assert(y * w + w <= luma.data@.len()) by (nonlinear_arith)
            requires
                y < luma.y_size,
                w * luma.y_size <= luma.data@.len(),
        ;
        let row_start = (y as usize) * width;
        for x in 0..width
            invariant
                n == luma.data@.len(),
                w == luma.x_size,
                width == w,
                row_start + width <= luma.data@.len(),
                row_start == y * w,
                art@ == before + Seq::new(x as nat, |i: int| ramp_char(ramp_step(luma.data@[y * w + i]))),
        {
            let c = luminance_char(luma.data[row_start + x]);
            push_char(&mut art, c);
            assert(Seq::new((x + 1) as nat, |i: int| ramp_char(ramp_step(luma.data@[y * w + i])))
                =~= Seq::new(x as nat, |i: int| ramp_char(ramp_step(luma.data@[y * w + i]))).push(c));
        }
        push_char(&mut art, '\n');
        assert(art@ =~= ascii_rows(w, luma.data@, (y + 1) as nat));
    }
    art
}

/// The picture of `rows` rows is `rows * (width + 1)` characters: row `y`
/// starts at `y * (width + 1)`, its character `x` is the ramp character
/// ` .:-=+*#%@`[floor(9 * sample(x, y) / 255)] of sample `y * width + x`, and
/// a line break ends it.
pub proof fn law_art_layout(width: nat, samples: Seq<u8>, rows: nat)
    ensures
        ascii_rows(width, samples, rows).len() == rows * (width + 1),
        forall|y: int, x: int|
            0 <= y < rows && 0 <= x < width ==> #[trigger] ascii_rows(width, samples, rows)[y * (width
                + 1) + x] == " .:-=+*#%@"@[(9 * samples[y * width + x] as int) / 255],
        forall|y: int|
            0 <= y < rows ==> #[trigger] ascii_rows(width, samples, rows)[y * (width + 1) + width]
                == '\n',
    decreases rows,
{
    law_ramp_is_the_literal_ramp();
    if rows > 0 {
        let r = (rows - 1) as nat;
        law_art_layout(width, samples, r);
        let prev = ascii_rows(width, samples, r);
        let row = ascii_row(width, samples, r);
        let all = ascii_rows(width, samples, rows);
        assert(all == prev + row);
        assert(prev.len() == r * (width + 1));
        assert(rows * (width + 1) == r * (width + 1) + (width + 1)) by (nonlinear_arith)
            requires
                r == rows - 1,
        ;
        assert forall|y: int, x: int| 0 <= y < rows && 0 <= x < width implies #[trigger] all[y * (width
            + 1) + x] == " .:-=+*#%@"@[(9 * samples[y * width + x] as int) / 255] by {
            if y < r {
                assert(y * (width + 1) + x < r * (width + 1)) by (nonlinear_arith)
                    requires
                        0 <= y < r,
                        0 <= x < width,
                ;
                assert(all[y * (width + 1) + x] == prev[y * (width + 1) + x]);
            } else {
                assert(y * (width + 1) + x == prev.len() + x);
                let level = samples[r * width + x];
                assert(ramp_char(ramp_step(level)) == " .:-=+*#%@"@[ramp_step(level) as int]);
                assert(all[y * (width + 1) + x] == row[x]);
            }
        }
        assert forall|y: int| 0 <= y < rows implies #[trigger] all[y * (width + 1) + width] == '\n' by {
            if y < r {
                assert(y * (width + 1) + width < r * (width + 1)) by (nonlinear_arith)
                    requires
                        0 <= y < r,
                ;
                assert(all[y * (width + 1) + width] == prev[y * (width + 1) + width]);
            } else {
                assert(y * (width + 1) + width == prev.len() + width);
                assert(all[y * (width + 1) + width] == row[width as int]);
            }
        }
    }
}

} // verus!
