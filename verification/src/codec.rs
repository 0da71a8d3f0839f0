//! Turning encoded image files into 8-bit sample buffers and back, through the
//! `image` crate's decoders and its PNG encoder.
use crate::raster::{RawImage, Raster};
use crate::text::{decimal, push_decimal};
use vstd::prelude::*;
use vstd::string::StringExecFns;

verus! {

/// The result of `image::load_from_memory` on `bytes` converted with
/// `to_rgb8`: the width, height and interleaved RGB samples of the decoded
/// image, or the decoder's error message.
pub uninterp spec fn rgb8_decoding(bytes: Seq<u8>) -> Result<(u32, u32, Seq<u8>), Seq<char>>;

/// The PNG file that `image::write_buffer_with_format` writes for `samples`
/// of a `width` x `height` image with 8-bit gray (`channels == 1`) or RGB
/// (`channels == 3`) pixels, or the encoder's error message.
pub uninterp spec fn png_encoding(samples: Seq<u8>, width: u32, height: u32, channels: nat) -> Result<
    Seq<u8>,
    Seq<char>,
>;

/// Decodes an image file of any format that `image` recognises and converts
/// it to 8-bit RGB (`image::load_from_memory`, `DynamicImage::to_rgb8`,
/// `ImageBuffer::into_raw`). Claimed: the result is `rgb8_decoding(bytes)`,
/// and an RGB buffer holds three samples per pixel, as `ImageBuffer`
/// allocates it.
#[verifier::external_body]
fn decode_rgb8(bytes: &[u8]) -> (decoded: Result<(u32, u32, Vec<u8>), String>)
    ensures
        (match decoded {
            Ok((w, h, samples)) => samples@.len() == w * h * 3 && rgb8_decoding(bytes@) == Ok::<
                (u32, u32, Seq<u8>),
                Seq<char>,
            >((w, h, samples@)),
            Err(message) => rgb8_decoding(bytes@) == Err::<(u32, u32, Seq<u8>), Seq<char>>(message@),
        }),
{
    match image::load_from_memory(bytes) {
        Ok(img) => {
            let rgb = img.to_rgb8();
            let (w, h) = rgb.dimensions();
            Ok((w, h, rgb.into_raw()))
        },
        Err(e) => Err(e.to_string()),
    }
}

/// The sample layouts that the encoder is asked for.
#[derive(Debug, PartialEq, Clone, Copy)]
pub enum ColorLayout {
    /// One 8-bit gray sample per pixel.
    Gray8,
    /// Three 8-bit samples per pixel: red, green, blue.
    Rgb8,
}

/// Samples per pixel of a layout.
pub open spec fn layout_channels(layout: ColorLayout) -> nat {
    match layout {
        ColorLayout::Gray8 => 1,
        ColorLayout::Rgb8 => 3,
    }
}

/// The layout for a number of channels: 1 is gray, 3 is RGB, anything else
/// has none.
pub fn color_layout(channels: usize) -> (layout: Option<ColorLayout>)
    ensures
        channels == 1 ==> layout == Some(ColorLayout::Gray8),
        channels == 3 ==> layout == Some(ColorLayout::Rgb8),
        channels != 1 && channels != 3 ==> layout is None,
{
    if channels == 1 {
        Some(ColorLayout::Gray8)
    } else if channels == 3 {
        Some(ColorLayout::Rgb8)
    } else {
        None
    }
}

/// Encodes samples as a PNG file in memory (`image::write_buffer_with_format`
/// with `ImageFormat::Png` into a `Cursor<Vec<u8>>`). Claimed: the result is
/// `png_encoding`; the encoder panics unless the buffer holds exactly one
/// sample per channel and pixel, which `requires` rules out.
#[verifier::external_body]
fn encode_png(samples: &[u8], width: u32, height: u32, layout: ColorLayout) -> (encoded: Result<
    Vec<u8>,
    String,
>)
    requires
        samples@.len() == width * height * layout_channels(layout),
    ensures
        (match encoded {
            Ok(file) => png_encoding(samples@, width, height, layout_channels(layout)) == Ok::<
                Seq<u8>,
                Seq<char>,
            >(file@),
            Err(message) => png_encoding(samples@, width, height, layout_channels(layout)) == Err::<
                Seq<u8>,
                Seq<char>,
            >(message@),
        }),
{
    let color = match layout {
        ColorLayout::Gray8 => image::ColorType::L8,
        ColorLayout::Rgb8 => image::ColorType::Rgb8,
    };
    let mut buf = std::io::Cursor::new(Vec::new());
    match image::write_buffer_with_format(&mut buf, samples, width, height, color, image::ImageFormat::Png) {
        Ok(()) => Ok(buf.into_inner()),
        Err(e) => Err(e.to_string()),
    }
}

/// The image that a successful decoding describes.
pub open spec fn decoded_raster(w: u32, h: u32, samples: Seq<u8>) -> Raster<u8> {
    Raster { width: w as nat, height: h as nat, channels: 3, samples }
}

/// A decoded image keeps the decoder's width, height and samples, with
/// three channels.
pub proof fn law_decoded_image_keeps_decoder_shape(w: u32, h: u32, samples: Seq<u8>)
    ensures
        decoded_raster(w, h, samples).width == w,
        decoded_raster(w, h, samples).height == h,
        decoded_raster(w, h, samples).channels == 3,
        decoded_raster(w, h, samples).samples == samples,
{
}

/// Builds the RGB image from a decoder's result, or the load error message
/// `Failed to load: <decoder message>`.
pub fn raster_from_decoded(decoded: Result<(u32, u32, Vec<u8>), String>) -> (result: Result<
    RawImage<u8>,
    String,
>)
    ensures
        (match decoded {
            Ok((w, h, samples)) => result matches Ok(image) && image@ == decoded_raster(w, h, samples@),
            Err(message) => result matches Err(e) && e@ == "Failed to load: "@ + message@,
        }),
        (match decoded {
            Ok((w, h, samples)) => result matches Ok(image) && image.x_size == w && image.y_size == h
                && image.channels == 3 && image.data@ == samples@,
            Err(_) => result is Err,
        }),
{
    match decoded {
        Ok((w, h, samples)) => Ok(RawImage { data: samples, x_size: w, y_size: h, channels: 3 }),
        Err(message) => {
            let mut e = String::from_str("Failed to load: ");
            e.append(message.as_str());
            Err(e)
        },
    }
}

/// Decodes an image file into an RGB image with one byte per sample, or
/// fails with `Failed to load: <decoder message>`.
pub fn load_image_from_bytes(data: &[u8]) -> (result: Result<RawImage<u8>, String>)
    ensures
        (match rgb8_decoding(data@) {
            Ok((w, h, samples)) => result matches Ok(image) && image@ == decoded_raster(w, h, samples)
                && image@.well_formed(),
            Err(message) => result matches Err(e) && e@ == "Failed to load: "@ + message,
        }),
        (match rgb8_decoding(data@) {
            Ok((w, h, samples)) => result matches Ok(image) && image.x_size == w && image.y_size == h
                && image.channels == 3 && image.data@ == samples && samples.len() == w * h * 3,
            Err(_) => result is Err,
        }),
{
    let decoded = decode_rgb8(data);
    raster_from_decoded(decoded)
}

/// The error message for a buffer whose channel count has no PNG layout.
pub open spec fn unsupported_channels_message(channels: usize) -> Seq<char> {
    "Unsupported channels: "@ + decimal(channels as nat)
}

/// Passes an encoder's result on, or the encode error message
/// `Failed to encode: <encoder message>`.
pub fn png_from_encoded(encoded: Result<Vec<u8>, String>) -> (result: Result<Vec<u8>, String>)
    ensures
        (match encoded {
            Ok(file) => result matches Ok(f) && f@ == file@,
            Err(message) => result matches Err(e) && e@ == "Failed to encode: "@ + message@,
        }),
{
    match encoded {
        Ok(file) => Ok(file),
        Err(message) => {
            let mut e = String::from_str("Failed to encode: ");
            e.append(message.as_str());
            Err(e)
        },
    }
}

/// Encodes a gray or RGB image with one byte per sample as a PNG file.
/// Other channel counts fail with `Unsupported channels: <channels>`; an
/// encoder failure gives `Failed to encode: <encoder message>`.
pub fn save_image_to_png(img: &RawImage<u8>) -> (result: Result<Vec<u8>, String>)
    requires
        (img.channels == 1 || img.channels == 3) ==> img.data@.len() == img.x_size * img.y_size
            * img.channels,
    ensures
        (if img.channels == 1 || img.channels == 3 {
            match png_encoding(img.data@, img.x_size, img.y_size, img.channels as nat) {
                Ok(file) => result matches Ok(f) && f@ == file,
                Err(message) => result matches Err(e) && e@ == "Failed to encode: "@ + message,
            }
        } else {
            result matches Err(e) && e@ == unsupported_channels_message(img.channels)
        }),
{
    match color_layout(img.channels) {
        Some(layout) => {
            let encoded = encode_png(img.data.as_slice(), img.x_size, img.y_size, layout);
            png_from_encoded(encoded)
        },
        None => {
            let mut e = String::from_str("Unsupported channels: ");
            push_decimal(&mut e, img.channels as u64);
            Err(e)
        },
    }
}

} // verus!
