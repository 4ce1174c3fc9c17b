//! Encoding pixel rows as an image file is the `png` crate's work. Nothing
//! in this file is proved. The bytes that the encoder produces are given a
//! name, so that the contract of the transcoding function can say exactly
//! what it hands to the encoder and that it returns what the encoder made.

use vstd::prelude::*;

verus! {

/// `png::EncodingError`, made known so that it can be handed on. Nothing is
/// known of what is inside one.
#[verifier::external_type_specification]
#[verifier::external_body]
pub struct ExEncodingError(png::EncodingError);

/// The file that `png` writes for an image of the given size from the given
/// samples, three bytes to a pixel, eight bits to a sample, at its best
/// compression; or nothing, where it reports an error.
pub uninterp spec fn png_rgb8(width: u32, height: u32, pixels: Seq<u8>) -> Option<Seq<u8>>;

/// Runs `png`'s encoder over samples that are written in one piece:
/// `Encoder::new` on a buffer in memory, `set_color` with `Rgb`,
/// `set_compression` with `Best`, `write_header`, `stream_writer`, one
/// `write_all`, and `finish`. The samples must be exactly as many as the
/// size asks for: the encoder's own arithmetic on the size is then within
/// bounds.
#[verifier::external_body]
pub(crate) fn encode_rgb8(width: u32, height: u32, pixels: &[u8]) -> (r: Result<
    Vec<u8>,
    png::EncodingError,
>)
    requires
        pixels@.len() == width as nat * height as nat * 3,
    ensures
        match r {
            Ok(bytes) => png_rgb8(width, height, pixels@) == Some(bytes@),
            Err(_) => png_rgb8(width, height, pixels@) is None,
        },
{
    let mut out = Vec::new();
    let mut encoder = png::Encoder::new(&mut out, width, height);
    encoder.set_color(png::ColorType::Rgb);
    encoder.set_compression(png::Compression::Best);
    let mut writer = encoder.write_header()?;
    let mut stream = writer.stream_writer()?;
    std::io::Write::write_all(&mut stream, pixels)?;
    stream.finish()?;
    writer.finish()?;
    Ok(out)
}

} // verus!
