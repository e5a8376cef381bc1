//! Container sniffing and re-encoding of an animated image.
//!
//! The input container is sniffed from the bytes themselves, never from a
//! caller-supplied hint. When the sniffed container already matches the
//! requested target, the input bytes are returned unchanged and no decode
//! or encode cost is paid. Otherwise the frames are decoded and re-encoded
//! into the target container with infinite-loop playback and a
//! speed-over-size encoder setting.

use vstd::prelude::*;
use vstd::string::StringExecFns;
use crate::errors::Error;
use crate::fingerprint::TargetFormat;
use image::AnimationDecoder;

verus! {

/// Whether `b` starts like a GIF container (`GIF87a` or `GIF89a`).
pub open spec fn is_gif(b: Seq<u8>) -> bool {
    &&& b.len() >= 6
    &&& b[0] == 0x47
    &&& b[1] == 0x49
    &&& b[2] == 0x46
    &&& b[3] == 0x38
    &&& (b[4] == 0x37 || b[4] == 0x39)
    &&& b[5] == 0x61
}

/// Whether `b` starts like a WebP container (`RIFF....WEBP`).
pub open spec fn is_webp(b: Seq<u8>) -> bool {
    &&& b.len() >= 12
    &&& b[0] == 0x52
    &&& b[1] == 0x49
    &&& b[2] == 0x46
    &&& b[3] == 0x46
    &&& b[8] == 0x57
    &&& b[9] == 0x45
    &&& b[10] == 0x42
    &&& b[11] == 0x50
}

/// The container a byte payload presents itself as, judged from content.
pub open spec fn sniffed_format(b: Seq<u8>) -> Option<TargetFormat> {
    if is_gif(b) {
        Some(TargetFormat::Gif)
    } else if is_webp(b) {
        Some(TargetFormat::Webp)
    } else {
        None
    }
}

/// Sniffs the container format from the payload's leading bytes.
pub fn sniff_format(bytes: &[u8]) -> (r: Option<TargetFormat>)
    ensures
        r == sniffed_format(bytes@),
{
    let n = bytes.len();
    if n >= 6 && bytes[0] == 0x47 && bytes[1] == 0x49 && bytes[2] == 0x46 && bytes[3] == 0x38 && (
    bytes[4] == 0x37 || bytes[4] == 0x39) && bytes[5] == 0x61 {
        Some(TargetFormat::Gif)
    } else if n >= 12 && bytes[0] == 0x52 && bytes[1] == 0x49 && bytes[2] == 0x46 && bytes[3]
        == 0x46 && bytes[8] == 0x57 && bytes[9] == 0x45 && bytes[10] == 0x42 && bytes[11] == 0x50 {
        Some(TargetFormat::Webp)
    } else {
        None
    }
}

/// The content-type string served with each container format.
pub open spec fn content_type_of(f: TargetFormat) -> Seq<char> {
    match f {
        TargetFormat::Gif => "image/gif"@,
        TargetFormat::Webp => "image/webp"@,
    }
}

/// The content-type string served with each container format.
pub fn content_type_string(f: TargetFormat) -> (r: String)
    ensures
        r@ == content_type_of(f),
{
    match f {
        TargetFormat::Gif => String::from_str("image/gif"),
        TargetFormat::Webp => String::from_str("image/webp"),
    }
}

/// The GIF bytes that re-encoding a given WebP payload produces: a function
/// of the input bytes alone, since the encoder settings are fixed.
pub uninterp spec fn gif_encoding_of(src: Seq<u8>) -> Seq<u8>;

/// Whether re-encoding a given WebP payload into GIF succeeds: decoding,
/// quantizing and encoding are all deterministic, so this too is a function
/// of the input bytes alone.
pub uninterp spec fn webp_gif_encodes(src: Seq<u8>) -> bool;

/// Relies on image's `WebPDecoder` with `AnimationDecoder::into_frames` to
/// decode the animation frames, and on image's `GifEncoder` (infinite
/// repeat, a speed-over-size setting) to write them back out; both are
/// deterministic in the input bytes, so whether the call succeeds is named
/// `webp_gif_encodes` and the produced bytes are named `gif_encoding_of`.
/// Decoding failures are the client's bad input; an encoder failure is a
/// server-side fault.
#[verifier::external_body]
fn webp_frames_to_gif(input: &[u8]) -> (r: Result<Vec<u8>, Error>)
    ensures
        r is Ok <==> webp_gif_encodes(input@),
        r matches Ok(v) ==> v@ == gif_encoding_of(input@),
        r matches Err(e) ==> (e is UnsupportedOrCorruptInput || e is EncodeFailure),
{
    let reader = std::io::Cursor::new(input);
    let dec = image::codecs::webp::WebPDecoder::new(reader)
        .map_err(|_| Error::UnsupportedOrCorruptInput)?;
    let frames = dec.into_frames().collect_frames()
        .map_err(|_| Error::UnsupportedOrCorruptInput)?;
    let mut out: Vec<u8> = Vec::new();
    let mut enc = image::codecs::gif::GifEncoder::new_with_speed(std::io::Cursor::new(&mut out), 15);
    enc.set_repeat(image::codecs::gif::Repeat::Infinite).map_err(|_| Error::EncodeFailure)?;
    enc.encode_frames(frames).map_err(|_| Error::EncodeFailure)?;
    drop(enc);
    Ok(out)
}

/// Turns a source payload into the requested container.
///
/// The outcome is decided by the sniffed container of `input`:
/// - unrecognized input is rejected as `UnsupportedOrCorruptInput`;
/// - input already in the target container passes through byte-identical,
///   and the encoder is never invoked;
/// - WebP input re-encodes to GIF, succeeding exactly when the input's
///   frames decode and re-encode (`webp_gif_encodes`), with the bytes
///   `gif_encoding_of(input)`;
/// - no other conversion is offered, so GIF input asked into WebP is
///   rejected as `UnsupportedConversion`.
pub fn transcode(input: Vec<u8>, target: TargetFormat) -> (r: Result<(Vec<u8>, String), Error>)
    ensures
        sniffed_format(input@) is None ==> (r matches Err(e) && e is UnsupportedOrCorruptInput),
        sniffed_format(input@) == Some(target) ==> (r matches Ok(oc) && oc.0@ == input@ && oc.1@
            == content_type_of(target)),
        (sniffed_format(input@) == Some(TargetFormat::Webp) && target == TargetFormat::Gif) ==> {
            &&& (r is Ok <==> webp_gif_encodes(input@))
            &&& (r matches Ok(oc) ==> oc.0@ == gif_encoding_of(input@) && oc.1@ == content_type_of(
                TargetFormat::Gif,
            ))
            &&& (r matches Err(e) ==> (e is UnsupportedOrCorruptInput || e is EncodeFailure))
        },
        (sniffed_format(input@) == Some(TargetFormat::Gif) && target == TargetFormat::Webp) ==> (
        r matches Err(e) && e is UnsupportedConversion),
    {
    match sniff_format(input.as_slice()) {
        None => Err(Error::UnsupportedOrCorruptInput),
        Some(src) => {
            if src == target {
                let ct = content_type_string(target);
                Ok((input, ct))
            } else {
                match (src, target) {
                    (TargetFormat::Webp, TargetFormat::Gif) => {
                        match webp_frames_to_gif(input.as_slice()) {
                            Ok(out) => Ok((out, content_type_string(TargetFormat::Gif))),
                            Err(e) => Err(e),
                        }
                    },
                    _ => Err(Error::UnsupportedConversion),
                }
            }
        },
    }
}

} // verus!
