use pixelshift::fingerprint::TargetFormat;
use pixelshift::transcode::sniff_format;
use pixelshift::transcode::transcode;

/// A 1x1 lossless WebP written by the real encoder; the animated container
/// below reuses its VP8L bitstream.
fn tiny_lossless_webp() -> Vec<u8> {
    let mut out: Vec<u8> = Vec::new();
    let encoder = image::codecs::webp::WebPEncoder::new_lossless(std::io::Cursor::new(&mut out));
    encoder
        .encode(&[0x20, 0x40, 0x80, 0xff], 1, 1, image::ExtendedColorType::Rgba8)
        .expect("lossless webp encoding of one pixel");
    out
}

fn push_chunk(dst: &mut Vec<u8>, fourcc: &[u8; 4], payload: &[u8]) {
    dst.extend_from_slice(fourcc);
    dst.extend_from_slice(&(payload.len() as u32).to_le_bytes());
    dst.extend_from_slice(payload);
    if payload.len() % 2 == 1 {
        dst.push(0);
    }
}

/// A minimal animated WebP: a VP8X header with the animation and alpha
/// flags, an ANIM chunk looping forever, and one ANMF frame wrapping the
/// VP8L bitstream of `tiny_lossless_webp`.
fn animated_webp() -> Vec<u8> {
    let stat = tiny_lossless_webp();
    assert_eq!(&stat[0..4], b"RIFF");
    assert_eq!(&stat[8..16], b"WEBPVP8L");
    let vp8l_size = u32::from_le_bytes([stat[16], stat[17], stat[18], stat[19]]) as usize;
    let vp8l_payload = &stat[20..20 + vp8l_size];

    let mut vp8x_payload = Vec::new();
    vp8x_payload.push(0b0001_0010); // alpha + animation
    vp8x_payload.extend_from_slice(&[0, 0, 0]); // reserved
    vp8x_payload.extend_from_slice(&[0, 0, 0]); // canvas width - 1
    vp8x_payload.extend_from_slice(&[0, 0, 0]); // canvas height - 1

    let mut anim_payload = Vec::new();
    anim_payload.extend_from_slice(&[0, 0, 0, 0]); // background color
    anim_payload.extend_from_slice(&[0, 0]); // loop count: forever

    let mut anmf_payload = Vec::new();
    anmf_payload.extend_from_slice(&[0, 0, 0]); // frame x / 2
    anmf_payload.extend_from_slice(&[0, 0, 0]); // frame y / 2
    anmf_payload.extend_from_slice(&[0, 0, 0]); // frame width - 1
    anmf_payload.extend_from_slice(&[0, 0, 0]); // frame height - 1
    anmf_payload.extend_from_slice(&[100, 0, 0]); // duration in ms
    anmf_payload.push(0b0000_0010); // no alpha blending, keep canvas
    push_chunk(&mut anmf_payload, b"VP8L", vp8l_payload);

    let mut body = Vec::new();
    body.extend_from_slice(b"WEBP");
    push_chunk(&mut body, b"VP8X", &vp8x_payload);
    push_chunk(&mut body, b"ANIM", &anim_payload);
    push_chunk(&mut body, b"ANMF", &anmf_payload);

    let mut file = Vec::new();
    file.extend_from_slice(b"RIFF");
    file.extend_from_slice(&(body.len() as u32).to_le_bytes());
    file.extend_from_slice(&body);
    file
}

#[test]
fn animated_webp_transcodes_to_gif() {
    let input = animated_webp();
    assert_eq!(sniff_format(&input), Some(TargetFormat::Webp));
    let (out, content_type) = transcode(input.clone(), TargetFormat::Gif)
        .expect("a well-formed animated webp must convert");
    assert_eq!(content_type, "image/gif");
    assert_ne!(out, input);
    assert_eq!(sniff_format(&out), Some(TargetFormat::Gif));
    assert_eq!(&out[0..6], b"GIF89a");
}

#[test]
fn webp_to_webp_passes_through_unchanged() {
    let input = animated_webp();
    let (out, content_type) = transcode(input.clone(), TargetFormat::Webp).unwrap();
    assert_eq!(out, input);
    assert_eq!(content_type, "image/webp");
}
