use pixelshift::fingerprint::ConversionRequest;
use pixelshift::fingerprint::TargetFormat;
use pixelshift::fingerprint::encode_fingerprint_id;
use pixelshift::fingerprint::fingerprint;
use pixelshift::fingerprint::parse_fingerprint_id;

fn req(locator: &str, format: TargetFormat) -> ConversionRequest {
    ConversionRequest { source_locator: locator.to_string(), target_format: format }
}

#[test]
fn fingerprint_is_deterministic() {
    let a = fingerprint(&req("http://example.com/x.webp", TargetFormat::Gif));
    let b = fingerprint(&req("http://example.com/x.webp", TargetFormat::Gif));
    assert_eq!(a, b);
}

#[test]
fn fingerprint_known_values() {
    assert_eq!(fingerprint(&req("a", TargetFormat::Gif)), 0x08953707b53f63a5);
    assert_eq!(fingerprint(&req("a", TargetFormat::Webp)), 0x08cb5707b56d2975);
    assert_eq!(
        fingerprint(&req("http://example.com/x.webp", TargetFormat::Gif)),
        0xf2256cd2b555b3b4
    );
}

#[test]
fn fingerprint_covers_both_fields() {
    let base = fingerprint(&req("http://example.com/x.webp", TargetFormat::Gif));
    assert_ne!(base, fingerprint(&req("http://example.com/x.webp", TargetFormat::Webp)));
    assert_ne!(base, fingerprint(&req("http://example.com/y.webp", TargetFormat::Gif)));
}

#[test]
fn identifier_spells_sixteen_hex_digits() {
    assert_eq!(encode_fingerprint_id(0x0123456789abcdef), "0123456789abcdef");
    assert_eq!(encode_fingerprint_id(0), "0000000000000000");
    assert_eq!(encode_fingerprint_id(u64::MAX), "ffffffffffffffff");
}

#[test]
fn identifier_round_trips() {
    for fp in [0u64, 1, 0x08953707b53f63a5, u64::MAX] {
        assert_eq!(parse_fingerprint_id(&encode_fingerprint_id(fp)), Some(fp));
    }
}

#[test]
fn malformed_identifiers_parse_to_none() {
    assert_eq!(parse_fingerprint_id(""), None);
    assert_eq!(parse_fingerprint_id("0123"), None);
    assert_eq!(parse_fingerprint_id("0123456789abcdef0"), None);
    assert_eq!(parse_fingerprint_id("0123456789ABCDEF"), None);
    assert_eq!(parse_fingerprint_id("0123456789abcdeg"), None);
}
