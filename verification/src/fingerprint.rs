//! Deterministic fingerprinting of a conversion request, and the textual
//! identifier under which a finished conversion can be retrieved later.

use vstd::prelude::*;
use vstd::utf8::encode_utf8;
use vstd::utf8::is_ascii_chars;
use vstd::utf8::is_ascii_chars_encode_utf8;

verus! {

/// The animated container formats the service understands.
#[derive(Clone, Copy, PartialEq, Eq, Structural, Debug)]
pub enum TargetFormat {
    Gif,
    Webp,
}

/// A conversion request: where the source lives and which container the
/// client wants back. Immutable once created.
pub struct ConversionRequest {
    pub source_locator: String,
    pub target_format: TargetFormat,
}

pub const DIGEST_OFFSET_BASIS: u64 = 0xcbf29ce484222325;

pub const DIGEST_PRIME: u64 = 0x100000001b3;

/// One step of the 64-bit FNV-1a digest: mix one byte into the state.
pub open spec fn digest_step(h: u64, b: u8) -> u64 {
    (h ^ (b as u64)).wrapping_mul(DIGEST_PRIME)
}

/// The digest state after folding every byte of `s` into `h`, front to back.
pub open spec fn digest_from(h: u64, s: Seq<u8>) -> u64
    decreases s.len(),
{
    if s.len() == 0 {
        h
    } else {
        digest_from(digest_step(h, s[0]), s.drop_first())
    }
}

/// The byte that distinguishes each target format inside the digest, so that
/// two requests for the same source but different targets never share a
/// fingerprint by construction.
pub open spec fn format_tag(f: TargetFormat) -> u8 {
    match f {
        TargetFormat::Gif => 0x67,
        TargetFormat::Webp => 0x77,
    }
}

/// The fingerprint of a request, as a function of its two fields alone:
/// the format tag is mixed in first, then the UTF-8 bytes of the locator.
pub open spec fn fingerprint_of(format: TargetFormat, locator: Seq<char>) -> u64 {
    digest_from(digest_step(DIGEST_OFFSET_BASIS, format_tag(format)), encode_utf8(locator))
}

/// Computes the fingerprint of a request. Pure: no I/O, no shared state.
pub fn fingerprint(req: &ConversionRequest) -> (r: u64)
    ensures
        r == fingerprint_of(req.target_format, req.source_locator@),
{
    let tag: u8 = match req.target_format {
        TargetFormat::Gif => 0x67,
        TargetFormat::Webp => 0x77,
    };
    let bs: &[u8] = req.source_locator.as_str().as_bytes();
    let n: usize = bs.len();
    let mut h: u64 = (DIGEST_OFFSET_BASIS ^ (tag as u64)).wrapping_mul(DIGEST_PRIME);
    let mut i: usize = 0;
    proof {
        assert(bs@.skip(0) =~= bs@);
    }
    while i < n
        invariant
            i <= n,
            n == bs@.len(),
            bs@ == encode_utf8(req.source_locator@),
            digest_from(h, bs@.skip(i as int)) == fingerprint_of(
                req.target_format,
                req.source_locator@,
            ),
        decreases n - i,
    {
        let b: u8 = bs[i];
        proof {
            assert(bs@.skip(i as int)[0] == bs@[i as int]);
            assert(bs@.skip(i as int).drop_first() =~= bs@.skip(i as int + 1));
        }
        h = (h ^ (b as u64)).wrapping_mul(DIGEST_PRIME);
        i = i + 1;
    }
    proof {
        assert(bs@.skip(n as int) =~= Seq::<u8>::empty());
    }
    h
}

/// Relies on `String::push`: appends the given character to the end of the
/// string.
pub assume_specification[ String::push ](s: &mut String, ch: char)
    ensures
        final(s)@ == old(s)@.push(ch),
;

/// The lowercase hex digit for a value below sixteen.
pub open spec fn hex_digit_char(v: int) -> char {
    if v == 0 {
        '0'
    } else if v == 1 {
        '1'
    } else if v == 2 {
        '2'
    } else if v == 3 {
        '3'
    } else if v == 4 {
        '4'
    } else if v == 5 {
        '5'
    } else if v == 6 {
        '6'
    } else if v == 7 {
        '7'
    } else if v == 8 {
        '8'
    } else if v == 9 {
        '9'
    } else if v == 10 {
        'a'
    } else if v == 11 {
        'b'
    } else if v == 12 {
        'c'
    } else if v == 13 {
        'd'
    } else if v == 14 {
        'e'
    } else {
        'f'
    }
}

/// The `i`-th nibble of `fp`, most significant first.
pub open spec fn nibble_of(fp: u64, i: int) -> u64 {
    (fp >> (((15 - i) * 4) as u64)) & 0xf
}

/// The sixteen-character lowercase hex spelling of a fingerprint, most
/// significant nibble first: the resource identifier under which a finished
/// conversion can be retrieved.
pub open spec fn id_chars_of(fp: u64) -> Seq<char> {
    Seq::new(16, |i: int| hex_digit_char(nibble_of(fp, i) as int))
}

fn hex_digit(v: u8) -> (c: char)
    requires
        v < 16,
    ensures
        c == hex_digit_char(v as int),
{
    match v {
        0 => '0',
        1 => '1',
        2 => '2',
        3 => '3',
        4 => '4',
        5 => '5',
        6 => '6',
        7 => '7',
        8 => '8',
        9 => '9',
        10 => 'a',
        11 => 'b',
        12 => 'c',
        13 => 'd',
        14 => 'e',
        _ => 'f',
    }
}

/// Spells a fingerprint as its sixteen-character lowercase hex identifier.
pub fn encode_fingerprint_id(fp: u64) -> (r: String)
    ensures
        r@ == id_chars_of(fp),
{
    let mut s = String::new();
    let mut i: usize = 0;
    while i < 16
        invariant
            i <= 16,
            s@ == id_chars_of(fp).subrange(0, i as int),
        decreases 16 - i,
    {
        let sh: u64 = (15 - i as u64) * 4;
        let nib: u64 = (fp >> sh) & 0xf;
        proof {
            assert((fp >> sh) & 0xf < 16) by (bit_vector);
            assert(nib == nibble_of(fp, i as int));
        }
        let c = hex_digit(nib as u8);
        s.push(c);
        proof {
            assert(id_chars_of(fp)[i as int] == hex_digit_char(nibble_of(fp, i as int) as int));
            assert(id_chars_of(fp).subrange(0, i as int).push(c) =~= id_chars_of(fp).subrange(
                0,
                i as int + 1,
            ));
        }
        i = i + 1;
    }
    proof {
        assert(id_chars_of(fp).subrange(0, 16) =~= id_chars_of(fp));
    }
    s
}

/// The value of one lowercase hex digit byte, or -1 for any other byte.
pub open spec fn hex_val(b: u8) -> int {
    if 0x30 <= b <= 0x39 {
        b - 0x30
    } else if 0x61 <= b <= 0x66 {
        b - 0x61 + 10
    } else {
        -1
    }
}

/// Folds hex digit bytes into `acc`, most significant first; `None` as soon
/// as a byte is no lowercase hex digit.
pub open spec fn parse_hex_from(acc: u64, s: Seq<u8>) -> Option<u64>
    decreases s.len(),
{
    if s.len() == 0 {
        Some(acc)
    } else if hex_val(s[0]) == -1 {
        None
    } else {
        parse_hex_from((acc << 4) | (hex_val(s[0]) as u64), s.drop_first())
    }
}

/// What a textual resource identifier denotes: exactly sixteen lowercase
/// hex digit bytes spell a fingerprint; everything else denotes nothing.
pub open spec fn parse_id_spec(bytes: Seq<u8>) -> Option<u64> {
    if bytes.len() != 16 {
        None
    } else {
        parse_hex_from(0, bytes)
    }
}

/// Reads a resource identifier back into the fingerprint it spells, or
/// `None` when the text is not a sixteen-digit lowercase hex identifier.
pub fn parse_fingerprint_id(id: &str) -> (r: Option<u64>)
    ensures
        r == parse_id_spec(encode_utf8(id@)),
{
    let bs: &[u8] = id.as_bytes();
    let n: usize = bs.len();
    if n != 16 {
        return None;
    }
    let mut acc: u64 = 0;
    let mut i: usize = 0;
    proof {
        assert(bs@.skip(0) =~= bs@);
    }
    while i < 16
        invariant
            i <= 16,
            bs@ == encode_utf8(id@),
            bs@.len() == 16,
            parse_hex_from(acc, bs@.skip(i as int)) == parse_hex_from(0, bs@),
        decreases 16 - i,
    {
        let b: u8 = bs[i];
        proof {
            assert(bs@.skip(i as int)[0] == bs@[i as int]);
            assert(bs@.skip(i as int).drop_first() =~= bs@.skip(i as int + 1));
        }
        let v: u8 = if 0x30 <= b && b <= 0x39 {
            b - 0x30
        } else if 0x61 <= b && b <= 0x66 {
            b - 0x61 + 10
        } else {
            return None;
        };
        acc = (acc << 4) | (v as u64);
        i = i + 1;
    }
    proof {
        assert(bs@.skip(16) =~= Seq::<u8>::empty());
    }
    Some(acc)
}

/// The fingerprint spelled by the first `k` nibbles of `fp`.
pub open spec fn prefix_val(fp: u64, k: int) -> u64
    decreases k,
{
    if k <= 0 {
        0
    } else {
        (prefix_val(fp, k - 1) << 4) | nibble_of(fp, k - 1)
    }
}

proof fn lemma_prefix_val_shift(fp: u64, k: int)
    requires
        1 <= k <= 16,
    ensures
        prefix_val(fp, k) == fp >> ((64 - 4 * k) as u64),
    decreases k,
{
    let sh: u64 = (64 - 4 * k) as u64;
    if k == 1 {
        assert(prefix_val(fp, 0) == 0);
        assert(prefix_val(fp, 1) == (0u64 << 4) | nibble_of(fp, 0));
        assert(((15 - 0) * 4) as u64 == 60u64);
        assert((0u64 << 4) | ((fp >> 60) & 0xf) == fp >> 60) by (bit_vector);
    } else {
        lemma_prefix_val_shift(fp, k - 1);
        assert((64 - 4 * (k - 1)) as u64 == sh + 4);
        assert((((15 - (k - 1)) * 4) as u64) == sh);
        assert(((fp >> (sh + 4)) << 4) | ((fp >> sh) & 0xf) == fp >> sh) by (bit_vector)
            requires
                sh <= 60,
        ;
    }
}

proof fn lemma_digit_byte(fp: u64, i: int)
    requires
        0 <= i < 16,
    ensures
        hex_val(hex_digit_char(nibble_of(fp, i) as int) as u8) == nibble_of(fp, i) as int,
{
    let sh: u64 = ((15 - i) * 4) as u64;
    assert((fp >> sh) & 0xf < 16) by (bit_vector);
}

proof fn lemma_parse_digits(fp: u64, bytes: Seq<u8>, k: int)
    requires
        bytes.len() == 16,
        forall|i: int| 0 <= i < 16 ==> hex_val(bytes[i]) == nibble_of(fp, i) as int,
        0 <= k <= 16,
    ensures
        parse_hex_from(prefix_val(fp, k), bytes.skip(k)) == Some(fp),
    decreases 16 - k,
{
    if k == 16 {
        assert(bytes.skip(16) =~= Seq::<u8>::empty());
        lemma_prefix_val_shift(fp, 16);
        assert(fp >> 0u64 == fp) by (bit_vector);
    } else {
        assert(bytes.skip(k)[0] == bytes[k]);
        assert(bytes.skip(k).drop_first() =~= bytes.skip(k + 1));
        let sh: u64 = ((15 - k) * 4) as u64;
        assert((fp >> sh) & 0xf < 16) by (bit_vector);
        assert((hex_val(bytes[k]) as u64) == nibble_of(fp, k));
        assert((prefix_val(fp, k) << 4) | (hex_val(bytes[k]) as u64) == prefix_val(fp, k + 1));
        lemma_parse_digits(fp, bytes, k + 1);
    }
}

/// Spelling a fingerprint as its identifier and reading the identifier
/// back always returns the fingerprint itself.
pub proof fn lemma_identifier_round_trip(fp: u64)
    ensures
        parse_id_spec(encode_utf8(id_chars_of(fp))) == Some(fp),
{
    let chars = id_chars_of(fp);
    assert(is_ascii_chars(chars)) by {
        assert forall|i: int| 0 <= i < chars.len() implies '\0' <= #[trigger] chars[i]
            <= '\u{7f}' by {
            assert(chars[i] == hex_digit_char(nibble_of(fp, i) as int));
        }
    }
    is_ascii_chars_encode_utf8(chars);
    let bytes = encode_utf8(chars);
    assert forall|i: int| 0 <= i < 16 implies hex_val(bytes[i]) == nibble_of(fp, i) as int by {
        assert(bytes[i] == chars[i] as u8);
        lemma_digit_byte(fp, i);
    }
    lemma_parse_digits(fp, bytes, 0);
    assert(bytes.skip(0) =~= bytes);
}

/// Requests with identical normalized fields always carry identical
/// fingerprints: the digest is a pure function of the two fields.
pub proof fn lemma_fingerprint_deterministic(
    f1: TargetFormat,
    l1: Seq<char>,
    f2: TargetFormat,
    l2: Seq<char>,
)
    requires
        f1 == f2,
        l1 == l2,
    ensures
        fingerprint_of(f1, l1) == fingerprint_of(f2, l2),
{
}

} // verus!
