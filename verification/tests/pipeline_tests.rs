use pixelshift::Error;
use pixelshift::download::DownloadGuard;
use pixelshift::download::check_declared_len;
use pixelshift::fingerprint::TargetFormat;
use pixelshift::fingerprint::encode_fingerprint_id;
use pixelshift::orchestrator::AppState;
use pixelshift::orchestrator::BeginOutcome;
use pixelshift::transcode::sniff_format;
use pixelshift::transcode::transcode;

const MB: u64 = 1024 * 1024;

fn gif_bytes() -> Vec<u8> {
    let mut v = b"GIF89a".to_vec();
    v.extend_from_slice(&[1, 0, 1, 0, 0, 0, 0, 0x3b]);
    v
}

#[test]
fn declared_length_over_cap_is_rejected_before_any_buffering() {
    let r = check_declared_len(Some(10 * MB), 5 * MB);
    assert!(matches!(r, Err(Error::PayloadTooLarge)));
    assert!(check_declared_len(Some(5 * MB), 5 * MB).is_ok());
    assert!(check_declared_len(None, 5 * MB).is_ok());
}

#[test]
fn streamed_bytes_over_cap_are_rejected() {
    let mut guard = DownloadGuard::new(10);
    assert!(guard.accept_chunk(6).is_ok());
    let r = guard.accept_chunk(5);
    assert!(matches!(r, Err(Error::PayloadTooLarge)));
    assert_eq!(guard.total(), 6);
    assert!(guard.accept_chunk(4).is_ok());
    assert_eq!(guard.total(), 10);
}

#[test]
fn matching_container_passes_through_unchanged() {
    let input = gif_bytes();
    let (out, content_type) = transcode(input.clone(), TargetFormat::Gif).unwrap();
    assert_eq!(out, input);
    assert_eq!(content_type, "image/gif");
}

#[test]
fn unrecognized_input_is_rejected() {
    let r = transcode(b"not an image at all".to_vec(), TargetFormat::Gif);
    assert!(matches!(r, Err(Error::UnsupportedOrCorruptInput)));
}

#[test]
fn gif_to_webp_is_not_offered() {
    let r = transcode(gif_bytes(), TargetFormat::Webp);
    assert!(matches!(r, Err(Error::UnsupportedConversion)));
}

#[test]
fn corrupt_webp_is_rejected_not_converted() {
    // Sniffs as WebP, but holds no decodable frames.
    let mut input = b"RIFF\x10\x00\x00\x00WEBP".to_vec();
    input.extend_from_slice(b"VP8L\x04\x00\x00\x00zzzz");
    let r = transcode(input, TargetFormat::Gif);
    assert!(matches!(r, Err(Error::UnsupportedOrCorruptInput)));
}

#[test]
fn sniffing_judges_content_not_hints() {
    assert_eq!(sniff_format(&gif_bytes()), Some(TargetFormat::Gif));
    assert_eq!(sniff_format(b"RIFF\x04\x00\x00\x00WEBP"), Some(TargetFormat::Webp));
    assert_eq!(sniff_format(b"GIF8"), None);
    assert_eq!(sniff_format(b""), None);
}

#[test]
fn client_errors_are_reported_in_their_own_status_class() {
    assert!(Error::PayloadTooLarge.is_client_error());
    assert!(Error::UnsupportedOrCorruptInput.is_client_error());
    assert!(Error::UnsupportedConversion.is_client_error());
    assert!(!Error::TransportFailure.is_client_error());
    assert!(!Error::EncodeFailure.is_client_error());
}

#[test]
fn two_simultaneous_first_requests_start_one_download() {
    let mut state = AppState::new(8, 1_000_000);
    let fp = 42u64;
    let first = state.begin(fp);
    assert!(matches!(first, BeginOutcome::Start));
    let second = state.begin(fp);
    assert!(matches!(second, BeginOutcome::Wait));
    let stored = state.complete(fp, b"the gif".to_vec(), "image/gif".to_string(), 0);
    assert!(stored);
    match state.begin(fp) {
        BeginOutcome::Hit(payload, content_type) => {
            assert_eq!(payload, b"the gif".to_vec());
            assert_eq!(content_type, "image/gif");
        }
        _ => panic!("a completed fingerprint must be a hit"),
    }
    match state.get(fp) {
        Some((payload, _)) => assert_eq!(payload, b"the gif".to_vec()),
        None => panic!("a completed fingerprint must be readable"),
    }
}

#[test]
fn miss_completion_makes_lookup_a_hit_with_identical_bytes() {
    let mut state = AppState::new(4, 1_000);
    let fp = 9u64;
    assert!(matches!(state.begin(fp), BeginOutcome::Start));
    let bytes = vec![0u8, 1, 2, 3, 250, 251, 252];
    assert!(state.complete(fp, bytes.clone(), "image/gif".to_string(), 7));
    let (payload, content_type) = state.get(fp).unwrap();
    assert_eq!(payload, bytes);
    assert_eq!(content_type, "image/gif");
}

#[test]
fn rejected_fetch_leaves_no_trace() {
    let mut state = AppState::new(8, 1_000);
    let fp = 5u64;
    assert!(matches!(state.begin(fp), BeginOutcome::Start));
    // The declared size is over the cap: nothing is buffered, the request
    // fails, and the marker is cleared.
    assert!(matches!(check_declared_len(Some(10 * MB), 5 * MB), Err(Error::PayloadTooLarge)));
    state.fail(fp);
    assert_eq!(state.get(fp), None);
    assert!(matches!(state.begin(fp), BeginOutcome::Start));
}

#[test]
fn retrieval_by_identifier() {
    let mut state = AppState::new(4, 1_000);
    let fp = 0xf2256cd2b555b3b4u64;
    assert!(matches!(state.begin(fp), BeginOutcome::Start));
    assert!(state.finish_miss(fp, gif_bytes(), TargetFormat::Gif, 0).is_ok());
    let id = encode_fingerprint_id(fp);
    let (payload, content_type) = state.get_by_id(&id).unwrap();
    assert_eq!(payload, gif_bytes());
    assert_eq!(content_type, "image/gif");
    assert_eq!(state.get_by_id("no such identifier"), None);
    assert_eq!(state.get_by_id("0000000000000000"), None);
}

#[test]
fn finish_miss_with_corrupt_input_caches_nothing() {
    let mut state = AppState::new(4, 1_000);
    let fp = 77u64;
    assert!(matches!(state.begin(fp), BeginOutcome::Start));
    let r = state.finish_miss(fp, b"garbage".to_vec(), TargetFormat::Gif, 0);
    assert!(matches!(r, Err(Error::UnsupportedOrCorruptInput)));
    assert_eq!(state.get(fp), None);
    assert!(matches!(state.begin(fp), BeginOutcome::Start));
}
