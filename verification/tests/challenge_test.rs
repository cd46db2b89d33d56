use a2s::challenge::{parse_challenge, with_challenge, NO_CHALLENGE};
use a2s::errors::Error;
use a2s::info::info_request;
use a2s::players::player_request;
use a2s::rules::rules_request;

#[test]
fn request_headers() {
    assert_eq!(
        info_request(),
        b"\xff\xff\xff\xffTSource Engine Query\0".to_vec()
    );
    assert_eq!(player_request(), vec![0xff, 0xff, 0xff, 0xff, 0x55]);
    assert_eq!(rules_request(), vec![0xff, 0xff, 0xff, 0xff, 0x56]);
}

#[test]
fn query_carries_challenge_token() {
    let q = with_challenge(&player_request(), NO_CHALLENGE);
    assert_eq!(q, vec![0xff, 0xff, 0xff, 0xff, 0x55, 0xff, 0xff, 0xff, 0xff]);
    let q = with_challenge(&rules_request(), 0x0a0b0c0d);
    assert_eq!(q, vec![0xff, 0xff, 0xff, 0xff, 0x56, 0x0d, 0x0c, 0x0b, 0x0a]);
}

#[test]
fn challenge_response_parses() {
    let mut data = vec![0x41];
    data.extend_from_slice(&(-559038737i32).to_le_bytes());
    assert_eq!(parse_challenge(&data), Ok(-559038737));
}

#[test]
fn challenge_response_wrong_marker() {
    let data = vec![0x42, 1, 2, 3, 4];
    assert_eq!(parse_challenge(&data), Err(Error::InvalidResponse));
}

#[test]
fn challenge_response_truncated() {
    assert_eq!(parse_challenge(&Vec::new()), Err(Error::Io));
    assert_eq!(parse_challenge(&vec![0x41, 1, 2]), Err(Error::Io));
}

#[test]
fn error_messages() {
    assert_eq!(Error::ErrTimeout.message(), "Socket timed out");
    assert_eq!(Error::MismatchID.message(), "Mismatch packet ID");
    assert_eq!(Error::InvalidBz2Size.message(), "Invalid Bz2 size");
    assert_eq!(
        Error::CheckSumMismatch.message(),
        "Decompressed checksum does not match"
    );
    assert_eq!(Error::Other("boom").message(), "boom");
}
