use a2s::errors::Error;
use a2s::transport::{parse_response, Reassembly, Response};

const MAX_SIZE: usize = 1400;

/// First datagram of a multi-packet response: header -2, id, total, number,
/// switch size, a 4-byte legacy artifact, then the fragment payload.
fn first_datagram(id: u32, total: u8, number: u8, switch: u16, payload: &[u8]) -> Vec<u8> {
    let mut d = vec![0xfe, 0xff, 0xff, 0xff];
    d.extend_from_slice(&id.to_le_bytes());
    d.push(total);
    d.push(number);
    d.extend_from_slice(&switch.to_le_bytes());
    d.extend_from_slice(&[0xff, 0xff, 0xff, 0xff]);
    d.extend_from_slice(payload);
    d
}

/// A later datagram of an uncompressed multi-packet response: header -2, id,
/// total, number, switch size, then the fragment payload.
fn later_datagram(id: u32, total: u8, number: u8, switch: u16, payload: &[u8]) -> Vec<u8> {
    let mut d = vec![0xfe, 0xff, 0xff, 0xff];
    d.extend_from_slice(&id.to_le_bytes());
    d.push(total);
    d.push(number);
    d.extend_from_slice(&switch.to_le_bytes());
    d.extend_from_slice(payload);
    d
}

fn multi(r: Result<Response, Error>) -> Reassembly {
    match r.expect("expected a multi-packet response") {
        Response::Multi(m) => m,
        Response::Single(_) => panic!("expected a multi-packet response"),
    }
}

#[test]
fn single_packet_payload_unchanged() {
    let mut datagram = vec![0xff, 0xff, 0xff, 0xff];
    let payload: Vec<u8> = (0u8..37).collect();
    datagram.extend_from_slice(&payload);
    match parse_response(datagram, MAX_SIZE).unwrap() {
        Response::Single(p) => assert_eq!(p, payload),
        Response::Multi(_) => panic!("expected a single-packet response"),
    }
}

#[test]
fn single_packet_empty_payload() {
    let datagram = vec![0xff, 0xff, 0xff, 0xff];
    match parse_response(datagram, MAX_SIZE).unwrap() {
        Response::Single(p) => assert_eq!(p, Vec::<u8>::new()),
        Response::Multi(_) => panic!("expected a single-packet response"),
    }
}

#[test]
fn two_fragments_out_of_order_reassemble() {
    // Two fragments sharing id 0x00000007, ordinals 1 and 0 received in that
    // order, total 2, each carrying half of a 20-byte payload: the result is
    // the full 20 bytes in ordinal order.
    let full: Vec<u8> = (0u8..20).collect();
    let id = 0x0000_0007u32;
    let d1 = first_datagram(id, 2, 1, 1248, &full[10..]);
    let d0 = later_datagram(id, 2, 0, 1248, &full[..10]);
    let mut m = multi(parse_response(d1, MAX_SIZE));
    assert!(m.needs_more());
    m.add_datagram(d0).unwrap();
    assert!(!m.needs_more());
    assert_eq!(m.finish().unwrap(), full);

    // The same two fragments received in the opposite order give the same
    // payload.
    let d0 = first_datagram(id, 2, 0, 1248, &full[..10]);
    let d1 = later_datagram(id, 2, 1, 1248, &full[10..]);
    let mut m = multi(parse_response(d0, MAX_SIZE));
    m.add_datagram(d1).unwrap();
    assert_eq!(m.finish().unwrap(), full);
}

#[test]
fn fragment_id_mismatch_is_fatal() {
    let id = 0x0000_0007u32;
    let d0 = first_datagram(id, 2, 0, 1248, &[1, 2, 3]);
    let stale = later_datagram(0x0000_0008, 2, 1, 1248, &[4, 5, 6]);
    let mut m = multi(parse_response(d0, MAX_SIZE));
    assert_eq!(m.add_datagram(stale), Err(Error::MismatchID));
}

#[test]
fn too_many_fragments_rejected() {
    let d = first_datagram(7, 33, 0, 1248, &[1, 2, 3]);
    assert_eq!(
        parse_response(d, MAX_SIZE).err().unwrap(),
        Error::InvalidResponse
    );
}

#[test]
fn oversized_switch_size_rejected() {
    let d = first_datagram(7, 2, 0, 1401, &[1, 2, 3]);
    assert_eq!(
        parse_response(d, MAX_SIZE).err().unwrap(),
        Error::InvalidResponse
    );
}

#[test]
fn zero_total_rejected() {
    let d = first_datagram(7, 0, 0, 1248, &[1, 2, 3]);
    assert_eq!(
        parse_response(d, MAX_SIZE).err().unwrap(),
        Error::InvalidResponse
    );
}

#[test]
fn short_followup_datagram_rejected() {
    let d0 = first_datagram(7, 2, 0, 1248, &[1, 2, 3]);
    let mut m = multi(parse_response(d0, MAX_SIZE));
    let runt = vec![0xfe, 0xff, 0xff, 0xff, 0x07, 0x00, 0x00, 0x00, 0x02];
    assert_eq!(m.add_datagram(runt), Err(Error::InvalidResponse));
}

#[test]
fn duplicate_ordinal_rejected() {
    let id = 7u32;
    let d0 = first_datagram(id, 3, 0, 1248, &[1, 2, 3]);
    let dup = later_datagram(id, 3, 0, 1248, &[9, 9, 9]);
    let mut m = multi(parse_response(d0, MAX_SIZE));
    assert_eq!(m.add_datagram(dup), Err(Error::InvalidResponse));
}

#[test]
fn unknown_header_rejected() {
    let d = vec![0xfd, 0xff, 0xff, 0xff, 0x01];
    assert_eq!(
        parse_response(d, MAX_SIZE).err().unwrap(),
        Error::InvalidResponse
    );
}

#[test]
fn runt_datagram_rejected() {
    assert_eq!(
        parse_response(vec![0xff, 0xff], MAX_SIZE).err().unwrap(),
        Error::InvalidResponse
    );
}

fn bz2_compress(data: &[u8]) -> Vec<u8> {
    let mut enc = bzip2::read::BzEncoder::new(data, bzip2::Compression::best());
    let mut out = Vec::new();
    std::io::Read::read_to_end(&mut enc, &mut out).unwrap();
    out
}

fn crc32(data: &[u8]) -> u32 {
    crc::Crc::<u32>::new(&crc::CRC_32_ISO_HDLC).checksum(data)
}

/// First datagram of a compressed multi-packet response: the envelope, the
/// declared decompressed size and checksum, then the compressed payload.
fn compressed_first_datagram(
    id: u32,
    total: u8,
    number: u8,
    switch: u16,
    size: u32,
    checksum: u32,
    payload: &[u8],
) -> Vec<u8> {
    let mut d = vec![0xfe, 0xff, 0xff, 0xff];
    d.extend_from_slice(&id.to_le_bytes());
    d.push(total);
    d.push(number);
    d.extend_from_slice(&switch.to_le_bytes());
    d.extend_from_slice(&size.to_le_bytes());
    d.extend_from_slice(&checksum.to_le_bytes());
    d.extend_from_slice(payload);
    d
}

#[test]
fn compressed_response_decompresses_and_verifies() {
    let original: Vec<u8> = (0u8..200).cycle().take(600).collect();
    let compressed = bz2_compress(&original);
    let id = 0x8000_0007u32;
    let d = compressed_first_datagram(
        id,
        1,
        0,
        1248,
        original.len() as u32,
        crc32(&original),
        &compressed,
    );
    let m = multi(parse_response(d, MAX_SIZE));
    assert!(!m.needs_more());
    assert_eq!(m.finish().unwrap(), original);
}

#[test]
fn compressed_response_checksum_mismatch() {
    // The declared checksum belongs to the original payload, but one
    // decompressed byte differs: reassembly must fail with a checksum error.
    let original: Vec<u8> = (0u8..200).cycle().take(600).collect();
    let mut altered = original.clone();
    altered[123] ^= 0x01;
    let compressed = bz2_compress(&altered);
    let id = 0x8000_0007u32;
    let d = compressed_first_datagram(
        id,
        1,
        0,
        1248,
        altered.len() as u32,
        crc32(&original),
        &compressed,
    );
    let m = multi(parse_response(d, MAX_SIZE));
    assert_eq!(m.finish(), Err(Error::CheckSumMismatch));
}

#[test]
fn compressed_response_size_bound() {
    // A declared decompressed size over 1 MiB is rejected before any
    // decompression happens.
    let original: Vec<u8> = (0u8..100).collect();
    let compressed = bz2_compress(&original);
    let id = 0x8000_0007u32;
    let d = compressed_first_datagram(id, 1, 0, 1248, 1024 * 1024 + 1, crc32(&original), &compressed);
    let m = multi(parse_response(d, MAX_SIZE));
    assert_eq!(m.finish(), Err(Error::InvalidBz2Size));
}

#[test]
fn compressed_two_fragments() {
    let original: Vec<u8> = (0u8..200).cycle().take(900).collect();
    let compressed = bz2_compress(&original);
    let half = compressed.len() / 2;
    let id = 0x8000_0001u32;
    let d0 = compressed_first_datagram(
        id,
        2,
        0,
        1248,
        original.len() as u32,
        crc32(&original),
        &compressed[..half],
    );
    // Later datagrams of a compressed response carry their payload after the
    // size/checksum header offset.
    let mut d1 = vec![0xfe, 0xff, 0xff, 0xff];
    d1.extend_from_slice(&id.to_le_bytes());
    d1.push(2);
    d1.push(1);
    d1.extend_from_slice(&1248u16.to_le_bytes());
    d1.extend_from_slice(&[0u8; 8]);
    d1.extend_from_slice(&compressed[half..]);
    let mut m = multi(parse_response(d0, MAX_SIZE));
    m.add_datagram(d1).unwrap();
    assert_eq!(m.finish().unwrap(), original);
}
