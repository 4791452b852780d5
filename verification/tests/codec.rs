//! Byte-level codecs: body lengths, headers, armor primitives, and
//! the errors they raise.

use openpgp_parse::armor::{armor_decode, b64_decode, b64_encode, crc24, Kind, ReaderMode};
use openpgp_parse::error::Error;
use openpgp_parse::header::{BodyLength, Header, PacketLengthType, CTB};
use openpgp_parse::reader::Reader;
use openpgp_parse::tag::Tag;

fn new_format(input: &[u8]) -> BodyLength {
    let mut bio = Reader::new(input.to_vec());
    BodyLength::parse_new_format(&mut bio).unwrap()
}

#[test]
fn body_length_new_format() {
    fn test(input: &[u8], expected_result: BodyLength) {
        assert_eq!(new_format(input), expected_result);
    }

    // Examples from Section 4.2.3 of RFC4880.

    // Example #1.
    test(&[0x64][..], BodyLength::Full(100));

    // Example #2.
    test(&[0xC5, 0xFB][..], BodyLength::Full(1723));

    // Example #3.
    test(&[0xFF, 0x00, 0x01, 0x86, 0xA0][..], BodyLength::Full(100000));

    // Example #4.
    test(&[0xEF][..], BodyLength::Partial(32768));
    test(&[0xE1][..], BodyLength::Partial(2));
    test(&[0xF0][..], BodyLength::Partial(65536));
    test(&[0xC5, 0xDD][..], BodyLength::Full(1693));
}

#[test]
fn body_length_old_format() {
    fn test(
        input: &[u8],
        plt: PacketLengthType,
        expected_result: BodyLength,
        expected_rest: &[u8],
    ) {
        let mut bio = Reader::new(input.to_vec());
        assert_eq!(
            BodyLength::parse_old_format(&mut bio, plt).unwrap(),
            expected_result
        );
        let rest = bio.data_eof();
        assert_eq!(rest, expected_rest.to_vec());
    }

    test(&[1], PacketLengthType::OneOctet, BodyLength::Full(1), &b""[..]);
    test(
        &[1, 2],
        PacketLengthType::TwoOctets,
        BodyLength::Full((1 << 8) + 2),
        &b""[..],
    );
    test(
        &[1, 2, 3, 4],
        PacketLengthType::FourOctets,
        BodyLength::Full((1 << 24) + (2 << 16) + (3 << 8) + 4),
        &b""[..],
    );
    test(
        &[1, 2, 3, 4, 5, 6],
        PacketLengthType::FourOctets,
        BodyLength::Full((1 << 24) + (2 << 16) + (3 << 8) + 4),
        &[5, 6][..],
    );
    test(
        &[1, 2, 3, 4],
        PacketLengthType::Indeterminate,
        BodyLength::Indeterminate,
        &[1, 2, 3, 4][..],
    );
}

#[test]
fn body_length_encode_roundtrip() {
    for n in [0u32, 1, 100, 191, 192, 1723, 8383, 8384, 100000, u32::MAX] {
        let enc = BodyLength::Full(n).encode_new().unwrap();
        assert_eq!(new_format(&enc), BodyLength::Full(n));
    }
    // The shortest forms from RFC 4880 come out exactly.
    assert_eq!(BodyLength::Full(100).encode_new().unwrap(), vec![0x64]);
    assert_eq!(BodyLength::Full(1723).encode_new().unwrap(), vec![0xC5, 0xFB]);
    assert_eq!(
        BodyLength::Full(100000).encode_new().unwrap(),
        vec![0xFF, 0x00, 0x01, 0x86, 0xA0]
    );
}

#[test]
fn body_length_encode_rejects_streaming_forms() {
    assert_eq!(
        BodyLength::Partial(512).encode_new(),
        Err(Error::InvalidArgument)
    );
    assert_eq!(
        BodyLength::Indeterminate.encode_new(),
        Err(Error::InvalidArgument)
    );
}

#[test]
fn header_parse_old_and_new() {
    // Old format: 0x88 is tag 2 (signature), one-octet length.
    let mut bio = Reader::new(vec![0x88, 0x03, 1, 2, 3]);
    let h = Header::parse(&mut bio).unwrap();
    assert_eq!(h.tag(), Tag::Signature);
    assert_eq!(h.length, BodyLength::Full(3));
    assert!(matches!(h.ctb, CTB::Old { .. }));
    assert!(h.valid().is_ok());

    // New format: 0xCB is tag 11 (literal data).
    let mut bio = Reader::new(vec![0xCB, 0x05]);
    let h = Header::parse(&mut bio).unwrap();
    assert_eq!(h.tag(), Tag::Literal);
    assert_eq!(h.length, BodyLength::Full(5));
    assert!(matches!(h.ctb, CTB::New { .. }));

    // A clear high bit is no packet header at all.
    let mut bio = Reader::new(vec![0x2D, 0x2D]);
    assert_eq!(Header::parse(&mut bio), Err(Error::MalformedPacketHeader));

    // Tag zero is reserved.
    let mut bio = Reader::new(vec![0xC0, 0x00]);
    assert_eq!(Header::parse(&mut bio), Err(Error::UnknownPacketTag));

    // The input may not end inside a header.
    let mut bio = Reader::new(vec![0xC2]);
    assert_eq!(Header::parse(&mut bio), Err(Error::TruncatedInput));

    // An unassigned tag parses but is not plausible.
    let mut bio = Reader::new(vec![0xC0 | 33, 0x00]);
    let h = Header::parse(&mut bio).unwrap();
    assert_eq!(h.tag(), Tag::Unknown(33));
    assert_eq!(h.valid(), Err(Error::UnknownPacketTag));
}

#[test]
fn tag_byte_roundtrip() {
    for b in 0u8..=63 {
        assert_eq!(Tag::from_byte(b).to_byte(), b);
    }
    assert_eq!(Tag::from_byte(6), Tag::PublicKey);
    assert_eq!(Tag::from_byte(2), Tag::Signature);
    assert_eq!(Tag::from_byte(9), Tag::Unknown(9));
    assert!(Tag::CompressedData.is_container());
    assert!(Tag::SEIP.is_container());
    assert!(Tag::AED.is_container());
    assert!(!Tag::Literal.is_container());
}

#[test]
fn crc24_known_value() {
    // The CRC-24 of the empty message is the initial value.
    assert_eq!(crc24(&Vec::new()), 0xB704CE);
    // A value checked against the armor fixture below.
    let sig = vec![
        0x88, 13, 4, 0, 1, 2, 0, 0, 0, 0, 0xAB, 0xCD, 0, 1, 1,
    ];
    assert_eq!(crc24(&sig), 0x77F5CC);
}

#[test]
fn base64_roundtrip_and_padding() {
    for data in [
        vec![],
        vec![0xAB],
        vec![0xAB, 0xCD],
        vec![0xAB, 0xCD, 0xEF],
        vec![1, 2, 3, 4, 5, 6, 7],
        (0u8..=255).collect::<Vec<u8>>(),
    ] {
        let enc = b64_encode(&data);
        assert_eq!(b64_decode(&enc), Some(data));
    }
    assert_eq!(b64_encode(&vec![0xAB]), b"qw==".to_vec());
    assert_eq!(b64_decode(&b"qw=".to_vec()), None);
    assert_eq!(b64_decode(&b"q!==".to_vec()), None);
}

fn armored_signature() -> Vec<u8> {
    b"-----BEGIN PGP SIGNATURE-----\n\niA0EAAECAAAAAKvNAAEB\n=d/XM\n-----END PGP SIGNATURE-----\n"
        .to_vec()
}

#[test]
fn armor_decode_signature() {
    let out = armor_decode(&armored_signature(), ReaderMode::Tolerant(None)).unwrap();
    assert_eq!(out.kind, Some(Kind::Signature));
    assert_eq!(
        out.payload,
        vec![0x88, 13, 4, 0, 1, 2, 0, 0, 0, 0, 0xAB, 0xCD, 0, 1, 1]
    );
    assert!(out.headers.is_empty());
}

#[test]
fn armor_decode_headers_and_checksum() {
    let text = b"-----BEGIN PGP SIGNATURE-----\nComment: a detached signature\n\niA0EAAECAAAAAKvNAAEB\n=d/XM\n-----END PGP SIGNATURE-----\n".to_vec();
    let out = armor_decode(&text, ReaderMode::Tolerant(None)).unwrap();
    assert_eq!(out.headers.len(), 1);
    assert_eq!(out.headers[0].0, b"Comment".to_vec());
    assert_eq!(out.headers[0].1, b"a detached signature".to_vec());

    // A corrupted checksum line is fatal.
    let bad = b"-----BEGIN PGP SIGNATURE-----\n\niA0EAAECAAAAAKvNAAEB\n=d/XN\n-----END PGP SIGNATURE-----\n".to_vec();
    assert_eq!(
        armor_decode(&bad, ReaderMode::Tolerant(None)),
        Err(Error::BadChecksum)
    );

    // A header line without a colon is fatal.
    let bad = b"-----BEGIN PGP SIGNATURE-----\nnonsense\n\niA0EAAECAAAAAKvNAAEB\n-----END PGP SIGNATURE-----\n".to_vec();
    assert_eq!(
        armor_decode(&bad, ReaderMode::Tolerant(None)),
        Err(Error::MalformedArmor)
    );
}

#[test]
fn armor_roundtrip_via_primitives() {
    // Armoring by hand out of the verified primitives, then decoding,
    // hands the payload back unchanged.
    let data: Vec<u8> = (0u8..100).collect();
    let mut text = b"-----BEGIN PGP MESSAGE-----\n\n".to_vec();
    text.extend_from_slice(&b64_encode(&data));
    text.push(b'\n');
    let c = crc24(&data);
    let crc_bytes = vec![(c >> 16) as u8, (c >> 8) as u8, c as u8];
    text.push(b'=');
    text.extend_from_slice(&b64_encode(&crc_bytes));
    text.push(b'\n');
    text.extend_from_slice(b"-----END PGP MESSAGE-----\n");
    let out = armor_decode(&text, ReaderMode::Tolerant(None)).unwrap();
    assert_eq!(out.kind, Some(Kind::Message));
    assert_eq!(out.payload, data);
}

#[test]
fn armor_no_begin_is_empty() {
    let out = armor_decode(&b"just some text\n".to_vec(), ReaderMode::Tolerant(None)).unwrap();
    assert_eq!(out.kind, None);
    assert!(out.payload.is_empty());
}

#[test]
fn armor_kind_filter() {
    // A reader told to expect a message ignores a signature block.
    let out = armor_decode(
        &armored_signature(),
        ReaderMode::Tolerant(Some(Kind::Message)),
    )
    .unwrap();
    assert_eq!(out.kind, None);
    let out = armor_decode(
        &armored_signature(),
        ReaderMode::Tolerant(Some(Kind::Signature)),
    )
    .unwrap();
    assert_eq!(out.kind, Some(Kind::Signature));
}

// A header written in the new format parses back to the same tag
// and length.
#[test]
fn header_encode_roundtrip() {
    for (tag, n) in [
        (Tag::Signature, 13u32),
        (Tag::Literal, 0),
        (Tag::CompressedData, 8384),
        (Tag::UserAttribute, 100000),
    ] {
        let h = Header::new(CTB::New { tag }, BodyLength::Full(n));
        let enc = h.encode_new().unwrap();
        let mut bio = Reader::new(enc);
        let back = Header::parse(&mut bio).unwrap();
        assert_eq!(back.tag(), tag);
        assert_eq!(back.length, BodyLength::Full(n));
        assert!(bio.at_eof());
    }
    // An old-format header re-encodes into the new format.
    let h = Header::new(
        CTB::Old {
            tag: Tag::Signature,
            length_type: PacketLengthType::OneOctet,
        },
        BodyLength::Full(13),
    );
    assert_eq!(h.encode_new().unwrap(), vec![0xC2, 13]);
    // A chunked length has no whole-packet form.
    let h = Header::new(CTB::New { tag: Tag::Literal }, BodyLength::Partial(512));
    assert_eq!(h.encode_new(), Err(Error::InvalidArgument));
}
