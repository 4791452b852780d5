//! The streaming parser, the eager tree builder, and the verdicts.

use openpgp_parse::body::parse_body;
use openpgp_parse::error::Error;
use openpgp_parse::packet::{Common, Container, Packet, SKESK, S2K};
use openpgp_parse::parse::{Dearmor, PacketParserBuilder, PacketParserResult};
use openpgp_parse::pile::PacketPile;
use openpgp_parse::tag::Tag;
use openpgp_parse::validate::{KeyringValidator, MessageValidator, TPKValidator};

/// A new-format literal-data packet holding `data` with an empty
/// file name and a zero date.
fn literal(data: &[u8]) -> Vec<u8> {
    let mut body = vec![0x62, 0x00, 0, 0, 0, 0];
    body.extend_from_slice(data);
    let mut out = vec![0xCB, body.len() as u8];
    out.extend_from_slice(&body);
    out
}

/// A new-format compressed-data packet, stored uncompressed, whose
/// content is `children`.
fn compressed(children: &[u8]) -> Vec<u8> {
    let mut out = vec![0xC8, (children.len() + 1) as u8, 0x00];
    out.extend_from_slice(children);
    out
}

/// `k` levels of compressed-data packets around one literal.
fn recursive_message(k: usize) -> Vec<u8> {
    let mut msg = literal(b"data");
    for _ in 0..k {
        msg = compressed(&msg);
    }
    msg
}

/// The detached binary signature used across these tests: an
/// old-format header (first byte 0x88) and a version 4 body.
fn binary_signature() -> Vec<u8> {
    vec![0x88, 13, 4, 0, 1, 2, 0, 0, 0, 0, 0xAB, 0xCD, 0, 1, 1]
}

/// The same signature, ASCII armored.
fn armored_signature() -> Vec<u8> {
    b"-----BEGIN PGP SIGNATURE-----\n\niA0EAAECAAAAAKvNAAEB\n=d/XM\n-----END PGP SIGNATURE-----\n"
        .to_vec()
}

/// A version 4 public-key packet body for RSA with tiny MPIs.
fn key_body() -> Vec<u8> {
    vec![4, 0, 0, 0, 1, 1, 0, 1, 1, 0, 2, 3]
}

fn key_packet(tag_octet: u8) -> Vec<u8> {
    let body = key_body();
    let mut out = vec![0xC0 | tag_octet, body.len() as u8];
    out.extend_from_slice(&body);
    out
}

fn userid_packet() -> Vec<u8> {
    let mut out = vec![0xCD, 5];
    out.extend_from_slice(b"alice");
    out
}

/// Drives a cursor to the end, always recursing, and collects each
/// packet's path and tag.
fn drive(
    mut cur: PacketParserResult,
) -> Result<(Vec<(Vec<usize>, Tag)>, openpgp_parse::parse::PacketParserEOF), Error> {
    let mut seen: Vec<(Vec<usize>, Tag)> = Vec::new();
    loop {
        match cur {
            PacketParserResult::Active(pp) => {
                seen.push((pp.path().clone(), pp.packet.tag()));
                let (_packet, step) = pp.recurse()?;
                cur = step;
            }
            PacketParserResult::EOF(eof) => {
                return Ok((seen, eof));
            }
        }
    }
}

fn parse_all(bytes: &[u8]) -> (Vec<(Vec<usize>, Tag)>, openpgp_parse::parse::PacketParserEOF) {
    let cur = PacketParserBuilder::from_bytes(bytes)
        .unwrap()
        .finalize()
        .unwrap();
    drive(cur).unwrap()
}

/// The depth-first paths of a tree, computed by naive recursion.
fn naive_paths(packets: &Vec<Packet>) -> Vec<Vec<usize>> {
    let mut lpaths: Vec<Vec<usize>> = Vec::new();
    for (i, packet) in packets.iter().enumerate() {
        let mut v = Vec::new();
        v.push(i);
        lpaths.push(v);

        if let Some(children) = packet.container_ref() {
            for mut path in naive_paths(children.children()).into_iter() {
                path.insert(0, i);
                lpaths.push(path);
            }
        }
    }
    lpaths
}

// Walks the tree two ways and compares: the naive recursion and the
// `paths` walk must agree, and `path_ref` must lead back to every
// walked packet.
#[test]
fn packet_path_iter() {
    for i in 1..5 {
        let pile = PacketPile::from_bytes(&recursive_message(i)).unwrap();

        let mut paths1: Vec<Vec<usize>> = Vec::new();
        for path in naive_paths(pile.children()).iter() {
            paths1.push(path.clone());
        }

        let mut paths2: Vec<Vec<usize>> = Vec::new();
        let mut iter = pile.descendants().paths();
        while let Some((path, packet)) = iter.next() {
            assert_eq!(Some(packet), pile.path_ref(&path[..]));
            paths2.push(path);
        }

        assert_eq!(paths1, paths2);
    }
}

#[test]
fn armor() {
    // Not ASCII armor encoded data.
    let msg = binary_signature();

    // Make sure we can read the first packet.
    let ppr = PacketParserBuilder::from_bytes(&msg)
        .unwrap()
        .dearmor(Dearmor::Disabled)
        .finalize();
    assert!(matches!(ppr, Ok(PacketParserResult::Active(ref _pp))));

    let ppr = PacketParserBuilder::from_bytes(&msg)
        .unwrap()
        .dearmor(Dearmor::Auto(Default::default()))
        .finalize();
    assert!(matches!(ppr, Ok(PacketParserResult::Active(ref _pp))));

    let ppr = PacketParserBuilder::from_bytes(&msg)
        .unwrap()
        .dearmor(Dearmor::Enabled(Default::default()))
        .finalize();
    // The armor reader finds no armor in binary input and hands back
    // an empty stream.
    assert!(matches!(ppr, Ok(PacketParserResult::EOF(ref _pp))));

    // ASCII armor encoded data.
    let msg = armored_signature();

    // Make sure we can read the first packet.
    let ppr = PacketParserBuilder::from_bytes(&msg)
        .unwrap()
        .dearmor(Dearmor::Disabled)
        .finalize();
    assert!(matches!(ppr, Err(_)));

    let ppr = PacketParserBuilder::from_bytes(&msg)
        .unwrap()
        .dearmor(Dearmor::Auto(Default::default()))
        .finalize();
    assert!(matches!(ppr, Ok(PacketParserResult::Active(ref _pp))));

    let ppr = PacketParserBuilder::from_bytes(&msg)
        .unwrap()
        .dearmor(Dearmor::Enabled(Default::default()))
        .finalize();
    assert!(matches!(ppr, Ok(PacketParserResult::Active(ref _pp))));
}

// The armored and the binary form of the same signature decode to
// the same packet.
#[test]
fn armored_and_binary_agree() {
    let from_binary = match PacketParserBuilder::from_bytes(&binary_signature())
        .unwrap()
        .finalize()
        .unwrap()
    {
        PacketParserResult::Active(pp) => pp.recurse().unwrap().0,
        PacketParserResult::EOF(_) => panic!("expected a packet"),
    };
    let from_armor = match PacketParserBuilder::from_bytes(&armored_signature())
        .unwrap()
        .finalize()
        .unwrap()
    {
        PacketParserResult::Active(pp) => pp.recurse().unwrap().0,
        PacketParserResult::EOF(_) => panic!("expected a packet"),
    };
    assert_eq!(from_binary, from_armor);
    match from_binary {
        Packet::Signature(sig) => assert_eq!(sig.version(), 4),
        _ => panic!("expected a signature"),
    }
}

// A synthetic message with 4 levels of nested compressed-data
// packets yields 5 packets on a straight descent.
#[test]
fn recursive_depth() {
    let (seen, _) = parse_all(&recursive_message(4));
    let expected: Vec<Vec<usize>> = vec![
        vec![0],
        vec![0, 0],
        vec![0, 0, 0],
        vec![0, 0, 0, 0],
        vec![0, 0, 0, 0, 0],
    ];
    assert_eq!(seen.len(), 5);
    for (i, (path, tag)) in seen.iter().enumerate() {
        assert_eq!(path, &expected[i]);
        if i < 4 {
            assert_eq!(*tag, Tag::CompressedData);
        } else {
            assert_eq!(*tag, Tag::Literal);
        }
    }
}

// The streaming cursor, always recursing, reports the same paths
// and tags as the eager tree walk.
#[test]
fn streaming_matches_eager() {
    let mut msg = recursive_message(3);
    msg.extend_from_slice(&literal(b"tail"));
    let (seen, _) = parse_all(&msg);

    let pile = PacketPile::from_bytes(&msg).unwrap();
    let mut walked: Vec<(Vec<usize>, Tag)> = Vec::new();
    let mut iter = pile.descendants().paths();
    while let Some((path, packet)) = iter.next() {
        walked.push((path, packet.tag()));
    }
    assert_eq!(seen, walked);
}

// With max_recursion_depth = k, no path is ever longer than k + 1.
#[test]
fn depth_cap() {
    for k in 0u8..4 {
        let cur = PacketParserBuilder::from_bytes(&recursive_message(4))
            .unwrap()
            .max_recursion_depth(k)
            .finalize()
            .unwrap();
        let (seen, _) = drive(cur).unwrap();
        assert_eq!(seen.len(), k as usize + 1);
        for (path, _) in seen.iter() {
            assert!(path.len() <= k as usize + 1);
        }
    }
}

// Unread content of a non-container is dropped by default and kept
// when buffering is on; a container's content is never dropped.
#[test]
fn buffer_unread_content() {
    // A literal's data is unread content of a non-container.
    let msg = literal(b"data");

    let cur = PacketParserBuilder::from_bytes(&msg)
        .unwrap()
        .buffer_unread_content()
        .finalize()
        .unwrap();
    let pp = match cur {
        PacketParserResult::Active(pp) => pp,
        _ => panic!("expected a packet"),
    };
    let (packet, _) = pp.next().unwrap();
    assert_eq!(packet.common().body(), Some(&b"data"[..]));

    let cur = PacketParserBuilder::from_bytes(&msg).unwrap().finalize().unwrap();
    let pp = match cur {
        PacketParserResult::Active(pp) => pp,
        _ => panic!("expected a packet"),
    };
    let (packet, _) = pp.next().unwrap();
    assert_eq!(packet.common().body(), None);
}

// A container whose recursion is declined or capped keeps its
// remaining bytes as its body, whatever the settings say.
#[test]
fn capped_container_keeps_body() {
    let inner = literal(b"data");
    let msg = compressed(&inner);

    // Recursion capped at depth zero: recurse() cannot descend.
    let cur = PacketParserBuilder::from_bytes(&msg)
        .unwrap()
        .max_recursion_depth(0)
        .finalize()
        .unwrap();
    let pp = match cur {
        PacketParserResult::Active(pp) => pp,
        _ => panic!("expected a packet"),
    };
    let (packet, _) = pp.recurse().unwrap();
    assert_eq!(packet.common().body(), Some(&inner[..]));

    // Recursion declined outright.
    let cur = PacketParserBuilder::from_bytes(&msg).unwrap().finalize().unwrap();
    let pp = match cur {
        PacketParserResult::Active(pp) => pp,
        _ => panic!("expected a packet"),
    };
    let (packet, _) = pp.next().unwrap();
    assert_eq!(packet.common().body(), Some(&inner[..]));
}

// A packet whose body decoder fails comes back as Unknown with the
// body kept byte for byte.
#[test]
fn unknown_preservation() {
    let body = vec![5u8, 1, 2, 3, 4];
    let (p, rest) = parse_body(Tag::Signature, body.clone());
    assert!(rest.is_empty());
    match p {
        Packet::Unknown(u) => {
            assert_eq!(u.tag, Tag::Signature);
            assert_eq!(u.error, Error::UnsupportedPacketVersion(5));
            assert_eq!(u.common.body, Some(body));
        }
        _ => panic!("expected an unknown packet"),
    }
}

#[test]
fn body_decode_errors() {
    // A marker packet must hold exactly `PGP`.
    let (p, _) = parse_body(Tag::Marker, b"PGQ".to_vec());
    match p {
        Packet::Unknown(u) => assert_eq!(u.error, Error::MalformedPacket),
        _ => panic!("expected an unknown packet"),
    }

    // A session key whose MPI length field overruns the body.
    let mut pkesk = vec![3u8, 1, 2, 3, 4, 5, 6, 7, 8, 1];
    pkesk.extend_from_slice(&[0xFF, 0xFF, 1]);
    let (p, _) = parse_body(Tag::PKESK, pkesk);
    match p {
        Packet::Unknown(u) => assert_eq!(u.error, Error::MalformedMPI),
        _ => panic!("expected an unknown packet"),
    }

    // A body shorter than its fixed fields.
    let (p, _) = parse_body(Tag::Literal, vec![0x62]);
    match p {
        Packet::Unknown(u) => assert_eq!(u.error, Error::TruncatedInput),
        _ => panic!("expected an unknown packet"),
    }

    // An unassigned tag is kept whole.
    let (p, _) = parse_body(Tag::Unknown(33), vec![1, 2, 3]);
    match p {
        Packet::Unknown(u) => {
            assert_eq!(u.error, Error::UnknownPacketTag);
            assert_eq!(u.common.body, Some(vec![1, 2, 3]));
        }
        _ => panic!("expected an unknown packet"),
    }
}

// A body declared longer than the stream is a fatal framing error.
#[test]
fn truncated_stream() {
    let ppr = PacketParserBuilder::from_bytes(&[0xC2, 0x05, 0x01])
        .unwrap()
        .dearmor(Dearmor::Disabled)
        .finalize();
    assert_eq!(
        match ppr {
            Err(e) => e,
            _ => panic!("expected an error"),
        },
        Error::TruncatedInput
    );
}

// Partial-body chunking is reassembled transparently.
#[test]
fn partial_body_literal() {
    // Literal body: six fixed octets and four of data, cut into a
    // two-octet chunk, two one-octet chunks, and a final full chunk.
    let msg = vec![
        0xCB, 0xE1, 0x62, 0x00, 0xE0, 0x00, 0xE0, 0x00, 0xFF, 0x00, 0x00, 0x00, 0x06, 0x00, 0x00,
        b'd', b'a', b't', b'a',
    ];
    let pile = PacketPile::from_bytes(&msg).unwrap();
    assert_eq!(pile.children().len(), 1);
    match &pile.children()[0] {
        Packet::Literal(l) => {
            assert_eq!(l.format, 0x62);
            assert!(l.filename.is_empty());
            assert_eq!(l.date, 0);
            assert_eq!(l.common.body, Some(b"data".to_vec()));
        }
        _ => panic!("expected a literal packet"),
    }
}

// An old-format indeterminate length runs to the end of its level.
#[test]
fn indeterminate_compressed() {
    let mut msg = vec![0xA3, 0x00];
    msg.extend_from_slice(&literal(b"deep"));
    let pile = PacketPile::from_bytes(&msg).unwrap();
    let tags: Vec<Vec<usize>> = naive_paths(pile.children());
    assert_eq!(tags, vec![vec![0], vec![0, 0]]);
    match &pile.children()[0] {
        Packet::CompressedData(c) => assert_eq!(c.algo, 0),
        _ => panic!("expected a compressed-data packet"),
    }
}

#[test]
fn message_verdicts() {
    let (_, eof) = parse_all(&literal(b"hi"));
    assert!(eof.is_message());
    assert!(!eof.is_keyring());
    assert!(!eof.is_tpk());

    let (_, eof) = parse_all(&compressed(&literal(b"hi")));
    assert!(eof.is_message());

    // A lone trust packet is no message.
    let (_, eof) = parse_all(&[0xCC, 0x01, 0x00]);
    assert!(!eof.is_message());

    // An encrypted message: session keys, then the container.
    let mut msg = vec![0xC3, 0x06, 4, 9, 0x03, 8, 1, 2];
    msg.extend_from_slice(&[0xD2, 0x03, 1, 9, 9]);
    let (_, eof) = parse_all(&msg);
    assert!(eof.is_message());
}

#[test]
fn key_verdicts() {
    let mut tpk = key_packet(6);
    tpk.extend_from_slice(&userid_packet());
    tpk.extend_from_slice(&binary_signature());
    let (_, eof) = parse_all(&tpk);
    assert!(eof.is_tpk());
    assert!(eof.is_keyring());
    assert!(!eof.is_message());

    // A subkey and its binding signature may follow.
    let mut full = tpk.clone();
    full.extend_from_slice(&key_packet(14));
    full.extend_from_slice(&binary_signature());
    let (_, eof) = parse_all(&full);
    assert!(eof.is_tpk());

    // Two keys are a keyring, not one key.
    let mut ring = tpk.clone();
    ring.extend_from_slice(&tpk);
    let (_, eof) = parse_all(&ring);
    assert!(eof.is_keyring());
    assert!(!eof.is_tpk());

    // A key without a user ID is not done.
    let (_, eof) = parse_all(&key_packet(6));
    assert!(!eof.is_tpk());
}

#[test]
fn key_fields_and_comparison() {
    let (p, rest) = parse_body(Tag::PublicKey, key_body());
    assert!(rest.is_empty());
    let a = match p {
        Packet::PublicKey(k) => k,
        _ => panic!("expected a public key"),
    };
    assert_eq!(a.version(), 4);
    let (p, _) = parse_body(Tag::PublicKey, key_body());
    let b = match p {
        Packet::PublicKey(k) => k,
        _ => panic!("expected a public key"),
    };
    assert_eq!(
        openpgp_parse::packet::Key::public_cmp(&a, &b),
        std::cmp::Ordering::Equal
    );

    let mut other = key_body();
    let n = other.len();
    other[n - 1] = 9;
    let (p, _) = parse_body(Tag::PublicKey, other);
    let c = match p {
        Packet::PublicKey(k) => k,
        _ => panic!("expected a public key"),
    };
    assert!(openpgp_parse::packet::Key::public_cmp(&a, &c) != std::cmp::Ordering::Equal);
}

#[test]
fn skesk_and_versions() {
    // Version 4 with an iterated, salted S2K.
    let body = vec![4u8, 9, 3, 2, 1, 2, 3, 4, 5, 6, 7, 8, 96];
    let (p, _) = parse_body(Tag::SKESK, body);
    match p {
        Packet::SKESK(SKESK::V4(s)) => {
            assert_eq!(s.sym_algo, 9);
            match &s.s2k {
                S2K::Iterated {
                    hash_algo,
                    salt,
                    coded_count,
                } => {
                    assert_eq!(*hash_algo, 2);
                    assert_eq!(salt, &vec![1, 2, 3, 4, 5, 6, 7, 8]);
                    assert_eq!(*coded_count, 96);
                }
                _ => panic!("expected an iterated S2K"),
            }
            assert!(s.esk.is_empty());
        }
        _ => panic!("expected a version 4 SKESK"),
    }

    // Version 5 carries an AEAD algorithm and its IV.
    let mut body = vec![5u8, 9, 2, 0, 2];
    body.extend_from_slice(&[7u8; 15]);
    body.extend_from_slice(&[1, 2, 3]);
    let (p, _) = parse_body(Tag::SKESK, body);
    match p {
        Packet::SKESK(ref s) => assert_eq!(s.version(), 5),
        _ => panic!("expected a SKESK"),
    }
}

#[test]
fn common_body_and_containers() {
    let mut c = Common::default();
    assert!(c.body().is_none());
    let old = c.set_body(b"abc".to_vec());
    assert!(old.is_empty());
    assert_eq!(c.body(), Some(&b"abc"[..]));
    let old = c.set_body(Vec::new());
    assert_eq!(old, b"abc".to_vec());
    assert!(c.body().is_none());

    let mut container = Container::new();
    let (p1, _) = parse_body(Tag::UserID, b"u1".to_vec());
    let (p2, _) = parse_body(Tag::UserID, b"u2".to_vec());
    let (p3, _) = parse_body(Tag::UserID, b"u3".to_vec());
    container.push(p2);
    container.insert(0, p1);
    container.push(p3);
    let names: Vec<&[u8]> = container
        .children()
        .iter()
        .map(|p| match p {
            Packet::UserID(u) => &u.value[..],
            _ => panic!("expected a user ID"),
        })
        .collect();
    assert_eq!(names, vec![&b"u1"[..], &b"u2"[..], &b"u3"[..]]);
}

// Enabling the map buffers unread content, as buffer_unread_content
// does, even for a non-container.
#[test]
fn map_implies_buffering() {
    let msg = literal(b"data");
    let cur = PacketParserBuilder::from_bytes(&msg)
        .unwrap()
        .map(true)
        .finalize()
        .unwrap();
    let pp = match cur {
        PacketParserResult::Active(pp) => pp,
        _ => panic!("expected a packet"),
    };
    let (packet, _) = pp.next().unwrap();
    assert_eq!(packet.common().body(), Some(&b"data"[..]));
}

// Dropping unread content is the default and can be restored.
#[test]
fn drop_unread_content_restores_default() {
    let msg = literal(b"data");
    let cur = PacketParserBuilder::from_bytes(&msg)
        .unwrap()
        .buffer_unread_content()
        .drop_unread_content()
        .finalize()
        .unwrap();
    let pp = match cur {
        PacketParserResult::Active(pp) => pp,
        _ => panic!("expected a packet"),
    };
    let (packet, _) = pp.next().unwrap();
    assert_eq!(packet.common().body(), None);
}

#[test]
fn key_into_packet() {
    let (p, _) = parse_body(Tag::PublicKey, key_body());
    let key = match p {
        Packet::PublicKey(k) => k,
        _ => panic!("expected a public key"),
    };
    let p = key.into_packet(Tag::SecretKey).unwrap();
    assert_eq!(p.tag(), Tag::SecretKey);
    let key = match p {
        Packet::SecretKey(k) => k,
        _ => panic!("expected a secret key"),
    };
    assert_eq!(key.into_packet(Tag::Literal), Err(Error::InvalidArgument));
}

// Walking below one packet starts at its children.
#[test]
fn common_descendants() {
    let pile = PacketPile::from_bytes(&recursive_message(2)).unwrap();
    let top = &pile.children()[0];
    let mut iter = top.common().descendants();
    let mut tags = Vec::new();
    while let Some(p) = iter.next() {
        tags.push(p.tag());
    }
    assert_eq!(tags, vec![Tag::CompressedData, Tag::Literal]);

    let (leaf, _) = parse_body(Tag::UserID, b"u".to_vec());
    assert!(leaf.common().descendants().next().is_none());
}

#[test]
fn packet_versions() {
    let mut msg = vec![0xC4, 13, 3, 0, 2, 1];
    msg.extend_from_slice(&[9u8; 8]);
    msg.push(1);
    let (p, _) = parse_body(Tag::OnePassSig, msg[2..].to_vec());
    match p {
        Packet::OnePassSig(ops) => assert_eq!(ops.version(), 3),
        _ => panic!("expected a one-pass signature"),
    }

    let mut pkesk = vec![3u8];
    pkesk.extend_from_slice(&[8u8; 8]);
    pkesk.push(1);
    pkesk.extend_from_slice(&[0, 1, 1]);
    let (p, _) = parse_body(Tag::PKESK, pkesk);
    match p {
        Packet::PKESK(k) => assert_eq!(k.version(), 3),
        _ => panic!("expected a PKESK"),
    }

    let (p, _) = parse_body(Tag::SEIP, vec![1, 2, 3]);
    match p {
        Packet::SEIP(s) => assert_eq!(s.version(), 1),
        _ => panic!("expected a SEIP packet"),
    }

    let mut aed = vec![1u8, 9, 1, 6];
    aed.extend_from_slice(&[4u8; 16]);
    aed.extend_from_slice(&[0xAA, 0xBB]);
    let (p, _) = parse_body(Tag::AED, aed);
    match p {
        Packet::AED(a) => assert_eq!(a.version(), 1),
        _ => panic!("expected an AED packet"),
    }
}

// The three validator structs judge pushed tags directly.
#[test]
fn validator_structs() {
    let mut v = MessageValidator::new();
    assert!(!v.is_message());
    v.push(Tag::OnePassSig);
    v.push(Tag::Literal);
    assert!(!v.is_message());
    v.push(Tag::Signature);
    assert!(v.is_message());

    let mut v = TPKValidator::new();
    v.push(Tag::PublicKey);
    assert!(!v.is_tpk());
    v.push(Tag::UserID);
    v.push(Tag::Signature);
    assert!(v.is_tpk());
    v.push(Tag::PublicKey);
    assert!(!v.is_tpk());

    let mut v = KeyringValidator::new();
    v.push(Tag::PublicKey);
    v.push(Tag::UserID);
    v.push(Tag::PublicKey);
    v.push(Tag::UserID);
    assert!(v.is_keyring());
    v.push(Tag::Literal);
    assert!(!v.is_keyring());
}

// Giving a packet actual children displaces any buffered body, so
// a container never holds both.
#[test]
fn children_displace_body() {
    let (mut p, _) = parse_body(Tag::CompressedData, vec![0x00, 0xCB]);
    p.set_body(b"left over".to_vec());
    assert!(p.common().body().is_some());
    let mut c = Container::new();
    let (child, _) = parse_body(Tag::UserID, b"u".to_vec());
    c.push(child);
    p.set_children(c);
    assert!(p.common().body().is_none());
    assert_eq!(p.common().children.as_ref().map(|c| c.packets.len()), Some(1));
}

// Under Disabled, a stream whose first header does not decode is
// refused with that header's own error.
#[test]
fn disabled_bad_header_errors() {
    let ppr = PacketParserBuilder::from_bytes(&[0x00, 0x01])
        .unwrap()
        .dearmor(Dearmor::Disabled)
        .finalize();
    assert_eq!(
        match ppr {
            Err(e) => e,
            _ => panic!("expected an error"),
        },
        Error::MalformedPacketHeader
    );
    let ppr = PacketParserBuilder::from_bytes(&[0xC0])
        .unwrap()
        .dearmor(Dearmor::Disabled)
        .finalize();
    assert_eq!(
        match ppr {
            Err(e) => e,
            _ => panic!("expected an error"),
        },
        Error::UnknownPacketTag
    );
}

// Unequal keys are ordered by creation time, then algorithm, then
// the MPI octets.
#[test]
fn public_cmp_ordering() {
    fn key(body: Vec<u8>) -> openpgp_parse::packet::Key {
        match parse_body(Tag::PublicKey, body).0 {
            Packet::PublicKey(k) => k,
            _ => panic!("expected a public key"),
        }
    }
    let base = key(key_body());
    let mut later = key_body();
    later[4] = 2;
    let later = key(later);
    assert_eq!(
        openpgp_parse::packet::Key::public_cmp(&base, &later),
        std::cmp::Ordering::Less
    );
    assert_eq!(
        openpgp_parse::packet::Key::public_cmp(&later, &base),
        std::cmp::Ordering::Greater
    );

    let mut bigger_mpi = key_body();
    let n = bigger_mpi.len();
    bigger_mpi[n - 1] = 9;
    let bigger_mpi = key(bigger_mpi);
    assert_eq!(
        openpgp_parse::packet::Key::public_cmp(&base, &bigger_mpi),
        std::cmp::Ordering::Less
    );
}

// The packet sum can be entered through the standard conversions.
#[test]
fn packet_from_conversions() {
    let (p, _) = parse_body(Tag::Signature, binary_signature()[2..].to_vec());
    let sig = match p {
        Packet::Signature(s) => s,
        _ => panic!("expected a signature"),
    };
    let packet = Packet::from(sig);
    assert_eq!(packet.tag(), Tag::Signature);

    let (p, _) = parse_body(Tag::SEIP, vec![1, 7]);
    let seip = match p {
        Packet::SEIP(s) => s,
        _ => panic!("expected a SEIP packet"),
    };
    let packet: Packet = seip.into();
    assert_eq!(packet.tag(), Tag::SEIP);
}

// Armor errors pass through the builder: a corrupted checksum is
// fatal to finalizing, and a block of the wrong kind is ignored,
// leaving an empty stream.
#[test]
fn finalize_armor_errors() {
    let bad = b"-----BEGIN PGP SIGNATURE-----\n\niA0EAAECAAAAAKvNAAEB\n=d/XN\n-----END PGP SIGNATURE-----\n";
    let ppr = PacketParserBuilder::from_bytes(bad)
        .unwrap()
        .dearmor(Dearmor::Enabled(Default::default()))
        .finalize();
    assert_eq!(
        match ppr {
            Err(e) => e,
            _ => panic!("expected an error"),
        },
        Error::BadChecksum
    );

    // A reader told to expect a message ignores a signature block.
    let ppr = PacketParserBuilder::from_bytes(&armored_signature())
        .unwrap()
        .dearmor(Dearmor::Enabled(
            openpgp_parse::armor::ReaderMode::Tolerant(Some(openpgp_parse::armor::Kind::Message)),
        ))
        .finalize();
    assert!(matches!(ppr, Ok(PacketParserResult::EOF(ref _pp))));
}

// An input with no packets at all builds the empty tree, and a
// framing error aborts the build with that error.
#[test]
fn pile_first_step_contract() {
    let pile = PacketPile::from_bytes(&[]).unwrap();
    assert_eq!(pile.children().len(), 0);

    let pile = PacketPile::from_bytes(b"no armor here\n").unwrap();
    assert_eq!(pile.children().len(), 0);

    assert_eq!(
        match PacketPile::from_bytes(&[0xC2, 0x05, 0x01]) {
            Err(e) => e,
            _ => panic!("expected an error"),
        },
        Error::TruncatedInput
    );
}
