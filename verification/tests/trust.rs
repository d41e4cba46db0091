use glide::config::{Peer, Side};
use glide::trust::{
    certificate_names, hex, identify, parse_fingerprint, pins, BadFingerprint, Identity,
    IdentityError, Pinned,
};

fn peer(name: &str, fingerprint: &str) -> Peer {
    Peer {
        name: name.into(),
        addrs: vec![],
        fingerprint: fingerprint.into(),
        position: Side::Right,
        display: None,
    }
}

/// The digest of three bytes that every description of SHA-256 gives.
const ABC: &str = "ba7816bf8f01cfea414140de5dae2223b00361a396177a9cb410ff61f20015ad";

fn abc() -> Identity {
    Identity { cert: b"abc".to_vec(), key: vec![] }
}

#[test]
fn fingerprint_round_trip() {
    let hexed = hex(&[0xab; 32]);
    assert_eq!(parse_fingerprint(&hexed).unwrap(), [0xab; 32]);
    assert!(parse_fingerprint("abcd").is_err());
}

#[test]
fn every_byte_has_two_digits() {
    assert_eq!(hex(&[0, 9, 10, 15, 16, 0xa0, 255]), "00090a0f10a0ff");
    assert_eq!(hex(&[]), "");
}

#[test]
fn a_fingerprint_as_people_write_it() {
    let mut expected = [0u8; 32];
    for (i, byte) in expected.iter_mut().enumerate() {
        *byte = (i * 7 + 3) as u8;
    }
    let plain = hex(&expected);
    let pairs: Vec<String> =
        (0..32).map(|i| plain[2 * i..2 * i + 2].to_uppercase()).collect();
    assert_eq!(parse_fingerprint(&pairs.join(":")), Ok(expected));
    assert_eq!(parse_fingerprint(&format!(" {plain}\n")), Ok(expected));
}

#[test]
fn a_fingerprint_of_another_length_is_refused() {
    let refused = parse_fingerprint("abcd").unwrap_err();
    assert_eq!(refused, BadFingerprint { digits: 4 });
    assert_eq!(refused.message(), "fingerprint must be 64 hex characters, got 4");
    assert_eq!(parse_fingerprint(""), Err(BadFingerprint { digits: 0 }));
    assert_eq!(parse_fingerprint(&"0".repeat(65)), Err(BadFingerprint { digits: 65 }));
    assert_eq!(parse_fingerprint(&"z".repeat(64)), Err(BadFingerprint { digits: 0 }));
}

#[test]
fn an_identity_is_known_by_its_certificate() {
    assert_eq!(abc().fingerprint(), ABC);
    assert_eq!(ABC.len(), 64);
}

#[test]
fn a_stored_identity_is_used_again() {
    let loaded = Identity::load_or_create(Some((vec![1, 2], vec![3]))).unwrap();
    assert!(!loaded.fresh);
    assert_eq!(loaded.identity.cert, vec![1, 2]);
    assert_eq!(loaded.identity.key, vec![3]);
}

#[test]
fn the_first_run_makes_an_identity() {
    let one = Identity::load_or_create(None).unwrap();
    let other = Identity::load_or_create(None).unwrap();
    assert!(one.fresh && other.fresh);
    assert!(!one.identity.cert.is_empty() && !one.identity.key.is_empty());
    assert_ne!(one.identity.key, other.identity.key, "every machine has a key of its own");
    assert_ne!(one.identity.fingerprint(), other.identity.fingerprint());
    let name = certificate_names();
    assert_eq!(name, ["glide"]);
    let made_out_to = one.identity.cert.windows(5).any(|w| w == b"glide");
    assert!(made_out_to, "the certificate carries its name");
}

#[test]
fn a_certificate_that_cannot_be_made() {
    let failed = Identity::from_generated(Err(rcgen::Error::CouldNotParseKeyPair));
    assert!(matches!(
        failed,
        Err(IdentityError::Generate(rcgen::Error::CouldNotParseKeyPair))
    ));
}

#[test]
fn only_pinned_certificates_are_accepted() {
    let expected = parse_fingerprint(ABC).unwrap();
    let pinned = Pinned { expected: vec![[7; 32], expected] };
    assert_eq!(pinned.check(b"abc"), Ok(()));
    let refused = Pinned { expected: vec![[7; 32]] }.check(b"abc").unwrap_err();
    assert_eq!(refused, format!("unknown peer certificate {ABC}"));
    assert!(Pinned { expected: vec![] }.check(b"abc").is_err());
}

#[test]
fn every_peer_is_pinned() {
    let peers = [peer("a", &hex(&[1; 32])), peer("b", ABC)];
    assert_eq!(pins(&peers).unwrap(), vec![[1; 32], parse_fingerprint(ABC).unwrap()]);
    assert_eq!(pins(&[]).unwrap(), Vec::<[u8; 32]>::new());
}

#[test]
fn a_bad_pin_names_its_peer() {
    let peers = [peer("a", ABC), peer("b", "12"), peer("c", "")];
    let bad = pins(&peers).unwrap_err();
    assert_eq!(bad.peer, "b");
    assert_eq!(bad.fault.digits, 2);
}

#[test]
fn an_accepted_certificate_has_a_name() {
    let peers = [peer("broken", "12"), peer("anorak", ABC), peer("twin", ABC)];
    assert_eq!(identify(b"abc", &peers).as_deref(), Some("anorak"));
    assert_eq!(identify(b"abd", &peers), None);
    assert_eq!(identify(b"abc", &[]), None);
}
