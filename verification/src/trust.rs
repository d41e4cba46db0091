//! Who may connect. Each machine has a certificate of its own making, and knows
//! the others by the fingerprints of theirs: a peer proves who it is by its key,
//! not by a certificate authority.

use sha2::Digest;
use vstd::prelude::*;

use crate::config::{Peer, PeerModel};
use crate::config;
use crate::text;

verus! {

/// Bytes in hexadecimal, two digits each.
pub open spec fn hex_of(bytes: Seq<u8>) -> Seq<char> {
    Seq::new(
        2 * bytes.len(),
        |i: int| text::hex_digit(if i % 2 == 0 {
            (bytes[i / 2] / 16) as int
        } else {
            (bytes[i / 2] % 16) as int
        }),
    )
}

/// The hexadecimal digits of a text, without whatever separates them.
pub open spec fn hex_digits(text: Seq<char>) -> Seq<char> {
    text.filter(|c: char| text::is_hex(c))
}

/// The 32 bytes that a written fingerprint stands for, where it has 64 digits.
pub open spec fn fingerprint_in(text: Seq<char>) -> Option<Seq<u8>> {
    let digits = hex_digits(text);
    if digits.len() == 64 {
        Some(
            Seq::new(
                32,
                |i: int| (16 * text::hex_value(digits[2 * i]) + text::hex_value(digits[2 * i + 1])) as u8,
            ),
        )
    } else {
        None
    }
}

/// Bytes in hexadecimal.
pub fn hex(bytes: &[u8]) -> (text: String)
    ensures
        text@ == hex_of(bytes@),
{
    let mut text = String::new();
    let mut i: usize = 0;
    while i < bytes.len()
        invariant
            i <= bytes@.len(),
            text@ =~= hex_of(bytes@.take(i as int)),
        decreases bytes@.len() - i,
    {
        text.push(text::hex_char(bytes[i] / 16));
        text.push(text::hex_char(bytes[i] % 16));
        i += 1;
    }
    assert(bytes@.take(i as int) =~= bytes@);
    text
}

/// A written fingerprint with too many or too few digits.
#[derive(Debug, Clone, Copy, PartialEq, Eq, Structural)]
pub struct BadFingerprint {
    /// How many hexadecimal digits there were.
    pub digits: usize,
}

impl BadFingerprint {
    pub fn message(&self) -> (words: String)
        ensures
            words@ == "fingerprint must be 64 hex characters, got "@ + text::decimal(
                self.digits as int,
            ),
    {
        let mut words = "fingerprint must be 64 hex characters, got ".to_owned();
        words.append(text::number(self.digits as u64).as_str());
        words
    }
}

fn digit_value(c: char) -> (value: u8)
    requires
        text::is_hex(c),
    ensures
        value == text::hex_value(c),
        value < 16,
{
    if '0' <= c && c <= '9' {
        (c as u32 - '0' as u32) as u8
    } else if 'a' <= c && c <= 'f' {
        (c as u32 - 'a' as u32) as u8 + 10
    } else {
        (c as u32 - 'A' as u32) as u8 + 10
    }
}

/// Reads a fingerprint as people write it: 64 hexadecimal digits, in either
/// case, with anything at all between them.
pub fn parse_fingerprint(text: &str) -> (parsed: Result<[u8; 32], BadFingerprint>)
    ensures
        match parsed {
            Ok(bytes) => fingerprint_in(text@) == Some(bytes@),
            Err(e) => fingerprint_in(text@) is None && e.digits == hex_digits(text@).len(),
        },
{
    let ghost is_digit = |c: char| text::is_hex(c);
    let mut clean: Vec<char> = Vec::new();
    for c in it: text.chars()
        invariant
            it.seq() == text@,
            is_digit == (|c: char| text::is_hex(c)),
            clean@ == text@.take(it.index() as int).filter(is_digit),
    {
        proof {
            reveal(Seq::filter);
            assert(text@.take(it.index() + 1).drop_last() =~= text@.take(it.index() as int));
        }
        if ('0' <= c && c <= '9') || ('a' <= c && c <= 'f') || ('A' <= c && c <= 'F') {
            clean.push(c);
        }
    }
    assert(text@.take(text@.len() as int) =~= text@);
    if clean.len() != 64 {
        return Err(BadFingerprint { digits: clean.len() });
    }
    assert forall|i: int| 0 <= i < clean@.len() implies text::is_hex(#[trigger] clean@[i]) by {
        lemma_filtered(text@, is_digit, i);
    }
    let mut out: [u8; 32] = [0;32];
    let mut i: usize = 0;
    while i < 32
        invariant
            i <= 32,
            clean@.len() == 64,
            forall|j: int| 0 <= j < 64 ==> text::is_hex(#[trigger] clean@[j]),
            forall|j: int|
                0 <= j < i ==> #[trigger] out@[j] == (16 * text::hex_value(clean@[2 * j]) + text::hex_value(
                    clean@[2 * j + 1],
                )) as u8,
        decreases 32 - i,
    {
        let high = digit_value(clean[2 * i]);
        let low = digit_value(clean[2 * i + 1]);
        out[i] = 16 * high + low;
        i += 1;
    }
    assert(out@ =~= fingerprint_in(text@)->0);
    Ok(out)
}

/// What a filter keeps passes it.
proof fn lemma_filtered(text: Seq<char>, keep: spec_fn(char) -> bool, i: int)
    requires
        0 <= i < text.filter(keep).len(),
    ensures
        keep(text.filter(keep)[i]),
    decreases text.len(),
{
    reveal(Seq::filter);
    if text.len() > 0 {
        let rest = text.drop_last();
        if i < rest.filter(keep).len() {
            lemma_filtered(rest, keep, i);
        }
    }
}

/// A filter that everything passes keeps everything.
proof fn lemma_unfiltered(text: Seq<char>, keep: spec_fn(char) -> bool)
    requires
        forall|i: int| 0 <= i < text.len() ==> keep(#[trigger] text[i]),
    ensures
        text.filter(keep) == text,
    decreases text.len(),
{
    reveal(Seq::filter);
    if text.len() > 0 {
        lemma_unfiltered(text.drop_last(), keep);
        assert(text.drop_last().push(text.last()) =~= text);
    }
}

/// A fingerprint that one machine prints is read back by the other as the same
/// 32 bytes.
pub proof fn law_a_fingerprint_survives_being_written_down(digest: Seq<u8>)
    requires
        digest.len() == 32,
    ensures
        fingerprint_in(hex_of(digest)) == Some(digest),
{
    let written = hex_of(digest);
    assert forall|i: int| 0 <= i < written.len() implies text::is_hex(#[trigger] written[i]) by {
        assert(digest[i / 2] / 16 < 16);
    }
    lemma_unfiltered(written, |c: char| text::is_hex(c));
    let read = fingerprint_in(written)->0;
    assert forall|i: int| 0 <= i < 32 implies read[i] == digest[i] by {
        let high = (digest[i] / 16) as int;
        let low = (digest[i] % 16) as int;
        assert(written[2 * i] == text::hex_digit(high)) by {
            assert((2 * i) / 2 == i && (2 * i) % 2 == 0);
        }
        assert(written[2 * i + 1] == text::hex_digit(low)) by {
            assert((2 * i + 1) / 2 == i && (2 * i + 1) % 2 == 1);
        }
        assert(text::hex_value(text::hex_digit(high)) == high);
        assert(text::hex_value(text::hex_digit(low)) == low);
    }
    assert(read =~= digest);
}

/// The SHA-256 digest of these bytes.
pub uninterp spec fn sha256_of(bytes: Seq<u8>) -> Seq<u8>;

/// `Sha256::digest`: 32 bytes that depend on the input alone. Which bytes these
/// are is not said here.
#[verifier::external_body]
fn sha256(bytes: &[u8]) -> (digest: [u8; 32])
    ensures
        digest@ == sha256_of(bytes@),
{
    sha2::Sha256::digest(bytes).into()
}

#[verifier::external_type_specification]
#[verifier::external_body]
pub struct ExRcgenError(rcgen::Error);

/// Why this machine has no certificate.
#[derive(Debug)]
pub enum IdentityError {
    /// One could not be made.
    Generate(rcgen::Error),
}

/// `rcgen::generate_simple_self_signed` for these names: a fresh certificate
/// and its key, both as DER. Every call makes another key, so nothing is said
/// of the bytes.
#[verifier::external_body]
fn self_signed(names: Vec<String>) -> (made: Result<(Vec<u8>, Vec<u8>), rcgen::Error>) {
    let generated = rcgen::generate_simple_self_signed(names)?;
    Ok((generated.cert.der().to_vec(), generated.key_pair.serialize_der()))
}

/// The names a certificate of ours is made out to. Nobody goes by them: a
/// certificate is known by its fingerprint.
pub fn certificate_names() -> (names: Vec<String>)
    ensures
        names@.len() == 1,
        names@[0]@ == "glide"@,
{
    let mut names: Vec<String> = Vec::new();
    names.push("glide".to_owned());
    names
}

/// This machine's certificate and the key to it, both as DER.
#[derive(Debug)]
pub struct Identity {
    pub cert: Vec<u8>,
    pub key: Vec<u8>,
}

/// An identity, and whether it has yet to be stored.
#[derive(Debug)]
pub struct Loaded {
    pub identity: Identity,
    pub fresh: bool,
}

/// Whether making a certificate for these names may come out like this: what
/// `rcgen::generate_simple_self_signed` gave when it was called with them.
pub closed spec fn may_be_made(
    names: Vec<String>,
    made: Result<(Vec<u8>, Vec<u8>), rcgen::Error>,
) -> bool {
    call_ensures(self_signed, (names,), made)
}

/// What may be made for these names is what the call for them gives.
proof fn lemma_what_may_be_made(
    names: Vec<String>,
    made: Result<(Vec<u8>, Vec<u8>), rcgen::Error>,
)
    ensures
        may_be_made(names, made) <==> call_ensures(self_signed, (names,), made),
{
}

/// The identity that a newly made certificate and key are.
pub open spec fn identity_from(made: Result<(Vec<u8>, Vec<u8>), rcgen::Error>) -> Result<
    Loaded,
    IdentityError,
> {
    match made {
        Ok((cert, key)) => Ok(Loaded { identity: Identity { cert, key }, fresh: true }),
        Err(e) => Err(IdentityError::Generate(e)),
    }
}

impl Identity {
    /// The identity that was stored, or a new one on the first run.
    pub fn load_or_create(stored: Option<(Vec<u8>, Vec<u8>)>) -> (loaded: Result<
        Loaded,
        IdentityError,
    >)
        ensures
            match stored {
                Some((cert, key)) => loaded == Ok::<Loaded, IdentityError>(
                    Loaded { identity: Identity { cert, key }, fresh: false },
                ),
                None => exists|
                    names: Vec<String>,
                    made: Result<(Vec<u8>, Vec<u8>), rcgen::Error>,
                |
                    names@.len() == 1 && names@[0]@ == "glide"@ && #[trigger] may_be_made(
                        names,
                        made,
                    ) && loaded == identity_from(made),
            },
    {
        match stored {
            Some((cert, key)) => Ok(Loaded { identity: Identity { cert, key }, fresh: false }),
            None => {
                let names = certificate_names();
                let ghost asked = names;
                let made = self_signed(names);
                proof {
                    lemma_what_may_be_made(asked, made);
                }
                Identity::from_generated(made)
            },
        }
    }

    /// The identity that a newly made certificate and key are.
    pub fn from_generated(made: Result<(Vec<u8>, Vec<u8>), rcgen::Error>) -> (loaded: Result<
        Loaded,
        IdentityError,
    >)
        ensures
            loaded == identity_from(made),
    {
        match made {
            Ok((cert, key)) => Ok(Loaded { identity: Identity { cert, key }, fresh: true }),
            Err(e) => Err(IdentityError::Generate(e)),
        }
    }

    /// What this machine is known by: the digest of its certificate, written out.
    pub fn fingerprint(&self) -> (text: String)
        ensures
            text@ == hex_of(sha256_of(self.cert@)),
            text@.len() == 64,
            forall|i: int| 0 <= i < 64 ==> text::is_lower_hex(#[trigger] text@[i]),
    {
        hex(&sha256(&self.cert))
    }
}

/// Whether two digests are the same.
fn same_digest(a: &[u8; 32], b: &[u8; 32]) -> (same: bool)
    ensures
        same == (a@ == b@),
{
    let mut i: usize = 0;
    while i < 32
        invariant
            i <= 32,
            forall|j: int| 0 <= j < i ==> a@[j] == b@[j],
        decreases 32 - i,
    {
        if a[i] != b[i] {
            return false;
        }
        i += 1;
    }
    assert(a@ =~= b@);
    true
}

/// Whether one of these digests is that of the certificate.
pub open spec fn pinned(expected: Seq<[u8; 32]>, cert: Seq<u8>) -> bool {
    exists|i: int| 0 <= i < expected.len() && (#[trigger] expected[i])@ == sha256_of(cert)
}

/// Accepts exactly the certificates whose fingerprints it was told to expect,
/// whichever end of a connection shows them.
#[derive(Debug)]
pub struct Pinned {
    pub expected: Vec<[u8; 32]>,
}

impl Pinned {
    /// Judges a certificate; where it is not expected, says so.
    pub fn check(&self, cert: &[u8]) -> (judged: Result<(), String>)
        ensures
            judged is Ok <==> pinned(self.expected@, cert@),
            judged matches Err(words) ==> words@ == "unknown peer certificate "@ + hex_of(
                sha256_of(cert@),
            ),
    {
        let seen = sha256(cert);
        let mut i: usize = 0;
        while i < self.expected.len()
            invariant
                i <= self.expected@.len(),
                seen@ == sha256_of(cert@),
                forall|j: int| 0 <= j < i ==> (#[trigger] self.expected@[j])@ != seen@,
            decreases self.expected@.len() - i,
        {
            if same_digest(&self.expected[i], &seen) {
                return Ok(());
            }
            i += 1;
        }
        let mut words = "unknown peer certificate ".to_owned();
        words.append(hex(&seen).as_str());
        Err(words)
    }
}

/// A peer whose fingerprint in the configuration cannot be read.
#[derive(Debug)]
pub struct BadPin {
    pub peer: String,
    pub fault: BadFingerprint,
}

/// Whether the fingerprints of the first `count` peers can all be read.
pub open spec fn readable(peers: Seq<PeerModel>, count: int) -> bool {
    forall|i: int| 0 <= i < count ==> fingerprint_in((#[trigger] peers[i]).fingerprint) is Some
}

/// The fingerprints to expect: that of every peer in the configuration. The
/// first that cannot be read stops it all.
pub fn pins(peers: &[Peer]) -> (expected: Result<Vec<[u8; 32]>, BadPin>)
    ensures
        match expected {
            Ok(list) => {
                &&& list@.len() == peers@.len()
                &&& forall|i: int|
                    0 <= i < peers@.len() ==> fingerprint_in((#[trigger] peers@[i]).fingerprint@)
                        == Some(list@[i]@)
            },
            Err(bad) => exists|i: int|
                {
                    &&& 0 <= i < peers@.len()
                    &&& readable(config::models(peers@), i)
                    &&& fingerprint_in((#[trigger] peers@[i]).fingerprint@) is None
                    &&& bad.peer@ == peers@[i].name@
                    &&& bad.fault.digits == hex_digits(peers@[i].fingerprint@).len()
                },
        },
{
    let mut list: Vec<[u8; 32]> = Vec::new();
    let mut i: usize = 0;
    while i < peers.len()
        invariant
            i <= peers@.len(),
            list@.len() == i,
            forall|j: int|
                0 <= j < i ==> fingerprint_in((#[trigger] peers@[j]).fingerprint@) == Some(
                    list@[j]@,
                ),
        decreases peers@.len() - i,
    {
        match parse_fingerprint(peers[i].fingerprint.as_str()) {
            Ok(bytes) => list.push(bytes),
            Err(fault) => {
                proof {
                    let models = config::models(peers@);
                    assert forall|j: int| 0 <= j < i implies fingerprint_in(
                        (#[trigger] models[j]).fingerprint,
                    ) is Some by {
                        assert(models[j] == peers@[j]@);
                    }
                    assert(fingerprint_in(peers@[i as int].fingerprint@) is None);
                }
                return Err(BadPin { peer: peers[i].name.clone(), fault });
            },
        }
        i += 1;
    }
    Ok(list)
}

/// The name of the first peer with this fingerprint.
pub open spec fn peer_with(peers: Seq<PeerModel>, digest: Seq<u8>) -> Option<Seq<char>>
    decreases peers.len(),
{
    if peers.len() == 0 {
        None
    } else if fingerprint_in(peers[0].fingerprint) == Some(digest) {
        Some(peers[0].name)
    } else {
        peer_with(peers.drop_first(), digest)
    }
}

/// Which peer shows this certificate. The connection has already proved that it
/// is one we expect; the name tells which screen edge its events belong to.
pub fn identify(cert: &[u8], peers: &[Peer]) -> (name: Option<String>)
    ensures
        match name {
            Some(n) => peer_with(config::models(peers@), sha256_of(cert@)) == Some(n@),
            None => peer_with(config::models(peers@), sha256_of(cert@)) is None,
        },
{
    let seen = sha256(cert);
    let ghost models = config::models(peers@);
    let mut i: usize = 0;
    assert(models.skip(0) =~= models);
    while i < peers.len()
        invariant
            i <= peers@.len(),
            models == config::models(peers@),
            seen@ == sha256_of(cert@),
            peer_with(models, seen@) == peer_with(models.skip(i as int), seen@),
        decreases peers@.len() - i,
    {
        proof {
            assert(models.skip(i as int)[0] == peers@[i as int]@);
            assert(models.skip(i as int).drop_first() =~= models.skip(i + 1));
        }
        match parse_fingerprint(peers[i].fingerprint.as_str()) {
            Ok(bytes) => {
                if same_digest(&bytes, &seen) {
                    return Some(peers[i].name.clone());
                }
            },
            Err(_) => {},
        }
        i += 1;
    }
    None
}

/// A certificate that is accepted belongs to a peer, and one that belongs to a
/// peer is accepted: the two judgements never part.
pub proof fn law_accepted_means_identified(
    peers: Seq<PeerModel>,
    expected: Seq<[u8; 32]>,
    cert: Seq<u8>,
)
    requires
        expected.len() == peers.len(),
        forall|i: int|
            0 <= i < peers.len() ==> fingerprint_in((#[trigger] peers[i]).fingerprint) == Some(
                expected[i]@,
            ),
    ensures
        pinned(expected, cert) <==> peer_with(peers, sha256_of(cert)) is Some,
    decreases peers.len(),
{
    if peers.len() > 0 {
        let rest = peers.drop_first();
        let others = expected.drop_first();
        assert forall|i: int| 0 <= i < rest.len() implies fingerprint_in(
            (#[trigger] rest[i]).fingerprint,
        ) == Some(others[i]@) by {
            assert(rest[i] == peers[i + 1]);
        }
        law_accepted_means_identified(rest, others, cert);
        assert(fingerprint_in(peers[0].fingerprint) == Some(expected[0]@));
        if pinned(others, cert) {
            let i = choose|i: int|
                0 <= i < others.len() && (#[trigger] others[i])@ == sha256_of(cert);
            assert(expected[i + 1]@ == sha256_of(cert));
        }
        if pinned(expected, cert) && expected[0]@ != sha256_of(cert) {
            let i = choose|i: int|
                0 <= i < expected.len() && (#[trigger] expected[i])@ == sha256_of(cert);
            assert(others[i - 1]@ == sha256_of(cert));
        }
    }
}

/// Bytes are written with their higher digit first, in lower case.
pub proof fn law_bytes_are_written_digit_by_digit(bytes: Seq<u8>, i: int)
    requires
        0 <= i < bytes.len(),
    ensures
        hex_of(bytes).len() == 2 * bytes.len(),
        hex_of(bytes)[2 * i] == "0123456789abcdef"@[bytes[i] as int / 16],
        hex_of(bytes)[2 * i + 1] == "0123456789abcdef"@[bytes[i] as int % 16],
{
    text::law_the_sixteen_digits(bytes[i] as int / 16, '0');
    text::law_the_sixteen_digits(bytes[i] as int % 16, '0');
    assert((2 * i) / 2 == i && (2 * i) % 2 == 0);
    assert((2 * i + 1) / 2 == i && (2 * i + 1) % 2 == 1);
}

/// A fingerprint is read by its digits alone: whatever else stands among them is
/// passed over, wherever it stands. It takes 64 digits, no more and no fewer.
pub proof fn law_only_the_digits_of_a_fingerprint_count(
    before: Seq<char>,
    between: Seq<char>,
    after: Seq<char>,
)
    requires
        forall|i: int|
            0 <= i < between.len() ==> !('0' <= #[trigger] between[i] <= '9' || 'a' <= between[i]
                <= 'f' || 'A' <= between[i] <= 'F'),
    ensures
        hex_digits(before + between + after) == hex_digits(before + after),
        fingerprint_in(before + between + after) == fingerprint_in(before + after),
        fingerprint_in(before) is Some <==> hex_digits(before).len() == 64,
{
    let keep = |c: char| text::is_hex(c);
    lemma_nothing_kept(between, keep);
    lemma_filter_joined(before, between, keep);
    lemma_filter_joined(before + between, after, keep);
    lemma_filter_joined(before, after, keep);
    assert(before.filter(keep) + Seq::<char>::empty() =~= before.filter(keep));
}

/// A filter keeps what it keeps of each part.
proof fn lemma_filter_joined(a: Seq<char>, b: Seq<char>, keep: spec_fn(char) -> bool)
    ensures
        (a + b).filter(keep) == a.filter(keep) + b.filter(keep),
    decreases b.len(),
{
    reveal(Seq::filter);
    if b.len() == 0 {
        assert(a + b =~= a);
        assert(a.filter(keep) + b.filter(keep) =~= a.filter(keep));
    } else {
        lemma_filter_joined(a, b.drop_last(), keep);
        assert((a + b).drop_last() =~= a + b.drop_last());
        assert((a + b).filter(keep) =~= a.filter(keep) + b.filter(keep));
    }
}

/// A filter that nothing passes keeps nothing.
proof fn lemma_nothing_kept(text: Seq<char>, keep: spec_fn(char) -> bool)
    requires
        forall|i: int| 0 <= i < text.len() ==> !keep(#[trigger] text[i]),
    ensures
        text.filter(keep) == Seq::<char>::empty(),
    decreases text.len(),
{
    reveal(Seq::filter);
    if text.len() > 0 {
        lemma_nothing_kept(text.drop_last(), keep);
    }
}

/// The bytes of a fingerprint are its digits two by two, the higher first; a
/// digit counts the same in either case.
pub proof fn law_a_fingerprint_is_its_digits_two_by_two(text: Seq<char>, i: int)
    requires
        0 <= i < 32,
    ensures
        fingerprint_in(text) matches Some(bytes) ==> {
            let digits = hex_digits(text);
            &&& bytes.len() == 32
            &&& digits.len() == 64
            &&& text::is_hex(digits[2 * i]) && text::is_hex(digits[2 * i + 1])
            &&& bytes[i] == 16 * text::hex_value(digits[2 * i]) + text::hex_value(digits[2 * i + 1])
        },
{
    if fingerprint_in(text) is Some {
        let keep = |c: char| text::is_hex(c);
        lemma_filtered(text, keep, 2 * i);
        lemma_filtered(text, keep, 2 * i + 1);
    }
}

/// A certificate is accepted exactly where its digest, all of it, is among those
/// expected; where nothing is expected, nothing is accepted.
pub proof fn law_only_a_pinned_certificate_is_accepted(
    expected: Seq<[u8; 32]>,
    cert: Seq<u8>,
)
    ensures
        pinned(expected, cert) <==> expected.map_values(|d: [u8; 32]| d@).contains(
            sha256_of(cert),
        ),
        expected.len() == 0 ==> !pinned(expected, cert),
{
    let digests = expected.map_values(|d: [u8; 32]| d@);
    if pinned(expected, cert) {
        let i = choose|i: int|
            0 <= i < expected.len() && (#[trigger] expected[i])@ == sha256_of(cert);
        assert(digests[i] == sha256_of(cert));
    }
    if digests.contains(sha256_of(cert)) {
        let i = choose|i: int| 0 <= i < digests.len() && digests[i] == sha256_of(cert);
        assert(expected[i]@ == sha256_of(cert));
    }
}

/// A digest belongs to the first peer whose fingerprint it is, all of it, and to
/// nobody where it is nobody's.
pub proof fn law_a_digest_belongs_to_its_peer(peers: Seq<PeerModel>, digest: Seq<u8>)
    ensures
        match peer_with(peers, digest) {
            Some(name) => exists|at: int|
                {
                    &&& 0 <= at < peers.len() && (#[trigger] peers[at]).name == name
                    &&& fingerprint_in(peers[at].fingerprint) == Some(digest)
                    &&& forall|i: int|
                        0 <= i < at ==> fingerprint_in((#[trigger] peers[i]).fingerprint) != Some(
                            digest,
                        )
                },
            None => forall|i: int|
                0 <= i < peers.len() ==> fingerprint_in((#[trigger] peers[i]).fingerprint) != Some(
                    digest,
                ),
        },
    decreases peers.len(),
{
    if peers.len() > 0 {
        let rest = peers.drop_first();
        law_a_digest_belongs_to_its_peer(rest, digest);
        assert forall|i: int| 1 <= i < peers.len() implies #[trigger] peers[i] == rest[i - 1] by {}
        if fingerprint_in(peers[0].fingerprint) == Some(digest) {
            assert(peers[0].name == peer_with(peers, digest)->0);
        } else if peer_with(peers, digest) is Some {
            let name = peer_with(peers, digest)->0;
            let at = choose|at: int|
                {
                    &&& 0 <= at < rest.len() && (#[trigger] rest[at]).name == name
                    &&& fingerprint_in(rest[at].fingerprint) == Some(digest)
                    &&& forall|i: int|
                        0 <= i < at ==> fingerprint_in((#[trigger] rest[i]).fingerprint) != Some(
                            digest,
                        )
                };
            assert(peers[at + 1].name == name);
            assert forall|i: int| 0 <= i < at + 1 implies fingerprint_in(
                (#[trigger] peers[i]).fingerprint,
            ) != Some(digest) by {
                if i > 0 {
                    assert(fingerprint_in(rest[i - 1].fingerprint) != Some(digest));
                }
            }
        } else {
            assert forall|i: int| 0 <= i < peers.len() implies fingerprint_in(
                (#[trigger] peers[i]).fingerprint,
            ) != Some(digest) by {
                if i > 0 {
                    assert(fingerprint_in(rest[i - 1].fingerprint) != Some(digest));
                }
            }
        }
    }
}

/// A newly made certificate is kept with the key to it, and has yet to be stored;
/// where none could be made, there is no identity.
pub proof fn law_a_new_certificate_has_yet_to_be_stored(
    made: Result<(Vec<u8>, Vec<u8>), rcgen::Error>,
)
    ensures
        made is Err <==> identity_from(made) is Err,
        identity_from(made) matches Ok(loaded) ==> loaded.fresh && loaded.identity.cert
            == made->Ok_0.0 && loaded.identity.key == made->Ok_0.1,
        identity_from(made) matches Err(IdentityError::Generate(e)) ==> e == made->Err_0,
{
}

/// Every hexadecimal digit counts, in either case: a text of nothing else is all
/// digits.
pub proof fn law_every_digit_counts(text: Seq<char>)
    requires
        forall|i: int|
            0 <= i < text.len() ==> '0' <= #[trigger] text[i] <= '9' || 'a' <= text[i] <= 'f' || 'A'
                <= text[i] <= 'F',
    ensures
        hex_digits(text) == text,
{
    lemma_unfiltered(text, |c: char| text::is_hex(c));
}

/// Fingerprints can be read where each of them has its 64 digits.
pub proof fn law_fingerprints_can_be_read_where_each_can(peers: Seq<PeerModel>, count: int)
    requires
        0 <= count <= peers.len(),
    ensures
        readable(peers, count) <==> forall|i: int|
            0 <= i < count ==> hex_digits((#[trigger] peers[i]).fingerprint).len() == 64,
{
    assert forall|i: int| 0 <= i < count implies (fingerprint_in((#[trigger] peers[i]).fingerprint)
        is Some <==> hex_digits(peers[i].fingerprint).len() == 64) by {}
}

/// What one machine prints as its fingerprint, another reads as the digest of
/// that machine's certificate, whole.
pub proof fn law_a_printed_fingerprint_is_the_digest(
    identity: Identity,
    printed: String,
    typed: &str,
    read: Result<[u8; 32], BadFingerprint>,
)
    requires
        call_ensures(Identity::fingerprint, (&identity,), printed),
        typed@ == printed@,
        call_ensures(parse_fingerprint, (typed,), read),
    ensures
        read matches Ok(digest) && digest@ == sha256_of(identity.cert@),
{
    let digest = sha256_of(identity.cert@);
    assert(hex_of(digest).len() == 2 * digest.len());
    law_a_fingerprint_survives_being_written_down(digest);
}

/// A certificate passes exactly where its digest is among those expected.
pub proof fn law_a_stranger_does_not_pass(
    pinned_to: Pinned,
    cert: &[u8],
    judged: Result<(), String>,
)
    requires
        call_ensures(Pinned::check, (&pinned_to, cert), judged),
    ensures
        judged is Ok <==> pinned_to.expected@.map_values(|d: [u8; 32]| d@).contains(
            sha256_of(cert@),
        ),
{
    law_only_a_pinned_certificate_is_accepted(pinned_to.expected@, cert@);
}

} // verus!
