//! Numbers and text as bytes: little-endian integers for messages, the
//! big-endian length in front of a frame, and UTF-8.

use vstd::prelude::*;
use vstd::utf8::*;

verus! {

/// The four bytes of `x`, lowest first.
pub open spec fn le_u32(x: u32) -> Seq<u8> {
    seq![
        (x % 256) as u8,
        (x / 256 % 256) as u8,
        (x / 65536 % 256) as u8,
        (x / 16777216) as u8,
    ]
}

/// The eight bytes of `x`, lowest first.
pub open spec fn le_u64(x: u64) -> Seq<u8> {
    le_u32((x % 0x1_0000_0000) as u32) + le_u32((x / 0x1_0000_0000) as u32)
}

/// A signed number in two's complement, as the unsigned number with the same bits.
pub open spec fn twos(x: i32) -> u32 {
    if x >= 0 {
        x as u32
    } else {
        (x + 0x1_0000_0000) as u32
    }
}

/// The signed number whose two's complement is `x`.
pub open spec fn from_twos(x: u32) -> i32 {
    if x < 0x8000_0000 {
        x as i32
    } else {
        (x - 0x1_0000_0000) as i32
    }
}

/// The four bytes of a signed number, lowest first.
pub open spec fn le_i32(x: i32) -> Seq<u8> {
    le_u32(twos(x))
}

/// The number whose lowest-first bytes stand at `b[at..at + 4]`.
#[verifier::opaque]
pub open spec fn u32_from(b: Seq<u8>, at: int) -> u32 {
    (b[at] + 256 * b[at + 1] + 65536 * b[at + 2] + 16777216 * b[at + 3]) as u32
}

/// The number whose lowest-first bytes stand at `b[at..at + 8]`.
pub open spec fn u64_from(b: Seq<u8>, at: int) -> u64 {
    (u32_from(b, at) + 0x1_0000_0000 * u32_from(b, at + 4)) as u64
}

/// The signed number whose lowest-first bytes stand at `b[at..at + 4]`.
pub open spec fn i32_from(b: Seq<u8>, at: int) -> i32 {
    from_twos(u32_from(b, at))
}

/// Reading a number back from its own bytes, wherever they stand.
pub proof fn lemma_u32_round_trip(x: u32, before: Seq<u8>, after: Seq<u8>)
    ensures
        u32_from(before + le_u32(x) + after, before.len() as int) == x,
{
    reveal(u32_from);
    let b = before + le_u32(x) + after;
    let at = before.len() as int;
    assert(b[at] == le_u32(x)[0]);
    assert(b[at + 1] == le_u32(x)[1]);
    assert(b[at + 2] == le_u32(x)[2]);
    assert(b[at + 3] == le_u32(x)[3]);
}

/// Reading a number back from its own bytes, wherever they stand.
pub proof fn lemma_u64_round_trip(x: u64, before: Seq<u8>, after: Seq<u8>)
    ensures
        u64_from(before + le_u64(x) + after, before.len() as int) == x,
{
    let low = (x % 0x1_0000_0000) as u32;
    let high = (x / 0x1_0000_0000) as u32;
    let b = before + le_u64(x) + after;
    assert(b =~= before + le_u32(low) + (le_u32(high) + after));
    assert(b =~= (before + le_u32(low)) + le_u32(high) + after);
    lemma_u32_round_trip(low, before, le_u32(high) + after);
    lemma_u32_round_trip(high, before + le_u32(low), after);
}

/// A signed number survives its two's complement.
pub proof fn lemma_twos_round_trip(x: i32)
    ensures
        from_twos(twos(x)) == x,
{
}

/// Appends bytes.
pub fn put_bytes(out: &mut Vec<u8>, bytes: &[u8])
    ensures
        final(out)@ == old(out)@ + bytes@,
{
    out.extend_from_slice(bytes);
    assert(out@ =~= old(out)@ + bytes@);
}

/// Appends a number, lowest byte first.
pub fn put_u32(out: &mut Vec<u8>, x: u32)
    ensures
        final(out)@ == old(out)@ + le_u32(x),
{
    out.push((x % 256) as u8);
    out.push((x / 256 % 256) as u8);
    out.push((x / 65536 % 256) as u8);
    out.push((x / 16777216) as u8);
    assert(out@ =~= old(out)@ + le_u32(x));
}

/// Appends a number, lowest byte first.
pub fn put_u64(out: &mut Vec<u8>, x: u64)
    ensures
        final(out)@ == old(out)@ + le_u64(x),
{
    put_u32(out, (x % 0x1_0000_0000) as u32);
    put_u32(out, (x / 0x1_0000_0000) as u32);
    assert(out@ =~= old(out)@ + le_u64(x));
}

/// Appends a signed number, lowest byte first.
pub fn put_i32(out: &mut Vec<u8>, x: i32)
    ensures
        final(out)@ == old(out)@ + le_i32(x),
{
    let bits: u32 = x as u32;
    assert(x >= 0 ==> (x as u32) == x) by (bit_vector);
    assert(x < 0 ==> (x as u32) == x + 0x1_0000_0000) by (bit_vector);
    assert(bits == twos(x));
    put_u32(out, bits);
}

/// The signed number with the same bits.
pub fn signed(x: u32) -> (y: i32)
    ensures
        y == from_twos(x),
{
    assert(x < 0x8000_0000 ==> (x as i32) == x) by (bit_vector);
    assert(x >= 0x8000_0000 ==> (x as i32) == x - 0x1_0000_0000) by (bit_vector);
    x as i32
}

/// The number at `at`, where its four bytes are there.
pub fn u32_at(b: &[u8], at: usize) -> (x: Option<u32>)
    requires
        at + 4 <= usize::MAX,
    ensures
        x == if at + 4 <= b@.len() {
            Some(u32_from(b@, at as int))
        } else {
            None
        },
{
    if b.len() < at + 4 {
        return None;
    }
    proof {
        reveal(u32_from);
    }
    Some(
        b[at] as u32 + 256 * b[at + 1] as u32 + 65536 * b[at + 2] as u32 + 16777216
            * b[at + 3] as u32,
    )
}

/// The number at `at`, where its eight bytes are there.
pub fn u64_at(b: &[u8], at: usize) -> (x: Option<u64>)
    requires
        at + 8 <= usize::MAX,
    ensures
        x == if at + 8 <= b@.len() {
            Some(u64_from(b@, at as int))
        } else {
            None
        },
{
    match (u32_at(b, at), u32_at(b, at + 4)) {
        (Some(low), Some(high)) => Some(low as u64 + 0x1_0000_0000 * high as u64),
        _ => None,
    }
}

/// The signed number at `at`, where its four bytes are there.
pub fn i32_at(b: &[u8], at: usize) -> (x: Option<i32>)
    requires
        at + 4 <= usize::MAX,
    ensures
        x == if at + 4 <= b@.len() {
            Some(i32_from(b@, at as int))
        } else {
            None
        },
{
    match u32_at(b, at) {
        Some(bits) => Some(signed(bits)),
        None => None,
    }
}

/// As much of a byte string as a one-byte length can announce.
pub open spec fn capped(b: Seq<u8>) -> Seq<u8> {
    if b.len() <= 255 {
        b
    } else {
        b.take(255)
    }
}

/// A byte string behind its one-byte length.
pub open spec fn short(b: Seq<u8>) -> Seq<u8> {
    seq![capped(b).len() as u8] + capped(b)
}

/// Appends a byte string behind its one-byte length, cut where the length
/// could not announce the rest.
pub fn put_short(out: &mut Vec<u8>, bytes: &[u8])
    ensures
        final(out)@ == old(out)@ + short(bytes@),
{
    let len: usize = if bytes.len() <= 255 { bytes.len() } else { 255 };
    out.push(len as u8);
    put_bytes(out, &bytes[0..len]);
    proof {
        assert(bytes@.subrange(0, len as int) =~= capped(bytes@));
        assert(out@ =~= old(out)@ + short(bytes@));
    }
}

/// The low 32 bits of a number, read as a signed number.
pub open spec fn wrapped_i32(x: int) -> i32 {
    from_twos((x % 0x1_0000_0000) as u32)
}

/// A number cut to its low 32 bits, which then have a sign.
pub fn wrap_i32(x: i64) -> (y: i32)
    ensures
        y == wrapped_i32(x as int),
{
    assert(x >= 0 ==> (x as u64) == x) by (bit_vector);
    assert(x < 0 ==> (x as u64) == x + 0x1_0000_0000_0000_0000) by (bit_vector);
    let low: u64 = (x as u64) % 0x1_0000_0000;
    signed(low as u32)
}

/// A number cut to its low 32 bits.
pub fn wrap_u32(x: u64) -> (y: u32)
    ensures
        y == (x % 0x1_0000_0000) as u32,
{
    (x % 0x1_0000_0000) as u32
}

/// How much of the first `n` bytes is UTF-8, counted from the front.
pub open spec fn valid_within(bytes: Seq<u8>, n: int) -> int
    decreases n,
{
    if n <= 0 || valid_utf8(bytes.take(n)) {
        n
    } else {
        valid_within(bytes, n - 1)
    }
}

/// How many bytes at the front are UTF-8: the most that are.
pub open spec fn valid_up_to(bytes: Seq<u8>) -> int {
    valid_within(bytes, bytes.len() as int)
}

/// How many bytes are wrong behind those that are UTF-8, as
/// `Utf8Error::error_len` counts them; none where the bytes end too early.
pub uninterp spec fn wrong_bytes(bytes: Seq<u8>) -> Option<usize>;

/// `String::from_utf8` takes exactly the byte strings that are valid UTF-8,
/// and the text it gives has those bytes. Of others it says, through
/// `Utf8Error::valid_up_to`, how many bytes at the front are UTF-8, and, through
/// `Utf8Error::error_len`, how many are wrong behind them. Where it counts none,
/// the bytes ended within a character, one to three bytes into it.
#[verifier::external_body]
fn from_utf8(bytes: Vec<u8>) -> (decoded: Result<String, (usize, Option<usize>)>)
    ensures
        decoded is Ok <==> valid_utf8(bytes@),
        decoded matches Ok(s) ==> encode_utf8(s@) == bytes@,
        decoded matches Err((at, wrong)) ==> {
            &&& at == valid_up_to(bytes@)
            &&& wrong == wrong_bytes(bytes@)
            &&& wrong matches Some(n) ==> at + n <= bytes@.len()
            &&& wrong is None ==> 1 <= bytes@.len() - at <= 3
        },
{
    String::from_utf8(bytes).map_err(
        |e| (e.utf8_error().valid_up_to(), e.utf8_error().error_len()),
    )
}

/// The text in these bytes, where they are UTF-8, or else how many of them are
/// and how many are wrong behind those.
pub fn text_from(bytes: &[u8]) -> (text: Result<String, (usize, Option<usize>)>)
    ensures
        text is Ok <==> valid_utf8(bytes@),
        text matches Ok(t) ==> t@ == decode_utf8(bytes@),
        text matches Err((at, wrong)) ==> at == valid_up_to(bytes@) && wrong == wrong_bytes(bytes@),
{
    match from_utf8(vstd::slice::slice_to_vec(bytes)) {
        Ok(text) => {
            proof {
                encode_utf8_decode_utf8(text@);
            }
            Ok(text)
        },
        Err(fault) => Err(fault),
    }
}

/// What `String::from_utf8_lossy` makes of bytes that are not UTF-8.
pub uninterp spec fn repaired(bytes: Seq<u8>) -> Seq<char>;

/// The text in these bytes, with whatever is not UTF-8 replaced.
pub open spec fn lossy(bytes: Seq<u8>) -> Seq<char> {
    if valid_utf8(bytes) {
        decode_utf8(bytes)
    } else {
        repaired(bytes)
    }
}

/// `String::from_utf8_lossy`: the text itself where the bytes are UTF-8. On
/// other bytes the result depends on the bytes alone, and nothing more is said
/// of where the replacement characters stand.
#[verifier::external_body]
pub(crate) fn text_lossy(bytes: &[u8]) -> (text: String)
    ensures
        text@ == if valid_utf8(bytes@) {
            decode_utf8(bytes@)
        } else {
            repaired(bytes@)
        },
{
    String::from_utf8_lossy(bytes).into_owned()
}

/// The number that bytes stand for, the lowest first.
pub open spec fn little(b: Seq<u8>) -> int
    decreases b.len(),
{
    if b.len() == 0 {
        0
    } else {
        b[0] + 256 * little(b.drop_first())
    }
}

/// What four bytes stand for.
proof fn lemma_little_of_four(b: Seq<u8>)
    requires
        b.len() == 4,
    ensures
        little(b) == b[0] + 256 * b[1] + 65536 * b[2] + 16777216 * b[3],
{
    reveal_with_fuel(little, 5);
    let c = b.drop_first();
    let d = c.drop_first();
    let e = d.drop_first();
    assert(c[0] == b[1] && d[0] == b[2] && e[0] == b[3]);
    assert(e.drop_first().len() == 0);
}

/// What eight bytes stand for.
proof fn lemma_little_of_eight(b: Seq<u8>)
    requires
        b.len() == 8,
    ensures
        little(b) == little(b.take(4)) + 0x1_0000_0000 * little(b.skip(4)),
{
    reveal_with_fuel(little, 5);
    let c = b.drop_first();
    let d = c.drop_first();
    let e = d.drop_first();
    assert(c[0] == b[1] && d[0] == b[2] && e[0] == b[3]);
    assert(e.drop_first() =~= b.skip(4));
    lemma_little_of_four(b.take(4));
}

/// A number's four bytes stand for it.
proof fn lemma_four_bytes(x: u32)
    ensures
        little(le_u32(x)) == x,
{
    lemma_little_of_four(le_u32(x));
}

/// A number in two halves, and the halves of a number.
proof fn lemma_halves(low: u32, high: u32, x: u64)
    ensures
        (low + 0x1_0000_0000 * high) as u64 % 0x1_0000_0000 == low,
        (low + 0x1_0000_0000 * high) as u64 / 0x1_0000_0000 == high,
        (x % 0x1_0000_0000) as u32 + 0x1_0000_0000 * ((x / 0x1_0000_0000) as u32) == x,
{
}

/// A number's eight bytes stand for it.
proof fn lemma_eight_bytes(x: u64)
    ensures
        little(le_u64(x)) == x,
{
    let low = (x % 0x1_0000_0000) as u32;
    let high = (x / 0x1_0000_0000) as u32;
    lemma_halves(low, high, x);
    lemma_four_bytes(low);
    lemma_four_bytes(high);
    lemma_joined_halves(le_u32(low), le_u32(high));
}

/// Eight bytes in two halves.
proof fn lemma_joined_halves(low: Seq<u8>, high: Seq<u8>)
    requires
        low.len() == 4,
        high.len() == 4,
    ensures
        little(low + high) == little(low) + 0x1_0000_0000 * little(high),
{
    lemma_little_of_eight(low + high);
    assert((low + high).take(4) =~= low);
    assert((low + high).skip(4) =~= high);
}

/// Numbers are written lowest byte first, a negative one as the number that far
/// below the first that four bytes cannot hold.
pub proof fn law_numbers_are_written_lowest_byte_first(x: u32, y: u64, z: i32)
    ensures
        le_u32(x).len() == 4 && little(le_u32(x)) == x,
        le_u64(y).len() == 8 && little(le_u64(y)) == y,
        le_i32(z).len() == 4 && little(le_i32(z)) == z as int % 0x1_0000_0000,
{
    lemma_four_bytes(x);
    lemma_eight_bytes(y);
    lemma_four_bytes(twos(z));
}

/// Numbers are read lowest byte first, from the bytes where they stand and from
/// no others.
pub proof fn law_numbers_are_read_lowest_byte_first(b: Seq<u8>, at: int)
    requires
        0 <= at,
        at + 4 <= b.len(),
    ensures
        u32_from(b, at) == little(b.subrange(at, at + 4)),
        i32_from(b, at) as int % 0x1_0000_0000 == little(b.subrange(at, at + 4)),
        at + 8 <= b.len() ==> u64_from(b, at) == little(b.subrange(at, at + 8)),
{
    reveal(u32_from);
    let four = b.subrange(at, at + 4);
    lemma_little_of_four(four);
    assert(four[0] == b[at] && four[1] == b[at + 1] && four[2] == b[at + 2] && four[3] == b[at
        + 3]);
    if at + 8 <= b.len() {
        let eight = b.subrange(at, at + 8);
        lemma_little_of_eight(eight);
        assert(eight.take(4) =~= four);
        let rest = b.subrange(at + 4, at + 8);
        assert(eight.skip(4) =~= rest);
        lemma_little_of_four(rest);
        assert(rest[0] == b[at + 4] && rest[1] == b[at + 5] && rest[2] == b[at + 6] && rest[3]
            == b[at + 7]);
    }
}

/// Four bytes are told apart again in the number that they make.
proof fn lemma_bytes_apart(a: u8, b: u8, c: u8, d: u8, x: u32)
    requires
        x == a + 256 * b + 65536 * c + 16777216 * d,
    ensures
        x % 256 == a,
        x / 256 % 256 == b,
        x / 65536 % 256 == c,
        x / 16777216 == d,
{
    assert(x / 256 == b + 256 * c + 65536 * d);
    assert(x / 65536 == c + 256 * d);
}

/// A number's bytes are the ones it was read from.
pub proof fn lemma_u32_bytes(b: Seq<u8>, at: int)
    requires
        0 <= at,
        at + 4 <= b.len(),
    ensures
        le_u32(u32_from(b, at)) == b.subrange(at, at + 4),
{
    reveal(u32_from);
    lemma_bytes_apart(b[at], b[at + 1], b[at + 2], b[at + 3], u32_from(b, at));
    assert(le_u32(u32_from(b, at)) =~= b.subrange(at, at + 4));
}

/// A number's bytes are the ones it was read from.
pub proof fn lemma_u64_bytes(b: Seq<u8>, at: int)
    requires
        0 <= at,
        at + 8 <= b.len(),
    ensures
        le_u64(u64_from(b, at)) == b.subrange(at, at + 8),
{
    let low = u32_from(b, at);
    let high = u32_from(b, at + 4);
    lemma_halves(low, high, 0);
    lemma_u32_bytes(b, at);
    lemma_u32_bytes(b, at + 4);
    lemma_cut_in_half(b, at);
}

/// Eight bytes are four and four.
proof fn lemma_cut_in_half(b: Seq<u8>, at: int)
    requires
        0 <= at,
        at + 8 <= b.len(),
    ensures
        b.subrange(at, at + 8) == b.subrange(at, at + 4) + b.subrange(at + 4, at + 8),
{
    assert(b.subrange(at, at + 8) =~= b.subrange(at, at + 4) + b.subrange(at + 4, at + 8));
}

/// A number's bytes are the ones it was read from.
pub proof fn lemma_i32_bytes(b: Seq<u8>, at: int)
    requires
        0 <= at,
        at + 4 <= b.len(),
    ensures
        le_i32(i32_from(b, at)) == b.subrange(at, at + 4),
{
    lemma_u32_bytes(b, at);
    assert(twos(from_twos(u32_from(b, at))) == u32_from(b, at));
}

/// What stands behind a number has no say in it.
pub proof fn lemma_numbers_in_front(b: Seq<u8>, rest: Seq<u8>, at: int)
    requires
        0 <= at,
        at + 4 <= b.len(),
    ensures
        u32_from(b + rest, at) == u32_from(b, at),
        i32_from(b + rest, at) == i32_from(b, at),
        at + 8 <= b.len() ==> u64_from(b + rest, at) == u64_from(b, at),
{
    reveal(u32_from);
}

/// Behind its length goes as much of a byte string as one byte can announce: all
/// of it up to 255 bytes, and else the first 255.
pub proof fn law_a_length_announces_what_follows(b: Seq<u8>)
    ensures
        short(b).len() == 1 + short(b)[0],
        b.len() <= 255 ==> short(b)[0] == b.len() && short(b).skip(1) == b,
        b.len() > 255 ==> short(b)[0] == 255 && short(b).skip(1) == b.take(255),
{
    assert(short(b).skip(1) =~= capped(b));
}

/// Cutting to 32 bits leaves what is left of a number after whole multiples of
/// the first number that does not fit; one that fits is not changed.
pub proof fn law_cutting_keeps_the_low_bits(x: int)
    ensures
        (x - wrapped_i32(x)) % 0x1_0000_0000 == 0,
        i32::MIN <= x <= i32::MAX ==> wrapped_i32(x) == x,
{
    let low = x % 0x1_0000_0000;
    assert(wrapped_i32(x) == low || wrapped_i32(x) == low - 0x1_0000_0000);
}

/// Text that is UTF-8 is read as it is; only what is not is repaired.
pub proof fn law_good_text_is_not_repaired(text: Seq<char>, bytes: Seq<u8>)
    ensures
        lossy(encode_utf8(text)) == text,
        !valid_utf8(bytes) ==> lossy(bytes) == repaired(bytes),
{
    encode_utf8_valid_utf8(text);
    encode_utf8_decode_utf8(text);
}

/// What is UTF-8 in front is as long as it can be: that much is UTF-8, and with
/// any more it is not.
pub proof fn law_the_longest_text_in_front(bytes: Seq<u8>)
    ensures
        0 <= valid_up_to(bytes) <= bytes.len(),
        valid_utf8(bytes.take(valid_up_to(bytes))),
        forall|n: int|
            valid_up_to(bytes) < n <= bytes.len() ==> !valid_utf8(#[trigger] bytes.take(n)),
{
    lemma_valid_within(bytes, bytes.len() as int);
}

proof fn lemma_valid_within(bytes: Seq<u8>, n: int)
    requires
        0 <= n <= bytes.len(),
    ensures
        0 <= valid_within(bytes, n) <= n,
        valid_utf8(bytes.take(valid_within(bytes, n))),
        forall|m: int| valid_within(bytes, n) < m <= n ==> !valid_utf8(#[trigger] bytes.take(m)),
    decreases n,
{
    if n <= 0 {
        assert(bytes.take(0) =~= Seq::empty());
        assert(valid_utf8(Seq::<u8>::empty()));
    } else if !valid_utf8(bytes.take(n)) {
        lemma_valid_within(bytes, n - 1);
    }
}

} // verus!
