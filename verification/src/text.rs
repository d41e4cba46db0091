//! Building and comparing text.

use vstd::prelude::*;
use vstd::utf8::*;

verus! {

/// `String::push` appends one character.
pub assume_specification[ String::push ](s: &mut String, ch: char)
    ensures
        final(s)@ == old(s)@.push(ch),
;

/// The model of a text that may be missing.
pub open spec fn optional(text: Option<String>) -> Option<Seq<char>> {
    match text {
        Some(t) => Some(t@),
        None => None,
    }
}

/// Whether two texts are the same.
pub fn same(a: &str, b: &str) -> (equal: bool)
    ensures
        equal == (a@ == b@),
{
    let x = a.as_bytes();
    let y = b.as_bytes();
    if x.len() != y.len() {
        return false;
    }
    let mut i: usize = 0;
    while i < x.len()
        invariant
            i <= x@.len(),
            x@.len() == y@.len(),
            x@ == encode_utf8(a@),
            y@ == encode_utf8(b@),
            forall|j: int| 0 <= j < i ==> x@[j] == y@[j],
        decreases x@.len() - i,
    {
        if x[i] != y[i] {
            assert(a@ != b@);
            return false;
        }
        i += 1;
    }
    proof {
        assert(x@ =~= y@);
        encode_utf8_decode_utf8(a@);
        encode_utf8_decode_utf8(b@);
    }
    true
}

/// The characters of a text.
pub fn chars_of(text: &str) -> (chars: Vec<char>)
    ensures
        chars@ == text@,
{
    let mut chars: Vec<char> = Vec::new();
    for c in it: text.chars()
        invariant
            it.seq() == text@,
            chars@ == text@.take(it.index() as int),
    {
        chars.push(c);
    }
    chars
}

/// The text made of these characters.
pub fn text_of(chars: &[char]) -> (text: String)
    ensures
        text@ == chars@,
{
    let mut text = String::new();
    let mut i: usize = 0;
    while i < chars.len()
        invariant
            i <= chars@.len(),
            text@ == chars@.take(i as int),
        decreases chars@.len() - i,
    {
        text.push(chars[i]);
        i += 1;
    }
    assert(chars@.take(i as int) =~= chars@);
    text
}

/// One decimal digit.
pub open spec fn digit(d: int) -> char {
    if d == 0 {
        '0'
    } else if d == 1 {
        '1'
    } else if d == 2 {
        '2'
    } else if d == 3 {
        '3'
    } else if d == 4 {
        '4'
    } else if d == 5 {
        '5'
    } else if d == 6 {
        '6'
    } else if d == 7 {
        '7'
    } else if d == 8 {
        '8'
    } else {
        '9'
    }
}

/// A number in decimal, without leading zeros.
pub open spec fn decimal(n: int) -> Seq<char>
    decreases n,
{
    if n < 10 {
        seq![digit(n)]
    } else {
        decimal(n / 10).push(digit(n % 10))
    }
}

/// A number in decimal.
pub fn number(n: u64) -> (text: String)
    ensures
        text@ == decimal(n as int),
{
    let mut reversed: Vec<char> = Vec::new();
    let mut left: u64 = n;
    while left >= 10
        invariant
            left <= n,
            decimal(n as int) == decimal(left as int) + reversed@.reverse(),
        decreases left,
    {
        let c = digit_char(left % 10);
        let ghost before = reversed@;
        reversed.push(c);
        proof {
            assert(reversed@.reverse() =~= seq![c] + before.reverse());
            assert(decimal(left as int) =~= decimal((left / 10) as int).push(digit((left % 10) as int)));
            assert(decimal(left as int) + before.reverse() =~= decimal((left / 10) as int)
                + reversed@.reverse());
        }
        left = left / 10;
    }
    let c = digit_char(left);
    let ghost before = reversed@;
    reversed.push(c);
    assert(reversed@.reverse() =~= seq![c] + before.reverse());
    assert(decimal(n as int) == reversed@.reverse());
    let mut text = String::new();
    let mut i: usize = reversed.len();
    while i > 0
        invariant
            i <= reversed@.len(),
            text@ == reversed@.reverse().take(reversed@.len() - i),
        decreases i,
    {
        i -= 1;
        text.push(reversed[i]);
        assert(reversed@.reverse().take(reversed@.len() - i) =~= reversed@.reverse().take(
            reversed@.len() - i - 1,
        ).push(reversed@[i as int]));
    }
    assert(reversed@.reverse().take(reversed@.len() as int) =~= reversed@.reverse());
    text
}

fn digit_char(d: u64) -> (c: char)
    requires
        d < 10,
    ensures
        c == digit(d as int),
{
    match d {
        0 => '0',
        1 => '1',
        2 => '2',
        3 => '3',
        4 => '4',
        5 => '5',
        6 => '6',
        7 => '7',
        8 => '8',
        _ => '9',
    }
}

/// The place of the first of these characters, or the length where there is none.
pub open spec fn first_of(text: Seq<char>, c: char) -> int
    decreases text.len(),
{
    if text.len() == 0 || text[0] == c {
        0
    } else {
        1 + first_of(text.drop_first(), c)
    }
}

/// Finds the first of these characters at or after `from`.
pub fn find(chars: &Vec<char>, from: usize, c: char) -> (at: usize)
    requires
        from <= chars@.len(),
    ensures
        at == from + first_of(chars@.skip(from as int), c),
        from <= at <= chars@.len(),
        at < chars@.len() ==> chars@[at as int] == c,
{
    let mut at: usize = from;
    while at < chars.len() && chars[at] != c
        invariant
            from <= at <= chars@.len(),
            at + first_of(chars@.skip(at as int), c) == from + first_of(
                chars@.skip(from as int),
                c,
            ),
        decreases chars@.len() - at,
    {
        assert(chars@.skip(at as int).drop_first() =~= chars@.skip(at + 1));
        at += 1;
    }
    at
}

/// The first of a character in a text that lacks it, then has it.
pub proof fn lemma_first_of(text: Seq<char>, c: char, rest: Seq<char>)
    requires
        !text.contains(c),
    ensures
        first_of(text + seq![c] + rest, c) == text.len(),
    decreases text.len(),
{
    let whole = text + seq![c] + rest;
    if text.len() > 0 {
        assert(text.contains(text[0]));
        assert(!text.drop_first().contains(c)) by {
            if text.drop_first().contains(c) {
                let i = choose|i: int|
                    0 <= i < text.drop_first().len() && text.drop_first()[i] == c;
                assert(text[i + 1] == c);
            }
        }
        lemma_first_of(text.drop_first(), c, rest);
        assert(whole.drop_first() =~= text.drop_first() + seq![c] + rest);
    }
}

/// One hexadecimal digit, in lower case.
pub open spec fn hex_digit(d: int) -> char {
    if d < 10 {
        ('0' as int + d) as char
    } else {
        ('a' as int + d - 10) as char
    }
}

/// Whether a character is a hexadecimal digit, in either case.
pub open spec fn is_hex(c: char) -> bool {
    '0' <= c <= '9' || 'a' <= c <= 'f' || 'A' <= c <= 'F'
}

/// What a hexadecimal digit is worth.
pub open spec fn hex_value(c: char) -> int {
    if '0' <= c <= '9' {
        c as int - '0' as int
    } else if 'a' <= c <= 'f' {
        c as int - 'a' as int + 10
    } else {
        c as int - 'A' as int + 10
    }
}

/// Whether a character is a hexadecimal digit in lower case.
pub open spec fn is_lower_hex(c: char) -> bool {
    '0' <= c <= '9' || 'a' <= c <= 'f'
}

/// One hexadecimal digit, in lower case.
pub fn hex_char(d: u8) -> (c: char)
    requires
        d < 16,
    ensures
        c == hex_digit(d as int),
{
    if d < 10 {
        ('0' as u8 + d) as char
    } else {
        ('a' as u8 + (d - 10)) as char
    }
}

/// The place of a character: nothing before it is that character, and it is
/// there, unless it is nowhere.
pub proof fn law_the_first_comes_first(text: Seq<char>, c: char)
    ensures
        0 <= first_of(text, c) <= text.len(),
        first_of(text, c) < text.len() ==> text[first_of(text, c)] == c,
        forall|i: int| 0 <= i < first_of(text, c) ==> #[trigger] text[i] != c,
    decreases text.len(),
{
    if text.len() > 0 && text[0] != c {
        let rest = text.drop_first();
        law_the_first_comes_first(rest, c);
        assert forall|i: int| 0 <= i < first_of(text, c) implies #[trigger] text[i] != c by {
            if i > 0 {
                assert(rest[i - 1] != c);
            }
        }
    }
}

/// The number that a row of decimal digits stands for.
pub open spec fn counted_by(digits: Seq<char>) -> int
    decreases digits.len(),
{
    if digits.len() == 0 {
        0
    } else {
        10 * counted_by(digits.drop_last()) + (digits.last() as int - '0' as int)
    }
}

/// A number's digits stand for that number, each is a digit, and none leads that
/// need not be there.
pub proof fn law_a_number_reads_back(n: int)
    requires
        n >= 0,
    ensures
        counted_by(decimal(n)) == n,
        decimal(n).len() > 0,
        forall|i: int| 0 <= i < decimal(n).len() ==> '0' <= #[trigger] decimal(n)[i] <= '9',
        n > 0 ==> decimal(n)[0] != '0',
    decreases n,
{
    if n < 10 {
        let one = decimal(n);
        assert(one.drop_last() =~= Seq::empty());
        assert(counted_by(one.drop_last()) == 0);
        assert(one.last() as int - '0' as int == n);
    } else {
        let front = decimal(n / 10);
        law_a_number_reads_back(n / 10);
        assert(decimal(n).drop_last() =~= front);
        assert(digit(n % 10) as int - '0' as int == n % 10);
        assert forall|i: int| 0 <= i < decimal(n).len() implies '0' <= #[trigger] decimal(n)[i]
            <= '9' by {
            if i < front.len() {
                assert('0' <= front[i] <= '9');
            }
        }
        assert(decimal(n)[0] == front[0]);
    }
}

/// The hexadecimal digits are these sixteen, in this order, and a digit in
/// either case is worth its place among them. Nothing else is a digit.
pub proof fn law_the_sixteen_digits(d: int, c: char)
    ensures
        0 <= d < 16 ==> hex_digit(d) == "0123456789abcdef"@[d],
        0 <= d < 16 ==> hex_value("0123456789abcdef"@[d]) == d && hex_value(
            "0123456789ABCDEF"@[d],
        ) == d,
        is_hex(c) <==> "0123456789abcdef"@.contains(c) || "0123456789ABCDEF"@.contains(c),
        is_lower_hex(c) <==> "0123456789abcdef"@.contains(c),
{
    reveal_strlit("0123456789abcdef");
    reveal_strlit("0123456789ABCDEF");
    let low = "0123456789abcdef"@;
    let high = "0123456789ABCDEF"@;
    if is_hex(c) {
        if c <= '9' {
            assert(low[c as int - '0' as int] == c);
        } else if 'a' <= c {
            assert(low[c as int - 'a' as int + 10] == c);
        } else {
            assert(high[c as int - 'A' as int + 10] == c);
        }
    }
}

/// A text that may be missing is itself where it is there.
pub proof fn law_a_text_is_itself(text: Option<String>)
    ensures
        optional(text) is Some <==> text is Some,
        text matches Some(t) ==> optional(text)->0 == t@,
{
}

} // verus!
