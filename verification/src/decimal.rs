//! Integers as text: decimal digits, zero padding, hexadecimal digits, and
//! the reading of decimal texts.

use vstd::prelude::*;
use vstd::string::*;

use crate::text::chars_of;

verus! {

/// The decimal digit for `d`.
pub open spec fn digit(d: int) -> char {
    (('0' as u32) + d) as char
}

/// The decimal text of a natural number.
pub open spec fn digits(n: nat) -> Seq<char>
    decreases n,
{
    if n < 10 {
        seq![digit(n as int)]
    } else {
        digits(n / 10).push(digit((n % 10) as int))
    }
}

/// The decimal text of an integer.
pub open spec fn integer(n: int) -> Seq<char> {
    if n < 0 {
        seq!['-'] + digits((-n) as nat)
    } else {
        digits(n as nat)
    }
}

fn digit_char(d: u64) -> (r: char)
    requires
        d < 10,
    ensures
        r == digit(d as int),
{
    (48u8 + d as u8) as char
}

/// The decimal text of `n`.
pub fn unsigned_text(n: u64) -> (r: String)
    ensures
        r@ == digits(n as nat),
    decreases n,
{
    let mut out = if n < 10 { String::new() } else { unsigned_text(n / 10) };
    out.push(digit_char(n % 10));
    assert(n < 10 ==> out@ == seq![digit(n as int)]);
    out
}

/// The decimal text of `n`.
pub fn signed_text(n: i64) -> (r: String)
    ensures
        r@ == integer(n as int),
{
    if n < 0 {
        let mut out = String::new();
        out.push('-');
        let magnitude = (-(n as i128)) as u64;
        out.append(unsigned_text(magnitude).as_str());
        assert(out@ =~= integer(n as int));
        out
    } else {
        unsigned_text(n as u64)
    }
}

/// `s` with as many zeros before it as make it `width` characters long.
pub open spec fn padded(s: Seq<char>, width: int) -> Seq<char>
    decreases width - s.len(),
{
    if s.len() < width {
        padded(seq!['0'] + s, width)
    } else {
        s
    }
}

/// The decimal text of `n`, with leading zeros up to `width` characters.
pub fn padded_text(n: u64, width: usize) -> (r: String)
    ensures
        r@ == padded(digits(n as nat), width as int),
{
    let mut out = unsigned_text(n);
    let mut len: usize = chars_of(out.as_str()).len();
    while len < width
        invariant
            len == out@.len(),
            padded(digits(n as nat), width as int) == padded(out@, width as int),
        decreases width - len,
    {
        let mut next = String::new();
        next.push('0');
        assert(next@ == seq!['0']);
        next.append(out.as_str());
        out = next;
        len += 1;
    }
    out
}

/// The lower-case hexadecimal digit for `d`.
pub open spec fn hex_digit(d: int) -> char {
    if d < 10 {
        digit(d)
    } else {
        (('a' as u32) + (d - 10)) as char
    }
}

/// The last `count` hexadecimal digits of `n`.
pub open spec fn hex_digits(n: nat, count: nat) -> Seq<char>
    decreases count,
{
    if count == 0 {
        Seq::empty()
    } else {
        hex_digits(n / 16, (count - 1) as nat).push(hex_digit((n % 16) as int))
    }
}

/// The last `count` hexadecimal digits of `n`.
pub fn hex_text(n: u64, count: usize) -> (r: String)
    ensures
        r@ == hex_digits(n as nat, count as nat),
    decreases count,
{
    if count == 0 {
        String::new()
    } else {
        let mut out = hex_text(n / 16, count - 1);
        let d = (n % 16) as u8;
        let c = if d < 10 { (48u8 + d) as char } else { (97u8 + (d - 10)) as char };
        assert(c == hex_digit((n % 16) as int));
        out.push(c);
        out
    }
}

/// Whether `c` is a decimal digit.
pub open spec fn is_digit(c: char) -> bool {
    '0' <= c <= '9'
}

/// The value of a text of decimal digits.
pub open spec fn digits_value(s: Seq<char>) -> nat
    decreases s.len(),
{
    if s.len() == 0 {
        0
    } else {
        digits_value(s.drop_last()) * 10 + ((s.last() as u32 - '0' as u32) as nat)
    }
}

/// Whether `s` is one or more decimal digits.
pub open spec fn is_number(s: Seq<char>) -> bool {
    s.len() > 0 && forall|i: int| 0 <= i < s.len() ==> is_digit(#[trigger] s[i])
}

/// `s` without the sign `c` that it may begin with.
pub open spec fn unsigned_part(s: Seq<char>, c: char) -> Seq<char> {
    if s.len() > 0 && s[0] == c {
        s.skip(1)
    } else {
        s
    }
}

/// The number at most `max` that `s` writes in decimal, with an optional plus sign.
pub open spec fn natural_of(s: Seq<char>, max: int) -> Option<int> {
    let body = unsigned_part(s, '+');
    if is_number(body) && digits_value(body) <= max {
        Some(digits_value(body) as int)
    } else {
        None
    }
}

/// The `i64` that `s` writes in decimal, with an optional sign.
pub open spec fn integer_of(s: Seq<char>) -> Option<int> {
    if s.len() > 0 && s[0] == '-' {
        let body = s.skip(1);
        if is_number(body) && -digits_value(body) >= i64::MIN {
            Some(-digits_value(body))
        } else {
            None
        }
    } else {
        natural_of(s, i64::MAX as int)
    }
}

proof fn lemma_digits_value_of_head(s: Seq<char>, i: int)
    requires
        0 <= i <= s.len(),
    ensures
        digits_value(s.take(i)) <= digits_value(s),
    decreases s.len() - i,
{
    if i < s.len() {
        lemma_digits_value_of_head(s, i + 1);
        assert(s.take(i + 1).drop_last() == s.take(i));
    } else {
        assert(s.take(i) == s);
    }
}

/// The value of the decimal digits `cs[from..]`, if they are digits and their
/// value is at most `max`.
fn read_digits(cs: &Vec<char>, from: usize, max: u64) -> (r: Option<u64>)
    requires
        from <= cs@.len(),
    ensures
        ({
            let body = cs@.skip(from as int);
            match r {
                Some(n) => is_number(body) && digits_value(body) <= max && n == digits_value(body),
                None => !(is_number(body) && digits_value(body) <= max),
            }
        }),
{
    let ghost body = cs@.skip(from as int);
    if from == cs.len() {
        return None;
    }
    let mut value: u64 = 0;
    let mut i: usize = from;
    assert(body.take(0) == Seq::<char>::empty());
    while i < cs.len()
        invariant
            from <= i <= cs@.len(),
            body == cs@.skip(from as int),
            value == digits_value(body.take(i - from)),
            value <= max,
            forall|j: int| 0 <= j < i - from ==> is_digit(#[trigger] body[j]),
        decreases cs@.len() - i,
    {
        let c = cs[i];
        assert(body[i - from] == c);
        if !('0' <= c && c <= '9') {
            return None;
        }
        let d = (c as u8 - 48u8) as u128;
        let next = (value as u128) * 10 + d;
        proof {
            assert(body.take(i - from + 1).drop_last() == body.take(i - from));
            lemma_digits_value_of_head(body, i - from + 1);
        }
        if next > max as u128 {
            return None;
        }
        value = next as u64;
        i += 1;
    }
    assert(body.take(i - from) == body);
    Some(value)
}

/// The `usize` that `s` writes in decimal, with an optional plus sign.
pub fn read_usize(s: &str) -> (r: Option<usize>)
    ensures
        match r {
            Some(n) => natural_of(s@, usize::MAX as int) == Some(n as int),
            None => natural_of(s@, usize::MAX as int) is None,
        },
{
    let cs = chars_of(s);
    assert(cs@.skip(0) == cs@);
    let from: usize = if cs.len() > 0 && cs[0] == '+' { 1 } else { 0 };
    match read_digits(&cs, from, usize::MAX as u64) {
        Some(n) => Some(n as usize),
        None => None,
    }
}

/// The `i64` that `s` writes in decimal, with an optional sign.
pub fn read_i64(s: &str) -> (r: Option<i64>)
    ensures
        match r {
            Some(n) => integer_of(s@) == Some(n as int),
            None => integer_of(s@) is None,
        },
{
    let cs = chars_of(s);
    assert(cs@.skip(0) == cs@);
    if cs.len() > 0 && cs[0] == '-' {
        match read_digits(&cs, 1, 0x8000_0000_0000_0000) {
            Some(n) => Some((-(n as i128)) as i64),
            None => None,
        }
    } else {
        let from: usize = if cs.len() > 0 && cs[0] == '+' { 1 } else { 0 };
        match read_digits(&cs, from, i64::MAX as u64) {
            Some(n) => Some(n as i64),
            None => None,
        }
    }
}

/// The decimal text of a natural number is its digits.
proof fn lemma_digits(n: nat)
    ensures
        is_number(digits(n)),
        digits_value(digits(n)) == n,
    decreases n,
{
    let d = (n % 10) as int;
    assert(digit(d) as u32 == 48 + d);
    assert(is_digit(digit(d)));
    if n < 10 {
        let s = seq![digit(n as int)];
        assert(s.drop_last() =~= Seq::<char>::empty());
        assert(digits_value(s.drop_last()) == 0);
        assert(s.last() == digit(d));
    } else {
        lemma_digits(n / 10);
        let s = digits(n);
        assert(s.drop_last() =~= digits(n / 10));
        assert(s.last() == digit(d));
        assert(n == (n / 10) * 10 + n % 10);
        assert forall|i: int| 0 <= i < s.len() implies is_digit(#[trigger] s[i]) by {
            if i < digits(n / 10).len() {
                assert(s[i] == digits(n / 10)[i]);
            }
        }
    }
}

/// The decimal text of an integer reads as that integer, and holds nothing but
/// digits and the sign.
pub proof fn decimal_texts_read_back(n: int)
    requires
        i64::MIN <= n <= i64::MAX,
    ensures
        integer_of(integer(n)) == Some(n),
        integer(n).len() > 0,
        forall|i: int|
            0 <= i < integer(n).len() ==> is_digit(#[trigger] integer(n)[i]) || integer(n)[i]
                == '-',
{
    if n < 0 {
        lemma_digits((-n) as nat);
        let s = integer(n);
        assert(s.skip(1) =~= digits((-n) as nat));
        assert forall|i: int| 0 <= i < s.len() implies is_digit(#[trigger] s[i]) || s[i] == '-' by {
            if i > 0 {
                assert(s[i] == digits((-n) as nat)[i - 1]);
            }
        }
    } else {
        lemma_digits(n as nat);
        assert(is_digit(digits(n as nat)[0]));
    }
}

} // verus!
