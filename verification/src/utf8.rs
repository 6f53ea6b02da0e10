//! Byte measures of texts: encoded length, the longest head that fits in a
//! number of bytes, and the 64-bit FNV-1a hash of the encoding.

use vstd::prelude::*;
use vstd::string::*;
use vstd::utf8::*;

use crate::text::chars_of;

verus! {

/// The number of bytes that encode `c`.
pub open spec fn width(c: char) -> nat {
    encode_scalar(c as u32).len()
}

/// The number of bytes that encode `s`.
pub open spec fn byte_len(s: Seq<char>) -> nat {
    encode_utf8(s).len()
}

/// The encoding of two texts, one after the other, is that of their concatenation.
pub proof fn encoding_of_concatenation(a: Seq<char>, b: Seq<char>)
    ensures
        encode_utf8(a + b) == encode_utf8(a) + encode_utf8(b),
    decreases a.len(),
{
    if a.len() == 0 {
        assert(a + b == b);
        assert(encode_utf8(a) == Seq::<u8>::empty());
    } else {
        assert((a + b).drop_first() == a.drop_first() + b);
        encoding_of_concatenation(a.drop_first(), b);
        assert(encode_utf8(a + b) =~= encode_utf8(a) + encode_utf8(b));
    }
}

pub proof fn lemma_byte_len_push(s: Seq<char>, c: char)
    ensures
        byte_len(s.push(c)) == byte_len(s) + width(c),
        1 <= width(c) <= 4,
{
    assert(s.push(c) == s + seq![c]);
    encoding_of_concatenation(s, seq![c]);
    reveal_with_fuel(encode_utf8, 2);
    assert(seq![c].drop_first() == Seq::<char>::empty());
}

pub proof fn lemma_byte_len_first(s: Seq<char>)
    requires
        s.len() > 0,
    ensures
        byte_len(s) == width(s[0]) + byte_len(s.skip(1)),
        1 <= width(s[0]) <= 4,
{
    assert(s.drop_first() == s.skip(1));
}

fn char_width(c: char) -> (r: usize)
    ensures
        r == width(c),
        1 <= r <= 4,
{
    let n = c as u32;
    if n <= 0x7f {
        1
    } else if n <= 0x7ff {
        2
    } else if n <= 0xffff {
        3
    } else {
        4
    }
}

/// The number of bytes that encode the text `s`.
pub fn len_of(s: &str) -> (r: usize)
    ensures
        r == byte_len(s@),
{
    s.as_bytes().len()
}

/// The longest head of `s` whose encoding takes at most `max` bytes.
pub open spec fn head_within(s: Seq<char>, max: int) -> Seq<char>
    decreases s.len(),
{
    if s.len() == 0 || width(s[0]) > max {
        Seq::empty()
    } else {
        seq![s[0]] + head_within(s.skip(1), max - width(s[0]))
    }
}

/// `head_within(s, max)` is a head of `s`, fits in `max` bytes, and is all of
/// `s` or would not fit with one more character.
pub proof fn head_within_is_the_longest_head(s: Seq<char>, max: int)
    requires
        0 <= max,
    ensures
        head_within(s, max).len() <= s.len(),
        head_within(s, max) == s.take(head_within(s, max).len() as int),
        byte_len(head_within(s, max)) <= max,
        head_within(s, max).len() < s.len() ==> byte_len(
            s.take((head_within(s, max).len() + 1) as int),
        ) > max,
    decreases s.len(),
{
    let h = head_within(s, max);
    if s.len() == 0 {
        assert(h == s.take(0));
    } else if width(s[0]) > max {
        assert(h == s.take(0));
        lemma_byte_len_push(Seq::empty(), s[0]);
        assert(s.take(1) == Seq::<char>::empty().push(s[0]));
    } else {
        let t = s.skip(1);
        let m = max - width(s[0]);
        head_within_is_the_longest_head(t, m);
        let g = head_within(t, m);
        assert(h.skip(1) == g);
        assert(h == s.take(h.len() as int)) by {
            assert(s.take(h.len() as int) =~= seq![s[0]] + t.take(g.len() as int));
        }
        lemma_byte_len_first(h);
        if h.len() < s.len() {
            let w = s.take((h.len() + 1) as int);
            lemma_byte_len_first(w);
            assert(w.skip(1) == t.take((g.len() + 1) as int));
        }
    }
}

/// A text that fits is its own longest head that fits.
pub proof fn head_within_of_fitting_text(s: Seq<char>, max: int)
    ensures
        head_within(s, max) == s <==> byte_len(s) <= max || s.len() == 0,
    decreases s.len(),
{
    if s.len() == 0 {
        assert(head_within(s, max) == s);
    } else {
        lemma_byte_len_first(s);
        let t = s.skip(1);
        if width(s[0]) <= max {
            let g = head_within(t, max - width(s[0]));
            head_within_of_fitting_text(t, max - width(s[0]));
            assert(s == seq![s[0]] + t);
            assert(head_within(s, max).skip(1) == g);
            if t.len() == 0 {
                assert(byte_len(t) == 0);
            }
        }
    }
}

/// The longest head of the text `s` whose encoding takes at most `max` bytes.
pub fn cut(s: &str, max: usize) -> (r: String)
    ensures
        r@ == head_within(s@, max as int),
{
    let cs = chars_of(s);
    let mut out = String::new();
    let mut left: usize = max;
    let mut i: usize = 0;
    assert(cs@.skip(0) == cs@);
    while i < cs.len()
        invariant
            i <= cs@.len(),
            head_within(cs@, max as int) =~= out@ + head_within(cs@.skip(i as int), left as int),
        ensures
            head_within(cs@, max as int) =~= out@,
        decreases cs@.len() - i,
    {
        let ghost rest = cs@.skip(i as int);
        let w = char_width(cs[i]);
        if w > left {
            break;
        }
        assert(rest.skip(1) == cs@.skip(i + 1));
        out.push(cs[i]);
        left -= w;
        i += 1;
    }
    out
}

/// One step of the 64-bit FNV-1a hash.
pub open spec fn fnv_step(h: u64, b: u8) -> u64 {
    (h ^ (b as u64)).wrapping_mul(0x100000001b3u64)
}

/// The 64-bit FNV-1a hash of `bytes`, continued from the state `h`.
pub open spec fn fnv_from(h: u64, bytes: Seq<u8>) -> u64
    decreases bytes.len(),
{
    if bytes.len() == 0 {
        h
    } else {
        fnv_step(fnv_from(h, bytes.drop_last()), bytes.last())
    }
}

/// The start state of the 64-bit FNV-1a hash.
pub const FNV_START: u64 = 0xcbf29ce484222325;

/// The 64-bit FNV-1a hash of the encoding of `s`, continued from the state `h`.
pub fn fnv(h: u64, s: &str) -> (r: u64)
    ensures
        r == fnv_from(h, encode_utf8(s@)),
{
    let bytes = s.as_bytes();
    let mut state: u64 = h;
    let mut i: usize = 0;
    while i < bytes.len()
        invariant
            i <= bytes@.len(),
            state == fnv_from(h, bytes@.take(i as int)),
        decreases bytes@.len() - i,
    {
        assert(bytes@.take(i + 1).drop_last() == bytes@.take(i as int));
        state = (state ^ (bytes[i] as u64)).wrapping_mul(0x100000001b3u64);
        i += 1;
    }
    assert(bytes@.take(i as int) == bytes@);
    state
}

} // verus!
