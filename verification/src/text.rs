//! Text primitives over sequences of characters.
//!
//! A string is modelled by its sequence of characters. Byte lengths are
//! those of the UTF-8 encoding of that sequence.

use vstd::prelude::*;
use vstd::string::*;
use vstd::utf8::*;

verus! {

/// `String::push` appends one character to the end of the string.
pub assume_specification[ String::push ](s: &mut String, c: char)
    ensures
        final(s)@ == old(s)@.push(c),
;

/// The texts of a sequence of strings.
pub open spec fn views(v: Seq<String>) -> Seq<Seq<char>> {
    v.map_values(|s: String| s@)
}

/// The characters of `s`, in order.
pub fn chars_of(s: &str) -> (r: Vec<char>)
    ensures
        r@ == s@,
{
    let mut out: Vec<char> = Vec::new();
    for c in it: s.chars()
        invariant
            it.seq() == s@,
            out@ == s@.take(it.index() as int),
    {
        out.push(c);
    }
    out
}

/// The text made of the characters `cs[from..to]`.
pub fn text_of(cs: &Vec<char>, from: usize, to: usize) -> (r: String)
    requires
        from <= to <= cs@.len(),
    ensures
        r@ == cs@.subrange(from as int, to as int),
{
    let mut out = String::new();
    let mut i: usize = from;
    while i < to
        invariant
            from <= i <= to <= cs@.len(),
            out@ == cs@.subrange(from as int, i as int),
        decreases to - i,
    {
        out.push(cs[i]);
        i += 1;
    }
    out
}

/// Two texts with the same bytes are the same text.
proof fn lemma_bytes_determine_text(a: Seq<char>, b: Seq<char>)
    requires
        encode_utf8(a) == encode_utf8(b),
    ensures
        a == b,
{
    encode_utf8_decode_utf8(a);
    encode_utf8_decode_utf8(b);
}

/// Whether `a` and `b` are the same text.
pub fn same(a: &str, b: &str) -> (r: bool)
    ensures
        r == (a@ == b@),
{
    let x = a.as_bytes();
    let y = b.as_bytes();
    if x.len() != y.len() {
        return false;
    }
    let mut i: usize = 0;
    while i < x.len()
        invariant
            i <= x@.len(),
            x@.len() == y@.len(),
            x@ == encode_utf8(a@),
            y@ == encode_utf8(b@),
            x@.take(i as int) == y@.take(i as int),
        decreases x@.len() - i,
    {
        if x[i] != y[i] {
            return false;
        }
        assert(x@.take(i + 1) == x@.take(i as int).push(x@[i as int]));
        assert(y@.take(i + 1) == y@.take(i as int).push(y@[i as int]));
        i += 1;
    }
    proof {
        assert(x@.take(i as int) == x@);
        assert(y@.take(i as int) == y@);
        lemma_bytes_determine_text(a@, b@);
    }
    true
}

/// The characters with the Unicode `White_Space` property.
pub open spec fn is_space(c: char) -> bool {
    ||| '\u{9}' <= c <= '\u{d}'
    ||| c == ' '
    ||| c == '\u{85}'
    ||| c == '\u{a0}'
    ||| c == '\u{1680}'
    ||| '\u{2000}' <= c <= '\u{200a}'
    ||| c == '\u{2028}'
    ||| c == '\u{2029}'
    ||| c == '\u{202f}'
    ||| c == '\u{205f}'
    ||| c == '\u{3000}'
}

fn space(c: char) -> (r: bool)
    ensures
        r == is_space(c),
{
    ('\u{9}' <= c && c <= '\u{d}') || c == ' ' || c == '\u{85}' || c == '\u{a0}' || c == '\u{1680}'
        || ('\u{2000}' <= c && c <= '\u{200a}') || c == '\u{2028}' || c == '\u{2029}'
        || c == '\u{202f}' || c == '\u{205f}' || c == '\u{3000}'
}

/// `s` without its leading white space.
pub open spec fn trimmed_start(s: Seq<char>) -> Seq<char>
    decreases s.len(),
{
    if s.len() > 0 && is_space(s[0]) {
        trimmed_start(s.skip(1))
    } else {
        s
    }
}

/// `s` without its trailing white space.
pub open spec fn trimmed_end(s: Seq<char>) -> Seq<char>
    decreases s.len(),
{
    if s.len() > 0 && is_space(s.last()) {
        trimmed_end(s.drop_last())
    } else {
        s
    }
}

/// `s` without its leading and trailing white space.
pub open spec fn trimmed(s: Seq<char>) -> Seq<char> {
    trimmed_end(trimmed_start(s))
}

/// The text `s` without its leading and trailing white space.
pub fn trim(s: &str) -> (r: String)
    ensures
        r@ == trimmed(s@),
{
    let cs = chars_of(s);
    let mut from: usize = 0;
    assert(cs@.skip(0) == cs@);
    while from < cs.len() && space(cs[from])
        invariant
            from <= cs@.len(),
            trimmed_start(cs@) == trimmed_start(cs@.skip(from as int)),
        decreases cs@.len() - from,
    {
        assert(cs@.skip(from as int).skip(1) == cs@.skip(from + 1));
        from += 1;
    }
    let mut to: usize = cs.len();
    let ghost rest = cs@.skip(from as int);
    assert(trimmed_start(cs@) == rest);
    assert(cs@.subrange(from as int, to as int) == rest);
    while to > from && space(cs[to - 1])
        invariant
            from <= to <= cs@.len(),
            trimmed_end(rest) == trimmed_end(cs@.subrange(from as int, to as int)),
        decreases to,
    {
        assert(cs@.subrange(from as int, to as int).drop_last() == cs@.subrange(
            from as int,
            to - 1,
        ));
        to -= 1;
    }
    text_of(&cs, from, to)
}

/// `s` without the leading run of `c`.
pub open spec fn without_leading(s: Seq<char>, c: char) -> Seq<char>
    decreases s.len(),
{
    if s.len() > 0 && s[0] == c {
        without_leading(s.skip(1), c)
    } else {
        s
    }
}

/// `s` without the trailing run of `c`.
pub open spec fn without_trailing(s: Seq<char>, c: char) -> Seq<char>
    decreases s.len(),
{
    if s.len() > 0 && s.last() == c {
        without_trailing(s.drop_last(), c)
    } else {
        s
    }
}

/// The text `s` without the leading run of `c`.
pub fn strip_leading(s: &str, c: char) -> (r: String)
    ensures
        r@ == without_leading(s@, c),
{
    let cs = chars_of(s);
    let mut from: usize = 0;
    assert(cs@.skip(0) == cs@);
    while from < cs.len() && cs[from] == c
        invariant
            from <= cs@.len(),
            without_leading(cs@, c) == without_leading(cs@.skip(from as int), c),
        decreases cs@.len() - from,
    {
        assert(cs@.skip(from as int).skip(1) == cs@.skip(from + 1));
        from += 1;
    }
    assert(cs@.skip(from as int) == cs@.subrange(from as int, cs@.len() as int));
    text_of(&cs, from, cs.len())
}

/// The text `s` without the trailing run of `c`.
pub fn strip_trailing(s: &str, c: char) -> (r: String)
    ensures
        r@ == without_trailing(s@, c),
{
    let cs = chars_of(s);
    let mut to: usize = cs.len();
    assert(cs@.take(to as int) == cs@);
    while to > 0 && cs[to - 1] == c
        invariant
            to <= cs@.len(),
            without_trailing(cs@, c) == without_trailing(cs@.take(to as int), c),
        decreases to,
    {
        assert(cs@.take(to as int).drop_last() == cs@.take(to - 1));
        to -= 1;
    }
    assert(cs@.take(to as int) == cs@.subrange(0, to as int));
    text_of(&cs, 0, to)
}

/// Whether `s` begins with `p`.
pub open spec fn begins_with(s: Seq<char>, p: Seq<char>) -> bool {
    p.len() <= s.len() && s.take(p.len() as int) == p
}

/// What follows the prefix `p` of `s`, if `s` has that prefix.
pub open spec fn after_prefix(s: Seq<char>, p: Seq<char>) -> Option<Seq<char>> {
    if begins_with(s, p) {
        Some(s.skip(p.len() as int))
    } else {
        None
    }
}

/// Whether `s` begins with `p`.
pub fn starts_with(s: &str, p: &str) -> (r: bool)
    ensures
        r == begins_with(s@, p@),
{
    strip_prefix(s, p).is_some()
}

/// What follows the prefix `p` of `s`, or `None` if `s` does not begin with `p`.
pub fn strip_prefix(s: &str, p: &str) -> (r: Option<String>)
    ensures
        match r {
            Some(rest) => after_prefix(s@, p@) == Some(rest@),
            None => after_prefix(s@, p@) is None,
        },
{
    let cs = chars_of(s);
    let ps = chars_of(p);
    if occurs(&cs, &ps, 0) {
        assert(cs@.subrange(0, ps@.len() as int) == cs@.take(ps@.len() as int));
        assert(cs@.subrange(ps@.len() as int, cs@.len() as int) == cs@.skip(ps@.len() as int));
        Some(text_of(&cs, ps.len(), cs.len()))
    } else {
        assert(ps@.len() <= cs@.len() ==> cs@.subrange(0, ps@.len() as int) == cs@.take(
            ps@.len() as int,
        ));
        None
    }
}

/// Whether `n` stands in `h` at index `i`.
pub open spec fn occurs_at(h: Seq<char>, n: Seq<char>, i: int) -> bool {
    0 <= i && i + n.len() <= h.len() && h.subrange(i, i + n.len()) == n
}

/// Whether `n` stands somewhere in `h`.
pub open spec fn has_part(h: Seq<char>, n: Seq<char>) -> bool {
    exists|i: int| occurs_at(h, n, i)
}

/// The least index at or after `from` at which `n` stands in `h`.
pub open spec fn first_at(h: Seq<char>, n: Seq<char>, from: int) -> Option<int>
    decreases h.len() - from + 1,
{
    if from < 0 || from + n.len() > h.len() {
        None
    } else if occurs_at(h, n, from) {
        Some(from)
    } else {
        first_at(h, n, from + 1)
    }
}

pub proof fn lemma_first_at(h: Seq<char>, n: Seq<char>, from: int)
    requires
        0 <= from,
    ensures
        match first_at(h, n, from) {
            Some(p) => from <= p && occurs_at(h, n, p) && (forall|j: int|
                from <= j < p ==> !occurs_at(h, n, j)),
            None => forall|j: int| from <= j ==> !occurs_at(h, n, j),
        },
    decreases h.len() - from + 1,
{
    if from + n.len() <= h.len() && !occurs_at(h, n, from) {
        lemma_first_at(h, n, from + 1);
    }
}

/// Whether `n` stands in `h` at index `i`.
pub fn occurs(h: &Vec<char>, n: &Vec<char>, i: usize) -> (r: bool)
    ensures
        r == occurs_at(h@, n@, i as int),
{
    if n.len() > h.len() || i > h.len() - n.len() {
        return false;
    }
    let mut k: usize = 0;
    while k < n.len()
        invariant
            k <= n@.len(),
            i + n@.len() <= h.len(),
            forall|j: int| 0 <= j < k ==> h@[i + j] == n@[j],
        decreases n@.len() - k,
    {
        if h[i + k] != n[k] {
            assert(h@.subrange(i as int, i + n@.len())[k as int] != n@[k as int]);
            return false;
        }
        k += 1;
    }
    assert(h@.subrange(i as int, i + n@.len()) =~= n@);
    true
}

/// The least index at or after `from` at which `n` stands in `h`.
pub fn find_from(h: &Vec<char>, n: &Vec<char>, from: usize) -> (r: Option<usize>)
    requires
        from <= h@.len(),
    ensures
        match r {
            Some(p) => first_at(h@, n@, from as int) == Some(p as int) && p + n@.len() <= h@.len(),
            None => first_at(h@, n@, from as int) is None,
        },
{
    if n.len() > h.len() {
        return None;
    }
    let last = h.len() - n.len();
    let mut i: usize = from;
    while i <= last
        invariant
            from <= i <= h@.len(),
            n@.len() <= h@.len(),
            last == h@.len() - n@.len(),
            first_at(h@, n@, from as int) == first_at(h@, n@, i as int),
        decreases h@.len() - i,
    {
        if occurs(h, n, i) {
            return Some(i);
        }
        if i == last {
            assert(first_at(h@, n@, i + 1) is None);
            return None;
        }
        i += 1;
    }
    None
}

/// Whether `n` stands somewhere in `h`.
pub fn contains(h: &str, n: &str) -> (r: bool)
    ensures
        r == has_part(h@, n@),
{
    let hs = chars_of(h);
    let ns = chars_of(n);
    proof {
        lemma_first_at(hs@, ns@, 0);
    }
    find_from(&hs, &ns, 0).is_some()
}

/// The first `n` characters of `s`, or all of them if there are fewer.
pub open spec fn first_chars(s: Seq<char>, n: int) -> Seq<char> {
    if n < s.len() {
        s.take(n)
    } else {
        s
    }
}

/// The first `n` characters of the text `s`.
pub fn take_chars(s: &str, n: usize) -> (r: String)
    ensures
        r@ == first_chars(s@, n as int),
{
    let cs = chars_of(s);
    let to = if n < cs.len() { n } else { cs.len() };
    assert(cs@.subrange(0, to as int) == first_chars(s@, n as int));
    text_of(&cs, 0, to)
}

/// The index of the first `c` in `s`, or the length of `s` if it has none.
pub open spec fn index_of(s: Seq<char>, c: char) -> int
    decreases s.len(),
{
    if s.len() == 0 || s[0] == c {
        0
    } else {
        1 + index_of(s.skip(1), c)
    }
}

pub proof fn lemma_index_of(s: Seq<char>, c: char)
    ensures
        0 <= index_of(s, c) <= s.len(),
        forall|j: int| 0 <= j < index_of(s, c) ==> s[j] != c,
        index_of(s, c) < s.len() ==> s[index_of(s, c)] == c,
    decreases s.len(),
{
    if s.len() > 0 && s[0] != c {
        let t = s.skip(1);
        lemma_index_of(t, c);
        assert forall|j: int| 0 <= j < index_of(s, c) implies s[j] != c by {
            if j > 0 {
                assert(t[j - 1] == s[j]);
            }
        }
    }
}

/// An index is that of the first `c` when `c` stands there or the text ends
/// there, and nowhere before.
pub proof fn lemma_index_of_is(s: Seq<char>, c: char, i: int)
    requires
        0 <= i <= s.len(),
        forall|j: int| 0 <= j < i ==> s[j] != c,
        i < s.len() ==> s[i] == c,
    ensures
        index_of(s, c) == i,
{
    lemma_index_of(s, c);
}

/// The index of the first `c` in `cs[from..]`, counted from the start of `cs`.
pub fn position_from(cs: &Vec<char>, from: usize, c: char) -> (r: usize)
    requires
        from <= cs@.len(),
    ensures
        r == from + index_of(cs@.skip(from as int), c),
        from <= r <= cs@.len(),
{
    let mut i: usize = from;
    while i < cs.len() && cs[i] != c
        invariant
            from <= i <= cs@.len(),
            forall|j: int| from <= j < i ==> cs@[j] != c,
        decreases cs@.len() - i,
    {
        i += 1;
    }
    proof {
        let t = cs@.skip(from as int);
        assert forall|j: int| 0 <= j < i - from implies t[j] != c by {
            assert(t[j] == cs@[from + j]);
        }
        lemma_index_of_is(t, c, i - from);
    }
    i
}

/// The part of `s` before the first `c`, or all of `s` if it has none.
pub open spec fn before_first(s: Seq<char>, c: char) -> Seq<char> {
    s.take(index_of(s, c))
}

/// The part of the text `s` before the first `c`.
pub fn head_before(s: &str, c: char) -> (r: String)
    ensures
        r@ == before_first(s@, c),
{
    let cs = chars_of(s);
    assert(cs@.skip(0) == cs@);
    let to = position_from(&cs, 0, c);
    assert(cs@.subrange(0, to as int) == cs@.take(to as int));
    text_of(&cs, 0, to)
}

/// A terminated line without the carriage return that may precede its line feed.
pub open spec fn without_return(line: Seq<char>) -> Seq<char> {
    if line.len() > 0 && line.last() == '\r' {
        line.drop_last()
    } else {
        line
    }
}

/// The lines of `s`: each ends with a line feed or a carriage return and a
/// line feed, which are no part of it; the last one may end with the text.
pub open spec fn lines_of(s: Seq<char>) -> Seq<Seq<char>>
    decreases s.len(),
    when true
    via lines_of_decreases
{
    if s.len() == 0 {
        Seq::empty()
    } else {
        let end = index_of(s, '\n');
        if end < s.len() {
            seq![without_return(s.take(end))] + lines_of(s.skip(end + 1))
        } else {
            seq![s]
        }
    }
}

#[via_fn]
proof fn lines_of_decreases(s: Seq<char>) {
    lemma_index_of(s, '\n');
}

/// The lines of the text `s`.
pub fn lines(s: &str) -> (r: Vec<String>)
    ensures
        views(r@) == lines_of(s@),
{
    let cs = chars_of(s);
    let mut out: Vec<String> = Vec::new();
    let mut from: usize = 0;
    assert(cs@.skip(0) == cs@);
    while from < cs.len()
        invariant
            from <= cs@.len(),
            lines_of(cs@) =~= views(out@) + lines_of(cs@.skip(from as int)),
        decreases cs@.len() - from,
    {
        let end = position_from(&cs, from, '\n');
        let ghost before = out@;
        let ghost rest = cs@.skip(from as int);
        proof {
            lemma_index_of(rest, '\n');
            assert(rest.take(end - from) == cs@.subrange(from as int, end as int));
        }
        if end < cs.len() {
            let to = if end > from && cs[end - 1] == '\r' { end - 1 } else { end };
            let line = text_of(&cs, from, to);
            assert(line@ == without_return(rest.take(end - from)));
            out.push(line);
            assert(rest.skip(end - from + 1) == cs@.skip(end + 1));
            assert(views(out@) =~= views(before).push(line@));
            from = end + 1;
        } else {
            let line = text_of(&cs, from, end);
            assert(line@ == rest);
            out.push(line);
            assert(views(out@) =~= views(before).push(line@));
            from = end;
        }
    }
    out
}

/// The lines of a text that follows a line end come after the lines before it.
pub proof fn lines_follow_a_line_end(a: Seq<char>, b: Seq<char>)
    requires
        a.len() == 0 || a.last() == '\n',
    ensures
        lines_of(a + b) == lines_of(a) + lines_of(b),
    decreases a.len(),
{
    if a.len() == 0 {
        assert(a + b =~= b);
        assert(lines_of(a) + lines_of(b) =~= lines_of(b));
    } else {
        let end = index_of(a, '\n');
        lemma_index_of(a, '\n');
        assert(a[a.len() - 1] == '\n');
        lemma_index_of_is(a + b, '\n', end);
        let rest = a.skip(end + 1);
        assert((a + b).take(end) =~= a.take(end));
        assert((a + b).skip(end + 1) =~= rest + b);
        if rest.len() > 0 {
            assert(rest.last() == a.last());
        }
        lines_follow_a_line_end(rest, b);
        assert(lines_of(a + b) =~= lines_of(a) + lines_of(b));
    }
}

/// A text without its trailing white space does not end with white space.
pub proof fn lemma_trimmed_end(s: Seq<char>)
    ensures
        trimmed_end(s).len() > 0 ==> !is_space(trimmed_end(s).last()),
    decreases s.len(),
{
    if s.len() > 0 && is_space(s.last()) {
        lemma_trimmed_end(s.drop_last());
    }
}

/// A text in one line, with a line end, has that line.
pub proof fn lemma_one_line(line: Seq<char>)
    requires
        !line.contains('\n'),
        trimmed(line) == line,
    ensures
        lines_of(line.push('\n')) == seq![line],
{
    let s = line.push('\n');
    assert forall|j: int| 0 <= j < line.len() implies s[j] != '\n' by {
        assert(line.contains(line[j]));
    }
    lemma_index_of_is(s, '\n', line.len() as int);
    lemma_trimmed_end(trimmed_start(line));
    assert(s.take(line.len() as int) =~= line);
    assert(without_return(line) == line);
    assert(s.skip((line.len() + 1) as int).len() == 0);
    assert(lines_of(s.skip((line.len() + 1) as int)) =~= Seq::empty());
    assert(lines_of(s) =~= seq![line]);
}

/// The parts, one after the other, with `sep` between any two.
pub open spec fn joined(parts: Seq<Seq<char>>, sep: Seq<char>) -> Seq<char>
    decreases parts.len(),
{
    if parts.len() == 0 {
        Seq::empty()
    } else if parts.len() == 1 {
        parts[0]
    } else {
        joined(parts.drop_last(), sep) + sep + parts.last()
    }
}

/// The texts `parts[from..to]`, one after the other, with `sep` between any two.
pub fn join(parts: &Vec<String>, from: usize, to: usize, sep: &str) -> (r: String)
    requires
        from <= to <= parts@.len(),
    ensures
        r@ == joined(views(parts@).subrange(from as int, to as int), sep@),
{
    let mut out = String::new();
    let mut i: usize = from;
    while i < to
        invariant
            from <= i <= to <= parts@.len(),
            out@ == joined(views(parts@).subrange(from as int, i as int), sep@),
        decreases to - i,
    {
        let ghost next = views(parts@).subrange(from as int, i + 1);
        assert(next.drop_last() == views(parts@).subrange(from as int, i as int));
        if i > from {
            out.append(sep);
        }
        out.append(parts[i].as_str());
        i += 1;
    }
    out
}

/// `c` in lower case if it is an ASCII capital, else `c`.
pub open spec fn lower_char(c: char) -> char {
    if 'A' <= c <= 'Z' {
        ((c as u32) + 32) as char
    } else {
        c
    }
}

/// `s` with its ASCII capitals in lower case.
pub open spec fn lowered(s: Seq<char>) -> Seq<char> {
    Seq::new(s.len(), |i: int| lower_char(s[i]))
}

/// The text `s` with its ASCII capitals in lower case.
pub fn lower(s: &str) -> (r: String)
    ensures
        r@ == lowered(s@),
{
    let cs = chars_of(s);
    let mut out = String::new();
    let mut i: usize = 0;
    while i < cs.len()
        invariant
            i <= cs@.len(),
            out@ == lowered(cs@).take(i as int),
        decreases cs@.len() - i,
    {
        let c = cs[i];
        let l = if 'A' <= c && c <= 'Z' { ((c as u8) + 32) as char } else { c };
        assert(l == lower_char(c));
        out.push(l);
        assert(lowered(cs@).take(i + 1) == lowered(cs@).take(i as int).push(l));
        i += 1;
    }
    assert(lowered(cs@).take(i as int) == lowered(cs@));
    out
}

/// `s` with each `c` replaced by `with`.
pub open spec fn replaced(s: Seq<char>, c: char, with: Seq<char>) -> Seq<char>
    decreases s.len(),
{
    if s.len() == 0 {
        Seq::empty()
    } else {
        replaced(s.drop_last(), c, with) + (if s.last() == c { with } else { seq![s.last()] })
    }
}

/// The text `s` with each `c` replaced by `with`.
pub fn replace(s: &str, c: char, with: &str) -> (r: String)
    ensures
        r@ == replaced(s@, c, with@),
{
    let cs = chars_of(s);
    let mut out = String::new();
    let mut i: usize = 0;
    while i < cs.len()
        invariant
            i <= cs@.len(),
            out@ == replaced(cs@.take(i as int), c, with@),
        decreases cs@.len() - i,
    {
        assert(cs@.take(i + 1).drop_last() == cs@.take(i as int));
        if cs[i] == c {
            out.append(with);
        } else {
            out.push(cs[i]);
        }
        i += 1;
    }
    assert(cs@.take(i as int) == cs@);
    out
}

/// `s` without its leading copies of `p`.
pub open spec fn without_prefixes(s: Seq<char>, p: Seq<char>) -> Seq<char>
    decreases s.len(),
{
    if p.len() > 0 && begins_with(s, p) {
        without_prefixes(s.skip(p.len() as int), p)
    } else {
        s
    }
}

/// The text `s` without its leading copies of `p`.
pub fn strip_prefixes(s: &str, p: &str) -> (r: String)
    ensures
        r@ == without_prefixes(s@, p@),
{
    let cs = chars_of(s);
    let ps = chars_of(p);
    let mut from: usize = 0;
    assert(cs@.skip(0) == cs@);
    if ps.len() > 0 {
        loop
            invariant
                ps@.len() > 0,
                from <= cs@.len(),
                without_prefixes(cs@, ps@) == without_prefixes(cs@.skip(from as int), ps@),
            ensures
                from <= cs@.len(),
                without_prefixes(cs@, ps@) == cs@.skip(from as int),
            decreases cs@.len() - from,
        {
            let ghost rest = cs@.skip(from as int);
            proof {
                if ps@.len() <= rest.len() {
                    assert(rest.take(ps@.len() as int) == cs@.subrange(
                        from as int,
                        from + ps@.len(),
                    ));
                }
            }
            if !occurs(&cs, &ps, from) {
                break;
            }
            assert(rest.skip(ps@.len() as int) == cs@.skip(from + ps@.len()));
            assert(from + ps@.len() <= cs.len());
            from += ps.len();
        }
    }
    assert(cs@.skip(from as int) == cs@.subrange(from as int, cs@.len() as int));
    text_of(&cs, from, cs.len())
}

/// Whether `s` ends with `t`.
pub open spec fn finishes_with(s: Seq<char>, t: Seq<char>) -> bool {
    t.len() <= s.len() && s.skip(s.len() - t.len()) == t
}

/// Whether the text `s` ends with `t`.
pub fn ends_with(s: &str, t: &str) -> (r: bool)
    ensures
        r == finishes_with(s@, t@),
{
    let cs = chars_of(s);
    let ts = chars_of(t);
    if ts.len() > cs.len() {
        return false;
    }
    assert(cs@.subrange(cs@.len() - ts@.len(), cs@.len() as int) == cs@.skip(
        cs@.len() - ts@.len(),
    ));
    occurs(&cs, &ts, cs.len() - ts.len())
}

/// `s` without its trailing copies of `t`.
pub open spec fn without_suffixes(s: Seq<char>, t: Seq<char>) -> Seq<char>
    decreases s.len(),
{
    if t.len() > 0 && finishes_with(s, t) {
        without_suffixes(s.take(s.len() - t.len()), t)
    } else {
        s
    }
}

/// The text `s` without its trailing copies of `t`.
pub fn strip_suffixes(s: &str, t: &str) -> (r: String)
    ensures
        r@ == without_suffixes(s@, t@),
{
    let cs = chars_of(s);
    let ts = chars_of(t);
    let mut to: usize = cs.len();
    assert(cs@.take(to as int) == cs@);
    if ts.len() > 0 {
        loop
            invariant
                ts@.len() > 0,
                to <= cs@.len(),
                without_suffixes(cs@, ts@) == without_suffixes(cs@.take(to as int), ts@),
            ensures
                to <= cs@.len(),
                without_suffixes(cs@, ts@) == cs@.take(to as int),
            decreases to,
        {
            if ts.len() > to {
                break;
            }
            let ghost rest = cs@.take(to as int);
            assert(rest.skip(rest.len() - ts@.len()) == cs@.subrange(
                to - ts@.len(),
                to as int,
            ));
            if !occurs(&cs, &ts, to - ts.len()) {
                break;
            }
            assert(rest.take(to - ts@.len()) == cs@.take(to - ts@.len()));
            to -= ts.len();
        }
    }
    assert(cs@.take(to as int) == cs@.subrange(0, to as int));
    text_of(&cs, 0, to)
}

/// What follows the last `sep` in `s`, or all of `s` if it has none.
pub open spec fn after_last(s: Seq<char>, sep: Seq<char>) -> Seq<char>
    decreases s.len(),
{
    if finishes_with(s, sep) {
        Seq::empty()
    } else if s.len() == 0 {
        s
    } else {
        after_last(s.drop_last(), sep).push(s.last())
    }
}

/// What follows the last `sep` in the text `s`.
pub fn tail_after_last(s: &str, sep: &str) -> (r: String)
    ensures
        r@ == after_last(s@, sep@),
{
    let cs = chars_of(s);
    let ps = chars_of(sep);
    let mut to: usize = cs.len();
    assert(cs@.take(to as int) == cs@);
    assert(cs@.subrange(to as int, cs@.len() as int) == Seq::<char>::empty());
    loop
        invariant
            to <= cs@.len(),
            after_last(cs@, ps@) =~= after_last(cs@.take(to as int), ps@) + cs@.subrange(
                to as int,
                cs@.len() as int,
            ),
        ensures
            to <= cs@.len(),
            after_last(cs@, ps@) =~= cs@.subrange(to as int, cs@.len() as int),
        decreases to,
    {
        let ghost rest = cs@.take(to as int);
        if ps.len() <= to {
            assert(rest.skip(rest.len() - ps@.len()) == cs@.subrange(
                to - ps@.len(),
                to as int,
            ));
            if occurs(&cs, &ps, to - ps.len()) {
                break;
            }
        }
        if to == 0 {
            break;
        }
        assert(rest.drop_last() == cs@.take(to - 1));
        assert(cs@.subrange(to - 1, cs@.len() as int) =~= seq![cs@[to - 1]] + cs@.subrange(
            to as int,
            cs@.len() as int,
        ));
        to -= 1;
    }
    text_of(&cs, to, cs.len())
}

/// Whether `a` comes before `b` in the order of the texts' characters.
pub open spec fn comes_before(a: Seq<char>, b: Seq<char>) -> bool
    decreases a.len(),
{
    if b.len() == 0 {
        false
    } else if a.len() == 0 {
        true
    } else if a[0] == b[0] {
        comes_before(a.skip(1), b.skip(1))
    } else {
        a[0] < b[0]
    }
}

/// Whether the text `a` comes before the text `b`.
pub fn precedes(a: &str, b: &str) -> (r: bool)
    ensures
        r == comes_before(a@, b@),
{
    let x = chars_of(a);
    let y = chars_of(b);
    let mut i: usize = 0;
    assert(x@.skip(0) == x@ && y@.skip(0) == y@);
    while i < x.len() && i < y.len()
        invariant
            x@ == a@,
            y@ == b@,
            i <= x@.len(),
            i <= y@.len(),
            comes_before(x@, y@) == comes_before(x@.skip(i as int), y@.skip(i as int)),
        decreases x@.len() - i,
    {
        assert(x@.skip(i as int).skip(1) == x@.skip(i + 1));
        assert(y@.skip(i as int).skip(1) == y@.skip(i + 1));
        if x[i] != y[i] {
            return x[i] < y[i];
        }
        i += 1;
    }
    i < y.len()
}

/// The order of texts is total: of two distinct texts, one comes before the other.
pub proof fn text_order_is_total(a: Seq<char>, b: Seq<char>)
    ensures
        a == b || comes_before(a, b) || comes_before(b, a),
        !(comes_before(a, b) && comes_before(b, a)),
        !comes_before(a, a),
    decreases a.len(),
{
    if a.len() > 0 && b.len() > 0 && a[0] == b[0] {
        text_order_is_total(a.skip(1), b.skip(1));
        assert(a == seq![a[0]] + a.skip(1));
        assert(b == seq![b[0]] + b.skip(1));
    }
    if a.len() > 0 {
        text_order_is_total(a.skip(1), a.skip(1));
    }
}

/// The order of texts is transitive.
pub proof fn text_order_is_transitive(a: Seq<char>, b: Seq<char>, c: Seq<char>)
    requires
        comes_before(a, b),
        comes_before(b, c),
    ensures
        comes_before(a, c),
    decreases a.len(),
{
    if a.len() > 0 && b.len() > 0 && c.len() > 0 && a[0] == b[0] && b[0] == c[0] {
        text_order_is_transitive(a.skip(1), b.skip(1), c.skip(1));
    }
}

/// The texts of a sequence of string slices.
pub open spec fn str_views(v: Seq<&str>) -> Seq<Seq<char>> {
    Seq::new(v.len(), |i: int| v[i]@)
}

/// Whether `s` is one of `list`.
pub fn among(s: &str, list: &Vec<&str>) -> (r: bool)
    ensures
        r == str_views(list@).contains(s@),
{
    let ghost all = str_views(list@);
    let mut i: usize = 0;
    while i < list.len()
        invariant
            i <= list@.len(),
            all == str_views(list@),
            forall|j: int| 0 <= j < i ==> #[trigger] all[j] != s@,
        decreases list@.len() - i,
    {
        if same(list[i], s) {
            assert(all[i as int] == s@);
            return true;
        }
        i += 1;
    }
    false
}

/// The concatenation of two texts.
pub fn cat2(a: &str, b: &str) -> (r: String)
    ensures
        r@ == a@ + b@,
{
    let mut out = a.to_string();
    out.append(b);
    out
}

/// The concatenation of three texts.
pub fn cat3(a: &str, b: &str, c: &str) -> (r: String)
    ensures
        r@ == a@ + b@ + c@,
{
    let mut out = a.to_string();
    out.append(b);
    out.append(c);
    out
}

/// The concatenation of five texts.
pub fn cat5(a: &str, b: &str, c: &str, d: &str, e: &str) -> (r: String)
    ensures
        r@ == a@ + b@ + c@ + d@ + e@,
{
    let mut out = a.to_string();
    out.append(b);
    out.append(c);
    out.append(d);
    out.append(e);
    out
}

/// Whether a text is white space only.
pub open spec fn is_blank(s: Seq<char>) -> bool {
    forall|i: int| 0 <= i < s.len() ==> is_space(#[trigger] s[i])
}

/// Whether a text neither begins nor ends with white space.
pub open spec fn is_tight(s: Seq<char>) -> bool {
    s.len() > 0 ==> !is_space(s[0]) && !is_space(s.last())
}

/// Spaces, tabs and line ends are white space; what can be seen in ASCII is not.
pub proof fn visible_characters_are_no_space(c: char)
    ensures
        is_space(' ') && is_space('\t') && is_space('\n') && is_space('\r'),
        '!' <= c <= '~' ==> !is_space(c),
{
}

/// The white space before a text goes.
proof fn lemma_trimmed_start_is(a: Seq<char>, s: Seq<char>)
    requires
        is_blank(a),
        s.len() > 0 ==> !is_space(s[0]),
    ensures
        trimmed_start(a + s) == s,
    decreases a.len(),
{
    if a.len() == 0 {
        assert(a + s =~= s);
    } else {
        assert((a + s)[0] == a[0]);
        assert((a + s).skip(1) =~= a.skip(1) + s);
        assert forall|i: int| 0 <= i < a.skip(1).len() implies is_space(#[trigger] a.skip(1)[i]) by {
            assert(a.skip(1)[i] == a[i + 1]);
        }
        lemma_trimmed_start_is(a.skip(1), s);
    }
}

/// The white space behind a text goes.
proof fn lemma_trimmed_end_is(s: Seq<char>, b: Seq<char>)
    requires
        is_blank(b),
        s.len() > 0 ==> !is_space(s.last()),
    ensures
        trimmed_end(s + b) == s,
    decreases b.len(),
{
    if b.len() == 0 {
        assert(s + b =~= s);
    } else {
        assert((s + b).last() == b.last());
        assert((s + b).drop_last() =~= s + b.drop_last());
        assert forall|i: int| 0 <= i < b.drop_last().len() implies is_space(
            #[trigger] b.drop_last()[i],
        ) by {
            assert(b.drop_last()[i] == b[i]);
        }
        lemma_trimmed_end_is(s, b.drop_last());
    }
}

/// Trimming takes away the white space around a text and nothing else.
pub proof fn trimming_takes_the_outer_space(a: Seq<char>, s: Seq<char>, b: Seq<char>)
    requires
        is_blank(a),
        is_tight(s),
        is_blank(b),
    ensures
        trimmed(a + s + b) == s,
{
    if s.len() > 0 {
        assert(a + s + b =~= a + (s + b));
        assert((s + b)[0] == s[0]);
        lemma_trimmed_start_is(a, s + b);
        lemma_trimmed_end_is(s, b);
    } else {
        let all = a + b;
        assert(a + s + b =~= all + Seq::<char>::empty());
        lemma_trimmed_start_is(all, Seq::empty());
        assert(trimmed_end(Seq::<char>::empty()) =~= Seq::<char>::empty());
    }
}

/// The parts of a text between the characters `c`.
pub open spec fn split_at(s: Seq<char>, c: char) -> Seq<Seq<char>>
    decreases s.len(),
    when true
    via split_at_decreases
{
    let at = index_of(s, c);
    if at < s.len() {
        seq![s.take(at)] + split_at(s.skip(at + 1), c)
    } else {
        seq![s]
    }
}

#[via_fn]
proof fn split_at_decreases(s: Seq<char>, c: char) {
    lemma_index_of(s, c);
}

/// The first part of a text is what stands before the first `c`.
pub proof fn lemma_split_first(a: Seq<char>, c: char, b: Seq<char>)
    requires
        !a.contains(c),
    ensures
        split_at(a, c) == seq![a],
        split_at(a.push(c) + b, c) == seq![a] + split_at(b, c),
{
    assert forall|j: int| 0 <= j < a.len() implies a[j] != c by {
        assert(a.contains(a[j]));
    }
    lemma_index_of_is(a, c, a.len() as int);
    let s = a.push(c) + b;
    assert forall|j: int| 0 <= j < a.len() implies s[j] != c by {
        assert(s[j] == a[j]);
    }
    assert(s[a.len() as int] == c);
    lemma_index_of_is(s, c, a.len() as int);
    assert(s.take(a.len() as int) =~= a);
    assert(s.skip(a.len() as int + 1) =~= b);
}

/// A joined text begins with its first part.
pub proof fn lemma_joined_first(parts: Seq<Seq<char>>, sep: Seq<char>)
    requires
        parts.len() > 1,
    ensures
        joined(parts, sep) == parts[0] + sep + joined(parts.skip(1), sep),
    decreases parts.len(),
{
    let head = parts.drop_last();
    if parts.len() == 2 {
        assert(joined(head, sep) == parts[0]);
        assert(parts.skip(1)[0] == parts[1]);
        assert(joined(parts.skip(1), sep) == parts[1]);
    } else {
        lemma_joined_first(head, sep);
        assert(head.skip(1) =~= parts.skip(1).drop_last());
        assert(parts.skip(1).last() == parts.last());
        assert(joined(parts, sep) =~= parts[0] + sep + joined(parts.skip(1), sep));
    }
}

/// Parts that hold no `c`, joined by `c`, are the parts that the text splits
/// into at `c`.
pub proof fn joined_parts_split_again(parts: Seq<Seq<char>>, c: char)
    requires
        parts.len() > 0,
        forall|i: int| 0 <= i < parts.len() ==> !(#[trigger] parts[i]).contains(c),
    ensures
        split_at(joined(parts, seq![c]), c) == parts,
    decreases parts.len(),
{
    if parts.len() == 1 {
        lemma_split_first(parts[0], c, Seq::empty());
        assert(seq![parts[0]] =~= parts);
    } else {
        let rest = parts.skip(1);
        assert forall|i: int| 0 <= i < rest.len() implies !(#[trigger] rest[i]).contains(c) by {
            assert(rest[i] == parts[i + 1]);
        }
        joined_parts_split_again(rest, c);
        lemma_joined_first(parts, seq![c]);
        assert(joined(parts, seq![c]) =~= parts[0].push(c) + joined(rest, seq![c]));
        lemma_split_first(parts[0], c, joined(rest, seq![c]));
        assert(seq![parts[0]] + rest =~= parts);
    }
}

/// No line of a text holds a line feed.
pub proof fn lines_hold_no_line_feed(s: Seq<char>, i: int)
    requires
        0 <= i < lines_of(s).len(),
    ensures
        !lines_of(s)[i].contains('\n'),
    decreases s.len(),
{
    let end = index_of(s, '\n');
    lemma_index_of(s, '\n');
    if end < s.len() {
        if i > 0 {
            lines_hold_no_line_feed(s.skip(end + 1), i - 1);
        } else {
            let line = s.take(end);
            assert forall|j: int| 0 <= j < line.len() implies line[j] != '\n' by {
                assert(line[j] == s[j]);
            }
        }
    }
}

/// Lowering a text turns its ASCII capitals into the small letters that stand
/// as far from `a` as they stand from `A`, and touches nothing else.
pub proof fn lowering_touches_capitals_alone(s: Seq<char>, i: int)
    requires
        0 <= i < s.len(),
    ensures
        lowered(s).len() == s.len(),
        'A' <= s[i] <= 'Z' ==> lowered(s)[i] as u32 - 'a' as u32 == s[i] as u32 - 'A' as u32,
        !('A' <= s[i] <= 'Z') ==> lowered(s)[i] == s[i],
{
}

/// What follows the last separator is the text behind it, where that does not
/// hold the last character of the separator; a text without that character is
/// all there is.
pub proof fn last_segment_follows_the_separator(head: Seq<char>, sep: Seq<char>, tail: Seq<char>)
    requires
        sep.len() > 0,
        !tail.contains(sep.last()),
    ensures
        after_last(head + sep + tail, sep) == tail,
        after_last(tail, sep) == tail,
    decreases tail.len(),
{
    let s = head + sep + tail;
    if tail.len() == 0 {
        assert(s.skip(s.len() - sep.len()) =~= sep);
        assert(after_last(s, sep) =~= tail);
        assert(!finishes_with(tail, sep));
        assert(after_last(tail, sep) =~= tail);
    } else {
        let rest = tail.drop_last();
        assert(tail.contains(tail.last()));
        assert(s.last() == tail.last());
        assert(s.skip(s.len() - sep.len()).last() == s.last());
        assert(!finishes_with(s, sep));
        assert(tail.len() >= sep.len() ==> tail.skip(tail.len() - sep.len()).last() == tail.last());
        assert(!finishes_with(tail, sep));
        assert forall|j: int| 0 <= j < rest.len() implies rest[j] != sep.last() by {
            assert(tail.contains(tail[j]));
        }
        last_segment_follows_the_separator(head, sep, rest);
        assert(s.drop_last() =~= head + sep + rest);
        assert(rest.push(tail.last()) =~= tail);
    }
}

} // verus!
