//! Symbol cards and file cards: the distilled rows that the wrapper tools
//! read.

use vstd::prelude::*;
use vstd::string::*;
use vstd::utf8::*;

use crate::cells;
use crate::cells::Cell;
use crate::decimal;
use crate::statements;
use crate::statements::SqlValue;
use crate::strmap::StrMap;
use crate::text;
use crate::utf8;

use std::collections::HashMap;

verus! {

broadcast use vstd::std_specs::hash::group_hash_axioms;

/// The most bytes of a text field in a card.
pub const MAX_FIELD_BYTES: usize = 4096;

/// The table of symbol cards.
pub const SYMBOL_CARDS_TABLE: &'static str = "_hdb_plugin_symbol_cards";

/// The table of file cards.
pub const REPOMAP_CARDS_TABLE: &'static str = "_hdb_plugin_repomap_cards";

/// What a pass over the symbols or the files did.
#[derive(Debug, Clone)]
pub struct DistillStats {
    pub symbols_scanned: usize,
    pub symbols_written: usize,
    pub symbols_unchanged: usize,
    pub files_written: usize,
    pub pagerank_iters: u32,
    pub pagerank_converged: bool,
}

impl Default for DistillStats {
    /// Nothing done.
    fn default() -> (r: Self)
        ensures
            r == (DistillStats {
                symbols_scanned: 0,
                symbols_written: 0,
                symbols_unchanged: 0,
                files_written: 0,
                pagerank_iters: 0,
                pagerank_converged: false,
            }),
    {
        DistillStats {
            symbols_scanned: 0,
            symbols_written: 0,
            symbols_unchanged: 0,
            files_written: 0,
            pagerank_iters: 0,
            pagerank_converged: false,
        }
    }
}

/// The ASCII stand-in for a character that is not ASCII.
pub open spec fn stand_in(c: char) -> char {
    if c == '\u{2013}' || c == '\u{2014}' {
        '-'
    } else if c == '\u{2018}' || c == '\u{2019}' {
        '\''
    } else if c == '\u{201C}' || c == '\u{201D}' {
        '"'
    } else if c == '\u{2026}' {
        '.'
    } else if c == '\u{00A0}' {
        ' '
    } else if c == '\u{2192}' || c == '\u{2190}' {
        '-'
    } else if c == '\u{2713}' || c == '\u{2705}' {
        '+'
    } else if c == '\u{2717}' || c == '\u{274C}' {
        'x'
    } else {
        '?'
    }
}

/// Whether a character is ASCII.
pub open spec fn is_ascii_char(c: char) -> bool {
    (c as u32) < 128
}

/// `s` with a stand-in for every character that is not ASCII.
pub open spec fn sanitized(s: Seq<char>) -> Seq<char> {
    Seq::new(
        s.len(),
        |i: int|
            if is_ascii_char(s[i]) {
                s[i]
            } else {
                stand_in(s[i])
            },
    )
}

/// A text field of a card: sanitised, then cut.
pub open spec fn capped(s: Seq<char>) -> Seq<char> {
    text::first_chars(sanitized(s), MAX_FIELD_BYTES as int)
}

/// The ASCII stand-in for a character that is not ASCII.
pub fn ascii_fallback(c: char) -> (r: char)
    ensures
        r == stand_in(c),
{
    if c == '\u{2013}' || c == '\u{2014}' {
        '-'
    } else if c == '\u{2018}' || c == '\u{2019}' {
        '\''
    } else if c == '\u{201C}' || c == '\u{201D}' {
        '"'
    } else if c == '\u{2026}' {
        '.'
    } else if c == '\u{00A0}' {
        ' '
    } else if c == '\u{2192}' || c == '\u{2190}' {
        '-'
    } else if c == '\u{2713}' || c == '\u{2705}' {
        '+'
    } else if c == '\u{2717}' || c == '\u{274C}' {
        'x'
    } else {
        '?'
    }
}

/// The text `s` with a stand-in for every character that is not ASCII.
pub fn sanitize(s: &str) -> (r: String)
    ensures
        r@ == sanitized(s@),
{
    let cs = text::chars_of(s);
    let mut out = String::new();
    let mut i: usize = 0;
    while i < cs.len()
        invariant
            i <= cs@.len(),
            out@ == sanitized(cs@).take(i as int),
        decreases cs@.len() - i,
    {
        let c = cs[i];
        let d = if (c as u32) < 128 { c } else { ascii_fallback(c) };
        out.push(d);
        assert(sanitized(cs@).take(i + 1) =~= sanitized(cs@).take(i as int).push(d));
        i += 1;
    }
    assert(sanitized(cs@).take(i as int) =~= sanitized(cs@));
    out
}

/// A text field of a card: sanitised, then cut.
pub fn cap(s: &str) -> (r: String)
    ensures
        r@ == capped(s@),
{
    text::take_chars(sanitize(s).as_str(), MAX_FIELD_BYTES)
}

/// A text of ASCII characters takes one byte per character.
proof fn lemma_ascii_bytes(s: Seq<char>)
    requires
        forall|i: int| 0 <= i < s.len() ==> is_ascii_char(#[trigger] s[i]),
    ensures
        utf8::byte_len(s) == s.len(),
    decreases s.len(),
{
    if s.len() > 0 {
        utf8::lemma_byte_len_first(s);
        lemma_ascii_bytes(s.skip(1));
    }
}

/// A sanitised text is ASCII, has as many characters as before, and is left
/// alone when it was ASCII. A text field is ASCII and fits in the limit.
pub proof fn card_fields_are_ascii_and_fit(s: Seq<char>)
    ensures
        sanitized(s).len() == s.len(),
        forall|i: int| 0 <= i < s.len() ==> is_ascii_char(#[trigger] sanitized(s)[i]),
        (forall|i: int| 0 <= i < s.len() ==> is_ascii_char(#[trigger] s[i])) ==> sanitized(s) == s,
        forall|i: int| 0 <= i < capped(s).len() ==> is_ascii_char(#[trigger] capped(s)[i]),
        utf8::byte_len(capped(s)) <= MAX_FIELD_BYTES,
        text::begins_with(sanitized(s), capped(s)),
{
    let t = sanitized(s);
    let c = capped(s);
    assert forall|i: int| 0 <= i < c.len() implies is_ascii_char(#[trigger] c[i]) by {
        assert(c[i] == t[i]);
    }
    lemma_ascii_bytes(c);
    if forall|i: int| 0 <= i < s.len() ==> is_ascii_char(#[trigger] s[i]) {
        assert(t =~= s);
    }
    assert(t.take(c.len() as int) =~= c);
}

/// The closest line of `above` that is not blank, trimmed; empty where there is none.
pub open spec fn nearest_line(above: Seq<Seq<char>>) -> Seq<char>
    decreases above.len(),
{
    if above.len() == 0 {
        Seq::empty()
    } else if text::trimmed(above.last()).len() > 0 {
        text::trimmed(above.last())
    } else {
        nearest_line(above.drop_last())
    }
}

/// What a comment line says; empty for a line that is no comment.
pub open spec fn comment_body(line: Seq<char>) -> Seq<char> {
    match text::after_prefix(line, "///"@) {
        Some(rest) => text::trimmed(rest),
        None => match text::after_prefix(line, "//"@) {
            Some(rest) => text::trimmed(rest),
            None => match text::after_prefix(line, "#"@) {
                Some(rest) => text::trimmed(rest),
                None => match text::after_prefix(line, "\"\"\""@) {
                    Some(rest) => text::trimmed(text::without_suffixes(rest, "\"\"\""@)),
                    None => Seq::empty(),
                },
            },
        },
    }
}

/// The documentation line of the symbol in line `line_start`, counted from
/// one: the closest line above that is not blank, if it is a comment.
pub open spec fn doc_line(lines: Seq<Seq<char>>, line_start: int) -> Seq<char> {
    if line_start < 1 || line_start > lines.len() {
        Seq::empty()
    } else {
        text::first_chars(comment_body(nearest_line(lines.take(line_start - 1))), 120)
    }
}

/// What a comment line says.
fn read_comment(line: &str) -> (r: String)
    ensures
        r@ == comment_body(line@),
{
    if let Some(rest) = text::strip_prefix(line, "///") {
        text::trim(rest.as_str())
    } else if let Some(rest) = text::strip_prefix(line, "//") {
        text::trim(rest.as_str())
    } else if let Some(rest) = text::strip_prefix(line, "#") {
        text::trim(rest.as_str())
    } else if let Some(rest) = text::strip_prefix(line, "\"\"\"") {
        text::trim(text::strip_suffixes(rest.as_str(), "\"\"\"").as_str())
    } else {
        String::new()
    }
}

/// The documentation line of the symbol in line `line_start`, counted from
/// one: at most 120 characters of the comment directly above it, blank lines
/// aside.
pub fn extract_doc1l(lines: &Vec<String>, line_start: usize) -> (r: String)
    ensures
        r@ == doc_line(text::views(lines@), line_start as int),
{
    if line_start < 1 || line_start > lines.len() {
        return String::new();
    }
    let ghost all = text::views(lines@);
    let mut idx: usize = line_start - 1;
    while idx > 0
        invariant
            idx < line_start <= lines@.len(),
            all == text::views(lines@),
            nearest_line(all.take(line_start - 1)) == nearest_line(all.take(idx as int)),
        decreases idx,
    {
        assert(all.take(idx as int).last() == lines@[idx - 1]@);
        assert(all.take(idx as int).drop_last() =~= all.take(idx - 1));
        let candidate = text::trim(lines[idx - 1].as_str());
        if text::chars_of(candidate.as_str()).len() > 0 {
            return text::take_chars(read_comment(candidate.as_str()).as_str(), 120);
        }
        idx -= 1;
    }
    proof {
        assert(all.take(0) =~= Seq::empty());
        reveal_strlit("///");
        reveal_strlit("//");
        reveal_strlit("#");
        reveal_strlit("\"\"\"");
        assert(comment_body(Seq::empty()) =~= Seq::<char>::empty());
    }
    String::new()
}

/// The closest line above that is not blank is found behind blank lines.
proof fn lemma_nearest_line(above: Seq<Seq<char>>, at: int)
    requires
        0 <= at < above.len(),
        text::trimmed(above[at]).len() > 0,
        forall|i: int| at < i < above.len() ==> text::is_blank(#[trigger] above[i]),
    ensures
        nearest_line(above) == text::trimmed(above[at]),
    decreases above.len(),
{
    if at < above.len() - 1 {
        let none = Seq::<char>::empty();
        assert(above.last() =~= above.last() + none + none);
        text::trimming_takes_the_outer_space(above.last(), none, none);
        assert(above.drop_last()[at] == above[at]);
        lemma_nearest_line(above.drop_last(), at);
    }
}

/// What a comment with a marker before it says, where the marker is not the
/// beginning of a longer one.
proof fn lemma_marked_comment(
    indent: Seq<char>,
    marker: Seq<char>,
    before: Seq<char>,
    said: Seq<char>,
    after: Seq<char>,
)
    requires
        text::is_blank(indent),
        text::is_blank(before),
        text::is_tight(said),
        text::is_blank(after),
        marker == "///"@ || marker == "//"@ || marker == "#"@,
        marker == "//"@ && said.len() > 0 && before.len() == 0 ==> said[0] != '/',
    ensures
        text::trimmed(indent + marker + before + said + after).len() > 0,
        comment_body(text::trimmed(indent + marker + before + said + after)) == said,
{
    reveal_strlit("///");
    reveal_strlit("//");
    reveal_strlit("#");
    let none = Seq::<char>::empty();
    let line = indent + marker + before + said + after;
    let kept = if said.len() > 0 {
        marker + before + said
    } else {
        marker
    };
    assert(kept[0] == marker[0]);
    if said.len() > 0 {
        assert(kept.last() == said.last());
        assert(line =~= indent + kept + after);
        text::trimming_takes_the_outer_space(indent, kept, after);
        assert(kept.skip(marker.len() as int) =~= before + said);
        assert(before + said =~= before + said + none);
        text::trimming_takes_the_outer_space(before, said, none);
    } else {
        assert(line =~= indent + kept + (before + after));
        text::trimming_takes_the_outer_space(indent, kept, before + after);
        assert(kept.skip(marker.len() as int) =~= none);
        assert(none =~= none + none + none);
        text::trimming_takes_the_outer_space(none, none, none);
    }
    assert(kept.take(marker.len() as int) =~= marker);
    if marker == "//"@ {
        if kept.len() >= 3 {
            assert(kept.take(3)[2] == kept[2]);
            if before.len() > 0 {
                assert(kept[2] == before[0]);
            } else {
                assert(kept[2] == said[0]);
            }
            assert("///"@[2] == '/');
        }
        assert(!text::begins_with(kept, "///"@));
    }
    if marker == "#"@ {
        assert(kept.len() >= 3 ==> kept.take(3)[0] == '#');
        assert(kept.len() >= 2 ==> kept.take(2)[0] == '#');
        assert("///"@[0] == '/' && "//"@[0] == '/');
        assert(!text::begins_with(kept, "///"@));
        assert(!text::begins_with(kept, "//"@));
    }
}

/// The documentation line does not depend on indentation: where the closest
/// line above a symbol that is not blank is white space, a comment marker and
/// some words, the symbol's documentation line is the first 120 characters of
/// the words, without the white space around them.
pub proof fn comments_document_at_any_indentation(
    lines: Seq<Seq<char>>,
    line_start: int,
    at: int,
    indent: Seq<char>,
    marker: Seq<char>,
    before: Seq<char>,
    said: Seq<char>,
    after: Seq<char>,
)
    requires
        0 <= at < line_start - 1 < lines.len(),
        forall|i: int| at < i < line_start - 1 ==> text::is_blank(#[trigger] lines[i]),
        lines[at] == indent + marker + before + said + after,
        text::is_blank(indent),
        marker == "///"@ || marker == "//"@ || marker == "#"@,
        text::is_blank(before),
        text::is_tight(said),
        text::is_blank(after),
        marker == "//"@ && said.len() > 0 && before.len() == 0 ==> said[0] != '/',
    ensures
        doc_line(lines, line_start) == said.take(
            if said.len() < 120 {
                said.len() as int
            } else {
                120
            },
        ),
{
    let above = lines.take(line_start - 1);
    lemma_marked_comment(indent, marker, before, said, after);
    assert(above[at] == lines[at]);
    assert forall|i: int| at < i < above.len() implies text::is_blank(#[trigger] above[i]) by {
        assert(above[i] == lines[i]);
    }
    lemma_nearest_line(above, at);
    assert(said.take(said.len() as int) =~= said);
}

/// A documentation string in one line documents as a comment does.
pub proof fn doc_strings_document_at_any_indentation(
    lines: Seq<Seq<char>>,
    line_start: int,
    at: int,
    indent: Seq<char>,
    before: Seq<char>,
    said: Seq<char>,
    after: Seq<char>,
)
    requires
        0 <= at < line_start - 1 < lines.len(),
        forall|i: int| at < i < line_start - 1 ==> text::is_blank(#[trigger] lines[i]),
        lines[at] == indent + seq!['"', '"', '"'] + before + said + seq!['"', '"', '"'] + after,
        text::is_blank(indent),
        text::is_blank(before),
        text::is_tight(said),
        text::is_blank(after),
        said.len() > 0 && said.last() != '"',
    ensures
        doc_line(lines, line_start) == said.take(
            if said.len() < 120 {
                said.len() as int
            } else {
                120
            },
        ),
{
    reveal_strlit("///");
    reveal_strlit("//");
    reveal_strlit("#");
    reveal_strlit("\"\"\"");
    let quotes = "\"\"\""@;
    let none = Seq::<char>::empty();
    assert(quotes =~= seq!['"', '"', '"']);
    let inner = before + said;
    let kept = quotes + inner + quotes;
    assert(lines[at] =~= indent + kept + after);
    assert(kept.last() == '"');
    text::trimming_takes_the_outer_space(indent, kept, after);
    assert(kept.len() >= 3 ==> kept.take(3)[0] == '"');
    assert(kept.take(2)[0] == '"');
    assert(kept.take(1)[0] == '"');
    assert("///"@[0] == '/' && "//"@[0] == '/' && "#"@[0] == '#');
    assert(!text::begins_with(kept, "///"@));
    assert(!text::begins_with(kept, "//"@));
    assert(!text::begins_with(kept, "#"@));
    assert(kept.take(3) =~= quotes);
    let rest = kept.skip(3);
    assert(rest =~= inner + quotes);
    assert(rest.skip(rest.len() - 3) =~= quotes);
    assert(rest.take(rest.len() - 3) =~= inner);
    assert(inner.last() == said.last());
    assert(inner.len() >= 3 ==> inner.skip(inner.len() - 3).last() == inner.last());
    assert(quotes.last() == '"');
    assert(!text::finishes_with(inner, quotes));
    assert(text::without_suffixes(inner, quotes) == inner);
    assert(text::without_suffixes(rest, quotes) == inner);
    assert(inner =~= before + said + none);
    text::trimming_takes_the_outer_space(before, said, none);
    let above = lines.take(line_start - 1);
    assert(above[at] == lines[at]);
    assert forall|i: int| at < i < above.len() implies text::is_blank(#[trigger] above[i]) by {
        assert(above[i] == lines[i]);
    }
    lemma_nearest_line(above, at);
    assert(said.take(said.len() as int) =~= said);
}

/// A symbol with a line above it that is no comment, or with nothing but blank
/// lines above it, has no documentation line.
pub proof fn code_documents_nothing(lines: Seq<Seq<char>>, line_start: int, at: int)
    requires
        -1 <= at < line_start - 1 < lines.len(),
        forall|i: int| at < i < line_start - 1 ==> text::is_blank(#[trigger] lines[i]),
        at >= 0 ==> lines[at].len() > 0 && text::is_tight(lines[at]) && lines[at][0] != '/'
            && lines[at][0] != '#' && lines[at][0] != '"',
    ensures
        doc_line(lines, line_start).len() == 0,
{
    reveal_strlit("///");
    reveal_strlit("//");
    reveal_strlit("#");
    reveal_strlit("\"\"\"");
    let above = lines.take(line_start - 1);
    let none = Seq::<char>::empty();
    if at >= 0 {
        let line = lines[at];
        assert(line =~= none + line + none);
        text::trimming_takes_the_outer_space(none, line, none);
        assert(above[at] == line);
        assert forall|i: int| at < i < above.len() implies text::is_blank(#[trigger] above[i]) by {
            assert(above[i] == lines[i]);
        }
        lemma_nearest_line(above, at);
        assert(line.take(1)[0] == line[0]);
        assert(line.len() >= 2 ==> line.take(2)[0] == line[0]);
        assert(line.len() >= 3 ==> line.take(3)[0] == line[0]);
        assert("///"@[0] == '/' && "//"@[0] == '/' && "#"@[0] == '#' && "\"\"\""@[0] == '"');
    } else {
        assert forall|i: int| 0 <= i < above.len() implies text::is_blank(#[trigger] above[i]) by {
            assert(above[i] == lines[i]);
        }
        lemma_all_blank(above);
    }
}

/// Among blank lines none is found.
proof fn lemma_all_blank(above: Seq<Seq<char>>)
    requires
        forall|i: int| 0 <= i < above.len() ==> text::is_blank(#[trigger] above[i]),
    ensures
        nearest_line(above).len() == 0,
    decreases above.len(),
{
    if above.len() > 0 {
        let none = Seq::<char>::empty();
        assert(above.last() == above[above.len() - 1]);
        assert(above.last() =~= above.last() + none + none);
        text::trimming_takes_the_outer_space(above.last(), none, none);
        assert forall|i: int| 0 <= i < above.drop_last().len() implies text::is_blank(
            #[trigger] above.drop_last()[i],
        ) by {
            assert(above.drop_last()[i] == above[i]);
        }
        lemma_all_blank(above.drop_last());
    }
}

/// The content hash of a text: sixteen hexadecimal digits.
pub open spec fn hash_of(s: Seq<char>) -> Seq<char> {
    decimal::hex_digits(utf8::fnv_from(utf8::FNV_START, encode_utf8(s)) as nat, 16)
}

/// The content hash of a text: sixteen hexadecimal digits.
pub fn blake_hex(input: &str) -> (r: String)
    ensures
        r@ == hash_of(input@),
{
    decimal::hex_text(utf8::fnv(utf8::FNV_START, input), 16)
}

/// A content hash has sixteen characters.
pub proof fn hash_has_sixteen_digits(s: Seq<char>)
    ensures
        hash_of(s).len() == 16,
{
    lemma_hex_length(utf8::fnv_from(utf8::FNV_START, encode_utf8(s)) as nat, 16);
}

proof fn lemma_hex_length(n: nat, count: nat)
    ensures
        decimal::hex_digits(n, count).len() == count,
    decreases count,
{
    if count > 0 {
        lemma_hex_length(n / 16, (count - 1) as nat);
    }
}

/// The texts in column `v` by those in column `k`. Rows without a key are
/// left out; of two rows with one key the later counts.
pub open spec fn text_table(rows: Seq<Vec<Cell>>, k: int, v: int) -> Map<Seq<char>, Seq<char>>
    decreases rows.len(),
{
    if rows.len() == 0 {
        Map::empty()
    } else {
        let before = text_table(rows.drop_last(), k, v);
        let key = cells::text_at(rows.last()@, k);
        if key.len() == 0 {
            before
        } else {
            before.insert(key, cells::text_at(rows.last()@, v))
        }
    }
}

/// The paths in column 1 by the identifiers in column 0. Rows without an
/// identifier or a path are left out; of two rows with one identifier the
/// later counts.
pub open spec fn path_table(rows: Seq<Vec<Cell>>) -> Map<int, Seq<char>>
    decreases rows.len(),
{
    if rows.len() == 0 {
        Map::empty()
    } else {
        let before = path_table(rows.drop_last());
        match cells::int_at(rows.last()@, 0) {
            Some(id) => if cells::text_at(rows.last()@, 1).len() == 0 {
                before
            } else {
                before.insert(id, cells::text_at(rows.last()@, 1))
            },
            None => before,
        }
    }
}

/// The rows of a query that may have failed.
pub open spec fn rows_or_none(rows: Option<Vec<Vec<Cell>>>) -> Seq<Vec<Cell>> {
    match rows {
        Some(r) => r@,
        None => Seq::empty(),
    }
}

/// Whether a map holds the texts of a table.
pub open spec fn holds_texts(m: StrMap<String>, table: Map<Seq<char>, Seq<char>>) -> bool {
    m.sound() && forall|key: Seq<char>|
        #![trigger m.has(key)]
        m.has(key) == table.dom().contains(key) && (m.has(key) ==> m.at(key)@ == table[key])
}

/// Whether a map holds the lines of the texts of a table.
pub open spec fn holds_lines(m: StrMap<Vec<String>>, table: Map<Seq<char>, Seq<char>>) -> bool {
    m.sound() && forall|key: Seq<char>|
        #![trigger m.has(key)]
        m.has(key) == table.dom().contains(key) && (m.has(key) ==> text::views(m.at(key)@)
            == text::lines_of(table[key]))
}

/// Whether a map holds the paths of a table.
pub open spec fn holds_paths(m: Map<i64, String>, table: Map<int, Seq<char>>) -> bool {
    forall|id: i64|
        #![trigger m.dom().contains(id)]
        m.dom().contains(id) == table.dom().contains(id as int) && (m.dom().contains(id)
            ==> m[id]@ == table[id as int])
}

/// The texts in column `v` by those in column `k`.
pub fn read_texts(rows: &Vec<Vec<Cell>>, k: usize, v: usize) -> (r: StrMap<String>)
    ensures
        holds_texts(r, text_table(rows@, k as int, v as int)),
{
    let mut out: StrMap<String> = StrMap::new();
    let mut i: usize = 0;
    assert(rows@.take(0) =~= Seq::empty());
    while i < rows.len()
        invariant
            i <= rows@.len(),
            holds_texts(out, text_table(rows@.take(i as int), k as int, v as int)),
        decreases rows@.len() - i,
    {
        assert(rows@.take(i + 1).drop_last() =~= rows@.take(i as int));
        let key = cells::tuple_str(&rows[i], k);
        let value = cells::tuple_str(&rows[i], v);
        if text::chars_of(key.as_str()).len() > 0 {
            let ghost before = out;
            out.insert(key.as_str(), value);
            assert forall|other: Seq<char>|
                #![trigger out.has(other)]
                out.has(other) == (before.has(other) || other == key@) && (out.has(other)
                    ==> out.at(other) == (if other == key@ {
                    value
                } else {
                    before.at(other)
                })) by {
                crate::strmap::lemma_insert(before, out, key@, value, other);
            }
        }
        i += 1;
    }
    assert(rows@.take(i as int) =~= rows@);
    out
}

/// The lines of the texts in column `v` by the texts in column `k`.
pub fn read_lines(rows: &Vec<Vec<Cell>>, k: usize, v: usize) -> (r: StrMap<Vec<String>>)
    ensures
        holds_lines(r, text_table(rows@, k as int, v as int)),
{
    let mut out: StrMap<Vec<String>> = StrMap::new();
    let mut i: usize = 0;
    assert(rows@.take(0) =~= Seq::empty());
    while i < rows.len()
        invariant
            i <= rows@.len(),
            holds_lines(out, text_table(rows@.take(i as int), k as int, v as int)),
        decreases rows@.len() - i,
    {
        assert(rows@.take(i + 1).drop_last() =~= rows@.take(i as int));
        let key = cells::tuple_str(&rows[i], k);
        let lines = text::lines(cells::tuple_str(&rows[i], v).as_str());
        if text::chars_of(key.as_str()).len() > 0 {
            let ghost before = out;
            out.insert(key.as_str(), lines);
            assert forall|other: Seq<char>|
                #![trigger out.has(other)]
                out.has(other) == (before.has(other) || other == key@) && (out.has(other)
                    ==> out.at(other) == (if other == key@ {
                    lines
                } else {
                    before.at(other)
                })) by {
                crate::strmap::lemma_insert(before, out, key@, lines, other);
            }
        }
        i += 1;
    }
    assert(rows@.take(i as int) =~= rows@);
    out
}

/// The paths in column 1 by the identifiers in column 0.
pub fn read_paths(rows: &Vec<Vec<Cell>>) -> (r: HashMap<i64, String>)
    ensures
        holds_paths(r@, path_table(rows@)),
{
    let mut out: HashMap<i64, String> = HashMap::new();
    let mut i: usize = 0;
    assert(rows@.take(0) =~= Seq::empty());
    while i < rows.len()
        invariant
            i <= rows@.len(),
            holds_paths(out@, path_table(rows@.take(i as int))),
        decreases rows@.len() - i,
    {
        assert(rows@.take(i + 1).drop_last() =~= rows@.take(i as int));
        if let Some(id) = cells::tuple_int(&rows[i], 0) {
            let path = cells::tuple_str(&rows[i], 1);
            if text::chars_of(path.as_str()).len() > 0 {
                out.insert(id, path);
            }
        }
        i += 1;
    }
    assert(rows@.take(i as int) =~= rows@);
    out
}

/// What a symbol card holds.
pub struct CardView {
    pub qualified: Seq<char>,
    pub signature: Seq<char>,
    pub doc1l: Seq<char>,
    pub content_hash: Seq<char>,
}

/// A symbol card.
#[derive(Debug, Clone)]
pub struct SymbolCard {
    pub qualified: String,
    pub signature: String,
    pub doc1l: String,
    pub content_hash: String,
}

impl View for SymbolCard {
    type V = CardView;

    open spec fn view(&self) -> CardView {
        CardView {
            qualified: self.qualified@,
            signature: self.signature@,
            doc1l: self.doc1l@,
            content_hash: self.content_hash@,
        }
    }
}

/// The line in which a symbol begins; zero where a row does not say.
pub open spec fn start_line(row: Seq<Cell>, idx: int) -> int {
    match cells::int_at(row, idx) {
        Some(n) => n,
        None => 0,
    }
}

/// The documentation line of a symbol in a file.
pub open spec fn source_doc(
    path: Seq<char>,
    line: int,
    sources: Map<Seq<char>, Seq<char>>,
) -> Seq<char> {
    if sources.dom().contains(path) {
        doc_line(text::lines_of(sources[path]), line)
    } else {
        Seq::empty()
    }
}

/// The card of the symbol in a row (identifier, file, qualified name,
/// signature, first line). A row without a name or a known file has none.
pub open spec fn card_of(
    row: Seq<Cell>,
    paths: Map<int, Seq<char>>,
    sources: Map<Seq<char>, Seq<char>>,
) -> Option<CardView> {
    match cells::int_at(row, 1) {
        Some(file) => if cells::text_at(row, 2).len() == 0 || !paths.dom().contains(file) {
            None
        } else {
            let signature = cells::text_at(row, 3);
            let doc = source_doc(paths[file], start_line(row, 4), sources);
            Some(
                CardView {
                    qualified: cells::text_at(row, 2),
                    signature: capped(signature),
                    doc1l: capped(doc),
                    content_hash: hash_of(signature + "\n"@ + doc),
                },
            )
        },
        None => None,
    }
}

/// Whether a card differs from what is stored under its name.
pub open spec fn is_changed(card: CardView, existing: Map<Seq<char>, Seq<char>>) -> bool {
    !(existing.dom().contains(card.qualified) && existing[card.qualified] == card.content_hash)
}

/// The card of the last row with a name.
pub open spec fn last_card(
    rows: Seq<Vec<Cell>>,
    paths: Map<int, Seq<char>>,
    sources: Map<Seq<char>, Seq<char>>,
    name: Seq<char>,
) -> Option<CardView>
    decreases rows.len(),
{
    if rows.len() == 0 {
        None
    } else {
        match card_of(rows.last()@, paths, sources) {
            Some(card) => if card.qualified == name {
                Some(card)
            } else {
                last_card(rows.drop_last(), paths, sources, name)
            },
            None => last_card(rows.drop_last(), paths, sources, name),
        }
    }
}

/// The card to write under a name: that of the last row with the name, where
/// it differs from what is stored.
pub open spec fn pending_card(
    rows: Seq<Vec<Cell>>,
    paths: Map<int, Seq<char>>,
    sources: Map<Seq<char>, Seq<char>>,
    existing: Map<Seq<char>, Seq<char>>,
    name: Seq<char>,
) -> Option<CardView> {
    match last_card(rows, paths, sources, name) {
        Some(card) => if is_changed(card, existing) {
            Some(card)
        } else {
            None
        },
        None => None,
    }
}

/// The number of rows whose card is stored already.
pub open spec fn unchanged_rows(
    rows: Seq<Vec<Cell>>,
    paths: Map<int, Seq<char>>,
    sources: Map<Seq<char>, Seq<char>>,
    existing: Map<Seq<char>, Seq<char>>,
) -> int
    decreases rows.len(),
{
    if rows.len() == 0 {
        0
    } else {
        unchanged_rows(rows.drop_last(), paths, sources, existing) + match card_of(
            rows.last()@,
            paths,
            sources,
        ) {
            Some(card) => if is_changed(card, existing) {
                0int
            } else {
                1
            },
            None => 0,
        }
    }
}

/// The names of some cards.
pub open spec fn card_names(cards: Seq<SymbolCard>) -> Seq<Seq<char>> {
    Seq::new(cards.len(), |i: int| cards[i].qualified@)
}

/// The card that is staged under a name.
spec fn staged_card(staged: StrMap<SymbolCard>, name: Seq<char>) -> Option<CardView> {
    if staged.has(name) {
        Some(staged.at(name)@)
    } else {
        None
    }
}

/// Whether the last card of every name is staged, and nothing else.
spec fn stages(
    staged: StrMap<SymbolCard>,
    rows: Seq<Vec<Cell>>,
    paths: Map<int, Seq<char>>,
    sources: Map<Seq<char>, Seq<char>>,
) -> bool {
    staged.sound() && forall|name: Seq<char>| #[trigger]
        staged_card(staged, name) == last_card(rows, paths, sources, name)
}

/// Whether what is stored under the name of a card has its content.
fn is_stored(
    stored: &StrMap<String>,
    card: &SymbolCard,
    Ghost(stored_map): Ghost<Map<Seq<char>, Seq<char>>>,
) -> (r: bool)
    requires
        holds_texts(*stored, stored_map),
    ensures
        r == !is_changed(card@, stored_map),
{
    match stored.get(card.qualified.as_str()) {
        Some(h) => {
            assert(stored.has(card.qualified@));
            text::same(h.as_str(), card.content_hash.as_str())
        },
        None => {
            assert(!stored.has(card.qualified@));
            false
        },
    }
}

/// The card of the symbol in a row.
fn build_card(
    row: &Vec<Cell>,
    paths: &HashMap<i64, String>,
    sources: &StrMap<Vec<String>>,
    Ghost(path_map): Ghost<Map<int, Seq<char>>>,
    Ghost(source_map): Ghost<Map<Seq<char>, Seq<char>>>,
) -> (r: Option<SymbolCard>)
    requires
        holds_paths(paths@, path_map),
        holds_lines(*sources, source_map),
    ensures
        match r {
            Some(card) => card_of(row@, path_map, source_map) == Some(card@),
            None => card_of(row@, path_map, source_map) is None,
        },
{
    let file = match cells::tuple_int(row, 1) {
        Some(id) => id,
        None => return None,
    };
    let qualified = cells::tuple_str(row, 2);
    if text::chars_of(qualified.as_str()).len() == 0 {
        return None;
    }
    let path = match paths.get(&file) {
        Some(p) => p,
        None => return None,
    };
    let signature = cells::tuple_str(row, 3);
    let line = match cells::tuple_int(row, 4) {
        Some(n) => n,
        None => 0,
    };
    let doc = match sources.get(path.as_str()) {
        Some(lines) => {
            assert(sources.has(path@));
            if line < 0 || line as u64 > lines.len() as u64 {
                String::new()
            } else {
                extract_doc1l(lines, line as usize)
            }
        },
        None => {
            assert(!sources.has(path@));
            String::new()
        },
    };
    let hash = blake_hex(text::cat3(signature.as_str(), "\n", doc.as_str()).as_str());
    Some(
        SymbolCard {
            qualified,
            signature: cap(signature.as_str()),
            doc1l: cap(doc.as_str()),
            content_hash: hash,
        },
    )
}

/// The symbol cards to write, from the rows that the database returned:
/// `existing` (qualified name, content hash) and `sources` (path, content)
/// may be missing; `symbols` are (identifier, file, qualified name,
/// signature, first line), `files` are (identifier, path). Of several rows with
/// one name the last counts; its card is written where it differs from what
/// is stored.
pub fn build_symbol_cards(
    existing: &Option<Vec<Vec<Cell>>>,
    sources: &Option<Vec<Vec<Cell>>>,
    symbols: &Vec<Vec<Cell>>,
    files: &Vec<Vec<Cell>>,
) -> (r: (DistillStats, Vec<SymbolCard>))
    ensures
        ({
            let paths = path_table(files@);
            let texts = text_table(rows_or_none(*sources), 0, 1);
            let stored = text_table(rows_or_none(*existing), 0, 1);
            &&& r.0 == (DistillStats {
                symbols_scanned: symbols@.len() as usize,
                symbols_written: r.1@.len() as usize,
                symbols_unchanged: unchanged_rows(symbols@, paths, texts, stored) as usize,
                files_written: 0,
                pagerank_iters: 0,
                pagerank_converged: false,
            })
            &&& card_names(r.1@).no_duplicates()
            &&& forall|i: int|
                0 <= i < r.1@.len() ==> pending_card(
                    symbols@,
                    paths,
                    texts,
                    stored,
                    (#[trigger] r.1@[i]).qualified@,
                ) == Some(r.1@[i]@)
            &&& forall|name: Seq<char>|
                #![trigger card_names(r.1@).contains(name)]
                pending_card(symbols@, paths, texts, stored, name) is Some <==> card_names(
                    r.1@,
                ).contains(name)
        }),
{
    let ghost path_map = path_table(files@);
    let ghost source_map = text_table(rows_or_none(*sources), 0, 1);
    let ghost stored_map = text_table(rows_or_none(*existing), 0, 1);
    let none: Vec<Vec<Cell>> = Vec::new();
    assert(none@ =~= Seq::empty());
    let stored = match existing {
        Some(rows) => read_texts(rows, 0, 1),
        None => read_texts(&none, 0, 1),
    };
    let lines = match sources {
        Some(rows) => read_lines(rows, 0, 1),
        None => read_lines(&none, 0, 1),
    };
    let paths = read_paths(files);
    let mut staged: StrMap<SymbolCard> = StrMap::new();
    let mut unchanged: usize = 0;
    let mut i: usize = 0;
    assert(symbols@.take(0) =~= Seq::empty());
    while i < symbols.len()
        invariant
            i <= symbols@.len(),
            holds_texts(stored, stored_map),
            holds_lines(lines, source_map),
            holds_paths(paths@, path_map),
            unchanged <= i,
            unchanged == unchanged_rows(
                symbols@.take(i as int),
                path_map,
                source_map,
                stored_map,
            ),
            stages(staged, symbols@.take(i as int), path_map, source_map),
        decreases symbols@.len() - i,
    {
        assert(symbols@.take(i + 1).drop_last() =~= symbols@.take(i as int));
        if let Some(card) = build_card(
            &symbols[i],
            &paths,
            &lines,
            Ghost(path_map),
            Ghost(source_map),
        ) {
            if is_stored(&stored, &card, Ghost(stored_map)) {
                unchanged += 1;
            }
            let ghost before = staged;
            let name = card.qualified.clone();
            staged.insert(name.as_str(), card);
            assert forall|other: Seq<char>| #[trigger]
                staged_card(staged, other) == last_card(
                    symbols@.take(i + 1),
                    path_map,
                    source_map,
                    other,
                ) by {
                crate::strmap::lemma_insert(before, staged, name@, card, other);
                assert(staged_card(before, other) == last_card(
                    symbols@.take(i as int),
                    path_map,
                    source_map,
                    other,
                ));
            }
        }
        i += 1;
    }
    assert(symbols@.take(i as int) =~= symbols@);
    let mut cards: Vec<SymbolCard> = Vec::new();
    let mut k: usize = 0;
    proof {
        crate::strmap::lemma_order(staged);
    }
    while k < staged.len()
        invariant
            staged.sound(),
            k <= staged.order().len(),
            staged.order().no_duplicates(),
            holds_texts(stored, stored_map),
            stages(staged, symbols@, path_map, source_map),
            cards@.len() <= k,
            card_names(cards@).no_duplicates(),
            forall|j: int|
                0 <= j < cards@.len() ==> staged.order().take(k as int).contains(
                    (#[trigger] cards@[j]).qualified@,
                ),
            forall|j: int|
                0 <= j < cards@.len() ==> pending_card(
                    symbols@,
                    path_map,
                    source_map,
                    stored_map,
                    (#[trigger] cards@[j]).qualified@,
                ) == Some(cards@[j]@),
            forall|p: int|
                #![trigger staged.order()[p]]
                0 <= p < k && pending_card(
                    symbols@,
                    path_map,
                    source_map,
                    stored_map,
                    staged.order()[p],
                ) is Some ==> card_names(cards@).contains(staged.order()[p]),
        decreases staged.order().len() - k,
    {
        let card = staged.value_at(k);
        let ghost name = staged.order()[k as int];
        proof {
            crate::strmap::lemma_place(staged, k as int);
            assert(staged_card(staged, name) is Some);
            lemma_last_card(symbols@, path_map, source_map, name);
            assert(staged.order().take(k + 1) =~= staged.order().take(k as int).push(name));
            assert(!staged.order().take(k as int).contains(name));
            assert forall|other: Seq<char>|
                staged.order().take(k as int).contains(other) implies staged.order().take(
                k + 1,
            ).contains(other) by {
                let at = staged.order().take(k as int).index_of(other);
                assert(staged.order().take(k + 1)[at] == other);
            }
            assert(staged.order().take(k + 1)[k as int] == name);
        }
        if !is_stored(&stored, card, Ghost(stored_map)) {
            let ghost before = cards@;
            cards.push(
                SymbolCard {
                    qualified: card.qualified.clone(),
                    signature: card.signature.clone(),
                    doc1l: card.doc1l.clone(),
                    content_hash: card.content_hash.clone(),
                },
            );
            proof {
                assert(card_names(cards@) =~= card_names(before).push(name));
                assert forall|other: Seq<char>|
                    card_names(before).contains(other) implies card_names(cards@).contains(
                    other,
                ) by {
                    let at = card_names(before).index_of(other);
                    assert(card_names(cards@)[at] == other);
                }
                assert(card_names(cards@)[before.len() as int] == name);
            }
        }
        k += 1;
    }
    proof {
        assert(staged.order().take(k as int) =~= staged.order());
        assert forall|name: Seq<char>|
            #![trigger card_names(cards@).contains(name)]
            pending_card(symbols@, path_map, source_map, stored_map, name) is Some
                <==> card_names(cards@).contains(name) by {
            if pending_card(symbols@, path_map, source_map, stored_map, name) is Some {
                assert(staged_card(staged, name) is Some);
                assert(staged.order().contains(name));
                let p = staged.order().index_of(name);
                assert(staged.order()[p] == name);
            }
            if card_names(cards@).contains(name) {
                let j = card_names(cards@).index_of(name);
                assert(cards@[j].qualified@ == name);
            }
        }
    }
    let stats = DistillStats {
        symbols_scanned: symbols.len(),
        symbols_written: cards.len(),
        symbols_unchanged: unchanged,
        files_written: 0,
        pagerank_iters: 0,
        pagerank_converged: false,
    };
    (stats, cards)
}

/// The last card of a name has that name.
proof fn lemma_last_card(
    rows: Seq<Vec<Cell>>,
    paths: Map<int, Seq<char>>,
    sources: Map<Seq<char>, Seq<char>>,
    name: Seq<char>,
)
    ensures
        last_card(rows, paths, sources, name) matches Some(card) ==> card.qualified == name,
    decreases rows.len(),
{
    if rows.len() > 0 {
        lemma_last_card(rows.drop_last(), paths, sources, name);
    }
}

/// A card that is stored already is left untouched: what is written under a
/// name has that name and differs from what is stored.
pub proof fn stored_cards_are_left_untouched(
    rows: Seq<Vec<Cell>>,
    paths: Map<int, Seq<char>>,
    sources: Map<Seq<char>, Seq<char>>,
    existing: Map<Seq<char>, Seq<char>>,
    name: Seq<char>,
)
    ensures
        pending_card(rows, paths, sources, existing, name) matches Some(card) ==> card.qualified
            == name && is_changed(card, existing),
{
    lemma_last_card(rows, paths, sources, name);
}

/// Once the pending cards are stored, a second pass over the same rows has
/// nothing to write.
pub proof fn second_pass_writes_nothing(
    rows: Seq<Vec<Cell>>,
    paths: Map<int, Seq<char>>,
    sources: Map<Seq<char>, Seq<char>>,
    existing: Map<Seq<char>, Seq<char>>,
    stored: Map<Seq<char>, Seq<char>>,
    name: Seq<char>,
)
    requires
        forall|n: Seq<char>|
            #![trigger stored.dom().contains(n)]
            match pending_card(rows, paths, sources, existing, n) {
                Some(card) => stored.dom().contains(n) && stored[n] == card.content_hash,
                None => stored.dom().contains(n) == existing.dom().contains(n) && (
                existing.dom().contains(n) ==> stored[n] == existing[n]),
            },
    ensures
        pending_card(rows, paths, sources, stored, name) is None,
{
    let known = stored.dom().contains(name);
    lemma_last_card(rows, paths, sources, name);
}

/// The columns of the symbol cards that a pass writes.
pub open spec fn card_columns() -> Seq<Seq<char>> {
    seq!["qualified"@, "signature"@, "doc1l"@, "content_hash"@]
}

/// The row of a symbol card, as it is inserted.
pub open spec fn card_row(card: CardView) -> Seq<Seq<char>> {
    seq![card.qualified, card.signature, card.doc1l, card.content_hash]
}

/// The statements that write some symbol cards.
pub open spec fn card_statements(cards: Seq<SymbolCard>) -> Seq<Seq<char>> {
    statements::delete_statements(SYMBOL_CARDS_TABLE@, "qualified"@, card_names(cards))
        + Seq::new(
        cards.len(),
        |i: int|
            "INSERT INTO "@ + SYMBOL_CARDS_TABLE@ + " ("@ + text::joined(card_columns(), ", "@)
                + ") VALUES ("@ + text::joined(
                statements::quoted_all(card_row(cards[i]@)),
                ","@,
            ) + ")"@,
    )
}

/// A text that an `INSERT` puts in quotes.
fn quoted_value(s: &str) -> (r: SqlValue)
    ensures
        r.text@ == s@,
        !r.numeric,
{
    SqlValue { text: s.to_string(), numeric: false }
}

/// The statements that write some symbol cards: the rows with their names are
/// deleted first, then each card is inserted.
pub fn symbol_card_statements(cards: &Vec<SymbolCard>) -> (r: Vec<String>)
    ensures
        text::views(r@) == card_statements(cards@),
{
    let mut names: Vec<String> = Vec::new();
    let mut rows: Vec<Vec<SqlValue>> = Vec::new();
    let mut i: usize = 0;
    while i < cards.len()
        invariant
            i <= cards@.len(),
            names@.len() == i,
            rows@.len() == i,
            forall|j: int| 0 <= j < i ==> (#[trigger] names@[j])@ == cards@[j].qualified@,
            forall|j: int|
                0 <= j < i ==> Seq::new(
                    (#[trigger] rows@[j])@.len(),
                    |k: int| statements::value_text(rows@[j]@[k]),
                ) == statements::quoted_all(card_row(cards@[j]@)),
        decreases cards@.len() - i,
    {
        let card = &cards[i];
        names.push(card.qualified.clone());
        let mut row: Vec<SqlValue> = Vec::new();
        row.push(quoted_value(card.qualified.as_str()));
        row.push(quoted_value(card.signature.as_str()));
        row.push(quoted_value(card.doc1l.as_str()));
        row.push(quoted_value(card.content_hash.as_str()));
        assert(Seq::new(row@.len(), |k: int| statements::value_text(row@[k]))
            =~= statements::quoted_all(card_row(card@)));
        rows.push(row);
        i += 1;
    }
    let mut columns: Vec<String> = Vec::new();
    columns.push("qualified".to_string());
    columns.push("signature".to_string());
    columns.push("doc1l".to_string());
    columns.push("content_hash".to_string());
    assert(text::views(columns@) =~= card_columns());
    assert(text::views(names@) =~= card_names(cards@));
    let r = statements::bulk_upsert(SYMBOL_CARDS_TABLE, "qualified", &columns, &names, &rows);
    assert(text::views(r@) =~= card_statements(cards@));
    r
}

/// Of several rows with one key the last counts: the table holds under the
/// key what stands in the value column of that row.
pub proof fn last_row_of_a_key_counts(rows: Seq<Vec<Cell>>, k: int, v: int, i: int)
    requires
        0 <= i < rows.len(),
        cells::text_at(rows[i]@, k).len() > 0,
        forall|j: int|
            i < j < rows.len() ==> cells::text_at((#[trigger] rows[j])@, k) != cells::text_at(
                rows[i]@,
                k,
            ),
    ensures
        text_table(rows, k, v).dom().contains(cells::text_at(rows[i]@, k)),
        text_table(rows, k, v)[cells::text_at(rows[i]@, k)] == cells::text_at(rows[i]@, v),
    decreases rows.len(),
{
    if i < rows.len() - 1 {
        let head = rows.drop_last();
        assert(head[i] == rows[i]);
        assert forall|j: int| i < j < head.len() implies cells::text_at((#[trigger] head[j])@, k)
            != cells::text_at(head[i]@, k) by {
            assert(head[j] == rows[j]);
        }
        assert(rows.last() == rows[rows.len() - 1]);
        last_row_of_a_key_counts(head, k, v, i);
    }
}

/// A table holds no key but those of the rows.
pub proof fn keys_come_from_the_rows(rows: Seq<Vec<Cell>>, k: int, v: int, key: Seq<char>)
    requires
        text_table(rows, k, v).dom().contains(key),
    ensures
        exists|i: int|
            0 <= i < rows.len() && cells::text_at((#[trigger] rows[i])@, k) == key && key.len() > 0,
    decreases rows.len(),
{
    if rows.len() > 0 {
        let head = rows.drop_last();
        if text_table(head, k, v).dom().contains(key) {
            keys_come_from_the_rows(head, k, v, key);
            let i = choose|i: int|
                0 <= i < head.len() && cells::text_at((#[trigger] head[i])@, k) == key && key.len()
                    > 0;
            assert(rows[i] == head[i]);
        } else {
            assert(rows[rows.len() - 1] == rows.last());
        }
    }
}

/// Of several rows with one file the last with a path counts.
pub proof fn last_path_of_a_file_counts(rows: Seq<Vec<Cell>>, file: int, i: int)
    requires
        0 <= i < rows.len(),
        cells::int_at(rows[i]@, 0) == Some(file),
        cells::text_at(rows[i]@, 1).len() > 0,
        forall|j: int|
            i < j < rows.len() ==> cells::int_at((#[trigger] rows[j])@, 0) != Some(file),
    ensures
        path_table(rows).dom().contains(file),
        path_table(rows)[file] == cells::text_at(rows[i]@, 1),
    decreases rows.len(),
{
    if i < rows.len() - 1 {
        let head = rows.drop_last();
        assert(head[i] == rows[i]);
        assert forall|j: int| i < j < head.len() implies cells::int_at((#[trigger] head[j])@, 0)
            != Some(file) by {
            assert(head[j] == rows[j]);
        }
        assert(rows.last() == rows[rows.len() - 1]);
        last_path_of_a_file_counts(head, file, i);
    }
}

/// The card of a symbol row has the name and the signature of the row, the
/// documentation line above the row's line in the source of the row's file,
/// and the hash of both, so that a change of either changes what is hashed.
pub proof fn rows_become_cards(
    row: Seq<Cell>,
    paths: Map<int, Seq<char>>,
    sources: Map<Seq<char>, Seq<char>>,
    file: int,
    line: int,
)
    requires
        cells::int_at(row, 1) == Some(file),
        paths.dom().contains(file),
        cells::text_at(row, 2).len() > 0,
        cells::int_at(row, 4) == Some(line),
        sources.dom().contains(paths[file]),
    ensures
        ({
            let doc = doc_line(text::lines_of(sources[paths[file]]), line);
            let signature = cells::text_at(row, 3);
            &&& card_of(row, paths, sources) matches Some(card) && {
                &&& card.qualified == cells::text_at(row, 2)
                &&& card.content_hash == hash_of(signature + seq!['\n'] + doc)
                &&& card.signature.len() <= signature.len()
                &&& card.doc1l.len() <= doc.len()
                &&& signature.len() <= MAX_FIELD_BYTES ==> card.signature.len() == signature.len()
                    && (forall|i: int|
                    0 <= i < signature.len() && is_ascii_char(signature[i])
                        ==> #[trigger] card.signature[i] == signature[i])
                &&& forall|i: int|
                    0 <= i < doc.len() && is_ascii_char(doc[i]) ==> #[trigger] card.doc1l[i]
                        == doc[i]
                &&& card.doc1l.len() == doc.len()
            }
        }),
{
    reveal_strlit("\n");
    assert("\n"@ =~= seq!['\n']);
    let doc = doc_line(text::lines_of(sources[paths[file]]), line);
    assert(doc.len() <= 120);
}

/// A symbol row without a name, without a file or with an unknown file has no card.
pub proof fn nameless_rows_have_no_card(
    row: Seq<Cell>,
    paths: Map<int, Seq<char>>,
    sources: Map<Seq<char>, Seq<char>>,
)
    ensures
        card_of(row, paths, sources) is Some <==> cells::text_at(row, 2).len() > 0
            && cells::int_at(row, 1) is Some && paths.dom().contains(cells::int_at(row, 1)->0),
{
}

/// A text without characters beyond ASCII is stored as it is; in any other,
/// dashes and arrows become hyphens, quotes stay quotes, ticks become plus
/// signs and crosses an x, and every other character a question mark, each in
/// its place.
pub proof fn stand_ins_keep_the_meaning(s: Seq<char>, i: int)
    requires
        0 <= i < s.len(),
    ensures
        sanitized(s).len() == s.len(),
        (s[i] as u32) < 128 ==> sanitized(s)[i] == s[i],
        s[i] == '–' || s[i] == '—' || s[i] == '→' || s[i] == '←' ==> sanitized(s)[i] == '-',
        s[i] == '‘' || s[i] == '’' ==> sanitized(s)[i] == '\'',
        s[i] == '“' || s[i] == '”' ==> sanitized(s)[i] == '"',
        s[i] == '…' ==> sanitized(s)[i] == '.',
        s[i] == '\u{a0}' ==> sanitized(s)[i] == ' ',
        s[i] == '✓' || s[i] == '✅' ==> sanitized(s)[i] == '+',
        s[i] == '✗' || s[i] == '❌' ==> sanitized(s)[i] == 'x',
        (sanitized(s)[i] as u32) < 128,
{
}

} // verus!
