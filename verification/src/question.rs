//! What a repository question asks for.

use vstd::prelude::*;
use vstd::string::*;

use crate::text;

verus! {

/// The trimmed text between the first two backticks of a question, or after
/// the only one.
pub open spec fn backtick_term(q: Seq<char>) -> Option<Seq<char>> {
    let at = text::index_of(q, '`');
    if at == q.len() {
        None
    } else {
        let term = text::trimmed(text::before_first(q.skip(at + 1), '`'));
        if term.len() == 0 {
            None
        } else {
            Some(term)
        }
    }
}

/// The text that a question puts between backticks.
pub fn first_backtick_term(question: &str) -> (r: Option<String>)
    ensures
        match r {
            Some(s) => backtick_term(question@) == Some(s@),
            None => backtick_term(question@) is None,
        },
{
    let cs = text::chars_of(question);
    assert(cs@.skip(0) =~= cs@);
    let at = text::position_from(&cs, 0, '`');
    if at == cs.len() {
        return None;
    }
    let to = text::position_from(&cs, at + 1, '`');
    let between = text::text_of(&cs, at + 1, to);
    proof {
        let rest = cs@.skip(at + 1);
        assert(rest.take(text::index_of(rest, '`')) =~= cs@.subrange(at + 1, to as int));
    }
    let term = text::trim(between.as_str());
    if text::chars_of(term.as_str()).len() == 0 {
        None
    } else {
        Some(term)
    }
}

/// Whether a character can stand in a qualified name.
pub open spec fn is_term_char(c: char) -> bool {
    ('a' <= c <= 'z') || ('A' <= c <= 'Z') || ('0' <= c <= '9') || c == '_' || c == ':'
}

/// The number of characters at the head of `s` that can stand in a qualified name.
pub open spec fn run_length(s: Seq<char>) -> int
    decreases s.len(),
{
    if s.len() == 0 || !is_term_char(s[0]) {
        0
    } else {
        1 + run_length(s.skip(1))
    }
}

proof fn lemma_run_length(s: Seq<char>)
    ensures
        0 <= run_length(s) <= s.len(),
    decreases s.len(),
{
    if s.len() > 0 && is_term_char(s[0]) {
        lemma_run_length(s.skip(1));
    }
}

/// Whether a word looks like the name of a symbol: it holds `::`, an
/// underscore or a capital.
pub open spec fn symbol_like(word: Seq<char>) -> bool {
    text::has_part(word, "::"@) || exists|i: int|
        0 <= i < word.len() && (#[trigger] word[i] == '_' || 'A' <= word[i] <= 'Z')
}

/// The first word of `s` that looks like the name of a symbol.
pub open spec fn first_symbol(s: Seq<char>) -> Option<Seq<char>>
    decreases s.len(),
    via first_symbol_decreases
{
    if s.len() == 0 {
        None
    } else if !is_term_char(s[0]) {
        first_symbol(s.skip(1))
    } else if symbol_like(s.take(run_length(s))) {
        Some(s.take(run_length(s)))
    } else {
        first_symbol(s.skip(run_length(s)))
    }
}

#[via_fn]
proof fn first_symbol_decreases(s: Seq<char>) {
    lemma_run_length(s);
    if s.len() > 0 {
        lemma_run_length(s.skip(1));
    }
}

/// The symbol that a question seems to ask about.
pub open spec fn symbol_term(q: Seq<char>) -> Option<Seq<char>> {
    match backtick_term(q) {
        Some(t) => Some(t),
        None => first_symbol(q),
    }
}

fn term_char(c: char) -> (r: bool)
    ensures
        r == is_term_char(c),
{
    ('a' <= c && c <= 'z') || ('A' <= c && c <= 'Z') || ('0' <= c && c <= '9') || c == '_' || c
        == ':'
}

/// Whether a word looks like the name of a symbol.
fn looks_like_symbol(word: &str) -> (r: bool)
    ensures
        r == symbol_like(word@),
{
    if text::contains(word, "::") {
        return true;
    }
    let cs = text::chars_of(word);
    let mut i: usize = 0;
    while i < cs.len()
        invariant
            i <= cs@.len(),
            cs@ == word@,
            forall|j: int|
                0 <= j < i ==> !(#[trigger] word@[j] == '_' || 'A' <= word@[j] <= 'Z'),
        decreases cs@.len() - i,
    {
        let c = cs[i];
        assert(word@[i as int] == c);
        if c == '_' || ('A' <= c && c <= 'Z') {
            return true;
        }
        i += 1;
    }
    false
}

/// The end of the run of name characters that begins at `from`.
fn run_end(cs: &Vec<char>, from: usize) -> (r: usize)
    requires
        from <= cs@.len(),
    ensures
        r == from + run_length(cs@.skip(from as int)),
        from <= r <= cs@.len(),
{
    let mut i: usize = from;
    while i < cs.len() && term_char(cs[i])
        invariant
            from <= i <= cs@.len(),
            run_length(cs@.skip(from as int)) == (i - from) + run_length(cs@.skip(i as int)),
        decreases cs@.len() - i,
    {
        assert(cs@.skip(i as int).skip(1) =~= cs@.skip(i + 1));
        i += 1;
    }
    i
}

/// The symbol that a question seems to ask about: the text between backticks,
/// or else the first word that looks like the name of a symbol.
pub fn likely_symbol_term(question: &str) -> (r: Option<String>)
    ensures
        match r {
            Some(s) => symbol_term(question@) == Some(s@),
            None => symbol_term(question@) is None,
        },
{
    if let Some(term) = first_backtick_term(question) {
        return Some(term);
    }
    let cs = text::chars_of(question);
    let mut i: usize = 0;
    assert(cs@.skip(0) =~= cs@);
    while i < cs.len()
        invariant
            i <= cs@.len(),
            first_symbol(cs@) == first_symbol(cs@.skip(i as int)),
            cs@ == question@,
            backtick_term(question@) is None,
        decreases cs@.len() - i,
    {
        let ghost rest = cs@.skip(i as int);
        if !term_char(cs[i]) {
            assert(rest.skip(1) =~= cs@.skip(i + 1));
            i += 1;
        } else {
            let end = run_end(&cs, i);
            let word = text::text_of(&cs, i, end);
            assert(word@ =~= rest.take(run_length(rest)));
            if looks_like_symbol(word.as_str()) {
                return Some(word);
            }
            assert(rest.skip(run_length(rest)) =~= cs@.skip(end as int));
            assert(run_length(rest) >= 1) by {
                lemma_run_length(rest.skip(1));
            }
            i = end;
        }
    }
    None
}

/// Whether one of some phrases stands in the text, whatever its ASCII capitals.
pub open spec fn mentions_any(q: Seq<char>, phrases: Seq<Seq<char>>) -> bool {
    exists|i: int| 0 <= i < phrases.len() && text::has_part(text::lowered(q), #[trigger] phrases[i])
}

/// Whether one of `phrases` stands in `q`, whatever its ASCII capitals.
fn has_any(q: &str, phrases: &Vec<&str>) -> (r: bool)
    ensures
        r == mentions_any(q@, text::str_views(phrases@)),
{
    let low = text::lower(q);
    let ghost all = text::str_views(phrases@);
    let mut i: usize = 0;
    while i < phrases.len()
        invariant
            i <= phrases@.len(),
            low@ == text::lowered(q@),
            all == text::str_views(phrases@),
            forall|j: int| 0 <= j < i ==> !text::has_part(low@, #[trigger] all[j]),
        decreases phrases@.len() - i,
    {
        assert(all[i as int] == phrases@[i as int]@);
        if text::contains(low.as_str(), phrases[i]) {
            return true;
        }
        i += 1;
    }
    false
}

/// The phrases of a question about the layout of a code base.
pub open spec fn architecture_phrases() -> Seq<Seq<char>> {
    seq![
        "architecture"@,
        "overview"@,
        "layout"@,
        "modules"@,
        "structure"@,
        "where does this codebase"@,
    ]
}

/// Whether a question asks for the layout of a code base.
pub fn looks_like_architecture_question(q: &str) -> (r: bool)
    ensures
        r == mentions_any(q@, architecture_phrases()),
{
    let phrases = vec![
        "architecture",
        "overview",
        "layout",
        "modules",
        "structure",
        "where does this codebase",
    ];
    assert(text::str_views(phrases@) =~= architecture_phrases());
    has_any(q, &phrases)
}

/// The phrases of a question that documentation may answer.
pub open spec fn documentation_phrases() -> Seq<Seq<char>> {
    seq!["doc"@, "docs"@, "readme"@, "according"@, "guide"@, "explain"@, "how does"@]
}

/// Whether documentation may answer a question.
pub fn looks_like_doc_question(q: &str) -> (r: bool)
    ensures
        r == mentions_any(q@, documentation_phrases()),
{
    let phrases = vec!["doc", "docs", "readme", "according", "guide", "explain", "how does"];
    assert(text::str_views(phrases@) =~= documentation_phrases());
    has_any(q, &phrases)
}

/// What a question puts between backticks is the symbol it asks about,
/// without the white space around it.
pub proof fn backticks_name_the_symbol(
    head: Seq<char>,
    before: Seq<char>,
    term: Seq<char>,
    after: Seq<char>,
    tail: Seq<char>,
)
    requires
        !head.contains('`'),
        text::is_blank(before),
        text::is_blank(after),
        term.len() > 0,
        text::is_tight(term),
        !term.contains('`'),
    ensures
        symbol_term(head + seq!['`'] + before + term + after + seq!['`'] + tail) == Some(term),
{
    let inner = before + term + after;
    let q = head + seq!['`'] + before + term + after + seq!['`'] + tail;
    let rest = inner + seq!['`'] + tail;
    assert(q =~= head + seq!['`'] + rest);
    assert forall|j: int| 0 <= j < head.len() implies q[j] != '`' by {
        assert(q[j] == head[j]);
        assert(head.contains(head[j]));
    }
    text::lemma_index_of_is(q, '`', head.len() as int);
    assert(q.skip(head.len() as int + 1) =~= rest);
    assert forall|j: int| 0 <= j < inner.len() implies rest[j] != '`' by {
        assert(rest[j] == inner[j]);
        if j < before.len() {
            assert(inner[j] == before[j]);
        } else if j < before.len() + term.len() {
            assert(inner[j] == term[j - before.len()]);
            assert(term.contains(term[j - before.len()]));
        } else {
            assert(inner[j] == after[j - before.len() - term.len()]);
        }
    }
    assert(rest[inner.len() as int] == '`');
    text::lemma_index_of_is(rest, '`', inner.len() as int);
    assert(rest.take(inner.len() as int) =~= inner);
    text::trimming_takes_the_outer_space(before, term, after);
}

/// Whether `word` stands in `q` at `p`, with no name character behind it.
pub open spec fn ends_a_word(q: Seq<char>, word: Seq<char>, p: int) -> bool {
    &&& 0 <= p
    &&& p + word.len() <= q.len()
    &&& q.subrange(p, p + word.len()) == word
    &&& p + word.len() < q.len() ==> !is_term_char(q[p + word.len()])
}

/// The symbol of a question without backticks is a word of name characters
/// that looks like the name of a symbol and stands in the question.
pub proof fn unquoted_symbol_is_a_word_of_the_question(q: Seq<char>)
    requires
        first_symbol(q) is Some,
    ensures
        symbol_like(first_symbol(q)->0),
        forall|i: int|
            0 <= i < first_symbol(q)->0.len() ==> is_term_char(#[trigger] first_symbol(q)->0[i]),
        exists|p: int| #[trigger] ends_a_word(q, first_symbol(q)->0, p),
    decreases q.len(),
{
    lemma_run_length(q);
    let word = first_symbol(q)->0;
    if !is_term_char(q[0]) || !symbol_like(q.take(run_length(q))) {
        let cut = if !is_term_char(q[0]) {
            1
        } else {
            run_length(q)
        };
        if is_term_char(q[0]) {
            lemma_run_length(q.skip(1));
        }
        let rest = q.skip(cut);
        unquoted_symbol_is_a_word_of_the_question(rest);
        let p = choose|p: int| #[trigger] ends_a_word(rest, word, p);
        assert(q.subrange(cut + p, cut + p + word.len()) =~= rest.subrange(p, p + word.len()));
        if p + word.len() < rest.len() {
            assert(rest[p + word.len()] == q[cut + p + word.len()]);
        }
        assert(ends_a_word(q, word, cut + p));
    } else {
        lemma_run(q);
        assert(q.subrange(0, word.len() as int) =~= word);
        assert(ends_a_word(q, word, 0));
    }
}

/// A run holds name characters, and the character behind it is none.
proof fn lemma_run(s: Seq<char>)
    ensures
        0 <= run_length(s) <= s.len(),
        forall|i: int| 0 <= i < run_length(s) ==> is_term_char(#[trigger] s[i]),
        run_length(s) < s.len() ==> !is_term_char(s[run_length(s)]),
    decreases s.len(),
{
    if s.len() > 0 && is_term_char(s[0]) {
        let t = s.skip(1);
        lemma_run(t);
        assert forall|i: int| 0 <= i < run_length(s) implies is_term_char(#[trigger] s[i]) by {
            if i > 0 {
                assert(t[i - 1] == s[i]);
            }
        }
        if run_length(s) < s.len() {
            assert(t[run_length(t)] == s[run_length(s)]);
        }
    }
}

/// A phrase that stands in a question is found, whatever the ASCII capitals
/// of the question.
pub proof fn phrases_are_found_whatever_the_capitals(
    q: Seq<char>,
    phrases: Seq<Seq<char>>,
    i: int,
    p: int,
)
    requires
        0 <= i < phrases.len(),
        0 <= p,
        p + phrases[i].len() <= q.len(),
        forall|j: int|
            #![trigger phrases[i][j]]
            0 <= j < phrases[i].len() ==> phrases[i][j] == q[p + j] || ('A' <= q[p + j] <= 'Z'
                && phrases[i][j] == (q[p + j] as u32 + 32) as char),
        forall|j: int|
            0 <= j < phrases[i].len() ==> !('A' <= #[trigger] phrases[i][j] <= 'Z'),
    ensures
        mentions_any(q, phrases),
{
    let low = text::lowered(q);
    let phrase = phrases[i];
    assert forall|j: int| 0 <= j < phrase.len() implies low.subrange(p, p + phrase.len())[j]
        == phrase[j] by {
        assert(low[p + j] == text::lower_char(q[p + j]));
        assert(low.subrange(p, p + phrase.len())[j] == low[p + j]);
        assert(phrases[i][j] == phrase[j]);
    }
    assert(low.subrange(p, p + phrase.len()) =~= phrase);
    assert(text::occurs_at(low, phrase, p));
    assert(text::has_part(low, phrases[i]));
}

} // verus!
