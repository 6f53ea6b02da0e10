//! Rows as the database returns them, and the SQL texts that ask for them.

use vstd::prelude::*;
use vstd::string::*;

use crate::text;

verus! {

/// A field of a row.
#[derive(Debug)]
pub enum Cell {
    Text(String),
    Int2(i16),
    Int4(i32),
    Int8(i64),
    /// A null, or a value of another type.
    Other,
}

/// The text in column `idx` of a row; empty where there is none.
pub open spec fn text_at(row: Seq<Cell>, idx: int) -> Seq<char> {
    if 0 <= idx < row.len() {
        match row[idx] {
            Cell::Text(s) => s@,
            _ => Seq::empty(),
        }
    } else {
        Seq::empty()
    }
}

/// Whether column `idx` of a row holds a text.
pub open spec fn has_text_at(row: Seq<Cell>, idx: int) -> bool {
    0 <= idx < row.len() && row[idx] is Text
}

/// The integer in column `idx` of a row.
pub open spec fn int_at(row: Seq<Cell>, idx: int) -> Option<int> {
    if 0 <= idx < row.len() {
        match row[idx] {
            Cell::Int8(n) => Some(n as int),
            Cell::Int4(n) => Some(n as int),
            Cell::Int2(n) => Some(n as int),
            _ => None,
        }
    } else {
        None
    }
}

/// The identifier in column `idx` of a row: an integer of four or eight bytes.
pub open spec fn id_at(row: Seq<Cell>, idx: int) -> Option<int> {
    if 0 <= idx < row.len() {
        match row[idx] {
            Cell::Int8(n) => Some(n as int),
            Cell::Int4(n) => Some(n as int),
            _ => None,
        }
    } else {
        None
    }
}

/// The text in column `idx` of a row; empty where there is none.
pub fn tuple_str(row: &Vec<Cell>, idx: usize) -> (r: String)
    ensures
        r@ == text_at(row@, idx as int),
{
    if idx < row.len() {
        match &row[idx] {
            Cell::Text(s) => s.clone(),
            _ => String::new(),
        }
    } else {
        String::new()
    }
}

/// The text in column `idx` of a row.
pub fn as_string(row: &Vec<Cell>, idx: usize) -> (r: Option<String>)
    ensures
        match r {
            Some(s) => has_text_at(row@, idx as int) && s@ == text_at(row@, idx as int),
            None => !has_text_at(row@, idx as int),
        },
{
    if idx < row.len() {
        match &row[idx] {
            Cell::Text(s) => Some(s.clone()),
            _ => None,
        }
    } else {
        None
    }
}

/// The integer in column `idx` of a row.
pub fn tuple_int(row: &Vec<Cell>, idx: usize) -> (r: Option<i64>)
    ensures
        match r {
            Some(n) => int_at(row@, idx as int) == Some(n as int),
            None => int_at(row@, idx as int) is None,
        },
{
    if idx < row.len() {
        match &row[idx] {
            Cell::Int8(n) => Some(*n),
            Cell::Int4(n) => Some(*n as i64),
            Cell::Int2(n) => Some(*n as i64),
            _ => None,
        }
    } else {
        None
    }
}

/// The identifier in column `idx` of a row: an integer of four or eight bytes.
pub fn to_int(row: &Vec<Cell>, idx: usize) -> (r: Option<i64>)
    ensures
        match r {
            Some(n) => id_at(row@, idx as int) == Some(n as int),
            None => id_at(row@, idx as int) is None,
        },
{
    if idx < row.len() {
        match &row[idx] {
            Cell::Int8(n) => Some(*n),
            Cell::Int4(n) => Some(*n as i64),
            _ => None,
        }
    } else {
        None
    }
}

/// `s` as an SQL string literal: in single quotes, its own quotes doubled.
pub open spec fn quoted(s: Seq<char>) -> Seq<char> {
    "'"@ + text::replaced(s, '\'', "''"@) + "'"@
}

/// `s` as an SQL string literal.
pub fn sql_lit(s: &str) -> (r: String)
    ensures
        r@ == quoted(s@),
{
    text::cat3("'", text::replace(s, '\'', "''").as_str(), "'")
}

/// The query that asks whether a table exists.
pub open spec fn existence_query(table: Seq<char>) -> Seq<char> {
    "SELECT 1 FROM information_schema.tables WHERE table_name = "@ + quoted(table)
}

/// The query that asks whether `table` exists.
pub fn table_exists_sql(table: &str) -> (r: String)
    ensures
        r@ == existence_query(table@),
{
    text::cat2(
        "SELECT 1 FROM information_schema.tables WHERE table_name = ",
        sql_lit(table).as_str(),
    )
}

/// What an SQL literal stands for: a quote ends it, two quotes are one.
pub open spec fn unquoted(body: Seq<char>) -> Option<Seq<char>>
    decreases body.len(),
{
    if body.len() == 0 {
        Some(Seq::empty())
    } else if body[0] != '\'' {
        match unquoted(body.skip(1)) {
            Some(rest) => Some(seq![body[0]] + rest),
            None => None,
        }
    } else if body.len() >= 2 && body[1] == '\'' {
        match unquoted(body.skip(2)) {
            Some(rest) => Some(seq!['\''] + rest),
            None => None,
        }
    } else {
        None
    }
}

/// Quotes are doubled from the front as from the back.
proof fn lemma_replaced_front(s: Seq<char>, c: char, with: Seq<char>)
    requires
        s.len() > 0,
    ensures
        text::replaced(s, c, with) == (if s[0] == c {
            with
        } else {
            seq![s[0]]
        }) + text::replaced(s.skip(1), c, with),
    decreases s.len(),
{
    let first = if s[0] == c {
        with
    } else {
        seq![s[0]]
    };
    if s.len() == 1 {
        reveal_with_fuel(text::replaced, 2);
        assert(s.skip(1) =~= Seq::empty());
        assert(s.drop_last() =~= Seq::empty());
        assert(text::replaced(s, c, with) =~= first + text::replaced(s.skip(1), c, with));
    } else {
        lemma_replaced_front(s.drop_last(), c, with);
        assert(s.drop_last().skip(1) =~= s.skip(1).drop_last());
        assert(text::replaced(s, c, with) =~= first + text::replaced(s.skip(1), c, with));
    }
}

/// Between its outer quotes, a literal has only doubled quotes, and reading
/// it gives the text back.
pub proof fn literal_reads_back(s: Seq<char>)
    ensures
        unquoted(text::replaced(s, '\'', "''"@)) == Some(s),
    decreases s.len(),
{
    reveal_strlit("''");
    let body = text::replaced(s, '\'', "''"@);
    if s.len() == 0 {
        assert(body =~= Seq::<char>::empty());
    } else {
        let rest = text::replaced(s.skip(1), '\'', "''"@);
        literal_reads_back(s.skip(1));
        lemma_replaced_front(s, '\'', "''"@);
        assert(seq![s[0]] + s.skip(1) =~= s);
        if s[0] == '\'' {
            assert(body =~= "''"@ + rest);
            assert(body.skip(2) =~= rest);
        } else {
            assert(body =~= seq![s[0]] + rest);
            assert(body.skip(1) =~= rest);
        }
    }
}

} // verus!
