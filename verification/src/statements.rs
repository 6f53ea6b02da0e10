//! Bulk SQL: the statements that replace rows, and their division into batches.

use vstd::prelude::*;
use vstd::string::*;

use crate::cells;
use crate::text;

verus! {

/// The number of keys in one `DELETE`, and of rows in one multi-row `INSERT`.
pub const ROWS_PER_STATEMENT: usize = 500;

/// The number of statements in one batch.
pub const STATEMENTS_PER_BATCH: usize = 50;

/// `s` cut into pieces of `n`; the last piece may be shorter.
pub open spec fn pieces<A>(s: Seq<A>, n: nat) -> Seq<Seq<A>>
    decreases s.len(),
{
    if n == 0 || s.len() == 0 {
        Seq::empty()
    } else if s.len() <= n {
        seq![s]
    } else {
        seq![s.take(n as int)] + pieces(s.skip(n as int), n)
    }
}

/// The pieces, one after the other.
pub open spec fn flattened<A>(p: Seq<Seq<A>>) -> Seq<A>
    decreases p.len(),
{
    if p.len() == 0 {
        Seq::empty()
    } else {
        p[0] + flattened(p.skip(1))
    }
}

/// The pieces make up the whole, none is empty, none is longer than `n`, and
/// all but the last have `n` items.
pub proof fn pieces_make_up_the_whole<A>(s: Seq<A>, n: nat)
    requires
        n > 0,
    ensures
        flattened(pieces(s, n)) == s,
        forall|i: int|
            #![trigger pieces(s, n)[i]]
            0 <= i < pieces(s, n).len() ==> 0 < pieces(s, n)[i].len() <= n && (i + 1 < pieces(
                s,
                n,
            ).len() ==> pieces(s, n)[i].len() == n),
    decreases s.len(),
{
    let p = pieces(s, n);
    if s.len() == 0 {
        assert(flattened(p) =~= s);
    } else if s.len() <= n {
        reveal_with_fuel(flattened, 2);
        assert(p.skip(1) =~= Seq::empty());
        assert(flattened(p) =~= s);
    } else {
        let rest = pieces(s.skip(n as int), n);
        pieces_make_up_the_whole(s.skip(n as int), n);
        assert(p.skip(1) =~= rest);
        assert(s.take(n as int) + s.skip(n as int) =~= s);
        assert forall|i: int|
            #![trigger p[i]]
            0 <= i < p.len() implies 0 < p[i].len() <= n && (i + 1 < p.len() ==> p[i].len()
            == n) by {
            if i > 0 {
                assert(p[i] == rest[i - 1]);
            }
        }
    }
}

/// A value in an `INSERT`: a number stands as it is, a text in quotes.
pub struct SqlValue {
    pub text: String,
    pub numeric: bool,
}

/// A value as it stands in an `INSERT`.
pub open spec fn value_text(v: SqlValue) -> Seq<char> {
    if v.numeric {
        v.text@
    } else {
        cells::quoted(v.text@)
    }
}

/// Some keys as SQL literals.
pub open spec fn quoted_all(keys: Seq<Seq<char>>) -> Seq<Seq<char>> {
    Seq::new(keys.len(), |i: int| cells::quoted(keys[i]))
}

/// The statement that deletes the rows with some keys.
pub open spec fn delete_statement(
    table: Seq<char>,
    key_column: Seq<char>,
    keys: Seq<Seq<char>>,
) -> Seq<char> {
    "DELETE FROM "@ + table + " WHERE "@ + key_column + " IN ("@ + text::joined(
        quoted_all(keys),
        ","@,
    ) + ")"@
}

/// The statement that inserts a row.
pub open spec fn insert_statement(
    table: Seq<char>,
    columns: Seq<Seq<char>>,
    row: Seq<SqlValue>,
) -> Seq<char> {
    "INSERT INTO "@ + table + " ("@ + text::joined(columns, ", "@) + ") VALUES ("@ + text::joined(
        Seq::new(row.len(), |i: int| value_text(row[i])),
        ","@,
    ) + ")"@
}

/// The statements that delete the rows with some keys.
pub open spec fn delete_statements(
    table: Seq<char>,
    key_column: Seq<char>,
    keys: Seq<Seq<char>>,
) -> Seq<Seq<char>> {
    let p = pieces(keys, ROWS_PER_STATEMENT as nat);
    Seq::new(p.len(), |i: int| delete_statement(table, key_column, p[i]))
}

/// The statements that insert some rows.
pub open spec fn insert_statements(
    table: Seq<char>,
    columns: Seq<Seq<char>>,
    rows: Seq<Vec<SqlValue>>,
) -> Seq<Seq<char>> {
    Seq::new(rows.len(), |i: int| insert_statement(table, columns, rows[i]@))
}

/// The statement that deletes the rows with the keys `keys[from..to]`.
fn render_delete(
    table: &str,
    key_column: &str,
    keys: &Vec<String>,
    from: usize,
    to: usize,
) -> (r: String)
    requires
        from <= to <= keys@.len(),
    ensures
        r@ == delete_statement(
            table@,
            key_column@,
            text::views(keys@).subrange(from as int, to as int),
        ),
{
    let mut quoted: Vec<String> = Vec::new();
    let mut i: usize = from;
    while i < to
        invariant
            from <= i <= to <= keys@.len(),
            quoted@.len() == i - from,
            forall|j: int|
                0 <= j < quoted@.len() ==> (#[trigger] quoted@[j])@ == cells::quoted(
                    keys@[from + j]@,
                ),
        decreases to - i,
    {
        quoted.push(cells::sql_lit(keys[i].as_str()));
        i += 1;
    }
    let ghost wanted = quoted_all(text::views(keys@).subrange(from as int, to as int));
    assert(text::views(quoted@).subrange(0, quoted@.len() as int) =~= wanted);
    let mut out = text::cat5("DELETE FROM ", table, " WHERE ", key_column, " IN (");
    out.append(text::join(&quoted, 0, quoted.len(), ",").as_str());
    out.append(")");
    out
}

/// The statement that inserts a row; `columns` is the list of columns.
fn render_insert(table: &str, columns: &str, row: &Vec<SqlValue>) -> (r: String)
    ensures
        r@ == "INSERT INTO "@ + table@ + " ("@ + columns@ + ") VALUES ("@ + text::joined(
            Seq::new(row@.len(), |i: int| value_text(row@[i])),
            ","@,
        ) + ")"@,
{
    let mut values: Vec<String> = Vec::new();
    let mut i: usize = 0;
    while i < row.len()
        invariant
            i <= row@.len(),
            values@.len() == i,
            forall|j: int| 0 <= j < i ==> (#[trigger] values@[j])@ == value_text(row@[j]),
        decreases row@.len() - i,
    {
        let v = &row[i];
        if v.numeric {
            values.push(v.text.clone());
        } else {
            values.push(cells::sql_lit(v.text.as_str()));
        }
        i += 1;
    }
    let ghost wanted = Seq::new(row@.len(), |i: int| value_text(row@[i]));
    assert(text::views(values@).subrange(0, values@.len() as int) =~= wanted);
    let mut out = text::cat5("INSERT INTO ", table, " (", columns, ") VALUES (");
    out.append(text::join(&values, 0, values.len(), ",").as_str());
    out.append(")");
    out
}

/// The statements that replace rows: first the deletions by key, then one
/// insertion per row.
pub fn bulk_upsert(
    table: &str,
    key_column: &str,
    columns: &Vec<String>,
    delete_keys: &Vec<String>,
    rows: &Vec<Vec<SqlValue>>,
) -> (r: Vec<String>)
    ensures
        text::views(r@) == delete_statements(table@, key_column@, text::views(delete_keys@))
            + insert_statements(table@, text::views(columns@), rows@),
{
    let ghost keys = text::views(delete_keys@);
    let ghost deletes = delete_statements(table@, key_column@, keys);
    let mut out: Vec<String> = Vec::new();
    let mut from: usize = 0;
    assert(keys.skip(0) =~= keys);
    assert(text::views(out@) + delete_statements(table@, key_column@, keys.skip(0)) =~= deletes);
    while from < delete_keys.len()
        invariant
            from <= delete_keys@.len(),
            keys == text::views(delete_keys@),
            deletes == text::views(out@) + delete_statements(
                table@,
                key_column@,
                keys.skip(from as int),
            ),
        decreases delete_keys@.len() - from,
    {
        let ghost before = out@;
        let ghost rest = keys.skip(from as int);
        let to = if delete_keys.len() - from > ROWS_PER_STATEMENT {
            from + ROWS_PER_STATEMENT
        } else {
            delete_keys.len()
        };
        out.push(render_delete(table, key_column, delete_keys, from, to));
        proof {
            let n = ROWS_PER_STATEMENT as nat;
            let first = keys.subrange(from as int, to as int);
            let p = pieces(rest, n);
            let q = pieces(keys.skip(to as int), n);
            if rest.len() <= n {
                assert(first =~= rest);
                assert(p =~= seq![first] + q);
            } else {
                assert(first =~= rest.take(n as int));
                assert(rest.skip(n as int) =~= keys.skip(to as int));
            }
            assert(text::views(out@) =~= text::views(before).push(
                delete_statement(table@, key_column@, first),
            ));
            assert(delete_statements(table@, key_column@, rest) =~= seq![
                delete_statement(table@, key_column@, first),
            ] + delete_statements(table@, key_column@, keys.skip(to as int)));
            assert(text::views(out@) + delete_statements(
                table@,
                key_column@,
                keys.skip(to as int),
            ) =~= text::views(before) + delete_statements(table@, key_column@, rest));
        }
        from = to;
    }
    assert(delete_statements(table@, key_column@, keys.skip(from as int)) =~= Seq::empty());
    assert(text::views(out@) =~= deletes);
    let listed = text::join(columns, 0, columns.len(), ", ");
    assert(text::views(columns@).subrange(0, columns@.len() as int) =~= text::views(columns@));
    let ghost inserts = insert_statements(table@, text::views(columns@), rows@);
    let mut i: usize = 0;
    assert(text::views(out@) =~= deletes + inserts.take(0));
    while i < rows.len()
        invariant
            i <= rows@.len(),
            listed@ == text::joined(text::views(columns@), ", "@),
            inserts == insert_statements(table@, text::views(columns@), rows@),
            text::views(out@) == deletes + inserts.take(i as int),
        decreases rows@.len() - i,
    {
        let ghost before = out@;
        out.push(render_insert(table, listed.as_str(), &rows[i]));
        assert(text::views(out@) =~= text::views(before).push(inserts[i as int]));
        assert(deletes + inserts.take(i + 1) =~= (deletes + inserts.take(i as int)).push(
            inserts[i as int],
        ));
        i += 1;
    }
    assert(inserts.take(i as int) =~= inserts);
    out
}

/// The lines that are not empty.
pub open spec fn filled_lines(lines: Seq<Seq<char>>) -> Seq<Seq<char>> {
    lines.filter(|l: Seq<char>| l.len() > 0)
}

/// The texts of some batches.
pub open spec fn batch_views(b: Seq<Vec<String>>) -> Seq<Seq<Seq<char>>> {
    Seq::new(b.len(), |i: int| text::views(b[i]@))
}

/// Filtering goes line by line.
proof fn lemma_filled_push(lines: Seq<Seq<char>>, l: Seq<char>)
    ensures
        filled_lines(lines.push(l)) == (if l.len() > 0 {
            filled_lines(lines).push(l)
        } else {
            filled_lines(lines)
        }),
{
    reveal(Seq::filter);
    assert(lines.push(l).drop_last() =~= lines);
}

/// A full piece at the end of the pieces so far is followed by the next piece.
proof fn lemma_pieces_extend<A>(whole: Seq<A>, tail: Seq<A>, n: nat, k: nat)
    requires
        n > 0,
        whole.len() == k * n,
        tail.len() <= n,
    ensures
        pieces(whole + tail, n) == pieces(whole, n) + (if tail.len() == 0 {
            Seq::empty()
        } else {
            seq![tail]
        }),
    decreases k,
{
    let all = whole + tail;
    if k == 0 {
        assert(whole.len() == 0) by (nonlinear_arith)
            requires
                whole.len() == k * n,
                k == 0,
        ;
        assert(all =~= tail);
        assert(pieces(all, n) =~= pieces(whole, n) + (if tail.len() == 0 {
            Seq::empty()
        } else {
            seq![tail]
        }));
    } else {
        assert(whole.len() >= n && whole.len() - n == (k - 1) * n) by (nonlinear_arith)
            requires
                whole.len() == k * n,
                k > 0,
        ;
        let rest = whole.skip(n as int);
        lemma_pieces_extend(rest, tail, n, (k - 1) as nat);
        if tail.len() == 0 {
            assert(all =~= whole);
            assert(pieces(all, n) + Seq::<Seq<A>>::empty() =~= pieces(all, n));
        } else {
            assert(all.take(n as int) =~= whole.take(n as int));
            assert(all.skip(n as int) =~= rest + tail);
            if whole.len() == n {
                assert(rest =~= Seq::empty());
                assert(whole.take(n as int) =~= whole);
                assert(pieces(whole, n) =~= seq![whole]);
                assert(pieces(rest, n) =~= Seq::empty());
            }
            assert(pieces(all, n) =~= pieces(whole, n) + seq![tail]);
        }
    }
}

/// The statements in `lines`, without empty lines, in batches.
pub fn batches(lines: Vec<String>) -> (r: Vec<Vec<String>>)
    ensures
        batch_views(r@) == pieces(
            filled_lines(text::views(lines@)),
            STATEMENTS_PER_BATCH as nat,
        ),
{
    let ghost all = text::views(lines@);
    let ghost n = STATEMENTS_PER_BATCH as nat;
    let ghost mut closed: Seq<Seq<char>> = Seq::empty();
    let mut out: Vec<Vec<String>> = Vec::new();
    let mut batch: Vec<String> = Vec::new();
    let mut i: usize = 0;
    assert(all.take(0) =~= Seq::empty());
    proof {
        reveal(Seq::filter);
        assert(filled_lines(all.take(0)) =~= closed + text::views(batch@));
        assert(batch_views(out@) =~= pieces(closed, n));
    }
    while i < lines.len()
        invariant
            i <= lines@.len(),
            n == STATEMENTS_PER_BATCH,
            all == text::views(lines@),
            filled_lines(all.take(i as int)) == closed + text::views(batch@),
            closed.len() == out@.len() * n,
            batch_views(out@) == pieces(closed, n),
            batch@.len() < n,
        decreases lines@.len() - i,
    {
        let line = &lines[i];
        proof {
            assert(all.take(i + 1) =~= all.take(i as int).push(line@));
            lemma_filled_push(all.take(i as int), line@);
        }
        if text::chars_of(line.as_str()).len() > 0 {
            let ghost before = batch@;
            batch.push(line.clone());
            assert(text::views(batch@) =~= text::views(before).push(line@));
            assert(closed + text::views(batch@) =~= (closed + text::views(before)).push(line@));
            if batch.len() >= STATEMENTS_PER_BATCH {
                let ghost done = text::views(batch@);
                let ghost earlier = out@;
                out.push(batch);
                batch = Vec::new();
                proof {
                    lemma_pieces_extend(closed, done, n, earlier.len());
                    assert(batch_views(out@) =~= batch_views(earlier).push(done));
                    assert(batch_views(earlier) + seq![done] =~= batch_views(earlier).push(done));
                    assert(out@.len() * n == earlier.len() * n + n) by (nonlinear_arith)
                        requires
                            out@.len() == earlier.len() + 1,
                    ;
                    closed = closed + done;
                    assert(closed + text::views(batch@) =~= closed);
                }
            }
        }
        i += 1;
    }
    assert(all.take(i as int) =~= all);
    let ghost last = text::views(batch@);
    let ghost earlier = out@;
    proof {
        lemma_pieces_extend(closed, last, n, earlier.len());
    }
    if batch.len() > 0 {
        out.push(batch);
        assert(batch_views(out@) =~= batch_views(earlier) + seq![last]);
    } else {
        assert(batch_views(earlier) + Seq::<Seq<Seq<char>>>::empty() =~= batch_views(earlier));
    }
    out
}

} // verus!
