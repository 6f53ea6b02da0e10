//! `helios_git_summary`: the structural changes between two commits.

use vstd::prelude::*;
use vstd::string::*;

use crate::args;
use crate::cells;
use crate::cells::Cell;
use crate::decimal;
use crate::json;
use crate::json::Json;
use crate::json::JsonView;
use crate::text;

verus! {

/// What happened to a symbol between two commits.
#[derive(Debug, Clone, Copy, PartialEq, Eq, Structural)]
pub enum DiffChange {
    Added,
    Removed,
    Moved,
}

/// One change in a file. What is shown as it came is JSON.
pub struct DiffRow {
    pub change: DiffChange,
    pub kind: Json,
    pub qualified: Json,
    pub line_a: Json,
    pub line_b: Json,
}

/// What the diff of one file returned: its changes, or nothing where it failed.
pub struct FileDiff {
    pub path: String,
    pub rows: Option<Vec<DiffRow>>,
}

/// The commits and the paths that a call names.
pub struct GitPlan {
    pub commit_a: String,
    pub commit_b: String,
    /// Empty for the whole tree.
    pub paths: Vec<String>,
}

/// The query for the paths of the whole tree.
pub const ALL_PATHS_SQL: &'static str = "SELECT path FROM _hdb_code_files ORDER BY path";

/// The paths that a call names; empty for the whole tree.
pub open spec fn named_paths(args: JsonView) -> Seq<Seq<char>> {
    match json::items_field(args, "paths"@) {
        Some(items) => args::strings_among(items),
        None => Seq::empty(),
    }
}

/// The commits and the paths that a call names.
pub fn git_summary_plan(args: &Json) -> (r: Result<GitPlan, String>)
    ensures
        match (json::str_field(args@, "commit_a"@), json::str_field(args@, "commit_b"@)) {
            (None, _) => r is Err && r->Err_0@ == args::missing_string("commit_a"@),
            (Some(_), None) => r is Err && r->Err_0@ == args::missing_string("commit_b"@),
            (Some(a), Some(b)) => r is Ok && r->Ok_0.commit_a@ == a && r->Ok_0.commit_b@ == b
                && text::views(r->Ok_0.paths@) == named_paths(args@),
        },
{
    let a = match args::arg_str(args, "commit_a") {
        Ok(s) => s.to_string(),
        Err(e) => return Err(e),
    };
    let b = match args::arg_str(args, "commit_b") {
        Ok(s) => s.to_string(),
        Err(e) => return Err(e),
    };
    let paths = match args.items_of("paths") {
        Some(items) => args::strings_of(items),
        None => {
            let none: Vec<String> = Vec::new();
            assert(text::views(none@) =~= Seq::empty());
            none
        },
    };
    Ok(GitPlan { commit_a: a, commit_b: b, paths })
}

/// The paths to diff: those that the call names, or those of the whole tree
/// where it names none.
pub fn git_summary_targets(
    plan: &GitPlan,
    tree: &Result<Vec<Vec<Cell>>, String>,
) -> (r: Result<Vec<String>, String>)
    ensures
        plan.paths@.len() > 0 ==> r is Ok && text::views(r->Ok_0@) == text::views(plan.paths@),
        plan.paths@.len() == 0 ==> match *tree {
            Ok(rows) => r is Ok && text::views(r->Ok_0@) == Seq::new(
                rows@.len(),
                |i: int| cells::text_at(rows@[i]@, 0),
            ),
            Err(e) => r is Err && r->Err_0@ == "file list failed: "@ + e@,
        },
{
    let mut out: Vec<String> = Vec::new();
    let mut i: usize = 0;
    if plan.paths.len() > 0 {
        while i < plan.paths.len()
            invariant
                i <= plan.paths@.len(),
                out@.len() == i,
                forall|j: int| 0 <= j < i ==> (#[trigger] out@[j])@ == plan.paths@[j]@,
            decreases plan.paths@.len() - i,
        {
            out.push(plan.paths[i].clone());
            i += 1;
        }
        assert(text::views(out@) =~= text::views(plan.paths@));
        return Ok(out);
    }
    match tree {
        Ok(rows) => {
            while i < rows.len()
                invariant
                    i <= rows@.len(),
                    out@.len() == i,
                    forall|j: int|
                        0 <= j < i ==> (#[trigger] out@[j])@ == cells::text_at(rows@[j]@, 0),
                decreases rows@.len() - i,
            {
                out.push(cells::tuple_str(&rows[i], 0));
                i += 1;
            }
            assert(text::views(out@) =~= Seq::new(
                rows@.len(),
                |i: int| cells::text_at(rows@[i]@, 0),
            ));
            Ok(out)
        },
        Err(e) => Err(text::cat2("file list failed: ", e.as_str())),
    }
}

/// A change as it is listed.
pub open spec fn change_entry(path: Seq<char>, row: DiffRow) -> JsonView {
    JsonView::Obj(
        map![
            "path"@ => JsonView::Str(path),
            "kind"@ => row.kind@,
            "qualified"@ => row.qualified@,
            "line_a"@ => row.line_a@,
            "line_b"@ => row.line_b@,
        ],
    )
}

/// The changes of one kind in a file, in their order.
pub open spec fn changes_in(
    path: Seq<char>,
    rows: Seq<DiffRow>,
    change: DiffChange,
) -> Seq<JsonView>
    decreases rows.len(),
{
    if rows.len() == 0 {
        Seq::empty()
    } else {
        let before = changes_in(path, rows.drop_last(), change);
        if rows.last().change == change {
            before.push(change_entry(path, rows.last()))
        } else {
            before
        }
    }
}

/// The changes of one kind in the files whose diff did not fail, in their order.
pub open spec fn changes(diffs: Seq<FileDiff>, change: DiffChange) -> Seq<JsonView>
    decreases diffs.len(),
{
    if diffs.len() == 0 {
        Seq::empty()
    } else {
        changes(diffs.drop_last(), change) + match diffs.last().rows {
            Some(rows) => changes_in(diffs.last().path@, rows@, change),
            None => Seq::empty(),
        }
    }
}

/// The number of files whose diff failed.
pub open spec fn failures(diffs: Seq<FileDiff>) -> int
    decreases diffs.len(),
{
    if diffs.len() == 0 {
        0
    } else {
        failures(diffs.drop_last()) + if diffs.last().rows is None {
            1int
        } else {
            0
        }
    }
}

/// The answer with the changes between two commits.
pub open spec fn git_summary(
    args: JsonView,
    commit_a: Seq<char>,
    commit_b: Seq<char>,
    diffs: Seq<FileDiff>,
) -> JsonView {
    let added = changes(diffs, DiffChange::Added);
    let removed = changes(diffs, DiffChange::Removed);
    let moved = changes(diffs, DiffChange::Moved);
    args::with_card(
        JsonView::Obj(
            map![
                "commit_a"@ => JsonView::Str(commit_a),
                "commit_b"@ => JsonView::Str(commit_b),
                "scanned_paths"@ => JsonView::Int(diffs.len() as int),
                "skipped_paths"@ => JsonView::Int(failures(diffs)),
                "added"@ => JsonView::Arr(added),
                "removed"@ => JsonView::Arr(removed),
                "moved"@ => JsonView::Arr(moved),
                "signature_changed"@ => JsonView::Arr(Seq::empty()),
            ],
        ),
        args::card(
            "git_summary"@,
            "Scanned "@ + decimal::digits(diffs.len())
                + " paths and returned structural AST changes."@,
            args::budget_of(args, 1500),
            args::first_of(added + removed + moved, 12),
            Seq::empty(),
        ),
    )
}

/// Every change of a file is listed under exactly its kind.
pub proof fn every_change_is_listed_once(path: Seq<char>, rows: Seq<DiffRow>)
    ensures
        changes_in(path, rows, DiffChange::Added).len() + changes_in(
            path,
            rows,
            DiffChange::Removed,
        ).len() + changes_in(path, rows, DiffChange::Moved).len() == rows.len(),
    decreases rows.len(),
{
    if rows.len() > 0 {
        every_change_is_listed_once(path, rows.drop_last());
    }
}

/// The changes in some rows and in those that follow come one after the other.
pub proof fn changes_follow_their_rows(
    path: Seq<char>,
    a: Seq<DiffRow>,
    b: Seq<DiffRow>,
    change: DiffChange,
)
    ensures
        changes_in(path, a + b, change) == changes_in(path, a, change) + changes_in(
            path,
            b,
            change,
        ),
    decreases b.len(),
{
    if b.len() == 0 {
        assert(a + b =~= a);
        assert(changes_in(path, a, change) + changes_in(path, b, change) =~= changes_in(
            path,
            a,
            change,
        ));
    } else {
        assert((a + b).drop_last() =~= a + b.drop_last());
        assert((a + b).last() == b.last());
        changes_follow_their_rows(path, a, b.drop_last(), change);
        assert(changes_in(path, a + b, change) =~= changes_in(path, a, change) + changes_in(
            path,
            b,
            change,
        ));
    }
}

/// Where all rows of a file are of one kind, the list of that kind has an
/// entry for each of them, in their order, and the lists of the other kinds
/// are empty.
pub proof fn rows_of_one_kind_fill_one_list(
    path: Seq<char>,
    rows: Seq<DiffRow>,
    kind: DiffChange,
    other: DiffChange,
)
    requires
        forall|i: int| 0 <= i < rows.len() ==> (#[trigger] rows[i]).change == kind,
        other != kind,
    ensures
        changes_in(path, rows, other).len() == 0,
        changes_in(path, rows, kind).len() == rows.len(),
        forall|i: int|
            0 <= i < rows.len() ==> #[trigger] changes_in(path, rows, kind)[i] == change_entry(
                path,
                rows[i],
            ),
    decreases rows.len(),
{
    if rows.len() > 0 {
        let head = rows.drop_last();
        assert forall|i: int| 0 <= i < head.len() implies (#[trigger] head[i]).change == kind by {
            assert(head[i] == rows[i]);
        }
        rows_of_one_kind_fill_one_list(path, head, kind, other);
        assert(rows.last() == rows[rows.len() - 1]);
        assert forall|i: int| 0 <= i < rows.len() implies #[trigger] changes_in(path, rows, kind)[i]
            == change_entry(path, rows[i]) by {
            if i < head.len() {
                assert(changes_in(path, head, kind)[i] == change_entry(path, head[i]));
            }
        }
    }
}

/// An entry stands in the list of a kind exactly where it is that of a row of
/// that very kind.
pub proof fn changes_are_listed_under_their_kind(
    path: Seq<char>,
    rows: Seq<DiffRow>,
    kind: DiffChange,
    entry: JsonView,
)
    ensures
        changes_in(path, rows, kind).contains(entry) <==> exists|i: int|
            0 <= i < rows.len() && (#[trigger] rows[i]).change == kind && entry == change_entry(
                path,
                rows[i],
            ),
    decreases rows.len(),
{
    let list = changes_in(path, rows, kind);
    if rows.len() > 0 {
        let head = rows.drop_last();
        let before = changes_in(path, head, kind);
        changes_are_listed_under_their_kind(path, head, kind, entry);
        if list.contains(entry) {
            let k = list.index_of(entry);
            if k < before.len() {
                assert(before[k] == entry);
                let i = choose|i: int|
                    0 <= i < head.len() && (#[trigger] head[i]).change == kind && entry
                        == change_entry(path, head[i]);
                assert(rows[i] == head[i]);
            } else {
                assert(rows[rows.len() - 1] == rows.last());
            }
        }
        if exists|i: int|
            0 <= i < rows.len() && (#[trigger] rows[i]).change == kind && entry == change_entry(
                path,
                rows[i],
            ) {
            let i = choose|i: int|
                0 <= i < rows.len() && (#[trigger] rows[i]).change == kind && entry
                    == change_entry(path, rows[i]);
            if i < head.len() {
                assert(head[i] == rows[i]);
                let k = before.index_of(entry);
                assert(list[k] == entry);
            } else {
                assert(list[list.len() - 1] == entry);
            }
        }
    }
}

/// Whether a row of a file whose diff did not fail is of a kind, and an entry
/// shows it: with the path, and with what the row says of the symbol.
pub open spec fn shows_change(
    diff: FileDiff,
    row: int,
    kind: DiffChange,
    entry: JsonView,
) -> bool {
    match diff.rows {
        Some(rows) => {
            &&& 0 <= row < rows@.len()
            &&& rows@[row].change == kind
            &&& entry is Obj
            &&& entry->Obj_0.dom() == set!["path"@, "kind"@, "qualified"@, "line_a"@, "line_b"@]
            &&& json::str_field(entry, "path"@) == Some(diff.path@)
            &&& json::field(entry, "kind"@) == Some(rows@[row].kind@)
            &&& json::field(entry, "qualified"@) == Some(rows@[row].qualified@)
            &&& json::field(entry, "line_a"@) == Some(rows@[row].line_a@)
            &&& json::field(entry, "line_b"@) == Some(rows@[row].line_b@)
        },
        None => false,
    }
}

/// What an entry shows is what its fields hold.
proof fn lemma_entry(diff: FileDiff, row: int, kind: DiffChange, entry: JsonView)
    requires
        diff.rows is Some,
        0 <= row < diff.rows->0@.len(),
        diff.rows->0@[row].change == kind,
    ensures
        shows_change(diff, row, kind, entry) <==> entry == change_entry(
            diff.path@,
            diff.rows->0@[row],
        ),
{
    reveal_strlit("path");
    reveal_strlit("kind");
    reveal_strlit("qualified");
    reveal_strlit("line_a");
    reveal_strlit("line_b");
    assert("path"@[0] != "kind"@[0]);
    assert("line_a"@[5] != "line_b"@[5]);
    let made = change_entry(diff.path@, diff.rows->0@[row]);
    assert(made->Obj_0.dom() =~= set!["path"@, "kind"@, "qualified"@, "line_a"@, "line_b"@]);
    if shows_change(diff, row, kind, entry) {
        assert(entry->Obj_0 =~= made->Obj_0);
    }
}

/// The changes of one kind are the entries that show a row of that kind.
proof fn lemma_changes(diffs: Seq<FileDiff>, kind: DiffChange, entry: JsonView)
    ensures
        changes(diffs, kind).contains(entry) <==> exists|f: int, row: int|
            0 <= f < diffs.len() && #[trigger] shows_change(diffs[f], row, kind, entry),
    decreases diffs.len(),
{
    let list = changes(diffs, kind);
    if diffs.len() > 0 {
        let head = diffs.drop_last();
        let before = changes(head, kind);
        let diff = diffs.last();
        lemma_changes(head, kind, entry);
        if diff.rows is Some {
            changes_are_listed_under_their_kind(diff.path@, diff.rows->0@, kind, entry);
        }
        if list.contains(entry) {
            let k = list.index_of(entry);
            if k < before.len() {
                assert(before[k] == entry);
                let (f, row) = choose|f: int, row: int|
                    0 <= f < head.len() && #[trigger] shows_change(head[f], row, kind, entry);
                assert(shows_change(diffs[f], row, kind, entry));
            } else {
                let rows = diff.rows->0@;
                let here = changes_in(diff.path@, rows, kind);
                assert(here[k - before.len()] == entry);
                let i = choose|i: int|
                    0 <= i < rows.len() && (#[trigger] rows[i]).change == kind && entry
                        == change_entry(diff.path@, rows[i]);
                lemma_entry(diff, i, kind, entry);
                assert(shows_change(diffs[diffs.len() - 1], i, kind, entry));
            }
        }
        if exists|f: int, row: int|
            0 <= f < diffs.len() && #[trigger] shows_change(diffs[f], row, kind, entry) {
            let (f, row) = choose|f: int, row: int|
                0 <= f < diffs.len() && #[trigger] shows_change(diffs[f], row, kind, entry);
            if f < head.len() {
                assert(shows_change(head[f], row, kind, entry));
                let k = before.index_of(entry);
                assert(list[k] == entry);
            } else {
                lemma_entry(diff, row, kind, entry);
                let rows = diff.rows->0@;
                assert(rows[row].change == kind);
                let here = changes_in(diff.path@, rows, kind);
                let k = here.index_of(entry);
                assert(list[before.len() + k] == entry);
            }
        }
    }
}

/// The field of an answer that lists the changes of a kind.
pub open spec fn list_name(kind: DiffChange) -> Seq<char> {
    match kind {
        DiffChange::Added => "added"@,
        DiffChange::Removed => "removed"@,
        DiffChange::Moved => "moved"@,
    }
}

/// An answer lists under `added`, `removed` and `moved` exactly what shows a
/// change of that very kind in a file whose diff did not fail.
pub proof fn answers_list_changes_by_kind(
    args: JsonView,
    commit_a: Seq<char>,
    commit_b: Seq<char>,
    diffs: Seq<FileDiff>,
    kind: DiffChange,
    entry: JsonView,
)
    ensures
        ({
            let answer = git_summary(args, commit_a, commit_b, diffs);
            let list = json::items_field(answer, list_name(kind));
            &&& list is Some
            &&& list->0.contains(entry) <==> exists|f: int, row: int|
                0 <= f < diffs.len() && #[trigger] shows_change(diffs[f], row, kind, entry)
            &&& json::str_field(answer, "commit_a"@) == Some(commit_a)
            &&& json::str_field(answer, "commit_b"@) == Some(commit_b)
        }),
{
    reveal_strlit("commit_a");
    reveal_strlit("commit_b");
    reveal_strlit("scanned_paths");
    reveal_strlit("skipped_paths");
    reveal_strlit("added");
    reveal_strlit("removed");
    reveal_strlit("moved");
    reveal_strlit("signature_changed");
    reveal_strlit("schema");
    reveal_strlit("answer_card");
    assert("commit_a"@[7] != "commit_b"@[7]);
    assert("scanned_paths"@[1] != "skipped_paths"@[1]);
    assert("added"@[0] != "moved"@[0]);
    assert("commit_a"@.len() == 8 && "commit_b"@.len() == 8);
    assert("scanned_paths"@.len() == 13 && "skipped_paths"@.len() == 13);
    assert("added"@.len() == 5 && "moved"@.len() == 5 && "removed"@.len() == 7);
    assert("signature_changed"@.len() == 17);
    assert("schema"@.len() == 6 && "answer_card"@.len() == 11);
    lemma_changes(diffs, kind, entry);
}

/// A change as it is listed.
fn list_change(path: &str, row: &DiffRow) -> (r: Json)
    ensures
        r@ == change_entry(path@, *row),
{
    Json::object().with("path", Json::text(path)).with("kind", row.kind.copy()).with(
        "qualified",
        row.qualified.copy(),
    ).with("line_a", row.line_a.copy()).with("line_b", row.line_b.copy())
}

/// The changes of one kind in the files whose diff did not fail.
fn collect(diffs: &Vec<FileDiff>, change: DiffChange) -> (r: Vec<Json>)
    ensures
        json::json_views(r@) == changes(diffs@, change),
{
    let mut out: Vec<Json> = Vec::new();
    let mut i: usize = 0;
    assert(diffs@.take(0) =~= Seq::empty());
    assert(json::json_views(out@) =~= Seq::empty());
    while i < diffs.len()
        invariant
            i <= diffs@.len(),
            json::json_views(out@) == changes(diffs@.take(i as int), change),
        decreases diffs@.len() - i,
    {
        let diff = &diffs[i];
        let ghost earlier = changes(diffs@.take(i as int), change);
        assert(diffs@.take(i + 1).drop_last() =~= diffs@.take(i as int));
        match &diff.rows {
            Some(rows) => {
                let mut k: usize = 0;
                assert(rows@.take(0) =~= Seq::empty());
                assert(json::json_views(out@) =~= earlier + changes_in(
                    diff.path@,
                    rows@.take(0),
                    change,
                ));
                while k < rows.len()
                    invariant
                        k <= rows@.len(),
                        json::json_views(out@) == earlier + changes_in(
                            diff.path@,
                            rows@.take(k as int),
                            change,
                        ),
                    decreases rows@.len() - k,
                {
                    let row = &rows[k];
                    let ghost before = out@;
                    let ghost inside = changes_in(diff.path@, rows@.take(k as int), change);
                    assert(rows@.take(k + 1).drop_last() =~= rows@.take(k as int));
                    if row.change == change {
                        out.push(list_change(diff.path.as_str(), row));
                        assert(json::json_views(out@) =~= json::json_views(before).push(
                            change_entry(diff.path@, *row),
                        ));
                        assert(earlier + inside.push(change_entry(diff.path@, *row)) =~= (earlier
                            + inside).push(change_entry(diff.path@, *row)));
                    }
                    k += 1;
                }
                assert(rows@.take(k as int) =~= rows@);
            },
            None => {
                assert(earlier + Seq::<JsonView>::empty() =~= earlier);
            },
        }
        i += 1;
    }
    assert(diffs@.take(i as int) =~= diffs@);
    out
}

/// The number of files whose diff failed.
fn count_failures(diffs: &Vec<FileDiff>) -> (r: usize)
    ensures
        r == failures(diffs@),
{
    let mut n: usize = 0;
    let mut i: usize = 0;
    assert(diffs@.take(0) =~= Seq::empty());
    while i < diffs.len()
        invariant
            i <= diffs@.len(),
            n <= i,
            n == failures(diffs@.take(i as int)),
        decreases diffs@.len() - i,
    {
        assert(diffs@.take(i + 1).drop_last() =~= diffs@.take(i as int));
        if diffs[i].rows.is_none() {
            n += 1;
        }
        i += 1;
    }
    assert(diffs@.take(i as int) =~= diffs@);
    n
}

/// Appends copies of `items` to `out`, up to `most` in all.
fn append_up_to(out: &mut Vec<Json>, items: &Vec<Json>, most: usize)
    requires
        old(out)@.len() <= most,
    ensures
        final(out)@.len() <= most,
        json::json_views(final(out)@) == args::first_of(
            json::json_views(old(out)@) + json::json_views(items@),
            most as int,
        ),
{
    let ghost start = json::json_views(out@);
    let ghost all = start + json::json_views(items@);
    let mut i: usize = 0;
    assert(all.take(start.len() as int) =~= start);
    while i < items.len() && out.len() < most
        invariant
            i <= items@.len(),
            out@.len() <= most,
            all == start + json::json_views(items@),
            out@.len() == start.len() + i,
            json::json_views(out@) == all.take(start.len() + i),
        decreases items@.len() - i,
    {
        let ghost before = out@;
        out.push(items[i].copy());
        assert(json::json_views(out@) =~= json::json_views(before).push(items@[i as int]@));
        assert(all.take(start.len() + i + 1) =~= all.take(start.len() + i).push(
            items@[i as int]@,
        ));
        i += 1;
    }
    assert(all.take(all.len() as int) =~= all);
}

/// The answer of `helios_git_summary`, from the diffs of the target files.
pub fn git_summary_handler(args: &Json, plan: &GitPlan, diffs: &Vec<FileDiff>) -> (r: Json)
    ensures
        r@ == git_summary(args@, plan.commit_a@, plan.commit_b@, diffs@),
{
    let added = collect(diffs, DiffChange::Added);
    let removed = collect(diffs, DiffChange::Removed);
    let moved = collect(diffs, DiffChange::Moved);
    let ghost a = json::json_views(added@);
    let ghost b = json::json_views(removed@);
    let ghost c = json::json_views(moved@);
    let mut evidence: Vec<Json> = Vec::new();
    assert(json::json_views(evidence@) + a =~= a);
    append_up_to(&mut evidence, &added, 12);
    append_up_to(&mut evidence, &removed, 12);
    append_up_to(&mut evidence, &moved, 12);
    assert(args::first_of(args::first_of(a, 12) + b, 12) =~= args::first_of(a + b, 12));
    assert(args::first_of(args::first_of(a + b, 12) + c, 12) =~= args::first_of(a + b + c, 12));
    let summary = text::cat3(
        "Scanned ",
        decimal::unsigned_text(diffs.len() as u64).as_str(),
        " paths and returned structural AST changes.",
    );
    let none: Vec<Json> = Vec::new();
    let omitted: Vec<Json> = Vec::new();
    assert(json::json_views(none@) =~= Seq::empty());
    let payload = Json::object().with("commit_a", Json::text(plan.commit_a.as_str())).with(
        "commit_b",
        Json::text(plan.commit_b.as_str()),
    ).with("scanned_paths", Json::number(diffs.len())).with(
        "skipped_paths",
        Json::number(count_failures(diffs)),
    ).with("added", Json::array(added)).with("removed", Json::array(removed)).with(
        "moved",
        Json::array(moved),
    ).with("signature_changed", Json::array(none));
    args::attach_answer_card(
        payload,
        "git_summary",
        summary.as_str(),
        evidence,
        args,
        1500,
        omitted,
    )
}

/// The skipped paths of an answer are the files whose diff failed: a failed
/// diff adds one to them and no change, any other adds none.
pub proof fn failed_diffs_are_skipped(diffs: Seq<FileDiff>, diff: FileDiff, kind: DiffChange)
    ensures
        failures(Seq::<FileDiff>::empty()) == 0,
        diff.rows is None ==> failures(diffs.push(diff)) == failures(diffs) + 1 && changes(
            diffs.push(diff),
            kind,
        ) == changes(diffs, kind),
        diff.rows is Some ==> failures(diffs.push(diff)) == failures(diffs),
{
    assert(diffs.push(diff).drop_last() =~= diffs);
    assert(diffs.push(diff).last() == diff);
    assert(changes(diffs, kind) + Seq::<JsonView>::empty() =~= changes(diffs, kind));
}

} // verus!
