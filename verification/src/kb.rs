//! Where the knowledge base of a source lies.

use vstd::prelude::*;
use vstd::string::*;

use crate::text;

verus! {

/// How the place of a knowledge base is chosen.
#[derive(Debug, Clone, Copy, PartialEq, Eq, Structural)]
pub enum KbMode {
    /// In the source itself.
    CoLocated,
    /// Under the user's data directory, by the source's path.
    Global,
    /// Where the user says; several sources can share it.
    Hybrid,
}

/// The name of a mode.
pub open spec fn mode_name(m: KbMode) -> Seq<char> {
    match m {
        KbMode::CoLocated => "co-located"@,
        KbMode::Global => "global"@,
        KbMode::Hybrid => "hybrid"@,
    }
}

/// The mode that a name names.
pub open spec fn mode_named(s: Seq<char>) -> Option<KbMode> {
    if s == "co-located"@ || s == "colocated"@ {
        Some(KbMode::CoLocated)
    } else if s == "global"@ {
        Some(KbMode::Global)
    } else if s == "hybrid"@ {
        Some(KbMode::Hybrid)
    } else {
        None
    }
}

/// The name of a mode names that mode.
pub proof fn mode_names_read_back(m: KbMode)
    ensures
        mode_named(mode_name(m)) == Some(m),
{
    reveal_strlit("co-located");
    reveal_strlit("colocated");
    reveal_strlit("global");
    reveal_strlit("hybrid");
    assert("co-located"@.len() == 10 && "colocated"@.len() == 9);
    assert("global"@.len() == 6 && "hybrid"@.len() == 6);
    assert("global"@[0] != "hybrid"@[0]);
}

impl KbMode {
    /// The mode that `s` names.
    pub fn parse(s: &str) -> (r: Result<Self, String>)
        ensures
            match r {
                Ok(m) => mode_named(s@) == Some(m),
                Err(e) => mode_named(s@) is None && e@ == "unknown KB mode `"@ + s@
                    + "`. Expected co-located, global, or hybrid."@,
            },
    {
        if text::same(s, "co-located") || text::same(s, "colocated") {
            Ok(KbMode::CoLocated)
        } else if text::same(s, "global") {
            Ok(KbMode::Global)
        } else if text::same(s, "hybrid") {
            Ok(KbMode::Hybrid)
        } else {
            Err(
                text::cat3(
                    "unknown KB mode `",
                    s,
                    "`. Expected co-located, global, or hybrid.",
                ),
            )
        }
    }

    /// The name of the mode.
    pub fn as_str(self) -> (r: &'static str)
        ensures
            r@ == mode_name(self),
    {
        match self {
            KbMode::CoLocated => "co-located",
            KbMode::Global => "global",
            KbMode::Hybrid => "hybrid",
        }
    }
}

/// The path of `name` in the directory `dir`, for a relative `name`.
pub open spec fn path_in(dir: Seq<char>, name: Seq<char>) -> Seq<char> {
    if dir.len() == 0 || dir.last() == '/' {
        dir + name
    } else {
        dir + "/"@ + name
    }
}

/// The path of `name` in the directory `dir`, for a relative `name`.
pub fn join_path(dir: &str, name: &str) -> (r: String)
    ensures
        r@ == path_in(dir@, name@),
{
    let cs = text::chars_of(dir);
    if cs.len() == 0 || cs[cs.len() - 1] == '/' {
        text::cat2(dir, name)
    } else {
        text::cat3(dir, "/", name)
    }
}

/// One character of a directory name that stands for a path.
pub open spec fn slug_char(c: char) -> char {
    if c == '/' || c == '\\' {
        '-'
    } else if c == ' ' {
        '_'
    } else {
        c
    }
}

/// A path as the name of one directory.
pub open spec fn slug(path: Seq<char>) -> Seq<char> {
    let rest = text::without_leading(path, '/');
    Seq::new(rest.len(), |i: int| slug_char(rest[i]))
}

/// A path as the name of one directory: without leading slashes, slashes and
/// backslashes as hyphens, spaces as underscores.
pub fn slugify(path: &str) -> (r: String)
    ensures
        r@ == slug(path@),
{
    let rest = text::strip_leading(path, '/');
    let cs = text::chars_of(rest.as_str());
    let ghost wanted = slug(path@);
    let mut out = String::new();
    let mut i: usize = 0;
    while i < cs.len()
        invariant
            i <= cs@.len(),
            cs@ == text::without_leading(path@, '/'),
            wanted == slug(path@),
            out@ == wanted.take(i as int),
        decreases cs@.len() - i,
    {
        let c = cs[i];
        let d = if c == '/' || c == '\\' {
            '-'
        } else if c == ' ' {
            '_'
        } else {
            c
        };
        out.push(d);
        assert(wanted.take(i + 1) =~= wanted.take(i as int).push(d));
        i += 1;
    }
    assert(wanted.take(i as int) =~= wanted);
    out
}

/// The name that stands for a path is the name of one directory: it holds no
/// separator and no space.
pub proof fn slug_is_one_name(path: Seq<char>, i: int)
    requires
        0 <= i < slug(path).len(),
    ensures
        slug(path)[i] != '/' && slug(path)[i] != '\\' && slug(path)[i] != ' ',
{
}

/// A mode and the directory of a knowledge base.
#[derive(Debug)]
pub struct KbSpec {
    pub mode: KbMode,
    pub kb_dir: String,
}

/// The directory of the knowledge base of `source`, or what is wrong with the
/// choice. `given` is the directory that the user named, `data_root` the
/// directory of all global knowledge bases, where there is one.
pub open spec fn kb_dir_for(
    source: Seq<char>,
    mode: KbMode,
    given: Option<Seq<char>>,
    data_root: Option<Seq<char>>,
) -> Result<Seq<char>, Seq<char>> {
    match (mode, given) {
        (KbMode::CoLocated, None) => Ok(path_in(source, ".helios-kb"@)),
        (KbMode::CoLocated, Some(_)) => Err(
            "--kb is not used with --mode co-located; the KB lives at <source>/.helios-kb"@,
        ),
        (KbMode::Global, None) => match data_root {
            Some(root) => Ok(path_in(root, slug(source))),
            None => Err("could not resolve XDG data dir"@),
        },
        (KbMode::Global, Some(p)) => Ok(p),
        (KbMode::Hybrid, Some(p)) => Ok(p),
        (KbMode::Hybrid, None) => Err(
            "--mode hybrid requires --kb <PATH> (the shared KB directory)"@,
        ),
    }
}

/// The text of an optional string.
pub open spec fn opt_view(s: Option<&str>) -> Option<Seq<char>> {
    match s {
        Some(t) => Some(t@),
        None => None,
    }
}

impl KbSpec {
    /// The knowledge base of `source`. `kb_override` is the directory that
    /// the user named, `data_root` the directory of all global knowledge bases.
    pub fn resolve(
        source: &str,
        mode: KbMode,
        kb_override: Option<&str>,
        data_root: Option<&str>,
    ) -> (r: Result<Self, String>)
        ensures
            match kb_dir_for(source@, mode, opt_view(kb_override), opt_view(data_root)) {
                Ok(dir) => r is Ok && r->Ok_0.mode == mode && r->Ok_0.kb_dir@ == dir,
                Err(e) => r is Err && r->Err_0@ == e,
            },
    {
        let kb_dir = match mode {
            KbMode::CoLocated => match kb_override {
                None => join_path(source, ".helios-kb"),
                Some(_) => return Err(
                    "--kb is not used with --mode co-located; the KB lives at <source>/.helios-kb".to_string(),
                ),
            },
            KbMode::Global => match kb_override {
                None => match data_root {
                    Some(root) => join_path(root, slugify(source).as_str()),
                    None => return Err("could not resolve XDG data dir".to_string()),
                },
                Some(p) => p.to_string(),
            },
            KbMode::Hybrid => match kb_override {
                Some(p) => p.to_string(),
                None => return Err(
                    "--mode hybrid requires --kb <PATH> (the shared KB directory)".to_string(),
                ),
            },
        };
        Ok(KbSpec { mode, kb_dir })
    }

    /// Whether choosing this place needs the directory of all global knowledge bases.
    pub fn needs_data_root(mode: KbMode, kb_override: Option<&str>) -> (r: bool)
        ensures
            r == (mode == KbMode::Global && kb_override is None),
    {
        mode == KbMode::Global && kb_override.is_none()
    }
}

/// What the ignore file of a repository holds once it has the line `entry`.
pub open spec fn with_ignored(body: Seq<char>, entry: Seq<char>) -> Seq<char> {
    if body.len() == 0 || body.last() == '\n' {
        body + entry + "\n"@
    } else {
        body + "\n"@ + entry + "\n"@
    }
}

/// Whether a line of an ignore file names a directory, with or without its
/// trailing slash.
pub open spec fn ignores(line: Seq<char>, entry: Seq<char>) -> bool {
    text::trimmed(line) == text::without_trailing(entry, '/') || text::trimmed(line) == entry
}

/// Whether an ignore file names a directory.
pub open spec fn is_ignored(body: Seq<char>, entry: Seq<char>) -> bool {
    exists|i: int|
        0 <= i < text::lines_of(body).len() && ignores(#[trigger] text::lines_of(body)[i], entry)
}

/// What to write to the ignore file with the text `body` so that it names
/// the directory `entry`; `None` where it does already.
pub fn gitignore_update(body: &str, entry: &str) -> (r: Option<String>)
    ensures
        match r {
            None => is_ignored(body@, entry@),
            Some(s) => !is_ignored(body@, entry@) && s@ == with_ignored(body@, entry@),
        },
{
    let lines = text::lines(body);
    let bare = text::strip_trailing(entry, '/');
    let ghost all = text::lines_of(body@);
    let mut i: usize = 0;
    while i < lines.len()
        invariant
            i <= lines@.len(),
            all == text::lines_of(body@),
            text::views(lines@) == all,
            bare@ == text::without_trailing(entry@, '/'),
            forall|j: int| 0 <= j < i ==> !ignores(#[trigger] all[j], entry@),
        decreases lines@.len() - i,
    {
        assert(all[i as int] == lines@[i as int]@);
        let line = text::trim(lines[i].as_str());
        if text::same(line.as_str(), bare.as_str()) || text::same(line.as_str(), entry) {
            return None;
        }
        i += 1;
    }
    let mut out = body.to_string();
    let cs = text::chars_of(body);
    if cs.len() > 0 && cs[cs.len() - 1] != '\n' {
        out.append("\n");
    }
    out.append(entry);
    out.append("\n");
    Some(out)
}

/// An ignore file that was updated names the directory, so that a second
/// update has nothing to do.
pub proof fn updated_file_ignores(body: Seq<char>, entry: Seq<char>)
    requires
        text::trimmed(entry) == entry,
        !entry.contains('\n'),
    ensures
        is_ignored(with_ignored(body, entry), entry),
{
    reveal_strlit("\n");
    let before = if body.len() == 0 || body.last() == '\n' {
        body
    } else {
        body + "\n"@
    };
    let line = entry.push('\n');
    assert(with_ignored(body, entry) =~= before + line);
    text::lines_follow_a_line_end(before, line);
    text::lemma_one_line(entry);
    let all = text::lines_of(before + line);
    assert(all == text::lines_of(before) + seq![entry]);
    assert(all[all.len() - 1] == entry);
    assert(ignores(all[all.len() - 1], entry));
}

/// An update of an ignore file keeps what was in it.
pub proof fn update_keeps_the_file(body: Seq<char>, entry: Seq<char>)
    ensures
        text::begins_with(with_ignored(body, entry), body),
{
    assert(with_ignored(body, entry).take(body.len() as int) =~= body);
}

} // verus!
