//! Manifest resolution planning.
//!
//! A manifest is a text file naming one path per line: a script file, a
//! directory, or a directory with its own nested manifest. The planner
//! turns the manifest's text into resolved paths, and each path together
//! with what the file system says of it into one action: report a missing
//! path and go on, recurse into a directory's own manifest (which fully
//! overrides scanning that directory), load every script of a plain
//! directory, or load the named script. The shell reads files and
//! directories and carries the actions out; every decision is made here.

use vstd::prelude::*;
use crate::text::str_eq;

verus! {

/// The manifest file's name inside a directory.
pub open spec fn manifest_file_name() -> Seq<char> {
    ".moonunit"@
}

/// Line whitespace: blanks, tabs and carriage returns around an entry are
/// ignored.
pub open spec fn is_space(c: char) -> bool {
    c == ' ' || c == '\t' || c == '\r'
}

/// The first index of `c` in `s`, or -1.
pub open spec fn find_char(s: Seq<char>, c: char) -> int
    decreases s.len(),
{
    if s.len() == 0 {
        -1
    } else if s[0] == c {
        0int
    } else {
        let r = find_char(s.drop_first(), c);
        if r < 0 {
            -1
        } else {
            r + 1
        }
    }
}

/// What `find_char` finds: the first occurrence, if any.
pub proof fn lemma_find_char(s: Seq<char>, c: char)
    ensures
        -1 <= find_char(s, c) < s.len(),
        find_char(s, c) >= 0 ==> s[find_char(s, c)] == c,
        forall|i: int| 0 <= i < find_char(s, c) ==> s[i] != c,
        find_char(s, c) == -1 ==> (forall|i: int| 0 <= i < s.len() ==> s[i] != c),
    decreases s.len(),
{
    if s.len() > 0 && s[0] != c {
        let d = s.drop_first();
        lemma_find_char(d, c);
        assert forall|i: int| 0 <= i < find_char(s, c) implies s[i] != c by {
            if i > 0 {
                assert(d[i - 1] == s[i]);
            }
        }
        if find_char(s, c) == -1 {
            assert forall|i: int| 0 <= i < s.len() implies s[i] != c by {
                if i > 0 {
                    assert(d[i - 1] == s[i]);
                }
            }
        }
    }
}

/// A sequence with its leading whitespace dropped.
pub open spec fn trim_front(s: Seq<char>) -> Seq<char>
    decreases s.len(),
{
    if s.len() > 0 && is_space(s[0]) {
        trim_front(s.drop_first())
    } else {
        s
    }
}

/// A sequence with its trailing whitespace dropped.
pub open spec fn trim_back(s: Seq<char>) -> Seq<char>
    decreases s.len(),
{
    if s.len() > 0 && is_space(s.last()) {
        trim_back(s.drop_last())
    } else {
        s
    }
}

/// A sequence with whitespace dropped from both ends.
pub open spec fn trim_text(s: Seq<char>) -> Seq<char> {
    trim_back(trim_front(s))
}

/// The manifest's entries: its lines, trimmed, the blank ones dropped, in
/// order.
pub open spec fn entries_text(s: Seq<char>) -> Seq<Seq<char>>
    decreases s.len(),
    via entries_text_decreases
{
    let f = find_char(s, '\n');
    if f < 0 {
        let l = trim_text(s);
        if l.len() == 0 {
            Seq::empty()
        } else {
            seq![l]
        }
    } else {
        let l = trim_text(s.subrange(0, f));
        let rest = entries_text(s.skip(f + 1));
        if l.len() == 0 {
            rest
        } else {
            seq![l] + rest
        }
    }
}

#[via_fn]
proof fn entries_text_decreases(s: Seq<char>) {
    lemma_find_char(s, '\n');
}

/// Tests line whitespace.
fn is_space_char(c: char) -> (r: bool)
    ensures
        r == is_space(c),
{
    c == ' ' || c == '\t' || c == '\r'
}

/// Trims whitespace from both ends of a string slice.
#[verifier::loop_isolation(false)]
pub fn trim_slice(s: &str) -> (r: &str)
    ensures
        r@ == trim_text(s@),
{
    let len = s.unicode_len();
    proof {
        assert(s@.skip(0) =~= s@);
    }
    let mut a: usize = 0;
    while a < len && is_space_char(s.get_char(a))
        invariant
            a <= len,
            len == s@.len(),
            trim_front(s@) == trim_front(s@.skip(a as int)),
        decreases len - a,
    {
        proof {
            assert(s@.skip(a as int)[0] == s@[a as int]);
            assert(s@.skip(a as int).drop_first() =~= s@.skip(a as int + 1));
        }
        a = a + 1;
    }
    proof {
        if a < len {
            assert(s@.skip(a as int)[0] == s@[a as int]);
        }
        assert(trim_front(s@) == s@.skip(a as int));
    }
    let mut b: usize = len;
    while b > a && is_space_char(s.get_char(b - 1))
        invariant
            a <= b <= len,
            len == s@.len(),
            trim_front(s@) == s@.skip(a as int),
            trim_back(s@.subrange(a as int, len as int)) == trim_back(
                s@.subrange(a as int, b as int),
            ),
        decreases b,
    {
        proof {
            let cur = s@.subrange(a as int, b as int);
            assert(cur.last() == s@[b - 1]);
            assert(cur.drop_last() =~= s@.subrange(a as int, b as int - 1));
        }
        b = b - 1;
    }
    proof {
        let cur = s@.subrange(a as int, b as int);
        if b > a {
            assert(cur.last() == s@[b - 1]);
        }
        assert(trim_back(cur) == cur);
        assert(s@.skip(a as int) =~= s@.subrange(a as int, len as int));
        assert(trim_text(s@) == cur);
    }
    s.substring_char(a, b)
}

/// Parses a manifest's text into its entries: one trimmed path per
/// non-blank line, in order.
#[verifier::loop_isolation(false)]
pub fn parse_manifest(text: &str) -> (r: Vec<String>)
    ensures
        r.deep_view() == entries_text(text@),
{
    let len = text.unicode_len();
    let mut out: Vec<String> = Vec::new();
    let mut start: usize = 0;
    proof {
        assert(text@.skip(0) =~= text@);
        assert(out.deep_view() =~= Seq::<Seq<char>>::empty());
    }
    loop
        invariant
            start <= len,
            len == text@.len(),
            entries_text(text@) == out.deep_view() + entries_text(text@.skip(start as int)),
        decreases len - start,
    {
        let ghost rest = text@.skip(start as int);
        proof {
            lemma_find_char(rest, '\n');
        }
        let mut end: usize = start;
        while end < len && text.get_char(end) != '\n'
            invariant
                start <= end <= len,
                forall|i: int| 0 <= i < end - start ==> rest[i] != '\n',
            decreases len - end,
        {
            proof {
                assert(rest[end - start] == text@[end as int]);
            }
            end = end + 1;
        }
        let ghost f = find_char(rest, '\n');
        proof {
            if end < len {
                assert(rest[end - start] == text@[end as int]);
                assert(rest[end - start] == '\n');
                if f < end - start {
                    assert(rest[f] != '\n');
                }
                if f > end - start {
                    assert(rest[end - start] != '\n');
                }
                assert(f == end - start);
            } else {
                if f >= 0 {
                    assert(rest[f] != '\n');
                }
                assert(f == -1);
            }
        }
        let line = text.substring_char(start, end);
        proof {
            assert(line@ =~= rest.subrange(0, end - start));
        }
        let trimmed = trim_slice(line);
        let ghost before = out.deep_view();
        if trimmed.unicode_len() > 0 {
            out.push(trimmed.to_owned());
            proof {
                assert(out.deep_view() =~= before + seq![trimmed@]);
            }
        }
        if end == len {
            proof {
                assert(rest.subrange(0, end - start) =~= rest);
                assert(entries_text(text@) =~= out.deep_view());
            }
            return out;
        }
        proof {
            assert(text@.skip(end as int + 1) =~= rest.skip(f + 1));
            assert(entries_text(text@) =~= out.deep_view() + entries_text(
                text@.skip(end as int + 1),
            ));
        }
        start = end + 1;
    }
}

/// Joins a directory path and an entry name with the separator; a
/// directory already ending in the separator takes the name directly.
pub open spec fn dir_join(dir: Seq<char>, name: Seq<char>) -> Seq<char> {
    if dir.len() == 0 {
        name
    } else if dir.last() == '/' {
        dir + name
    } else {
        dir + seq!['/'] + name
    }
}

/// The directory holding the named file: the path up to its last
/// separator.
pub open spec fn parent_text(s: Seq<char>) -> Seq<char> {
    let f = find_last(s, '/');
    if f < 0 {
        Seq::empty()
    } else if f == 0 {
        seq!['/']
    } else {
        s.subrange(0, f)
    }
}

/// The last index of `c` in `s`, or -1.
pub open spec fn find_last(s: Seq<char>, c: char) -> int
    decreases s.len(),
{
    if s.len() == 0 {
        -1
    } else if s.last() == c {
        s.len() - 1
    } else {
        find_last(s.drop_last(), c)
    }
}

/// A path is absolute when it starts with the separator.
pub open spec fn is_absolute(s: Seq<char>) -> bool {
    s.len() > 0 && s[0] == '/'
}

/// A manifest entry resolved against the manifest's own directory:
/// absolute entries stand as they are, relative ones are joined onto the
/// directory.
pub open spec fn resolve_text(dir: Seq<char>, entry: Seq<char>) -> Seq<char> {
    if is_absolute(entry) {
        entry
    } else {
        dir_join(dir, entry)
    }
}

/// Joins a directory path and an entry name.
pub fn join_dir(dir: &str, name: &str) -> (r: String)
    ensures
        r@ == dir_join(dir@, name@),
{
    let dlen = dir.unicode_len();
    if dlen == 0 {
        name.to_owned()
    } else if dir.get_char(dlen - 1) == '/' {
        let mut s = dir.to_owned();
        s.append(name);
        proof {
            assert(dir@.last() == dir@[dlen - 1]);
        }
        s
    } else {
        let mut s = dir.to_owned();
        s.append("/");
        s.append(name);
        proof {
            reveal_strlit("/");
            assert("/"@ =~= seq!['/']);
            assert(s@ =~= dir@ + seq!['/'] + name@);
        }
        s
    }
}

/// The directory of a file path.
#[verifier::loop_isolation(false)]
pub fn parent_dir(path: &str) -> (r: String)
    ensures
        r@ == parent_text(path@),
{
    proof {
        lemma_find_last(path@, '/');
    }
    let len = path.unicode_len();
    let mut b: usize = len;
    while b > 0 && path.get_char(b - 1) != '/'
        invariant
            b <= len,
            len == path@.len(),
            forall|i: int| b <= i < len ==> path@[i] != '/',
        decreases b,
    {
        b = b - 1;
    }
    let ghost f = find_last(path@, '/');
    if b == 0 {
        proof {
            if f >= 0 {
                assert(path@[f] != '/');
            }
        }
        String::new()
    } else if b == 1 {
        proof {
            assert(path@[0] == '/');
            if f > 0 {
                assert(path@[f] != '/');
            }
            assert(f == 0);
            reveal_strlit("/");
            assert("/"@ =~= seq!['/']);
        }
        "/".to_owned()
    } else {
        proof {
            assert(path@[b - 1] == '/');
            if f > b - 1 {
                assert(path@[f] != '/');
            }
            if f < b - 1 {
                assert(path@[b - 1] != '/');
            }
            assert(f == b - 1);
        }
        let r = path.substring_char(0, b - 1).to_owned();
        proof {
            assert(r@ =~= parent_text(path@));
        }
        r
    }
}

/// Where `find_last` points: the last occurrence, if any.
pub proof fn lemma_find_last(s: Seq<char>, c: char)
    ensures
        -1 <= find_last(s, c) < s.len(),
        find_last(s, c) >= 0 ==> s[find_last(s, c)] == c,
        forall|i: int| find_last(s, c) < i < s.len() ==> s[i] != c,
    decreases s.len(),
{
    if s.len() > 0 && s.last() != c {
        let d = s.drop_last();
        lemma_find_last(d, c);
        assert forall|i: int| find_last(s, c) < i < s.len() implies s[i] != c by {
            if i < s.len() - 1 {
                assert(d[i] == s[i]);
            }
        }
    }
}

/// Resolves a manifest entry against the manifest's directory.
pub fn resolve_entry(dir: &str, entry: &str) -> (r: String)
    ensures
        r@ == resolve_text(dir@, entry@),
{
    if entry.unicode_len() > 0 && entry.get_char(0) == '/' {
        entry.to_owned()
    } else {
        join_dir(dir, entry)
    }
}


/// Whether a file name carries the script extension.
pub open spec fn has_lua_ext(name: Seq<char>) -> bool {
    name.len() > 4 && name.subrange(name.len() - 4, name.len() as int) == ".lua"@
}

/// Tests a file name for the script extension.
pub fn has_lua_extension(name: &str) -> (r: bool)
    ensures
        r == has_lua_ext(name@),
{
    let len = name.unicode_len();
    if len <= 4 {
        return false;
    }
    let tail = name.substring_char(len - 4, len);
    str_eq(tail, ".lua")
}

/// What the file system says of one resolved path.
pub enum PathProbe {
    /// Nothing exists at the path.
    Missing,
    /// A directory: whether it holds its own manifest file, and the names
    /// of its immediate entries, in the order the shell enumerated them.
    Dir { has_manifest: bool, entries: Vec<String> },
    /// An existing non-directory: taken as a script file.
    File,
}

/// The mathematical form of a probe.
pub enum ProbeView {
    Missing,
    Dir { has_manifest: bool, entries: Seq<Seq<char>> },
    File,
}

impl View for PathProbe {
    type V = ProbeView;

    open spec fn view(&self) -> ProbeView {
        match *self {
            PathProbe::Missing => ProbeView::Missing,
            PathProbe::Dir { has_manifest, ref entries } => ProbeView::Dir {
                has_manifest,
                entries: entries.deep_view(),
            },
            PathProbe::File => ProbeView::File,
        }
    }
}

/// What resolving one manifest line asks the shell to do.
pub enum ManifestAction {
    /// Report the diagnostic and go on with the next line.
    Diagnostic(String),
    /// Resolve the named nested manifest instead of scanning its
    /// directory.
    Recurse(String),
    /// Load each of the named script files, in order.
    LoadScripts(Vec<String>),
    /// Load the one named script file.
    LoadScript(String),
}

/// The mathematical form of an action.
pub enum ActionView {
    Diagnostic(Seq<char>),
    Recurse(Seq<char>),
    LoadScripts(Seq<Seq<char>>),
    LoadScript(Seq<char>),
}

impl View for ManifestAction {
    type V = ActionView;

    open spec fn view(&self) -> ActionView {
        match *self {
            ManifestAction::Diagnostic(ref m) => ActionView::Diagnostic(m@),
            ManifestAction::Recurse(ref p) => ActionView::Recurse(p@),
            ManifestAction::LoadScripts(ref ps) => ActionView::LoadScripts(ps.deep_view()),
            ManifestAction::LoadScript(ref p) => ActionView::LoadScript(p@),
        }
    }
}

/// The scripts of a plain directory: its entries with the script
/// extension, joined onto the directory, in enumeration order, from entry
/// `i` on.
pub open spec fn scripts_of(dir: Seq<char>, entries: Seq<Seq<char>>, i: int) -> Seq<Seq<char>>
    decreases entries.len() - i,
{
    if i < 0 || i >= entries.len() {
        Seq::empty()
    } else if has_lua_ext(entries[i]) {
        seq![dir_join(dir, entries[i])] + scripts_of(dir, entries, i + 1)
    } else {
        scripts_of(dir, entries, i + 1)
    }
}

/// What one resolved manifest line comes to: a missing path is reported
/// and resolution goes on; a directory with its own manifest is resolved
/// through that manifest alone; a plain directory contributes its script
/// files; anything else is loaded as a script.
pub open spec fn classify_spec(path: Seq<char>, probe: ProbeView) -> ActionView {
    match probe {
        ProbeView::Missing => ActionView::Diagnostic(path + " does not exist."@),
        ProbeView::Dir { has_manifest, entries } => if has_manifest {
            ActionView::Recurse(dir_join(path, manifest_file_name()))
        } else {
            ActionView::LoadScripts(scripts_of(path, entries, 0))
        },
        ProbeView::File => ActionView::LoadScript(path),
    }
}

/// Decides what to do with one resolved manifest line.
#[verifier::loop_isolation(false)]
pub fn classify(path: &str, probe: &PathProbe) -> (r: ManifestAction)
    ensures
        r@ == classify_spec(path@, probe@),
{
    match probe {
        PathProbe::Missing => {
            let mut m = path.to_owned();
            m.append(" does not exist.");
            proof {
                assert(m@ =~= path@ + " does not exist."@);
            }
            ManifestAction::Diagnostic(m)
        },
        PathProbe::Dir { has_manifest, entries } => {
            if *has_manifest {
                ManifestAction::Recurse(join_dir(path, ".moonunit"))
            } else {
                let ghost ev = entries.deep_view();
                let mut scripts: Vec<String> = Vec::new();
                let mut i: usize = 0;
                proof {
                    assert(scripts.deep_view() =~= Seq::<Seq<char>>::empty());
                }
                while i < entries.len()
                    invariant
                        i <= ev.len(),
                        ev == entries.deep_view(),
                        ev.len() == entries@.len(),
                        scripts_of(path@, ev, 0) == scripts.deep_view() + scripts_of(
                            path@,
                            ev,
                            i as int,
                        ),
                    decreases entries.len() - i,
                {
                    proof {
                        assert(ev[i as int] == entries@[i as int]@);
                    }
                    let ghost before = scripts.deep_view();
                    if has_lua_extension(entries[i].as_str()) {
                        scripts.push(join_dir(path, entries[i].as_str()));
                        proof {
                            assert(scripts.deep_view() =~= before + seq![
                                dir_join(path@, ev[i as int]),
                            ]);
                        }
                    }
                    proof {
                        assert(scripts_of(path@, ev, 0) =~= scripts.deep_view() + scripts_of(
                            path@,
                            ev,
                            i as int + 1,
                        ));
                    }
                    i = i + 1;
                }
                proof {
                    assert(scripts.deep_view() =~= scripts_of(path@, ev, 0));
                }
                ManifestAction::LoadScripts(scripts)
            }
        },
        PathProbe::File => ManifestAction::LoadScript(path.to_owned()),
    }
}

/// The actions of a whole manifest, pointwise over its resolved lines and
/// their probes.
pub open spec fn plan_spec(paths: Seq<Seq<char>>, probes: Seq<ProbeView>) -> Seq<ActionView> {
    Seq::new(paths.len(), |i: int| classify_spec(paths[i], probes[i]))
}

/// Decides what to do with every resolved line of a manifest, one action
/// per line, in order.
#[verifier::loop_isolation(false)]
pub fn plan_actions(paths: &Vec<String>, probes: &Vec<PathProbe>) -> (r: Vec<ManifestAction>)
    requires
        paths@.len() == probes@.len(),
    ensures
        r@.len() == paths@.len(),
        forall|i: int| 0 <= i < r@.len()
            ==> (#[trigger] r@[i])@ == classify_spec(paths@[i]@, probes@[i]@),
{
    let mut out: Vec<ManifestAction> = Vec::new();
    let mut i: usize = 0;
    while i < paths.len()
        invariant
            i <= paths@.len(),
            out@.len() == i,
            forall|l: int| 0 <= l < i
                ==> (#[trigger] out@[l])@ == classify_spec(paths@[l]@, probes@[l]@),
        decreases paths.len() - i,
    {
        let a = classify(paths[i].as_str(), &probes[i]);
        out.push(a);
        i = i + 1;
    }
    out
}

/// A manifest line naming a directory with its own manifest is resolved
/// through that nested manifest alone, whatever script files the directory
/// also holds.
pub proof fn lemma_nested_manifest_precedence(path: Seq<char>, entries: Seq<Seq<char>>)
    ensures
        classify_spec(path, ProbeView::Dir { has_manifest: true, entries })
            == ActionView::Recurse(dir_join(path, manifest_file_name())),
{
}

/// A missing manifest-referenced path contributes exactly one diagnostic,
/// and the resolution of every other line stands untouched.
pub proof fn lemma_missing_path_is_isolated(
    paths: Seq<Seq<char>>,
    probes: Seq<ProbeView>,
    i: int,
)
    requires
        paths.len() == probes.len(),
        0 <= i < paths.len(),
        probes[i] is Missing,
    ensures
        plan_spec(paths, probes).len() == paths.len(),
        plan_spec(paths, probes)[i] == ActionView::Diagnostic(paths[i] + " does not exist."@),
        forall|j: int| 0 <= j < paths.len() && j != i
            ==> plan_spec(paths, probes)[j] == classify_spec(#[trigger] paths[j], probes[j]),
{
}

} // verus!
