//! The Helix home: directory layout, preferences, plots and their history.

use crate::charter::{charter_toml, flatten_newlines};
use crate::order::{first_lt, lemma_sort_view, sort_by, sort_in_order};
use crate::paths::{join_path, path_join};
use crate::text::{
    byte_len, bytes_capped, chars_of, contains_chars, has_infix, has_prefix, has_suffix,
    is_ws, lemma_byte_len_concat, owned, push_str, skip_char_backward, skip_char_forward,
    skip_ws_forward, string_of, strip_all_end, strip_all_start, trim, trim_bounds, trim_end,
    trim_start, trimmed,
};
use vstd::prelude::*;

verus! {

broadcast use vstd::string::group_string_axioms;

/// Soft cap on preference text injected into an ask prompt (bytes).
pub const PREFS_CONTEXT_CHAR_CAP: usize = 1500;

/// Failures of memory and plot operations that the library decides.
#[derive(Debug)]
pub enum MemoryError {
    NoHome,
    InvalidPrefName(String),
    PrefNotFound(String),
    PlotNotFound(String),
    CommitNotFound(String),
    AmbiguousCommit(String),
    InvalidPlotName(String),
    InvalidPlotPath(String),
    PlotPathNotFound(String),
    PlotPathIsDir(String),
    PlotPathNotDir(String),
}

/// A memory error with its payload as a character sequence.
pub enum MemoryFault {
    NoHome,
    InvalidPrefName(Seq<char>),
    PrefNotFound(Seq<char>),
    PlotNotFound(Seq<char>),
    CommitNotFound(Seq<char>),
    AmbiguousCommit(Seq<char>),
    InvalidPlotName(Seq<char>),
    InvalidPlotPath(Seq<char>),
    PlotPathNotFound(Seq<char>),
    PlotPathIsDir(Seq<char>),
    PlotPathNotDir(Seq<char>),
}

impl View for MemoryError {
    type V = MemoryFault;

    open spec fn view(&self) -> MemoryFault {
        match self {
            MemoryError::NoHome => MemoryFault::NoHome,
            MemoryError::InvalidPrefName(s) => MemoryFault::InvalidPrefName(s@),
            MemoryError::PrefNotFound(s) => MemoryFault::PrefNotFound(s@),
            MemoryError::PlotNotFound(s) => MemoryFault::PlotNotFound(s@),
            MemoryError::CommitNotFound(s) => MemoryFault::CommitNotFound(s@),
            MemoryError::AmbiguousCommit(s) => MemoryFault::AmbiguousCommit(s@),
            MemoryError::InvalidPlotName(s) => MemoryFault::InvalidPlotName(s@),
            MemoryError::InvalidPlotPath(s) => MemoryFault::InvalidPlotPath(s@),
            MemoryError::PlotPathNotFound(s) => MemoryFault::PlotPathNotFound(s@),
            MemoryError::PlotPathIsDir(s) => MemoryFault::PlotPathIsDir(s@),
            MemoryError::PlotPathNotDir(s) => MemoryFault::PlotPathNotDir(s@),
        }
    }
}

/// Text of a memory error as it is shown to users.
pub open spec fn memory_message(e: MemoryFault) -> Seq<char> {
    match e {
        MemoryFault::NoHome => "home directory not found"@,
        MemoryFault::InvalidPrefName(s) => "invalid preference name: "@ + s,
        MemoryFault::PrefNotFound(s) => "preference not found: "@ + s,
        MemoryFault::PlotNotFound(s) => "plot not found: "@ + s,
        MemoryFault::CommitNotFound(s) => "commit not found: "@ + s,
        MemoryFault::AmbiguousCommit(s) => "ambiguous commit prefix: "@ + s,
        MemoryFault::InvalidPlotName(s) => "invalid plot name: "@ + s,
        MemoryFault::InvalidPlotPath(s) => "invalid path under plot: "@ + s,
        MemoryFault::PlotPathNotFound(s) => "path not found under plot: "@ + s,
        MemoryFault::PlotPathIsDir(s) => "path is a directory: "@ + s,
        MemoryFault::PlotPathNotDir(s) => "path is not a directory: "@ + s,
    }
}

fn prefixed(p: &str, s: &String) -> (m: String)
    ensures
        m@ == p@ + s@,
{
    let mut m = owned(p);
    push_str(&mut m, s.as_str());
    m
}

impl MemoryError {
    /// The user-facing text of this error.
    pub fn message(&self) -> (m: String)
        ensures
            m@ == memory_message(self@),
    {
        match self {
            MemoryError::NoHome => owned("home directory not found"),
            MemoryError::InvalidPrefName(s) => prefixed("invalid preference name: ", s),
            MemoryError::PrefNotFound(s) => prefixed("preference not found: ", s),
            MemoryError::PlotNotFound(s) => prefixed("plot not found: ", s),
            MemoryError::CommitNotFound(s) => prefixed("commit not found: ", s),
            MemoryError::AmbiguousCommit(s) => prefixed("ambiguous commit prefix: ", s),
            MemoryError::InvalidPlotName(s) => prefixed("invalid plot name: ", s),
            MemoryError::InvalidPlotPath(s) => prefixed("invalid path under plot: ", s),
            MemoryError::PlotPathNotFound(s) => prefixed("path not found under plot: ", s),
            MemoryError::PlotPathIsDir(s) => prefixed("path is a directory: ", s),
            MemoryError::PlotPathNotDir(s) => prefixed("path is not a directory: ", s),
        }
    }
}

/// The root directory of a Helix home.
#[derive(Debug, Clone)]
pub struct HelixHome {
    pub root: String,
}

/// One recorded ask turn with the user's verdict.
#[derive(Debug, Clone)]
pub struct Episode {
    pub id: String,
    pub created_at: String,
    pub query: String,
    pub reply: String,
    pub verdict: String,
    pub edit: Option<String>,
}

/// Metadata of one plot snapshot.
#[derive(Debug, Clone)]
pub struct CommitMeta {
    pub id: String,
    pub created_at: String,
    pub message: Option<String>,
    pub file_count: usize,
}

/// A single entry from a plot-scoped directory listing.
#[derive(Debug, Clone)]
pub struct PlotEntry {
    /// Path relative to the plot root (forward slashes).
    pub path: String,
    pub is_dir: bool,
}

/// Characters allowed in a preference name.
pub open spec fn pref_char(c: char) -> bool {
    ('a' <= c && c <= 'z') || ('0' <= c && c <= '9') || c == '-' || c == '_'
}

/// Preference names: 1 to 64 characters from `a-z`, `0-9`, `-`, `_`.
pub open spec fn valid_pref_name(n: Seq<char>) -> bool {
    &&& 0 < n.len() <= 64
    &&& forall|i: int| 0 <= i < n.len() ==> pref_char(#[trigger] n[i])
}

/// Characters allowed in a plot name.
pub open spec fn plot_char(c: char) -> bool {
    ('a' <= c && c <= 'z') || ('A' <= c && c <= 'Z') || ('0' <= c && c <= '9') || c == '-' || c
        == '_'
}

/// Plot names: non-empty, no `..`, only ASCII letters, digits, `-` and `_`.
pub open spec fn valid_plot_name(p: Seq<char>) -> bool {
    &&& p.len() > 0
    &&& !has_infix(p, ".."@)
    &&& forall|i: int| 0 <= i < p.len() ==> plot_char(#[trigger] p[i])
}

/// The pack named by one line of the charter file: the trimmed line must
/// start with `pack`, then (after spaces) `=`; the value is what follows,
/// trimmed, stripped of surrounding quotes and trimmed again, if not empty.
pub open spec fn pack_in_line(line: Seq<char>) -> Option<Seq<char>> {
    let l = trim(line);
    if has_prefix(l, "pack"@) {
        let rest = trim_start(l.skip(4));
        if rest.len() > 0 && rest[0] == '=' {
            let v = trim(strip_all_end(strip_all_start(trim(rest.skip(1)), '"'), '"'));
            if v.len() > 0 {
                Some(v)
            } else {
                None
            }
        } else {
            None
        }
    } else {
        None
    }
}

/// Index of the first `\n` at or after `i`, or the length of `t`.
pub open spec fn line_end(t: Seq<char>, i: int) -> int
    decreases t.len() - i,
{
    if i >= t.len() {
        t.len() as int
    } else if t[i] == '\n' {
        i
    } else {
        line_end(t, i + 1)
    }
}

/// The pack named by the first line at or after `i` that names one.
pub open spec fn pack_from(t: Seq<char>, i: int) -> Option<Seq<char>>
    decreases t.len() - i,
{
    if i < 0 || i >= t.len() {
        None
    } else {
        let e = line_end(t, i);
        match pack_in_line(t.subrange(i, e)) {
            Some(v) => Some(v),
            None => if e < i || e >= t.len() {
                None
            } else {
                pack_from(t, e + 1)
            },
        }
    }
}

/// The active pack given the charter file's text (`None` when it is absent).
pub open spec fn active_pack(text: Option<Seq<char>>) -> Seq<char> {
    match text {
        Some(t) => match pack_from(t, 0) {
            Some(v) => v,
            None => "hearthside"@,
        },
        None => "hearthside"@,
    }
}

/// The charter file that records `pack`.
pub open spec fn pack_file(pack: Seq<char>) -> Seq<char> {
    "pack = \""@ + pack + "\"\n"@
}

/// The name of a preference stored in file `n`: `n` without its `.md`
/// extension, when it has one and something before it.
pub open spec fn md_stem(n: Seq<char>) -> Option<Seq<char>> {
    if n.len() > 3 && has_suffix(n, ".md"@) {
        Some(n.take(n.len() - 3))
    } else {
        None
    }
}

/// The preferences among stored files `(file name, body)`, in listing order.
pub open spec fn pref_files(fs: Seq<(Seq<char>, Seq<char>)>) -> Seq<(Seq<char>, Seq<char>)>
    decreases fs.len(),
{
    if fs.len() == 0 {
        Seq::empty()
    } else {
        match md_stem(fs.last().0) {
            Some(n) => pref_files(fs.drop_last()).push((n, fs.last().1)),
            None => pref_files(fs.drop_last()),
        }
    }
}

/// Both strings of a pair, viewed.
pub open spec fn pair_view() -> spec_fn((String, String)) -> (Seq<char>, Seq<char>) {
    |p: (String, String)| (p.0@, p.1@)
}

/// The line a preference contributes to the prompt.
pub open spec fn pref_line(p: (Seq<char>, Seq<char>)) -> Seq<char> {
    "- "@ + p.0 + ": "@ + trim(p.1) + "\n"@
}

/// `acc` followed by the lines of `ps` in order, up to the first that would
/// take the byte length past `cap`.
pub open spec fn fill_prefs(acc: Seq<char>, ps: Seq<(Seq<char>, Seq<char>)>, cap: nat) -> Seq<
    char,
>
    decreases ps.len(),
{
    if ps.len() == 0 {
        acc
    } else if byte_len(acc) + byte_len(pref_line(ps[0])) > cap {
        acc
    } else {
        fill_prefs(acc + pref_line(ps[0]), ps.drop_first(), cap)
    }
}

/// The preference block of an ask prompt: empty without preferences, else a
/// header and as many preference lines as fit in `cap` bytes.
pub open spec fn prefs_block(ps: Seq<(Seq<char>, Seq<char>)>, cap: nat) -> Seq<char> {
    if ps.len() == 0 {
        Seq::empty()
    } else {
        fill_prefs("Preferences:\n"@, ps, cap)
    }
}

/// Trimming changes nothing when both ends are not whitespace.
proof fn lemma_trim_fixed(s: Seq<char>)
    requires
        s.len() > 0,
        !is_ws(s[0]),
        !is_ws(s.last()),
    ensures
        trim(s) == s,
{
    assert(trim_start(s) == s);
    assert(trim_end(s) == s);
}

/// The line starting at `i` ends at the first newline at or after `i`.
proof fn lemma_line_end(t: Seq<char>, i: int, e: int)
    requires
        0 <= i <= e < t.len(),
        t[e] == '\n',
        forall|j: int| i <= j < e ==> t[j] != '\n',
    ensures
        line_end(t, i) == e,
    decreases e - i,
{
    if i < e {
        lemma_line_end(t, i + 1, e);
    }
}

/// Law: reading back the charter file written for `pack` gives `pack`, for
/// any non-empty pack name on one line whose ends are neither whitespace nor
/// quotes (every builtin pack name among them), whatever lines follow it.
pub proof fn law_read_back_written_pack(p: Seq<char>, rest: Seq<char>)
    requires
        p.len() > 0,
        !is_ws(p[0]),
        !is_ws(p.last()),
        p[0] != '"',
        p.last() != '"',
        !p.contains('\n'),
    ensures
        active_pack(Some(pack_file(p) + rest)) == p,
{
    reveal_strlit("pack = \"");
    reveal_strlit("\"\n");
    reveal_strlit("pack");
    let f = pack_file(p);
    let t = f + rest;
    let n = f.len() as int;
    let head = "pack = \""@;
    assert(head.len() == 8);
    assert(n == p.len() + 10);
    assert(t[n - 1] == '\n');
    assert forall|j: int| 0 <= j < n - 1 implies t[j] != '\n' by {
        if 8 <= j < 8 + p.len() {
            assert(t[j] == p[j - 8]);
        }
    }
    lemma_line_end(t, 0, n - 1);
    let line = t.subrange(0, n - 1);
    assert(line == head + p + seq!['"']);
    lemma_trim_fixed(line);
    assert(line.take(4) == "pack"@);
    let after = line.skip(4);
    assert(after == seq![' '] + (seq!['='] + seq![' ', '"'] + p + seq!['"']));
    let eq_on = seq!['='] + seq![' ', '"'] + p + seq!['"'];
    assert(after.drop_first() == eq_on);
    assert(trim_start(eq_on) == eq_on);
    assert(trim_start(after) == eq_on);
    let value = eq_on.skip(1);
    assert(value.drop_first() == seq!['"'] + p + seq!['"']);
    let quoted = seq!['"'] + p + seq!['"'];
    assert(trim_start(quoted) == quoted);
    assert(trim_start(value) == quoted);
    assert(trim_end(quoted) == quoted);
    assert(trim(value) == quoted);
    assert(quoted.drop_first() == p + seq!['"']);
    assert(strip_all_start(p + seq!['"'], '"') == p + seq!['"']);
    assert(strip_all_start(quoted, '"') == p + seq!['"']);
    assert((p + seq!['"']).drop_last() == p);
    assert(strip_all_end(p, '"') == p);
    assert(strip_all_end(p + seq!['"'], '"') == p);
    lemma_trim_fixed(p);
    assert(pack_in_line(line) == Some(p));
}

/// Law: the charter file that `Charter::to_toml` writes names its pack, as
/// `read_pack` reads it (for pack names as in `law_read_back_written_pack`).
pub proof fn law_charter_file_names_its_pack(p: Seq<char>, summary: Seq<char>)
    requires
        p.len() > 0,
        !is_ws(p[0]),
        !is_ws(p.last()),
        p[0] != '"',
        p.last() != '"',
        !p.contains('\n'),
    ensures
        active_pack(Some(charter_toml(p, summary))) == p,
{
    reveal_strlit("pack = \"");
    reveal_strlit("\"\n");
    reveal_strlit("\"\n# ");
    reveal_strlit("# ");
    let rest = "# "@ + flatten_newlines(summary) + "\n"@;
    assert(charter_toml(p, summary) == pack_file(p) + rest);
    law_read_back_written_pack(p, rest);
}

/// Law: a stored preference is listed under its name with its body: the
/// file `<name>.md` adds `(name, body)` to the preferences found.
pub proof fn law_stored_pref_is_listed(
    files: Seq<(Seq<char>, Seq<char>)>,
    name: Seq<char>,
    body: Seq<char>,
)
    requires
        valid_pref_name(name),
    ensures
        pref_files(files.push((name + ".md"@, body))) == pref_files(files).push((name, body)),
{
    reveal_strlit(".md");
    let n = name + ".md"@;
    assert(n.skip(n.len() - 3) == ".md"@);
    assert(n.take(n.len() - 3) == name);
    assert(files.push((n, body)).drop_last() == files);
}

proof fn lemma_fill_within(acc: Seq<char>, ps: Seq<(Seq<char>, Seq<char>)>, cap: nat)
    ensures
        fill_prefs(acc, ps, cap) == acc || byte_len(fill_prefs(acc, ps, cap)) <= cap,
    decreases ps.len(),
{
    if ps.len() > 0 && byte_len(acc) + byte_len(pref_line(ps[0])) <= cap {
        lemma_byte_len_concat(acc, pref_line(ps[0]));
        lemma_fill_within(acc + pref_line(ps[0]), ps.drop_first(), cap);
    }
}

/// Law: the preference block is empty, is the bare header, or fits in `cap`
/// bytes.
pub proof fn law_prefs_block_within_cap(ps: Seq<(Seq<char>, Seq<char>)>, cap: nat)
    ensures
        ({
            let b = prefs_block(ps, cap);
            b.len() == 0 || b == "Preferences:\n"@ || byte_len(b) <= cap
        }),
{
    if ps.len() > 0 {
        lemma_fill_within("Preferences:\n"@, ps, cap);
    }
}

/// End of the line of `v` that starts at `i`.
fn find_line_end(v: &[char], i: usize) -> (e: usize)
    requires
        i <= v@.len(),
    ensures
        i <= e <= v@.len(),
        e == line_end(v@, i as int),
{
    let mut e = i;
    while e < v.len() && v[e] != '\n'
        invariant
            i <= e <= v@.len(),
            line_end(v@, i as int) == line_end(v@, e as int),
        decreases v@.len() - e,
    {
        e = e + 1;
    }
    e
}

/// The pack named by the line `v[from..to]`.
fn pack_in_line_of(v: &[char], from: usize, to: usize) -> (r: Option<String>)
    requires
        from <= to <= v@.len(),
    ensures
        match r {
            Some(s) => pack_in_line(v@.subrange(from as int, to as int)) == Some(s@),
            None => pack_in_line(v@.subrange(from as int, to as int)) is None,
        },
{
    proof {
        reveal_strlit("pack");
    }
    let ghost line = v@.subrange(from as int, to as int);
    let (a, b) = trim_bounds(v, from, to);
    let ghost l = v@.subrange(a as int, b as int);
    if !(b - a >= 4 && v[a] == 'p' && v[a + 1] == 'a' && v[a + 2] == 'c' && v[a + 3] == 'k') {
        proof {
            if has_prefix(l, "pack"@) {
                assert(l.take(4)[0] == v@[a as int]);
                assert(l.take(4)[1] == v@[a + 1]);
                assert(l.take(4)[2] == v@[a + 2]);
                assert(l.take(4)[3] == v@[a + 3]);
            }
        }
        return None;
    }
    assert(l.take(4) == "pack"@);
    assert(l.skip(4) == v@.subrange(a + 4, b as int));
    let c = skip_ws_forward(v, a + 4, b);
    let ghost rest = v@.subrange(c as int, b as int);
    if !(c < b && v[c] == '=') {
        return None;
    }
    assert(rest[0] == v@[c as int]);
    assert(rest.skip(1) == v@.subrange(c + 1, b as int));
    let (d, f) = trim_bounds(v, c + 1, b);
    let d2 = skip_char_forward(v, d, f, '"');
    let f2 = skip_char_backward(v, d2, f, '"');
    let (g, h) = trim_bounds(v, d2, f2);
    if g < h {
        Some(string_of(v, g, h))
    } else {
        None
    }
}

/// The pack named by the first line of `t` that names one.
fn pack_in_text(t: &str) -> (r: Option<String>)
    ensures
        match r {
            Some(s) => pack_from(t@, 0) == Some(s@),
            None => pack_from(t@, 0) is None,
        },
{
    let v = chars_of(t);
    let mut i: usize = 0;
    while i < v.len()
        invariant
            v@ == t@,
            i <= v@.len(),
            pack_from(t@, 0) == pack_from(t@, i as int),
        decreases v@.len() - i,
    {
        let e = find_line_end(v.as_slice(), i);
        let r = pack_in_line_of(v.as_slice(), i, e);
        if r.is_some() {
            return r;
        }
        if e == v.len() {
            return None;
        }
        i = e + 1;
    }
    None
}

/// The directories of a fresh home under `root`.
fn root_dirs(root: &str) -> (r: Vec<String>)
    ensures
        r@.map_values(|d: String| d@) == seq![
            join_path(root@, "config"@),
            join_path(root@, "plots/default"@),
            join_path(root@, "memory/episodes"@),
            join_path(root@, "memory/playbooks"@),
            join_path(root@, "memory/tools"@),
            join_path(root@, "memory/prefs"@),
            join_path(root@, "reliquary"@),
            join_path(root@, "atlas"@),
            join_path(root@, "chronicle"@),
        ],
{
    let mut r: Vec<String> = Vec::new();
    r.push(path_join(root, "config"));
    r.push(path_join(root, "plots/default"));
    r.push(path_join(root, "memory/episodes"));
    r.push(path_join(root, "memory/playbooks"));
    r.push(path_join(root, "memory/tools"));
    r.push(path_join(root, "memory/prefs"));
    r.push(path_join(root, "reliquary"));
    r.push(path_join(root, "atlas"));
    r.push(path_join(root, "chronicle"));
    assert(r@.map_values(|d: String| d@) =~= seq![
        join_path(root@, "config"@),
        join_path(root@, "plots/default"@),
        join_path(root@, "memory/episodes"@),
        join_path(root@, "memory/playbooks"@),
        join_path(root@, "memory/tools"@),
        join_path(root@, "memory/prefs"@),
        join_path(root@, "reliquary"@),
        join_path(root@, "atlas"@),
        join_path(root@, "chronicle"@),
    ]);
    r
}

impl HelixHome {
    /// Path of the active charter file.
    pub fn pack_path(&self) -> (p: String)
        ensures
            p@ == join_path(self.root@, "config/charter.toml"@),
    {
        path_join(self.root.as_str(), "config/charter.toml")
    }

    /// Directory holding one file per preference.
    pub fn prefs_dir(&self) -> (p: String)
        ensures
            p@ == join_path(self.root@, "memory/prefs"@),
    {
        path_join(self.root.as_str(), "memory/prefs")
    }

    /// Checks a preference name.
    pub fn validate_pref_name(name: &str) -> (r: Result<(), MemoryError>)
        ensures
            r is Ok <==> valid_pref_name(name@),
            r matches Err(e) ==> e@ == MemoryFault::InvalidPrefName(name@),
    {
        let v = chars_of(name);
        if v.len() == 0 || v.len() > 64 {
            return Err(MemoryError::InvalidPrefName(owned(name)));
        }
        let mut i: usize = 0;
        while i < v.len()
            invariant
                v@ == name@,
                i <= v@.len(),
                forall|j: int| 0 <= j < i ==> pref_char(#[trigger] v@[j]),
            decreases v@.len() - i,
        {
            let c = v[i];
            if !(('a' <= c && c <= 'z') || ('0' <= c && c <= '9') || c == '-' || c == '_') {
                return Err(MemoryError::InvalidPrefName(owned(name)));
            }
            i = i + 1;
        }
        Ok(())
    }

    /// Path where plot `plot` would live, once its name has been checked.
    pub fn plot_path(&self, plot: &str) -> (r: Result<String, MemoryError>)
        ensures
            r is Ok <==> valid_plot_name(plot@),
            r matches Ok(p) ==> p@ == join_path(join_path(self.root@, "plots"@), plot@),
            r matches Err(e) ==> e@ == MemoryFault::InvalidPlotName(plot@),
    {
        let v = chars_of(plot);
        let dots = chars_of("..");
        if v.len() == 0 || contains_chars(v.as_slice(), dots.as_slice()) {
            return Err(MemoryError::InvalidPlotName(owned(plot)));
        }
        let mut i: usize = 0;
        while i < v.len()
            invariant
                v@ == plot@,
                i <= v@.len(),
                forall|j: int| 0 <= j < i ==> plot_char(#[trigger] v@[j]),
            decreases v@.len() - i,
        {
            let c = v[i];
            if !(('a' <= c && c <= 'z') || ('A' <= c && c <= 'Z') || ('0' <= c && c <= '9') || c
                == '-' || c == '_') {
                return Err(MemoryError::InvalidPlotName(owned(plot)));
            }
            i = i + 1;
        }
        let plots = path_join(self.root.as_str(), "plots");
        Ok(path_join(plots.as_str(), plot))
    }

    /// The directory of plot `plot`; `is_dir` tells whether the path that
    /// `plot_path` gives is an existing directory.
    pub fn plot_dir(&self, plot: &str, is_dir: bool) -> (r: Result<String, MemoryError>)
        ensures
            r is Ok <==> valid_plot_name(plot@) && is_dir,
            r matches Ok(p) ==> p@ == join_path(join_path(self.root@, "plots"@), plot@),
            r matches Err(e) ==> if valid_plot_name(plot@) {
                e@ == MemoryFault::PlotNotFound(plot@)
            } else {
                e@ == MemoryFault::InvalidPlotName(plot@)
            },
    {
        let p = self.plot_path(plot)?;
        if !is_dir {
            return Err(MemoryError::PlotNotFound(owned(plot)));
        }
        Ok(p)
    }

    /// Private metadata directory of a plot.
    pub fn helix_dir(plot_dir: &str) -> (p: String)
        ensures
            p@ == join_path(plot_dir@, ".helix"@),
    {
        path_join(plot_dir, ".helix")
    }

    /// Directory holding the snapshots of a plot.
    pub fn commits_dir(plot_dir: &str) -> (p: String)
        ensures
            p@ == join_path(join_path(plot_dir@, ".helix"@), "commits"@),
    {
        let h = Self::helix_dir(plot_dir);
        path_join(h.as_str(), "commits")
    }

    /// File naming the current snapshot of a plot.
    pub fn head_path(plot_dir: &str) -> (p: String)
        ensures
            p@ == join_path(join_path(plot_dir@, ".helix"@), "HEAD"@),
    {
        let h = Self::helix_dir(plot_dir);
        path_join(h.as_str(), "HEAD")
    }

    /// The Helix home: `env_home` (the value of `HELIX_HOME`) when set, else
    /// `Helix` under `user_home` (the user's home directory, if known).
    pub fn resolve(env_home: Option<String>, user_home: Option<String>) -> (r: Result<
        HelixHome,
        MemoryError,
    >)
        ensures
            match env_home {
                Some(h) => r matches Ok(home) && home.root@ == h@,
                None => match user_home {
                    Some(u) => r matches Ok(home) && home.root@ == join_path(u@, "Helix"@),
                    None => r matches Err(MemoryError::NoHome),
                },
            },
    {
        match env_home {
            Some(h) => Ok(HelixHome { root: h }),
            None => match user_home {
                Some(u) => Ok(HelixHome { root: path_join(u.as_str(), "Helix") }),
                None => Err(MemoryError::NoHome),
            },
        }
    }

    /// The directories that `init` creates, in order.
    pub fn layout_dirs(&self) -> (r: Vec<String>)
        ensures
            r@.map_values(|d: String| d@) == seq![
                join_path(self.root@, "config"@),
                join_path(self.root@, "plots/default"@),
                join_path(self.root@, "memory/episodes"@),
                join_path(self.root@, "memory/playbooks"@),
                join_path(self.root@, "memory/tools"@),
                join_path(self.root@, "memory/prefs"@),
                join_path(self.root@, "reliquary"@),
                join_path(self.root@, "atlas"@),
                join_path(self.root@, "chronicle"@),
            ],
    {
        let r = root_dirs(self.root.as_str());
        r
    }

    /// The append-only event log.
    pub fn chronicle_path(&self) -> (p: String)
        ensures
            p@ == join_path(self.root@, "chronicle/log.jsonl"@),
    {
        path_join(self.root.as_str(), "chronicle/log.jsonl")
    }

    /// The active pack, given the text of the charter file (`None` when the
    /// file does not exist): the first `pack = "..."` line, else `hearthside`.
    pub fn read_pack(charter_text: Option<&str>) -> (p: String)
        ensures
            p@ == active_pack(
                match charter_text {
                    Some(t) => Some(t@),
                    None => None,
                },
            ),
    {
        match charter_text {
            Some(t) => match pack_in_text(t) {
                Some(v) => v,
                None => owned("hearthside"),
            },
            None => owned("hearthside"),
        }
    }

    /// The charter file text that records `pack`.
    pub fn write_pack(pack: &str) -> (t: String)
        ensures
            t@ == pack_file(pack@),
    {
        let mut t = owned("pack = \"");
        push_str(&mut t, pack);
        push_str(&mut t, "\"\n");
        t
    }

    /// The file of preference `name` (the name is not checked).
    pub fn pref_path(&self, name: &str) -> (p: String)
        ensures
            p@ == join_path(join_path(self.root@, "memory/prefs"@), name@ + ".md"@),
    {
        let dir = self.prefs_dir();
        let mut file = owned(name);
        push_str(&mut file, ".md");
        path_join(dir.as_str(), file.as_str())
    }

    /// Where and what to store for a new preference: its file and its body,
    /// trimmed, once the name is valid.
    pub fn pref_add(&self, name: &str, body: &str) -> (r: Result<(String, String), MemoryError>)
        ensures
            valid_pref_name(name@) ==> (r matches Ok(w) && w.0@ == join_path(
                join_path(self.root@, "memory/prefs"@),
                name@ + ".md"@,
            ) && w.1@ == trim(body@)),
            !valid_pref_name(name@) ==> (r matches Err(e) && e@ == MemoryFault::InvalidPrefName(
                name@,
            )),
    {
        Self::validate_pref_name(name)?;
        Ok((self.pref_path(name), trimmed(body)))
    }

    /// The file to remove for preference `name`; `exists` tells whether the
    /// file that `pref_path` names exists.
    pub fn pref_delete(&self, name: &str, exists: bool) -> (r: Result<String, MemoryError>)
        ensures
            !valid_pref_name(name@) ==> (r matches Err(e) && e@ == MemoryFault::InvalidPrefName(
                name@,
            )),
            valid_pref_name(name@) && !exists ==> (r matches Err(e) && e@
                == MemoryFault::PrefNotFound(name@)),
            valid_pref_name(name@) && exists ==> (r matches Ok(p) && p@ == join_path(
                join_path(self.root@, "memory/prefs"@),
                name@ + ".md"@,
            )),
    {
        let path = self.pref_path(name);
        Self::validate_pref_name(name)?;
        if !exists {
            return Err(MemoryError::PrefNotFound(owned(name)));
        }
        Ok(path)
    }

    /// Stored preferences from the preference directory's files
    /// `(file name, body)`: those named `<name>.md`, as `(name, body)`, sorted
    /// by name.
    pub fn pref_list(files: &[(String, String)]) -> (r: Vec<(String, String)>)
        ensures
            r@.map_values(pair_view()) == sort_by(
                pref_files(files@.map_values(pair_view())),
                first_lt::<Seq<char>>(),
            ),
    {
        let ghost fs = files@.map_values(pair_view());
        let mut kept: Vec<(String, String)> = Vec::new();
        let mut i: usize = 0;
        let n = files.len();
        assert(fs.take(0) == Seq::<(Seq<char>, Seq<char>)>::empty());
        while i < n
            invariant
                n == fs.len(),
                fs == files@.map_values(pair_view()),
                i <= n,
                kept@.map_values(pair_view()) == pref_files(fs.take(i as int)),
            decreases n - i,
        {
            let name = &files[i].0;
            let body = &files[i].1;
            assert(fs[i as int] == (name@, body@));
            assert(fs.take(i + 1).drop_last() == fs.take(i as int));
            assert(fs.take(i + 1).last() == (name@, body@));
            let v = chars_of(name.as_str());
            let k = v.len();
            if k > 3 && v[k - 3] == '.' && v[k - 2] == 'm' && v[k - 1] == 'd' {
                proof {
                    reveal_strlit(".md");
                    assert(name@.skip(k - 3) == ".md"@);
                }
                let stem = string_of(v.as_slice(), 0, k - 3);
                assert(stem@ == name@.take(k - 3));
                let ghost before = kept@;
                kept.push((stem, owned(body.as_str())));
                assert(kept@.map_values(pair_view()) == before.map_values(pair_view()).push(
                    (stem@, body@),
                ));
            } else {
                proof {
                    reveal_strlit(".md");
                    if k > 3 && has_suffix(name@, ".md"@) {
                        assert(name@.skip(k - 3)[0] == v@[k - 3]);
                        assert(name@.skip(k - 3)[1] == v@[k - 2]);
                        assert(name@.skip(k - 3)[2] == v@[k - 1]);
                    }
                }
            }
            i = i + 1;
        }
        assert(fs.take(n as int) == fs);
        let ghost unsorted = kept@;
        let sorted = sort_in_order(kept);
        proof {
            lemma_sort_view(unsorted, pair_view(), first_lt::<Seq<char>>());
        }
        sorted
    }

    /// The preference block of an ask prompt for the stored preferences
    /// `prefs` (as `pref_list` gives them), within `cap` bytes.
    pub fn prefs_context(prefs: &[(String, String)], cap: usize) -> (r: String)
        ensures
            r@ == prefs_block(prefs@.map_values(pair_view()), cap as nat),
    {
        let ghost ps = prefs@.map_values(pair_view());
        if prefs.len() == 0 {
            return String::new();
        }
        let mut out = owned("Preferences:\n");
        let limit: u128 = cap as u128 + 1;
        let mut i: usize = 0;
        let mut full = false;
        assert(ps.skip(0) == ps);
        while i < prefs.len() && !full
            invariant
                ps == prefs@.map_values(pair_view()),
                limit == cap + 1,
                i <= prefs@.len(),
                fill_prefs(out@, ps.skip(i as int), cap as nat) == prefs_block(ps, cap as nat),
                full ==> fill_prefs(out@, ps.skip(i as int), cap as nat) == out@,
            decreases prefs@.len() - i, if full { 0int } else { 1int },
        {
            let (name, body) = (&prefs[i].0, &prefs[i].1);
            let mut line = owned("- ");
            push_str(&mut line, name.as_str());
            push_str(&mut line, ": ");
            let b = trimmed(body.as_str());
            push_str(&mut line, b.as_str());
            push_str(&mut line, "\n");
            assert(ps.skip(i as int)[0] == ps[i as int]);
            assert(line@ == pref_line(ps[i as int]));
            let used = bytes_capped(out.as_str(), limit);
            let more = bytes_capped(line.as_str(), limit);
            if used + more > cap as u128 {
                full = true;
            } else {
                assert(ps.skip(i as int).drop_first() == ps.skip(i + 1));
                push_str(&mut out, line.as_str());
                i = i + 1;
            }
        }
        if !full {
            assert(ps.skip(i as int).len() == 0);
        }
        out
    }
}

} // verus!
