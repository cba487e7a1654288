//! Plots: the user's working directories under the Helix home, the paths
//! that may be touched inside them, and their snapshot history.
//!
//! What only the filesystem knows (whether a path exists, what it
//! canonicalizes to, what a directory holds) comes in as plain values; the
//! decisions about it are made here.

use crate::digest::{hex_lower, lemma_hex_lower_chars, sha256_hex, sha256_spec};
use crate::memory::{CommitMeta, HelixHome, MemoryError, MemoryFault, PlotEntry, valid_plot_name};
use crate::order::{
    first_index, first_lt, lemma_first_index, lemma_sort_view, seq_lt, sort_by, sort_in_order,
    sort_stable, str_lt, Ordered,
};
use crate::paths::{
    join_path, path_join, path_within, relative_path, relative_to, split_at_char, split_char,
    within,
};
use crate::text::{
    chars_of, has_prefix, is_ws, opt_view, owned, push_char, push_str, str_eq, strip_all_start, trim,
    trim_end, trim_start, trim_start_char, trimmed,
};
use vstd::prelude::*;

verus! {

broadcast use vstd::string::group_string_axioms;

/// What the filesystem reports about the paths that one plot lookup touches.
#[derive(Debug, Clone)]
pub struct PlotProbe {
    /// The plot's directory exists and is a directory.
    pub plot_is_dir: bool,
    /// The plot directory canonicalized, when that succeeded.
    pub plot_canonical: Option<String>,
    /// The requested path canonicalized, when it exists.
    pub target_canonical: Option<String>,
    /// The requested path's parent canonicalized (or as it is, when it cannot
    /// be), when the parent exists.
    pub parent_canonical: Option<String>,
}

/// The directory of plot `plot` under `root`.
pub open spec fn plot_root(root: Seq<char>, plot: Seq<char>) -> Seq<char> {
    join_path(join_path(root, "plots"@), plot)
}

/// A path component that may not appear in a plot path.
pub open spec fn bad_part(g: Seq<char>) -> bool {
    g == ".."@ || g == ".helix"@ || g.contains('\0')
}

/// The plot-relative path that `rel` names: trimmed, without leading
/// backslashes.
pub open spec fn plot_rel(rel: Seq<char>) -> Seq<char> {
    strip_all_start(trim(rel), '\\')
}

/// A plot-relative path that may be used: not absolute (no leading `/`),
/// and no `..`, `.helix` or NUL in any component.
pub open spec fn rel_ok(r: Seq<char>) -> bool {
    &&& !(r.len() > 0 && r[0] == '/')
    &&& forall|i: int|
        0 <= i < split_at_char(r, '/').len() ==> !bad_part(#[trigger] split_at_char(r, '/')[i])
}

/// Where `rel` inside plot `plot` leads, given what the filesystem reports.
pub open spec fn plot_target(
    root: Seq<char>,
    plot: Seq<char>,
    rel: Seq<char>,
    plot_is_dir: bool,
    plot_canonical: Option<Seq<char>>,
    target_canonical: Option<Seq<char>>,
    parent_canonical: Option<Seq<char>>,
) -> Result<Seq<char>, MemoryFault> {
    let pd = plot_root(root, plot);
    let r = plot_rel(rel);
    if !valid_plot_name(plot) {
        Err(MemoryFault::InvalidPlotName(plot))
    } else if !plot_is_dir {
        Err(MemoryFault::PlotNotFound(plot))
    } else if r.len() == 0 {
        Ok(pd)
    } else if !rel_ok(r) {
        Err(MemoryFault::InvalidPlotPath(r))
    } else {
        let canon = match plot_canonical {
            Some(c) => c,
            None => pd,
        };
        match target_canonical {
            Some(c) => if path_within(c, canon) {
                Ok(c)
            } else {
                Err(MemoryFault::InvalidPlotPath(r))
            },
            None => match parent_canonical {
                Some(pc) => if path_within(pc, canon) {
                    Ok(join_path(pd, r))
                } else {
                    Err(MemoryFault::InvalidPlotPath(r))
                },
                None => Ok(join_path(pd, r)),
            },
        }
    }
}

/// `plot_target` with the probe's values.
pub open spec fn probed_target(root: Seq<char>, plot: Seq<char>, rel: Seq<char>, p: PlotProbe) -> Result<
    Seq<char>,
    MemoryFault,
> {
    plot_target(
        root,
        plot,
        rel,
        p.plot_is_dir,
        opt_view(p.plot_canonical),
        opt_view(p.target_canonical),
        opt_view(p.parent_canonical),
    )
}

/// Law: a resolved plot path never leaves the plot. It is the plot
/// directory itself; or an existing path whose canonical form lies under the
/// plot's canonical directory; or the plot directory joined with a relative
/// path that is not absolute and has no `..`, `.helix` or NUL component, and
/// whose parent, if it exists, lies under the plot.
pub proof fn law_resolved_stays_in_plot(
    root: Seq<char>,
    plot: Seq<char>,
    rel: Seq<char>,
    plot_is_dir: bool,
    plot_canonical: Option<Seq<char>>,
    target_canonical: Option<Seq<char>>,
    parent_canonical: Option<Seq<char>>,
)
    ensures
        plot_target(root, plot, rel, plot_is_dir, plot_canonical, target_canonical, parent_canonical) matches Ok(p)
            ==> ({
            let pd = plot_root(root, plot);
            let canon = match plot_canonical {
                Some(c) => c,
                None => pd,
            };
            ||| p == pd
            ||| target_canonical == Some(p) && path_within(p, canon)
            ||| target_canonical is None && rel_ok(plot_rel(rel)) && p == join_path(pd, plot_rel(rel)) && (
            parent_canonical matches Some(x) ==> path_within(x, canon))
        }),
{
}

/// Backslashes turned into forward slashes.
pub open spec fn forward_slashes(s: Seq<char>) -> Seq<char> {
    s.map_values(|c: char| if c == '\\' { '/' } else { c })
}

/// The entries of a listing of `dir` (names and whether each is a
/// directory), minus `.helix`, with paths relative to the plot directory `pd`.
pub open spec fn plot_entries(dir: Seq<char>, pd: Seq<char>, listing: Seq<(Seq<char>, bool)>) -> Seq<
    (Seq<char>, bool),
>
    decreases listing.len(),
{
    if listing.len() == 0 {
        Seq::empty()
    } else if listing.last().0 == ".helix"@ {
        plot_entries(dir, pd, listing.drop_last())
    } else {
        plot_entries(dir, pd, listing.drop_last()).push(
            (forward_slashes(relative_to(join_path(dir, listing.last().0), pd)), listing.last().1),
        )
    }
}

/// An entry's path and kind.
pub open spec fn entry_view() -> spec_fn(PlotEntry) -> (Seq<char>, bool) {
    |e: PlotEntry| (e.path@, e.is_dir)
}

/// A listing's names and kinds.
pub open spec fn listing_view() -> spec_fn((String, bool)) -> (Seq<char>, bool) {
    |e: (String, bool)| (e.0@, e.1)
}

/// The bytes that identify a manifest: for each entry its path, a NUL, its
/// digest and a newline.
pub open spec fn manifest_bytes(m: Seq<(Seq<char>, Seq<char>)>) -> Seq<u8>
    decreases m.len(),
{
    if m.len() == 0 {
        Seq::empty()
    } else {
        manifest_bytes(m.drop_last()) + vstd::utf8::encode_utf8(m.last().0) + seq![0u8]
            + vstd::utf8::encode_utf8(m.last().1) + seq![10u8]
    }
}

/// The identity of a manifest: lowercase hex SHA-256 of its bytes.
pub open spec fn manifest_digest(m: Seq<(Seq<char>, Seq<char>)>) -> Seq<char> {
    hex_lower(sha256_spec(manifest_bytes(m)))
}

/// The bytes one manifest entry contributes: its path, a NUL, its digest and
/// a newline.
pub open spec fn entry_bytes(e: (Seq<char>, Seq<char>)) -> Seq<u8> {
    vstd::utf8::encode_utf8(e.0) + seq![0u8] + vstd::utf8::encode_utf8(e.1) + seq![10u8]
}

/// An ASCII byte occurs in the UTF-8 encoding of a scalar only when the
/// scalar is that very character.
proof fn lemma_scalar_ascii_byte(v: u32, b: u8)
    requires
        b < 128,
    ensures
        vstd::utf8::encode_scalar(v).contains(b) <==> v == b as u32,
{
    let e = vstd::utf8::encode_scalar(v);
    assert(forall|x: u8| #![trigger (0x80u8 | x)] (0x80u8 | x) >= 0x80u8) by (bit_vector);
    assert(forall|x: u8| #![trigger (0xC0u8 | x)] (0xC0u8 | x) >= 0x80u8) by (bit_vector);
    assert(forall|x: u8| #![trigger (0xE0u8 | x)] (0xE0u8 | x) >= 0x80u8) by (bit_vector);
    assert(forall|x: u8| #![trigger (0xF0u8 | x)] (0xF0u8 | x) >= 0x80u8) by (bit_vector);
    if vstd::utf8::has_width_1_encoding(v) {
        assert(((v & 0x7F) as u8) as u32 == v) by (bit_vector)
            requires
                v <= 0x7F,
        ;
        assert(e == seq![(v & 0x7F) as u8]);
        if v == b as u32 {
            assert(e[0] == b);
        }
        if e.contains(b) {
            assert(e[0] == b);
        }
    } else {
        assert forall|k: int| 0 <= k < e.len() implies e[k] >= 0x80u8 by {}
        if e.contains(b) {
            let k = choose|k: int| 0 <= k < e.len() && e[k] == b;
            assert(e[k] >= 0x80u8);
        }
    }
}

/// An ASCII byte occurs in the UTF-8 encoding of a text only when the text
/// holds that character.
proof fn lemma_utf8_ascii_byte(s: Seq<char>, b: u8)
    requires
        b < 128,
    ensures
        vstd::utf8::encode_utf8(s).contains(b) <==> s.contains((b as u32) as char),
    decreases s.len(),
{
    let c = (b as u32) as char;
    if s.len() > 0 {
        let head = vstd::utf8::encode_scalar(s[0] as u32);
        let rest = vstd::utf8::encode_utf8(s.drop_first());
        let all = vstd::utf8::encode_utf8(s);
        assert(all == head + rest);
        lemma_utf8_ascii_byte(s.drop_first(), b);
        lemma_scalar_ascii_byte(s[0] as u32, b);
        if all.contains(b) {
            let k = choose|k: int| 0 <= k < all.len() && all[k] == b;
            if k < head.len() {
                assert(head[k] == b);
                vstd::utf8::char_u32_cast(s[0], b as u32);
                assert(s[0] == c);
            } else {
                assert(rest[k - head.len()] == b);
                let j = choose|j: int| 0 <= j < s.drop_first().len() && s.drop_first()[j] == c;
                assert(s[j + 1] == c);
            }
        }
        if s.contains(c) {
            let j = choose|j: int| 0 <= j < s.len() && s[j] == c;
            if j == 0 {
                assert((c as u32) == (b as u32));
                let k = choose|k: int| 0 <= k < head.len() && head[k] == b;
                assert(all[k] == b);
            } else {
                assert(s.drop_first()[j - 1] == c);
                let k = choose|k: int| 0 <= k < rest.len() && rest[k] == b;
                assert(all[k + head.len()] == b);
            }
        }
    }
}

/// Two byte strings that each run up to a separator byte they do not
/// otherwise hold are equal up to it, and so are their remainders.
proof fn lemma_split_at_separator(a1: Seq<u8>, r1: Seq<u8>, a2: Seq<u8>, r2: Seq<u8>, sep: u8)
    requires
        a1 + seq![sep] + r1 == a2 + seq![sep] + r2,
        !a1.contains(sep),
        !a2.contains(sep),
    ensures
        a1 == a2,
        r1 == r2,
{
    let x = a1 + seq![sep] + r1;
    let y = a2 + seq![sep] + r2;
    if a1.len() < a2.len() {
        assert(x[a1.len() as int] == sep);
        assert(y[a1.len() as int] == a2[a1.len() as int]);
        assert(a2.contains(sep));
    } else if a2.len() < a1.len() {
        assert(y[a2.len() as int] == sep);
        assert(x[a2.len() as int] == a1[a2.len() as int]);
        assert(a1.contains(sep));
    }
    assert forall|k: int| 0 <= k < a1.len() implies a1[k] == a2[k] by {
        assert(x[k] == a1[k] && y[k] == a2[k]);
    }
    assert(a1 =~= a2);
    assert(x.len() == y.len());
    assert forall|k: int| 0 <= k < r1.len() implies r1[k] == r2[k] by {
        assert(x[a1.len() + 1 + k] == r1[k]);
        assert(y[a2.len() + 1 + k] == r2[k]);
    }
    assert(x.len() == y.len());
    assert(r1 =~= r2);
}

/// The manifest bytes are the first entry's bytes followed by those of the rest.
proof fn lemma_manifest_bytes_front(m: Seq<(Seq<char>, Seq<char>)>)
    requires
        m.len() > 0,
    ensures
        manifest_bytes(m) == entry_bytes(m[0]) + manifest_bytes(m.drop_first()),
    decreases m.len(),
{
    if m.len() == 1 {
        assert(m.drop_last() =~= Seq::<(Seq<char>, Seq<char>)>::empty());
        assert(m.drop_first() =~= Seq::<(Seq<char>, Seq<char>)>::empty());
        assert(manifest_bytes(m) =~= entry_bytes(m[0]));
    } else {
        lemma_manifest_bytes_front(m.drop_last());
        assert(m.drop_last()[0] == m[0]);
        assert(m.drop_last().drop_first() =~= m.drop_first().drop_last());
        assert(m.drop_first().last() == m.last());
        let e = m.last();
        assert(manifest_bytes(m) == manifest_bytes(m.drop_last()) + entry_bytes(e)) by {
            assert(manifest_bytes(m.drop_last()) + vstd::utf8::encode_utf8(e.0) + seq![0u8]
                + vstd::utf8::encode_utf8(e.1) + seq![10u8] =~= manifest_bytes(m.drop_last())
                + entry_bytes(e));
        }
        assert(manifest_bytes(m.drop_first()) == manifest_bytes(m.drop_first().drop_last())
            + entry_bytes(e)) by {
            let f = m.drop_first();
            assert(manifest_bytes(f.drop_last()) + vstd::utf8::encode_utf8(e.0) + seq![0u8]
                + vstd::utf8::encode_utf8(e.1) + seq![10u8] =~= manifest_bytes(f.drop_last())
                + entry_bytes(e));
        }
        assert(manifest_bytes(m) =~= entry_bytes(m[0]) + manifest_bytes(m.drop_first()));
    }
}

/// Paths without NUL and digests without newline: the shape every manifest
/// of real files has (digests are lowercase hex).
pub open spec fn plain_manifest(m: Seq<(Seq<char>, Seq<char>)>) -> bool {
    forall|k: int| 0 <= k < m.len() ==> !(#[trigger] m[k]).0.contains('\0') && !m[k].1.contains('\n')
}

/// Law: a snapshot's identity covers the whole tree. Two manifests are hashed
/// from the same bytes only if they are the same manifest, paths and digests
/// alike: renaming a file, or changing its content, changes the bytes and so
/// the snapshot id (short of a SHA-256 collision).
pub proof fn law_manifest_bytes_determine_manifest(
    m1: Seq<(Seq<char>, Seq<char>)>,
    m2: Seq<(Seq<char>, Seq<char>)>,
)
    requires
        plain_manifest(m1),
        plain_manifest(m2),
        manifest_bytes(m1) == manifest_bytes(m2),
    ensures
        m1 == m2,
    decreases m1.len(),
{
    broadcast use vstd::utf8::encode_utf8_decode_utf8;

    if m1.len() == 0 && m2.len() > 0 {
        lemma_manifest_bytes_front(m2);
        assert(manifest_bytes(m1) =~= Seq::<u8>::empty());
        assert(entry_bytes(m2[0]).len() > 0);
    } else if m2.len() == 0 && m1.len() > 0 {
        lemma_manifest_bytes_front(m1);
        assert(manifest_bytes(m2) =~= Seq::<u8>::empty());
        assert(entry_bytes(m1[0]).len() > 0);
    } else if m1.len() == 0 && m2.len() == 0 {
        assert(m1 =~= m2);
    } else {
        lemma_manifest_bytes_front(m1);
        lemma_manifest_bytes_front(m2);
        let (p1, d1) = m1[0];
        let (p2, d2) = m2[0];
        let r1 = manifest_bytes(m1.drop_first());
        let r2 = manifest_bytes(m2.drop_first());
        let e = |s: Seq<char>| vstd::utf8::encode_utf8(s);
        lemma_utf8_ascii_byte(p1, 0u8);
        lemma_utf8_ascii_byte(p2, 0u8);
        lemma_utf8_ascii_byte(d1, 10u8);
        lemma_utf8_ascii_byte(d2, 10u8);
        assert(!p1.contains('\0') && !p2.contains('\0'));
        assert(!d1.contains('\n') && !d2.contains('\n'));
        let t1 = e(d1) + seq![10u8] + r1;
        let t2 = e(d2) + seq![10u8] + r2;
        assert(e(p1) + seq![0u8] + t1 =~= entry_bytes(m1[0]) + r1);
        assert(e(p2) + seq![0u8] + t2 =~= entry_bytes(m2[0]) + r2);
        lemma_split_at_separator(e(p1), t1, e(p2), t2, 0u8);
        lemma_split_at_separator(e(d1), r1, e(d2), r2, 10u8);
        assert(vstd::utf8::decode_utf8(e(p1)) == p1);
        assert(vstd::utf8::decode_utf8(e(p2)) == p2);
        assert(vstd::utf8::decode_utf8(e(d1)) == d1);
        assert(vstd::utf8::decode_utf8(e(d2)) == d2);
        assert forall|k: int| 0 <= k < m1.drop_first().len() implies !(#[trigger] m1.drop_first()[k]).0.contains('\0')
            && !m1.drop_first()[k].1.contains('\n') by {
            assert(m1.drop_first()[k] == m1[k + 1]);
        }
        assert forall|k: int| 0 <= k < m2.drop_first().len() implies !(#[trigger] m2.drop_first()[k]).0.contains('\0')
            && !m2.drop_first()[k].1.contains('\n') by {
            assert(m2.drop_first()[k] == m2[k + 1]);
        }
        law_manifest_bytes_determine_manifest(m1.drop_first(), m2.drop_first());
        assert(m1 =~= seq![m1[0]] + m1.drop_first());
        assert(m2 =~= seq![m2[0]] + m2.drop_first());
    }
}

/// Files `(path, bytes)` as `(path, digest)`.
pub open spec fn hashed(files: Seq<(Seq<char>, Seq<u8>)>) -> Seq<(Seq<char>, Seq<char>)> {
    files.map_values(|f: (Seq<char>, Seq<u8>)| (f.0, hex_lower(sha256_spec(f.1))))
}

/// Law: the snapshot bytes of a plot's files determine its tree. For files
/// whose paths hold no NUL, two file sets whose sorted manifests hash the same
/// bytes have the same paths with the same digests.
pub proof fn law_tree_bytes_determine_tree(
    f1: Seq<(Seq<char>, Seq<u8>)>,
    f2: Seq<(Seq<char>, Seq<u8>)>,
)
    requires
        forall|k: int| 0 <= k < f1.len() ==> !(#[trigger] f1[k]).0.contains('\0'),
        forall|k: int| 0 <= k < f2.len() ==> !(#[trigger] f2[k]).0.contains('\0'),
        manifest_bytes(sort_by(hashed(f1), first_lt::<Seq<char>>())) == manifest_bytes(
            sort_by(hashed(f2), first_lt::<Seq<char>>()),
        ),
    ensures
        sort_by(hashed(f1), first_lt::<Seq<char>>()) == sort_by(hashed(f2), first_lt::<Seq<char>>()),
{
    lemma_tree_manifest_plain(f1);
    lemma_tree_manifest_plain(f2);
    law_manifest_bytes_determine_manifest(
        sort_by(hashed(f1), first_lt::<Seq<char>>()),
        sort_by(hashed(f2), first_lt::<Seq<char>>()),
    );
}

/// The sorted manifest of files whose paths hold no NUL is plain: its
/// digests are lowercase hex.
proof fn lemma_tree_manifest_plain(f: Seq<(Seq<char>, Seq<u8>)>)
    requires
        forall|k: int| 0 <= k < f.len() ==> !(#[trigger] f[k]).0.contains('\0'),
    ensures
        plain_manifest(sort_by(hashed(f), first_lt::<Seq<char>>())),
{
    let h = hashed(f);
    let m = sort_by(h, first_lt::<Seq<char>>());
    assert forall|k: int| 0 <= k < m.len() implies !(#[trigger] m[k]).0.contains('\0') && !m[k].1.contains(
        '\n',
    ) by {
        crate::order::lemma_sort_by_contains(h, first_lt::<Seq<char>>(), m[k]);
        assert(m.contains(m[k]));
        let j = choose|j: int| 0 <= j < h.len() && h[j] == m[k];
        assert(h[j] == (f[j].0, hex_lower(sha256_spec(f[j].1))));
        lemma_hex_lower_chars(sha256_spec(f[j].1));
        let d = hex_lower(sha256_spec(f[j].1));
        if d.contains('\n') {
            let q = choose|q: int| 0 <= q < d.len() && d[q] == '\n';
            assert(('0' <= d[q] <= '9') || ('a' <= d[q] <= 'f'));
        }
    }
}

/// A file's path and bytes.
pub open spec fn file_view() -> spec_fn((String, Vec<u8>)) -> (Seq<char>, Seq<u8>) {
    |f: (String, Vec<u8>)| (f.0@, f.1@)
}

/// A manifest entry's path and digest.
pub open spec fn digest_pair_view() -> spec_fn((String, String)) -> (Seq<char>, Seq<char>) {
    |p: (String, String)| (p.0@, p.1@)
}

/// The current snapshot id recorded in a HEAD file's text, if any.
pub open spec fn head_of(text: Option<Seq<char>>) -> Option<Seq<char>> {
    match text {
        Some(t) => if trim(t).len() > 0 {
            Some(trim(t))
        } else {
            None
        },
        None => None,
    }
}

/// Law: right after a snapshot of a plot's files, the plot's status is
/// clean. The HEAD text written for the snapshot (its id and a newline) reads
/// back as that id, and the identity of the unchanged working tree is the
/// same id. (`plot_commit` gives ids of 64 characters, so the guard holds.)
pub proof fn law_status_after_commit(files: Seq<(Seq<char>, Seq<u8>)>)
    ensures
        ({
            let id = manifest_digest(sort_by(hashed(files), first_lt::<Seq<char>>()));
            id.len() > 0 ==> head_of(Some(id + "\n"@)) == Some(id)
        }),
{
    let id = manifest_digest(sort_by(hashed(files), first_lt::<Seq<char>>()));
    if id.len() > 0 {
        lemma_hex_lower_chars(sha256_spec(manifest_bytes(sort_by(hashed(files), first_lt::<Seq<char>>()))));
        reveal_strlit("\n");
        let t = id + "\n"@;
        assert(t[0] == id[0]);
        assert(!is_ws(t[0]));
        assert(trim_start(t) == t);
        assert(is_ws(t.last()));
        assert(t.drop_last() == id);
        assert(!is_ws(id.last()));
        assert(trim_end(t) == trim_end(id));
        assert(trim_end(id) == id);
    }
}

/// Snapshots whose id starts with `prefix`.
pub open spec fn id_starts(prefix: Seq<char>) -> spec_fn(CommitMeta) -> bool {
    |c: CommitMeta| has_prefix(c.id@, prefix)
}

/// Snapshots whose id is `id`.
pub open spec fn id_is(id: Seq<char>) -> spec_fn(CommitMeta) -> bool {
    |c: CommitMeta| c.id@ == id
}

/// The snapshot a rewind to `prefix` picks among `cs` (newest first): the
/// one whose id is `prefix`, else the only one whose id starts with it.
pub open spec fn chosen_commit(cs: Seq<CommitMeta>, prefix: Seq<char>) -> Result<int, MemoryFault> {
    let first = first_index(cs, id_starts(prefix));
    let exact = first_index(cs, id_is(prefix));
    if first < 0 {
        Err(MemoryFault::CommitNotFound(prefix))
    } else if exact >= 0 {
        Ok(exact)
    } else if exists|j: int| first < j < cs.len() && #[trigger] has_prefix(cs[j].id@, prefix) {
        Err(MemoryFault::AmbiguousCommit(prefix))
    } else {
        Ok(first)
    }
}

/// Law: rewinding to the full id of a listed snapshot picks that snapshot,
/// when ids are distinct.
pub proof fn law_full_id_picks_snapshot(cs: Seq<CommitMeta>, i: int)
    requires
        0 <= i < cs.len(),
        forall|a: int, b: int| 0 <= a < b < cs.len() ==> cs[a].id@ != cs[b].id@,
    ensures
        chosen_commit(cs, cs[i].id@) == Ok::<int, MemoryFault>(i),
{
    let id = cs[i].id@;
    lemma_first_index(cs, id_is(id));
    lemma_first_index(cs, id_starts(id));
    assert(id.take(id.len() as int) == id);
    assert((id_is(id))(cs[i]));
    assert((id_starts(id))(cs[i]));
    let k = first_index(cs, id_is(id));
    assert(k >= 0);
    assert(cs[k].id@ == id);
}

/// Law: a prefix that exactly one listed snapshot's id starts with picks it.
pub proof fn law_unique_prefix_picks_snapshot(cs: Seq<CommitMeta>, prefix: Seq<char>, i: int)
    requires
        0 <= i < cs.len(),
        has_prefix(cs[i].id@, prefix),
        forall|j: int| 0 <= j < cs.len() && j != i ==> !has_prefix(#[trigger] cs[j].id@, prefix),
    ensures
        chosen_commit(cs, prefix) == Ok::<int, MemoryFault>(i),
{
    lemma_first_index(cs, id_starts(prefix));
    lemma_first_index(cs, id_is(prefix));
    assert((id_starts(prefix))(cs[i]));
    let first = first_index(cs, id_starts(prefix));
    assert(first == i) by {
        if first != i {
            assert((id_starts(prefix))(cs[first]));
        }
    }
    let exact = first_index(cs, id_is(prefix));
    if exact >= 0 {
        assert(cs[exact].id@ == prefix);
        assert(prefix.take(prefix.len() as int) == prefix);
        assert(has_prefix(cs[exact].id@, prefix));
    }
}

/// Snapshots are listed newest first (by their creation stamps).
impl Ordered for CommitMeta {
    open spec fn precedes(a: CommitMeta, b: CommitMeta) -> bool {
        seq_lt(b.created_at@, a.created_at@)
    }

    fn goes_before(&self, other: &CommitMeta) -> (r: bool) {
        str_lt(other.created_at.as_str(), self.created_at.as_str())
    }
}

/// Listing entries are kept in order of their paths.
impl Ordered for PlotEntry {
    open spec fn precedes(a: PlotEntry, b: PlotEntry) -> bool {
        seq_lt(a.path@, b.path@)
    }

    fn goes_before(&self, other: &PlotEntry) -> (r: bool) {
        str_lt(self.path.as_str(), other.path.as_str())
    }
}

impl CommitMeta {
    /// A field-by-field copy.
    pub fn duplicate(&self) -> (c: CommitMeta)
        ensures
            c == *self,
    {
        CommitMeta {
            id: self.id.clone(),
            created_at: self.created_at.clone(),
            message: match &self.message {
                Some(m) => Some(m.clone()),
                None => None,
            },
            file_count: self.file_count,
        }
    }
}

/// Whether `s` contains `c`.
fn has_char(s: &str, c: char) -> (r: bool)
    ensures
        r == s@.contains(c),
{
    let v = chars_of(s);
    let mut i: usize = 0;
    while i < v.len()
        invariant
            v@ == s@,
            i <= v@.len(),
            forall|j: int| 0 <= j < i ==> v@[j] != c,
        decreases v@.len() - i,
    {
        if v[i] == c {
            return true;
        }
        i = i + 1;
    }
    false
}

/// Whether the plot-relative path `r` may be used.
fn rel_allowed(r: &str) -> (ok: bool)
    ensures
        ok == rel_ok(r@),
{
    proof {
        reveal_strlit("..");
        reveal_strlit(".helix");
    }
    let v = chars_of(r);
    if v.len() > 0 && v[0] == '/' {
        return false;
    }
    let parts = split_char(r, '/');
    let ghost ps = split_at_char(r@, '/');
    let mut i: usize = 0;
    while i < parts.len()
        invariant
            parts@.map_values(|w: String| w@) == ps,
            ps == split_at_char(r@, '/'),
            i <= ps.len(),
            forall|j: int| 0 <= j < i ==> !bad_part(#[trigger] ps[j]),
        decreases ps.len() - i,
    {
        let g = &parts[i];
        assert(g@ == ps[i as int]);
        if str_eq(g.as_str(), "..") || str_eq(g.as_str(), ".helix") || has_char(g.as_str(), '\0') {
            assert(bad_part(ps[i as int]));
            return false;
        }
        i = i + 1;
    }
    true
}

/// `s` with backslashes turned into forward slashes.
fn with_forward_slashes(s: &str) -> (r: String)
    ensures
        r@ == forward_slashes(s@),
{
    let v = chars_of(s);
    let mut out = String::new();
    let mut i: usize = 0;
    while i < v.len()
        invariant
            v@ == s@,
            i <= v@.len(),
            out@ == forward_slashes(v@.take(i as int)),
        decreases v@.len() - i,
    {
        let c = v[i];
        push_char(&mut out, if c == '\\' { '/' } else { c });
        assert(forward_slashes(v@.take(i + 1)) == forward_slashes(v@.take(i as int)).push(
            if c == '\\' { '/' } else { c },
        ));
        i = i + 1;
    }
    assert(v@.take(i as int) == s@);
    out
}

/// The manifest bytes of `m`, built entry by entry.
fn manifest_bytes_of(m: &[(String, String)]) -> (b: Vec<u8>)
    ensures
        b@ == manifest_bytes(m@.map_values(digest_pair_view())),
{
    let ghost ms = m@.map_values(digest_pair_view());
    let mut b: Vec<u8> = Vec::new();
    let mut i: usize = 0;
    assert(ms.take(0) == Seq::<(Seq<char>, Seq<char>)>::empty());
    while i < m.len()
        invariant
            ms == m@.map_values(digest_pair_view()),
            i <= m@.len(),
            b@ == manifest_bytes(ms.take(i as int)),
        decreases m@.len() - i,
    {
        let ghost before = b@;
        append_bytes(&mut b, m[i].0.as_str().as_bytes());
        b.push(0u8);
        append_bytes(&mut b, m[i].1.as_str().as_bytes());
        b.push(10u8);
        assert(ms.take(i + 1).drop_last() == ms.take(i as int));
        assert(ms.take(i + 1).last() == (m@[i as int].0@, m@[i as int].1@));
        assert(b@ == before + vstd::utf8::encode_utf8(m@[i as int].0@) + seq![0u8]
            + vstd::utf8::encode_utf8(m@[i as int].1@) + seq![10u8]);
        i = i + 1;
    }
    assert(ms.take(i as int) == ms);
    b
}

/// `b` followed by `more`.
fn append_bytes(b: &mut Vec<u8>, more: &[u8])
    ensures
        final(b)@ == old(b)@ + more@,
{
    let ghost start = b@;
    let mut i: usize = 0;
    while i < more.len()
        invariant
            i <= more@.len(),
            b@ == start + more@.take(i as int),
        decreases more@.len() - i,
    {
        b.push(more[i]);
        assert(more@.take(i + 1) == more@.take(i as int).push(more@[i as int]));
        i = i + 1;
    }
    assert(more@.take(i as int) == more@);
}

impl HelixHome {
    /// The path that `rel` inside plot `plot` names before the filesystem is
    /// consulted, when the names allow one: the path to probe.
    pub fn plot_candidate(&self, plot: &str, rel: &str) -> (r: Option<String>)
        ensures
            valid_plot_name(plot@) && plot_rel(rel@).len() > 0 && rel_ok(plot_rel(rel@)) ==> (r matches Some(
                p,
            ) && p@ == join_path(plot_root(self.root@, plot@), plot_rel(rel@))),
            !(valid_plot_name(plot@) && plot_rel(rel@).len() > 0 && rel_ok(plot_rel(rel@))) ==> r is None,
    {
        let pd = match self.plot_path(plot) {
            Ok(p) => p,
            Err(_) => return None,
        };
        let r = trim_start_char(trimmed(rel).as_str(), '\\');
        if r.as_str().is_empty() || !rel_allowed(r.as_str()) {
            return None;
        }
        Some(path_join(pd.as_str(), r.as_str()))
    }

    /// Resolve a plot-relative path. Rejects `..`, absolute paths, `.helix`
    /// and anything that leads outside the plot; an empty `rel` means the
    /// plot root itself.
    pub fn plot_resolve(&self, plot: &str, rel: &str, probe: &PlotProbe) -> (r: Result<
        String,
        MemoryError,
    >)
        ensures
            match r {
                Ok(p) => probed_target(self.root@, plot@, rel@, *probe) == Ok::<
                    Seq<char>,
                    MemoryFault,
                >(p@),
                Err(e) => probed_target(self.root@, plot@, rel@, *probe) == Err::<
                    Seq<char>,
                    MemoryFault,
                >(e@),
            },
    {
        let pd = self.plot_dir(plot, probe.plot_is_dir)?;
        let r = trim_start_char(trimmed(rel).as_str(), '\\');
        if r.as_str().is_empty() {
            return Ok(pd);
        }
        if !rel_allowed(r.as_str()) {
            return Err(MemoryError::InvalidPlotPath(r));
        }
        let canon = match &probe.plot_canonical {
            Some(c) => c.clone(),
            None => pd.clone(),
        };
        match &probe.target_canonical {
            Some(c) => {
                if within(c.as_str(), canon.as_str()) {
                    Ok(c.clone())
                } else {
                    Err(MemoryError::InvalidPlotPath(r))
                }
            },
            None => {
                match &probe.parent_canonical {
                    Some(pc) => {
                        if !within(pc.as_str(), canon.as_str()) {
                            return Err(MemoryError::InvalidPlotPath(r));
                        }
                    },
                    None => {},
                }
                Ok(path_join(pd.as_str(), r.as_str()))
            },
        }
    }

    /// Entries of a plot directory (non-recursive), `.helix` hidden, sorted by
    /// path. `exists` and `is_dir` describe the resolved directory; `listing`
    /// holds its entries' names and whether each is a directory.
    pub fn plot_list_files(
        &self,
        plot: &str,
        rel: &str,
        probe: &PlotProbe,
        exists: bool,
        is_dir: bool,
        listing: &[(String, bool)],
    ) -> (r: Result<Vec<PlotEntry>, MemoryError>)
        ensures
            match probed_target(self.root@, plot@, rel@, *probe) {
                Err(f) => r matches Err(e) && e@ == f,
                Ok(dir) => if !exists {
                    r matches Err(e) && e@ == MemoryFault::PlotPathNotFound(rel@)
                } else if !is_dir {
                    r matches Err(e) && e@ == MemoryFault::PlotPathNotDir(rel@)
                } else {
                    r matches Ok(v) && v@.map_values(entry_view()) == sort_by(
                        plot_entries(
                            dir,
                            plot_root(self.root@, plot@),
                            listing@.map_values(listing_view()),
                        ),
                        first_lt::<bool>(),
                    )
                },
            },
    {
        proof {
            reveal_strlit(".helix");
        }
        let dir = self.plot_resolve(plot, rel, probe)?;
        if !exists {
            return Err(MemoryError::PlotPathNotFound(owned(rel)));
        }
        if !is_dir {
            return Err(MemoryError::PlotPathNotDir(owned(rel)));
        }
        let pd = self.plot_dir(plot, probe.plot_is_dir)?;
        let ghost ls = listing@.map_values(listing_view());
        let mut out: Vec<PlotEntry> = Vec::new();
        let mut i: usize = 0;
        assert(ls.take(0) == Seq::<(Seq<char>, bool)>::empty());
        while i < listing.len()
            invariant
                ls == listing@.map_values(listing_view()),
                i <= ls.len(),
                out@.map_values(entry_view()) == plot_entries(dir@, pd@, ls.take(i as int)),
            decreases ls.len() - i,
        {
            let name = &listing[i].0;
            assert(ls.take(i + 1).drop_last() == ls.take(i as int));
            assert(ls.take(i + 1).last() == (name@, listing@[i as int].1));
            if !str_eq(name.as_str(), ".helix") {
                let full = path_join(dir.as_str(), name.as_str());
                let relp = relative_path(full.as_str(), pd.as_str());
                let path = with_forward_slashes(relp.as_str());
                let ghost before = out@;
                out.push(PlotEntry { path, is_dir: listing[i].1 });
                assert(out@.map_values(entry_view()) == before.map_values(entry_view()).push(
                    (path@, listing@[i as int].1),
                ));
            }
            i = i + 1;
        }
        assert(ls.take(i as int) == ls);
        let ghost unsorted = out@;
        let sorted = sort_in_order(out);
        proof {
            lemma_sort_view(unsorted, entry_view(), first_lt::<bool>());
        }
        Ok(sorted)
    }

    /// The file to read for `rel` inside plot `plot`; `exists` and `is_dir`
    /// describe the resolved path.
    pub fn plot_read_file(
        &self,
        plot: &str,
        rel: &str,
        probe: &PlotProbe,
        exists: bool,
        is_dir: bool,
    ) -> (r: Result<String, MemoryError>)
        ensures
            trim(rel@).len() == 0 ==> (r matches Err(e) && e@ == MemoryFault::InvalidPlotPath(
                "(empty)"@,
            )),
            trim(rel@).len() > 0 ==> match probed_target(self.root@, plot@, rel@, *probe) {
                Err(f) => r matches Err(e) && e@ == f,
                Ok(p) => if !exists {
                    r matches Err(e) && e@ == MemoryFault::PlotPathNotFound(rel@)
                } else if is_dir {
                    r matches Err(e) && e@ == MemoryFault::PlotPathIsDir(rel@)
                } else {
                    r matches Ok(q) && q@ == p
                },
            },
    {
        self.existing_file(plot, rel, probe, exists, is_dir)
    }

    /// The file to write for `rel` inside plot `plot` (its parent directories
    /// are created); `is_dir` tells whether the resolved path is a directory.
    pub fn plot_write_file(&self, plot: &str, rel: &str, probe: &PlotProbe, is_dir: bool) -> (r:
        Result<String, MemoryError>)
        ensures
            trim(rel@).len() == 0 ==> (r matches Err(e) && e@ == MemoryFault::InvalidPlotPath(
                "(empty)"@,
            )),
            trim(rel@).len() > 0 ==> match probed_target(self.root@, plot@, rel@, *probe) {
                Err(f) => r matches Err(e) && e@ == f,
                Ok(p) => if is_dir {
                    r matches Err(e) && e@ == MemoryFault::PlotPathIsDir(rel@)
                } else {
                    r matches Ok(q) && q@ == p
                },
            },
    {
        let t = trimmed(rel);
        if t.as_str().is_empty() {
            return Err(MemoryError::InvalidPlotPath(owned("(empty)")));
        }
        let path = self.plot_resolve(plot, rel, probe)?;
        if is_dir {
            return Err(MemoryError::PlotPathIsDir(owned(rel)));
        }
        Ok(path)
    }

    /// The file to delete for `rel` inside plot `plot` (never a directory);
    /// `exists` and `is_dir` describe the resolved path.
    pub fn plot_delete_file(
        &self,
        plot: &str,
        rel: &str,
        probe: &PlotProbe,
        exists: bool,
        is_dir: bool,
    ) -> (r: Result<String, MemoryError>)
        ensures
            trim(rel@).len() == 0 ==> (r matches Err(e) && e@ == MemoryFault::InvalidPlotPath(
                "(empty)"@,
            )),
            trim(rel@).len() > 0 ==> match probed_target(self.root@, plot@, rel@, *probe) {
                Err(f) => r matches Err(e) && e@ == f,
                Ok(p) => if !exists {
                    r matches Err(e) && e@ == MemoryFault::PlotPathNotFound(rel@)
                } else if is_dir {
                    r matches Err(e) && e@ == MemoryFault::PlotPathIsDir(rel@)
                } else {
                    r matches Ok(q) && q@ == p
                },
            },
    {
        self.existing_file(plot, rel, probe, exists, is_dir)
    }

    /// An existing file (not a directory) under a plot.
    fn existing_file(&self, plot: &str, rel: &str, probe: &PlotProbe, exists: bool, is_dir: bool) -> (r:
        Result<String, MemoryError>)
        ensures
            trim(rel@).len() == 0 ==> (r matches Err(e) && e@ == MemoryFault::InvalidPlotPath(
                "(empty)"@,
            )),
            trim(rel@).len() > 0 ==> match probed_target(self.root@, plot@, rel@, *probe) {
                Err(f) => r matches Err(e) && e@ == f,
                Ok(p) => if !exists {
                    r matches Err(e) && e@ == MemoryFault::PlotPathNotFound(rel@)
                } else if is_dir {
                    r matches Err(e) && e@ == MemoryFault::PlotPathIsDir(rel@)
                } else {
                    r matches Ok(q) && q@ == p
                },
            },
    {
        let t = trimmed(rel);
        if t.as_str().is_empty() {
            return Err(MemoryError::InvalidPlotPath(owned("(empty)")));
        }
        let path = self.plot_resolve(plot, rel, probe)?;
        if !exists {
            return Err(MemoryError::PlotPathNotFound(owned(rel)));
        }
        if is_dir {
            return Err(MemoryError::PlotPathIsDir(owned(rel)));
        }
        Ok(path)
    }

    /// The manifest of a plot's files `(path relative to the plot, bytes)`:
    /// each path with the lowercase hex SHA-256 of its bytes, sorted by path.
    pub fn tree_manifest(files: &[(String, Vec<u8>)]) -> (m: Vec<(String, String)>)
        ensures
            m@.map_values(digest_pair_view()) == sort_by(
                hashed(files@.map_values(file_view())),
                first_lt::<Seq<char>>(),
            ),
    {
        let ghost fs = files@.map_values(file_view());
        let mut out: Vec<(String, String)> = Vec::new();
        let mut i: usize = 0;
        while i < files.len()
            invariant
                fs == files@.map_values(file_view()),
                i <= fs.len(),
                out@.map_values(digest_pair_view()) == hashed(fs).take(i as int),
            decreases fs.len() - i,
        {
            let d = sha256_hex(files[i].1.as_slice());
            let ghost before = out@;
            out.push((files[i].0.clone(), d));
            assert(out@.map_values(digest_pair_view()) == before.map_values(digest_pair_view()).push(
                hashed(fs)[i as int],
            ));
            assert(hashed(fs).take(i + 1) == hashed(fs).take(i as int).push(hashed(fs)[i as int]));
            i = i + 1;
        }
        assert(hashed(fs).take(i as int) == hashed(fs));
        Self::sort_manifest(out)
    }

    /// Manifest entries `(path, digest)` sorted by path.
    pub fn sort_manifest(entries: Vec<(String, String)>) -> (m: Vec<(String, String)>)
        ensures
            m@.map_values(digest_pair_view()) == sort_by(
                entries@.map_values(digest_pair_view()),
                first_lt::<Seq<char>>(),
            ),
    {
        let ghost unsorted = entries@;
        let sorted = sort_in_order(entries);
        proof {
            lemma_sort_view(unsorted, digest_pair_view(), first_lt::<Seq<char>>());
        }
        sorted
    }

    /// The identity of a manifest: lowercase hex SHA-256 over its entries.
    pub fn manifest_id(manifest: &[(String, String)]) -> (id: String)
        ensures
            id@ == manifest_digest(manifest@.map_values(digest_pair_view())),
            id@.len() == 64,
    {
        let b = manifest_bytes_of(manifest);
        sha256_hex(b.as_slice())
    }

    /// The metadata of a snapshot of `manifest` taken at `created_at`.
    pub fn plot_commit(manifest: &[(String, String)], message: Option<String>, created_at: String) -> (c:
        CommitMeta)
        ensures
            c.id@ == manifest_digest(manifest@.map_values(digest_pair_view())),
            c.id@.len() == 64,
            c.created_at == created_at,
            c.message == message,
            c.file_count == manifest@.len(),
    {
        CommitMeta {
            id: Self::manifest_id(manifest),
            created_at,
            message,
            file_count: manifest.len(),
        }
    }

    /// The directory of snapshot `id` of the plot at `plot_dir`.
    pub fn commit_dir(plot_dir: &str, id: &str) -> (p: String)
        ensures
            p@ == join_path(join_path(join_path(plot_dir@, ".helix"@), "commits"@), id@),
    {
        let c = Self::commits_dir(plot_dir);
        path_join(c.as_str(), id)
    }

    /// The saved tree of snapshot `id` of the plot at `plot_dir`.
    pub fn commit_tree(plot_dir: &str, id: &str) -> (p: String)
        ensures
            p@ == join_path(
                join_path(join_path(join_path(plot_dir@, ".helix"@), "commits"@), id@),
                "tree"@,
            ),
    {
        let c = Self::commit_dir(plot_dir, id);
        path_join(c.as_str(), "tree")
    }

    /// The text of a HEAD file naming snapshot `id`.
    pub fn head_text(id: &str) -> (t: String)
        ensures
            t@ == id@ + "\n"@,
    {
        let mut t = owned(id);
        push_str(&mut t, "\n");
        t
    }

    /// Snapshots newest first.
    pub fn plot_list(commits: Vec<CommitMeta>) -> (r: Vec<CommitMeta>)
        ensures
            r@ == sort_stable(commits@),
    {
        sort_in_order(commits)
    }

    /// The current snapshot id in a HEAD file's text (`None` when the file
    /// does not exist or is blank).
    pub fn plot_head(head_text: Option<&str>) -> (r: Option<String>)
        ensures
            opt_view(r) == head_of(
                match head_text {
                    Some(t) => Some(t@),
                    None => None,
                },
            ),
    {
        match head_text {
            Some(t) => {
                let id = trimmed(t);
                if id.as_str().is_empty() {
                    None
                } else {
                    Some(id)
                }
            },
            None => None,
        }
    }

    /// The recorded snapshot and the identity of the working tree of plot
    /// `plot`, given its HEAD file's text and its files `(path, bytes)`.
    pub fn plot_status(
        &self,
        plot: &str,
        plot_is_dir: bool,
        head_text: Option<&str>,
        files: &[(String, Vec<u8>)],
    ) -> (r: Result<(Option<String>, String), MemoryError>)
        ensures
            !valid_plot_name(plot@) ==> (r matches Err(e) && e@ == MemoryFault::InvalidPlotName(
                plot@,
            )),
            valid_plot_name(plot@) && !plot_is_dir ==> (r matches Err(e) && e@
                == MemoryFault::PlotNotFound(plot@)),
            valid_plot_name(plot@) && plot_is_dir ==> (r matches Ok(s) && opt_view(s.0) == head_of(
                match head_text {
                    Some(t) => Some(t@),
                    None => None,
                },
            ) && s.1@ == manifest_digest(
                sort_by(hashed(files@.map_values(file_view())), first_lt::<Seq<char>>()),
            )),
    {
        self.plot_dir(plot, plot_is_dir)?;
        let head = Self::plot_head(head_text);
        let manifest = Self::tree_manifest(files);
        let working = Self::manifest_id(manifest.as_slice());
        Ok((head, working))
    }

    /// The snapshot a rewind to `prefix` picks among `commits` (as
    /// `plot_list` orders them).
    pub fn select_commit(commits: &[CommitMeta], prefix: &str) -> (r: Result<CommitMeta, MemoryError>)
        ensures
            match chosen_commit(commits@, prefix@) {
                Ok(i) => r matches Ok(c) && c == commits@[i],
                Err(f) => r matches Err(e) && e@ == f,
            },
    {
        let ghost cs = commits@;
        let pv = chars_of(prefix);
        let mut first: Option<usize> = None;
        let mut exact: Option<usize> = None;
        let mut more = false;
        let mut i: usize = 0;
        proof {
            lemma_first_index(cs, id_starts(prefix@));
            lemma_first_index(cs, id_is(prefix@));
        }
        while i < commits.len()
            invariant
                cs == commits@,
                pv@ == prefix@,
                i <= cs.len(),
                -1 <= first_index(cs, id_starts(prefix@)) < cs.len(),
                -1 <= first_index(cs, id_is(prefix@)) < cs.len(),
                forall|j: int|
                    0 <= j < cs.len() && (first_index(cs, id_starts(prefix@)) < 0 || j < first_index(
                        cs,
                        id_starts(prefix@),
                    )) ==> !(#[trigger] id_starts(prefix@)(cs[j])),
                first_index(cs, id_starts(prefix@)) >= 0 ==> id_starts(prefix@)(
                    cs[first_index(cs, id_starts(prefix@))],
                ),
                forall|j: int|
                    0 <= j < cs.len() && (first_index(cs, id_is(prefix@)) < 0 || j < first_index(
                        cs,
                        id_is(prefix@),
                    )) ==> !(#[trigger] id_is(prefix@)(cs[j])),
                first_index(cs, id_is(prefix@)) >= 0 ==> id_is(prefix@)(
                    cs[first_index(cs, id_is(prefix@))],
                ),
                match first {
                    Some(f) => f < i && f == first_index(cs, id_starts(prefix@)),
                    None => first_index(cs, id_starts(prefix@)) < 0 || first_index(
                        cs,
                        id_starts(prefix@),
                    ) >= i,
                },
                match exact {
                    Some(x) => x < i && x == first_index(cs, id_is(prefix@)),
                    None => first_index(cs, id_is(prefix@)) < 0 || first_index(cs, id_is(prefix@))
                        >= i,
                },
                more <==> exists|j: int|
                    first_index(cs, id_starts(prefix@)) < j < i && #[trigger] has_prefix(
                        cs[j].id@,
                        prefix@,
                    ),
            decreases cs.len() - i,
        {
            let idv = chars_of(commits[i].id.as_str());
            let starts = crate::text::starts_with(idv.as_slice(), prefix);
            assert(starts == id_starts(prefix@)(cs[i as int]));
            let same = str_eq(commits[i].id.as_str(), prefix);
            assert(same == id_is(prefix@)(cs[i as int]));
            if starts {
                match first {
                    Some(_) => {
                        more = true;
                    },
                    None => {
                        first = Some(i);
                    },
                }
            }
            if same && exact.is_none() {
                exact = Some(i);
            }
            i = i + 1;
        }
        match first {
            None => Err(MemoryError::CommitNotFound(owned(prefix))),
            Some(f) => match exact {
                Some(x) => Ok(commits[x].duplicate()),
                None => {
                    if more {
                        Err(MemoryError::AmbiguousCommit(owned(prefix)))
                    } else {
                        Ok(commits[f].duplicate())
                    }
                },
            },
        }
    }

    /// The snapshot to restore for a rewind to `prefix` and its saved tree;
    /// `tree_is_dir` tells whether that tree directory exists.
    pub fn plot_rewind(plot_dir: &str, commits: &[CommitMeta], prefix: &str, tree_is_dir: bool) -> (r:
        Result<(CommitMeta, String), MemoryError>)
        ensures
            match chosen_commit(commits@, prefix@) {
                Err(f) => r matches Err(e) && e@ == f,
                Ok(i) => if tree_is_dir {
                    r matches Ok(p) && p.0 == commits@[i] && p.1@ == join_path(
                        join_path(
                            join_path(join_path(plot_dir@, ".helix"@), "commits"@),
                            commits@[i].id@,
                        ),
                        "tree"@,
                    )
                } else {
                    r matches Err(e) && e@ == MemoryFault::CommitNotFound(commits@[i].id@)
                },
            },
    {
        let meta = Self::select_commit(commits, prefix)?;
        let tree = Self::commit_tree(plot_dir, meta.id.as_str());
        if !tree_is_dir {
            return Err(MemoryError::CommitNotFound(meta.id.clone()));
        }
        Ok((meta, tree))
    }
}

} // verus!
