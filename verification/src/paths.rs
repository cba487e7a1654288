//! Paths as text, joined the way `PathBuf::push` joins them on Unix.

use crate::text::{chars_of, join, owned, push_char, push_str, str_eq};
use vstd::prelude::*;

verus! {

broadcast use vstd::string::group_string_axioms;

/// `rel` appended to `base`: an absolute `rel` replaces `base`; otherwise a
/// `/` separates them unless `base` is empty or already ends with one.
pub open spec fn join_path(base: Seq<char>, rel: Seq<char>) -> Seq<char> {
    if rel.len() > 0 && rel[0] == '/' {
        rel
    } else if base.len() == 0 || base.last() == '/' {
        base + rel
    } else {
        base + "/"@ + rel
    }
}

/// `base` joined with `rel`.
pub fn path_join(base: &str, rel: &str) -> (p: String)
    ensures
        p@ == join_path(base@, rel@),
{
    proof {
        reveal_strlit("/");
    }
    let rv = chars_of(rel);
    if rv.len() > 0 && rv[0] == '/' {
        return owned(rel);
    }
    let bv = chars_of(base);
    let mut p = owned(base);
    if bv.len() > 0 && bv[bv.len() - 1] != '/' {
        push_str(&mut p, "/");
    }
    push_str(&mut p, rel);
    p
}

/// The pieces of `s` between occurrences of `sep` (empty pieces included),
/// as `str::split` gives them.
pub open spec fn split_at_char(s: Seq<char>, sep: char) -> Seq<Seq<char>>
    decreases s.len(),
{
    if s.len() == 0 {
        seq![Seq::<char>::empty()]
    } else {
        let p = split_at_char(s.drop_last(), sep);
        if s.last() == sep {
            p.push(Seq::<char>::empty())
        } else {
            p.update(p.len() - 1, p.last().push(s.last()))
        }
    }
}

/// Splitting always yields at least one piece.
pub proof fn lemma_split_len(s: Seq<char>, sep: char)
    ensures
        split_at_char(s, sep).len() >= 1,
    decreases s.len(),
{
    if s.len() > 0 {
        lemma_split_len(s.drop_last(), sep);
    }
}

/// The pieces of `s` between occurrences of `sep`.
pub fn split_char(s: &str, sep: char) -> (r: Vec<String>)
    ensures
        r@.map_values(|w: String| w@) == split_at_char(s@, sep),
{
    let v = chars_of(s);
    let mut done: Vec<String> = Vec::new();
    let mut cur = String::new();
    let mut i: usize = 0;
    assert(v@.take(0) == Seq::<char>::empty());
    assert(split_at_char(Seq::<char>::empty(), sep).drop_last() == Seq::<Seq<char>>::empty());
    assert(done@.map_values(|w: String| w@) == Seq::<Seq<char>>::empty());
    while i < v.len()
        invariant
            v@ == s@,
            i <= v@.len(),
            split_at_char(v@.take(i as int), sep).len() >= 1,
            done@.map_values(|w: String| w@) == split_at_char(v@.take(i as int), sep).drop_last(),
            cur@ == split_at_char(v@.take(i as int), sep).last(),
        decreases v@.len() - i,
    {
        let c = v[i];
        let ghost p = split_at_char(v@.take(i as int), sep);
        assert(v@.take(i + 1).drop_last() == v@.take(i as int));
        assert(v@.take(i + 1).last() == c);
        if c == sep {
            let ghost old_done = done@;
            let piece = cur;
            cur = String::new();
            done.push(piece);
            assert(done@.map_values(|w: String| w@) == old_done.map_values(|w: String| w@).push(
                p.last(),
            ));
            assert(p.drop_last().push(p.last()) == p);
            assert(split_at_char(v@.take(i + 1), sep) == p.push(Seq::<char>::empty()));
        } else {
            push_char(&mut cur, c);
            assert(split_at_char(v@.take(i + 1), sep) == p.update(p.len() - 1, p.last().push(c)));
            assert(p.update(p.len() - 1, p.last().push(c)).drop_last() == p.drop_last());
        }
        proof {
            lemma_split_len(v@.take(i + 1), sep);
        }
        i = i + 1;
    }
    assert(v@.take(i as int) == s@);
    let ghost p = split_at_char(s@, sep);
    let ghost old_done = done@;
    let last = cur;
    done.push(last);
    assert(done@.map_values(|w: String| w@) == old_done.map_values(|w: String| w@).push(p.last()));
    assert(p.drop_last().push(p.last()) == p);
    done
}

/// The named components among path pieces: those neither empty nor `.`.
pub open spec fn normal_parts(ps: Seq<Seq<char>>) -> Seq<Seq<char>>
    decreases ps.len(),
{
    if ps.len() == 0 {
        Seq::empty()
    } else if ps.last().len() == 0 || ps.last() == "."@ {
        normal_parts(ps.drop_last())
    } else {
        normal_parts(ps.drop_last()).push(ps.last())
    }
}

/// The components of a Unix path, as `Path::components` gives them: `/` for
/// a root, `.` for a leading current-directory mark, then the named parts.
pub open spec fn path_components(s: Seq<char>) -> Seq<Seq<char>> {
    let lead = if s.len() > 0 && s[0] == '/' {
        seq!["/"@]
    } else if split_at_char(s, '/')[0] == "."@ {
        seq!["."@]
    } else {
        Seq::empty()
    };
    lead + normal_parts(split_at_char(s, '/'))
}

/// `a` is an initial segment of `b`.
pub open spec fn is_prefix_seq<T>(a: Seq<T>, b: Seq<T>) -> bool {
    a.len() <= b.len() && b.take(a.len() as int) == a
}

/// Whether path `p` lies under `base`, comparing whole components
/// (`Path::starts_with`).
pub open spec fn path_within(p: Seq<char>, base: Seq<char>) -> bool {
    is_prefix_seq(path_components(base), path_components(p))
}

/// `p` relative to `base` when it lies under it (its remaining components
/// joined by `/`), else `p` itself.
pub open spec fn relative_to(p: Seq<char>, base: Seq<char>) -> Seq<char> {
    if path_within(p, base) {
        join(path_components(p).skip(path_components(base).len() as int), "/"@)
    } else {
        p
    }
}

/// The components of path `s`.
pub fn components(s: &str) -> (r: Vec<String>)
    ensures
        r@.map_values(|w: String| w@) == path_components(s@),
{
    proof {
        reveal_strlit("/");
        reveal_strlit(".");
    }
    let parts = split_char(s, '/');
    let ghost ps = split_at_char(s@, '/');
    proof {
        lemma_split_len(s@, '/');
    }
    let mut r: Vec<String> = Vec::new();
    let first = &parts[0];
    assert(first@ == ps[0]);
    let sv = chars_of(s);
    let fv = chars_of(first.as_str());
    if sv.len() > 0 && sv[0] == '/' {
        r.push(owned("/"));
    } else if fv.len() == 1 && fv[0] == '.' {
        assert(ps[0] == "."@);
        r.push(owned("."));
    } else {
        proof {
            if ps[0] == "."@ {
                assert(fv@[0] == '.');
            }
        }
    }
    let ghost lead = r@.map_values(|w: String| w@);
    let mut i: usize = 0;
    assert(ps.take(0) == Seq::<Seq<char>>::empty());
    assert(r@.map_values(|w: String| w@) == lead + normal_parts(ps.take(0)));
    while i < parts.len()
        invariant
            parts@.map_values(|w: String| w@) == ps,
            i <= ps.len(),
            r@.map_values(|w: String| w@) == lead + normal_parts(ps.take(i as int)),
        decreases ps.len() - i,
    {
        let part = &parts[i];
        assert(part@ == ps[i as int]);
        assert(ps.take(i + 1).drop_last() == ps.take(i as int));
        assert(ps.take(i + 1).last() == ps[i as int]);
        let pv = chars_of(part.as_str());
        let dot = pv.len() == 1 && pv[0] == '.';
        proof {
            reveal_strlit(".");
            if part@ == "."@ {
                assert(pv@[0] == '.');
            }
            if dot {
                assert(part@ == "."@);
            }
        }
        if pv.len() > 0 && !dot {
            let ghost before = r@;
            r.push(owned(part.as_str()));
            assert(r@.map_values(|w: String| w@) == before.map_values(|w: String| w@).push(part@));
        }
        i = i + 1;
    }
    assert(ps.take(i as int) == ps);
    r
}

/// Whether path `p` lies under `base`, comparing whole components.
pub fn within(p: &str, base: &str) -> (r: bool)
    ensures
        r == path_within(p@, base@),
{
    let pc = components(p);
    let bc = components(base);
    let ghost pv = pc@.map_values(|w: String| w@);
    let ghost bv = bc@.map_values(|w: String| w@);
    if bc.len() > pc.len() {
        return false;
    }
    let mut i: usize = 0;
    while i < bc.len()
        invariant
            pv == pc@.map_values(|w: String| w@),
            bv == bc@.map_values(|w: String| w@),
            pv == path_components(p@),
            bv == path_components(base@),
            bc@.len() <= pc@.len(),
            i <= bc@.len(),
            forall|j: int| 0 <= j < i ==> pv[j] == bv[j],
        decreases bc@.len() - i,
    {
        if !str_eq(pc[i].as_str(), bc[i].as_str()) {
            assert(pv.take(bv.len() as int)[i as int] != bv[i as int]);
            return false;
        }
        i = i + 1;
    }
    assert(pv.take(bv.len() as int) == bv);
    true
}

/// `p` relative to `base` (see `relative_to`).
pub fn relative_path(p: &str, base: &str) -> (r: String)
    ensures
        r@ == relative_to(p@, base@),
{
    proof {
        reveal_strlit("/");
    }
    if !within(p, base) {
        return owned(p);
    }
    let pc = components(p);
    let bc = components(base);
    let ghost pv = pc@.map_values(|w: String| w@);
    let ghost rest = pv.skip(bc@.len() as int);
    let mut out = String::new();
    let mut i = bc.len();
    assert(rest.take(0) == Seq::<Seq<char>>::empty());
    while i < pc.len()
        invariant
            pv == pc@.map_values(|w: String| w@),
            pv == path_components(p@),
            bc@.len() == path_components(base@).len(),
            rest == pv.skip(bc@.len() as int),
            bc@.len() <= i <= pc@.len(),
            out@ == join(rest.take(i - bc@.len()), "/"@),
        decreases pc@.len() - i,
    {
        let k = i - bc.len();
        assert(rest.take(k + 1).drop_last() == rest.take(k as int));
        assert(rest.take(k + 1).last() == pc@[i as int]@);
        if k > 0 {
            push_str(&mut out, "/");
        } else {
            assert(rest.take(1).len() == 1);
        }
        push_str(&mut out, pc[i].as_str());
        i = i + 1;
    }
    assert(rest.take(pc@.len() - bc@.len()) == rest);
    out
}

} // verus!
