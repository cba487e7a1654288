//! Query words: the pieces of a text between non-alphanumeric characters,
//! and how many of them a text contains.

use crate::text::{byte_len, bytes_capped, chars_of, contains_chars, has_infix, is_ascii_alnum, push_char};
use vstd::prelude::*;

verus! {

broadcast use vstd::string::group_string_axioms;

/// Whether `c` is alphanumeric in Unicode (`char::is_alphanumeric`).
pub uninterp spec fn unicode_alphanumeric(c: char) -> bool;

/// Whether `c` is alphanumeric.
///
/// Trusted: `char::is_alphanumeric` tests the Unicode `Alphabetic` and
/// `Numeric` properties, tables of many pages that stay unnamed here; of them
/// the contract claims only that on ASCII they are the letters and digits.
#[verifier::external_body]
fn is_alphanumeric(c: char) -> (r: bool)
    ensures
        r == unicode_alphanumeric(c),
        (c as u32) < 128 ==> (r == is_ascii_alnum(c)),
{
    c.is_alphanumeric()
}

/// The pieces of `s` between non-alphanumeric characters, as `str::split`
/// gives them (empty pieces included).
pub open spec fn pieces(s: Seq<char>) -> Seq<Seq<char>>
    decreases s.len(),
{
    if s.len() == 0 {
        seq![Seq::<char>::empty()]
    } else {
        let p = pieces(s.drop_last());
        if unicode_alphanumeric(s.last()) {
            p.update(p.len() - 1, p.last().push(s.last()))
        } else {
            p.push(Seq::<char>::empty())
        }
    }
}

/// The pieces of `ps` longer than `min` bytes, in order.
pub open spec fn longer_than(ps: Seq<Seq<char>>, min: nat) -> Seq<Seq<char>>
    decreases ps.len(),
{
    if ps.len() == 0 {
        Seq::empty()
    } else if byte_len(ps.last()) > min {
        longer_than(ps.drop_last(), min).push(ps.last())
    } else {
        longer_than(ps.drop_last(), min)
    }
}

/// The words of `s` longer than `min` bytes.
pub open spec fn words(s: Seq<char>, min: nat) -> Seq<Seq<char>> {
    longer_than(pieces(s), min)
}

/// How many of `ws` (counted with repetition) occur in `text`.
pub open spec fn found_count(ws: Seq<Seq<char>>, text: Seq<char>) -> nat
    decreases ws.len(),
{
    if ws.len() == 0 {
        0
    } else {
        found_count(ws.drop_last(), text) + if has_infix(text, ws.last()) {
            1nat
        } else {
            0nat
        }
    }
}

proof fn lemma_pieces_len(s: Seq<char>)
    ensures
        pieces(s).len() >= 1,
    decreases s.len(),
{
    if s.len() > 0 {
        lemma_pieces_len(s.drop_last());
    }
}

/// The words of `s` longer than `min` bytes.
pub fn split_words(s: &str, min: usize) -> (r: Vec<String>)
    ensures
        r@.map_values(|w: String| w@) == words(s@, min as nat),
{
    let v = chars_of(s);
    let mut done: Vec<String> = Vec::new();
    let mut cur = String::new();
    let mut i: usize = 0;
    assert(v@.take(0) == Seq::<char>::empty());
    assert(pieces(Seq::<char>::empty()).drop_last() == Seq::<Seq<char>>::empty());
    assert(done@.map_values(|w: String| w@) == Seq::<Seq<char>>::empty());
    while i < v.len()
        invariant
            v@ == s@,
            i <= v@.len(),
            pieces(v@.take(i as int)).len() >= 1,
            done@.map_values(|w: String| w@) == longer_than(
                pieces(v@.take(i as int)).drop_last(),
                min as nat,
            ),
            cur@ == pieces(v@.take(i as int)).last(),
        decreases v@.len() - i,
    {
        let c = v[i];
        let ghost before = v@.take(i as int);
        let ghost p = pieces(before);
        assert(v@.take(i + 1).drop_last() == before);
        assert(v@.take(i + 1).last() == c);
        if is_alphanumeric(c) {
            push_char(&mut cur, c);
            assert(pieces(v@.take(i + 1)) == p.update(p.len() - 1, p.last().push(c)));
            assert(p.update(p.len() - 1, p.last().push(c)).drop_last() == p.drop_last());
        } else {
            let piece = cur;
            cur = String::new();
            assert(pieces(v@.take(i + 1)) == p.push(Seq::<char>::empty()));
            assert(p.push(Seq::<char>::empty()).drop_last() == p);
            assert(p.drop_last().push(p.last()) == p);
            if bytes_capped(piece.as_str(), min as u128 + 1) > min as u128 {
                let ghost old_done = done@;
                done.push(piece);
                assert(done@.map_values(|w: String| w@) == old_done.map_values(|w: String| w@).push(
                    p.last(),
                ));
                assert(longer_than(p, min as nat) == longer_than(p.drop_last(), min as nat).push(
                    p.last(),
                ));
            } else {
                assert(longer_than(p, min as nat) == longer_than(p.drop_last(), min as nat));
            }
            assert(done@.map_values(|w: String| w@) == longer_than(
                pieces(v@.take(i + 1)).drop_last(),
                min as nat,
            ));
        }
        proof {
            lemma_pieces_len(v@.take(i + 1));
        }
        i = i + 1;
    }
    assert(v@.take(i as int) == s@);
    let ghost p = pieces(s@);
    assert(p.drop_last().push(p.last()) == p);
    if bytes_capped(cur.as_str(), min as u128 + 1) > min as u128 {
        let ghost old_done = done@;
        let ghost last = cur@;
        done.push(cur);
        assert(done@.map_values(|w: String| w@) == old_done.map_values(|w: String| w@).push(last));
        assert(longer_than(p, min as nat) == longer_than(p.drop_last(), min as nat).push(p.last()));
    } else {
        assert(longer_than(p, min as nat) == longer_than(p.drop_last(), min as nat));
    }
    done
}

/// How many of `ws` occur in `text`.
pub fn count_found(ws: &[String], text: &str) -> (n: usize)
    ensures
        n == found_count(ws@.map_values(|w: String| w@), text@),
{
    let tv = chars_of(text);
    let mut n: usize = 0;
    let mut i: usize = 0;
    let ghost all = ws@.map_values(|w: String| w@);
    assert(all.take(0) == Seq::<Seq<char>>::empty());
    while i < ws.len()
        invariant
            tv@ == text@,
            all == ws@.map_values(|w: String| w@),
            i <= ws@.len(),
            n <= i,
            n == found_count(all.take(i as int), text@),
        decreases ws@.len() - i,
    {
        let wv = chars_of(ws[i].as_str());
        assert(all.take(i + 1).drop_last() == all.take(i as int));
        assert(all.take(i + 1).last() == ws@[i as int]@);
        if contains_chars(tv.as_slice(), wv.as_slice()) {
            n = n + 1;
        }
        i = i + 1;
    }
    assert(all.take(i as int) == all);
    n
}

} // verus!
