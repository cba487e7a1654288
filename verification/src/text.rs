//! Character-level helpers shared by the parsers and formatters.
//!
//! Strings are reasoned about through their views (`Seq<char>`); byte lengths
//! are the lengths of their UTF-8 encodings.

use vstd::prelude::*;

verus! {

broadcast use vstd::string::group_string_axioms;

/// Unicode `White_Space`, the property that `char::is_whitespace` tests.
pub open spec fn is_ws(c: char) -> bool {
    let u = c as u32;
    ||| (0x09 <= u && u <= 0x0D)
    ||| u == 0x20
    ||| u == 0x85
    ||| u == 0xA0
    ||| u == 0x1680
    ||| (0x2000 <= u && u <= 0x200A)
    ||| u == 0x2028
    ||| u == 0x2029
    ||| u == 0x202F
    ||| u == 0x205F
    ||| u == 0x3000
}

/// `s` without its leading whitespace.
pub open spec fn trim_start(s: Seq<char>) -> Seq<char>
    decreases s.len(),
{
    if s.len() > 0 && is_ws(s[0]) {
        trim_start(s.drop_first())
    } else {
        s
    }
}

/// `s` without its trailing whitespace.
pub open spec fn trim_end(s: Seq<char>) -> Seq<char>
    decreases s.len(),
{
    if s.len() > 0 && is_ws(s.last()) {
        trim_end(s.drop_last())
    } else {
        s
    }
}

/// `s` without leading and trailing whitespace.
pub open spec fn trim(s: Seq<char>) -> Seq<char> {
    trim_end(trim_start(s))
}

/// `s` without every leading occurrence of `c`.
pub open spec fn strip_all_start(s: Seq<char>, c: char) -> Seq<char>
    decreases s.len(),
{
    if s.len() > 0 && s[0] == c {
        strip_all_start(s.drop_first(), c)
    } else {
        s
    }
}

/// `s` without every trailing occurrence of `c`.
pub open spec fn strip_all_end(s: Seq<char>, c: char) -> Seq<char>
    decreases s.len(),
{
    if s.len() > 0 && s.last() == c {
        strip_all_end(s.drop_last(), c)
    } else {
        s
    }
}

/// ASCII lowercase of one character; other characters are unchanged.
pub open spec fn lower_char(c: char) -> char {
    if 'A' <= c && c <= 'Z' {
        ((c as u32) + 32) as char
    } else {
        c
    }
}

/// ASCII lowercase of a character sequence.
pub open spec fn lower(s: Seq<char>) -> Seq<char> {
    s.map_values(|c: char| lower_char(c))
}

/// ASCII letters and digits.
pub open spec fn is_ascii_alnum(c: char) -> bool {
    ||| 'a' <= c && c <= 'z'
    ||| 'A' <= c && c <= 'Z'
    ||| '0' <= c && c <= '9'
}

/// The text of an optional string.
pub open spec fn opt_view(o: Option<String>) -> Option<Seq<char>> {
    match o {
        Some(s) => Some(s@),
        None => None,
    }
}

/// Whether `p` is a prefix of `s`.
pub open spec fn has_prefix(s: Seq<char>, p: Seq<char>) -> bool {
    p.len() <= s.len() && s.take(p.len() as int) == p
}

/// Whether `p` is a suffix of `s`.
pub open spec fn has_suffix(s: Seq<char>, p: Seq<char>) -> bool {
    p.len() <= s.len() && s.skip(s.len() - p.len()) == p
}

/// Whether `n` occurs as a contiguous block inside `s`.
pub open spec fn has_infix(s: Seq<char>, n: Seq<char>) -> bool {
    exists|i: int| 0 <= i && i + n.len() <= s.len() && #[trigger] s.subrange(i, i + n.len()) == n
}

/// Number of bytes in the UTF-8 encoding of `s`.
pub open spec fn byte_len(s: Seq<char>) -> nat {
    vstd::utf8::encode_utf8(s).len()
}

/// `items` joined with `sep` between consecutive items.
pub open spec fn join(items: Seq<Seq<char>>, sep: Seq<char>) -> Seq<char>
    decreases items.len(),
{
    if items.len() == 0 {
        Seq::empty()
    } else if items.len() == 1 {
        items[0]
    } else {
        join(items.drop_last(), sep) + sep + items.last()
    }
}

/// Each item occurs in the joined text.
pub proof fn lemma_join_infix(items: Seq<Seq<char>>, sep: Seq<char>, k: int)
    requires
        0 <= k < items.len(),
    ensures
        has_infix(join(items, sep), items[k]),
    decreases items.len(),
{
    let j = join(items, sep);
    let n = items[k];
    if items.len() == 1 {
        let at = 0int;
        assert(j.subrange(at, at + n.len()) =~= n);
        assert(0 <= at && at + n.len() <= j.len());
    } else {
        let front = join(items.drop_last(), sep);
        assert(j == front + sep + items.last());
        if k == items.len() - 1 {
            let at = j.len() - n.len();
            assert(j.subrange(at, at + n.len()) =~= n);
            assert(0 <= at && at + n.len() <= j.len());
        } else {
            lemma_join_infix(items.drop_last(), sep, k);
            assert(items.drop_last()[k] == n);
            let i = choose|i: int|
                0 <= i && i + n.len() <= front.len() && #[trigger] front.subrange(i, i + n.len())
                    == n;
            assert(j.subrange(i, i + n.len()) =~= front.subrange(i, i + n.len()));
            assert(0 <= i && i + n.len() <= j.len());
        }
    }
}

/// `items[from..to]` joined with `sep`.
pub fn join_strings(items: &[String], from: usize, to: usize, sep: &str) -> (s: String)
    requires
        from <= to <= items@.len(),
    ensures
        s@ == join(items@.subrange(from as int, to as int).map_values(|w: String| w@), sep@),
{
    let ghost all = items@.subrange(from as int, to as int).map_values(|w: String| w@);
    let mut s = String::new();
    let mut i = from;
    assert(all.take(0) == Seq::<Seq<char>>::empty());
    while i < to
        invariant
            from <= i <= to <= items@.len(),
            all == items@.subrange(from as int, to as int).map_values(|w: String| w@),
            s@ == join(all.take(i - from), sep@),
        decreases to - i,
    {
        assert(all.take(i + 1 - from).drop_last() == all.take(i - from));
        assert(all.take(i + 1 - from).last() == items@[i as int]@);
        if i > from {
            push_str(&mut s, sep);
        }
        push_str(&mut s, items[i].as_str());
        i = i + 1;
    }
    assert(all.take(to - from) == all);
    s
}

/// Appends one character to a string.
///
/// Trusted: `String::push` documents that it appends the given `char` to the
/// end of the string.
#[verifier::external_body]
pub(crate) fn push_char(s: &mut String, c: char)
    ensures
        final(s)@ == old(s)@.push(c),
{
    s.push(c);
}

/// Appends a string slice to a string.
pub fn push_str(s: &mut String, t: &str)
    ensures
        final(s)@ == old(s)@ + t@,
{
    s.append(t);
}

/// A new string holding the characters of `t`.
pub fn owned(t: &str) -> (s: String)
    ensures
        s@ == t@,
{
    t.to_string()
}

/// The characters of a string slice, in order.
pub fn chars_of(s: &str) -> (v: Vec<char>)
    ensures
        v@ == s@,
{
    let mut v: Vec<char> = Vec::new();
    for c in it: s.chars()
        invariant
            v@ == it.seq().take(it.index() as int),
    {
        v.push(c);
    }
    assert(v@ == s@);
    v
}

/// A string made of the characters `v[from..to]`.
pub fn string_of(v: &[char], from: usize, to: usize) -> (s: String)
    requires
        from <= to <= v@.len(),
    ensures
        s@ == v@.subrange(from as int, to as int),
{
    let mut s = String::new();
    let mut i = from;
    while i < to
        invariant
            from <= i <= to <= v@.len(),
            s@ == v@.subrange(from as int, i as int),
        decreases to - i,
    {
        push_char(&mut s, v[i]);
        assert(v@.subrange(from as int, i + 1) == v@.subrange(from as int, i as int).push(v@[i as int]));
        i = i + 1;
    }
    s
}

/// Whether the character sequences are equal.
pub fn chars_eq(a: &[char], b: &[char]) -> (r: bool)
    ensures
        r == (a@ == b@),
{
    if a.len() != b.len() {
        return false;
    }
    let mut i: usize = 0;
    while i < a.len()
        invariant
            a@.len() == b@.len(),
            i <= a@.len(),
            forall|j: int| 0 <= j < i ==> a@[j] == b@[j],
        decreases a@.len() - i,
    {
        if a[i] != b[i] {
            return false;
        }
        i = i + 1;
    }
    assert(a@ == b@);
    true
}

/// Whether the two strings have the same characters.
pub fn str_eq(a: &str, b: &str) -> (r: bool)
    ensures
        r == (a@ == b@),
{
    let va = chars_of(a);
    let vb = chars_of(b);
    chars_eq(va.as_slice(), vb.as_slice())
}

/// Whether `p` is a prefix of `s[from..]`.
pub fn prefix_at(s: &[char], from: usize, p: &[char]) -> (r: bool)
    requires
        from <= s@.len(),
    ensures
        r == has_prefix(s@.skip(from as int), p@),
{
    if p.len() > s.len() - from {
        return false;
    }
    let sl = s.len();
    let mut i: usize = 0;
    while i < p.len()
        invariant
            sl == s@.len(),
            from <= s@.len(),
            p@.len() <= s@.len() - from,
            from + p@.len() <= s@.len(),
            i <= p@.len(),
            forall|j: int| 0 <= j < i ==> s@[from + j] == p@[j],
        decreases p@.len() - i,
    {
        if s[from + i] != p[i] {
            assert(s@.skip(from as int).take(p@.len() as int)[i as int] != p@[i as int]);
            return false;
        }
        i = i + 1;
    }
    assert(s@.skip(from as int).take(p@.len() as int) == p@);
    true
}

/// Whether `s` starts with `p`.
pub fn starts_with(s: &[char], p: &str) -> (r: bool)
    ensures
        r == has_prefix(s@, p@),
{
    let pv = chars_of(p);
    let r = prefix_at(s, 0, pv.as_slice());
    assert(s@.skip(0) == s@);
    r
}

/// Whether `n` occurs inside `s`.
pub fn contains_chars(s: &[char], n: &[char]) -> (r: bool)
    ensures
        r == has_infix(s@, n@),
{
    if n.len() > s.len() {
        assert forall|i: int| 0 <= i && i + n@.len() <= s@.len() implies #[trigger] s@.subrange(i, i + n@.len()) != n@ by {}
        return false;
    }
    if n.len() == 0 {
        assert(s@.subrange(0, 0 + n@.len() as int) == n@);
        return true;
    }
    let mut i: usize = 0;
    while i <= s.len() - n.len()
        invariant
            0 < n@.len() <= s@.len(),
            i <= s@.len() - n@.len() + 1,
            forall|k: int| 0 <= k < i ==> #[trigger] s@.subrange(k, k + n@.len()) != n@,
        decreases s@.len() - n@.len() + 1 - i,
    {
        if prefix_at(s, i, n) {
            assert(s@.skip(i as int).take(n@.len() as int) == s@.subrange(i as int, i + n@.len()));
            return true;
        }
        assert(s@.skip(i as int).take(n@.len() as int) == s@.subrange(i as int, i + n@.len()));
        i = i + 1;
    }
    false
}

/// Whether `c` is Unicode whitespace.
pub fn ws(c: char) -> (r: bool)
    ensures
        r == is_ws(c),
{
    let u = c as u32;
    (0x09 <= u && u <= 0x0D) || u == 0x20 || u == 0x85 || u == 0xA0 || u == 0x1680 || (0x2000
        <= u && u <= 0x200A) || u == 0x2028 || u == 0x2029 || u == 0x202F || u == 0x205F || u
        == 0x3000
}

/// Index of the first character of `s[from..to]` that is not whitespace (or `to`).
pub fn skip_ws_forward(s: &[char], from: usize, to: usize) -> (i: usize)
    requires
        from <= to <= s@.len(),
    ensures
        from <= i <= to,
        trim_start(s@.subrange(from as int, to as int)) == s@.subrange(i as int, to as int),
{
    let mut i = from;
    while i < to && ws(s[i])
        invariant
            from <= i <= to <= s@.len(),
            trim_start(s@.subrange(from as int, to as int)) == trim_start(
                s@.subrange(i as int, to as int),
            ),
        decreases to - i,
    {
        assert(s@.subrange(i as int, to as int).drop_first() == s@.subrange(i + 1, to as int));
        i = i + 1;
    }
    i
}

/// One past the last character of `s[from..to]` that is not whitespace (or `from`).
pub fn skip_ws_backward(s: &[char], from: usize, to: usize) -> (j: usize)
    requires
        from <= to <= s@.len(),
    ensures
        from <= j <= to,
        trim_end(s@.subrange(from as int, to as int)) == s@.subrange(from as int, j as int),
{
    let mut j = to;
    while j > from && ws(s[j - 1])
        invariant
            from <= j <= to <= s@.len(),
            trim_end(s@.subrange(from as int, to as int)) == trim_end(
                s@.subrange(from as int, j as int),
            ),
        decreases j - from,
    {
        assert(s@.subrange(from as int, j as int).drop_last() == s@.subrange(from as int, j - 1));
        j = j - 1;
    }
    j
}

/// Index of the first character of `s[from..to]` other than `c` (or `to`).
pub fn skip_char_forward(s: &[char], from: usize, to: usize, c: char) -> (i: usize)
    requires
        from <= to <= s@.len(),
    ensures
        from <= i <= to,
        strip_all_start(s@.subrange(from as int, to as int), c) == s@.subrange(i as int, to as int),
{
    let mut i = from;
    while i < to && s[i] == c
        invariant
            from <= i <= to <= s@.len(),
            strip_all_start(s@.subrange(from as int, to as int), c) == strip_all_start(
                s@.subrange(i as int, to as int),
                c,
            ),
        decreases to - i,
    {
        assert(s@.subrange(i as int, to as int).drop_first() == s@.subrange(i + 1, to as int));
        i = i + 1;
    }
    i
}

/// One past the last character of `s[from..to]` other than `c` (or `from`).
pub fn skip_char_backward(s: &[char], from: usize, to: usize, c: char) -> (j: usize)
    requires
        from <= to <= s@.len(),
    ensures
        from <= j <= to,
        strip_all_end(s@.subrange(from as int, to as int), c) == s@.subrange(from as int, j as int),
{
    let mut j = to;
    while j > from && s[j - 1] == c
        invariant
            from <= j <= to <= s@.len(),
            strip_all_end(s@.subrange(from as int, to as int), c) == strip_all_end(
                s@.subrange(from as int, j as int),
                c,
            ),
        decreases j - from,
    {
        assert(s@.subrange(from as int, j as int).drop_last() == s@.subrange(from as int, j - 1));
        j = j - 1;
    }
    j
}

/// Bounds `(i, j)` such that `s[i..j]` is `s[from..to]` trimmed.
pub fn trim_bounds(s: &[char], from: usize, to: usize) -> (r: (usize, usize))
    requires
        from <= to <= s@.len(),
    ensures
        from <= r.0 <= r.1 <= to,
        trim(s@.subrange(from as int, to as int)) == s@.subrange(r.0 as int, r.1 as int),
{
    let i = skip_ws_forward(s, from, to);
    let j = skip_ws_backward(s, i, to);
    (i, j)
}

/// A copy of `t` with surrounding whitespace removed.
pub fn trimmed(t: &str) -> (s: String)
    ensures
        s@ == trim(t@),
{
    let v = chars_of(t);
    let (i, j) = trim_bounds(v.as_slice(), 0, v.len());
    assert(v@.subrange(0, v@.len() as int) == v@);
    string_of(v.as_slice(), i, j)
}

/// The ASCII lowercase of `t`.
pub fn ascii_lowercase(t: &str) -> (s: String)
    ensures
        s@ == lower(t@),
{
    let v = chars_of(t);
    let mut s = String::new();
    let mut i: usize = 0;
    while i < v.len()
        invariant
            v@ == t@,
            i <= v@.len(),
            s@ == lower(v@.take(i as int)),
        decreases v@.len() - i,
    {
        let c = v[i];
        let d = if 'A' <= c && c <= 'Z' {
            ((c as u8) + 32) as char
        } else {
            c
        };
        push_char(&mut s, d);
        assert(lower(v@.take(i + 1)) == lower(v@.take(i as int)).push(lower_char(v@[i as int])));
        i = i + 1;
    }
    assert(v@.take(v@.len() as int) == v@);
    s
}

/// `t` without every trailing occurrence of `c`.
pub fn trim_end_char(t: &str, c: char) -> (s: String)
    ensures
        s@ == strip_all_end(t@, c),
{
    let v = chars_of(t);
    let mut j = v.len();
    assert(v@.subrange(0, j as int) == v@);
    while j > 0 && v[j - 1] == c
        invariant
            v@ == t@,
            j <= v@.len(),
            strip_all_end(t@, c) == strip_all_end(v@.subrange(0, j as int), c),
        decreases j,
    {
        assert(v@.subrange(0, j as int).drop_last() == v@.subrange(0, j - 1));
        j = j - 1;
    }
    string_of(v.as_slice(), 0, j)
}

/// `t` without every leading occurrence of `c`.
pub fn trim_start_char(t: &str, c: char) -> (s: String)
    ensures
        s@ == strip_all_start(t@, c),
{
    let v = chars_of(t);
    assert(v@.subrange(0, v@.len() as int) == v@);
    let i = skip_char_forward(v.as_slice(), 0, v.len(), c);
    string_of(v.as_slice(), i, v.len())
}

/// The UTF-8 encoding of a concatenation is the concatenation of the encodings,
/// so byte lengths add up.
pub proof fn lemma_byte_len_concat(a: Seq<char>, b: Seq<char>)
    ensures
        byte_len(a + b) == byte_len(a) + byte_len(b),
    decreases a.len(),
{
    if a.len() > 0 {
        assert((a + b).drop_first() == a.drop_first() + b);
        assert((a + b)[0] == a[0]);
        lemma_byte_len_concat(a.drop_first(), b);
    } else {
        assert(a + b == b);
    }
}

/// Bytes in the UTF-8 encoding of one character.
pub open spec fn char_width(c: char) -> nat {
    byte_len(seq![c])
}

/// Appending a character adds its width.
pub proof fn lemma_byte_len_push(s: Seq<char>, c: char)
    ensures
        byte_len(s.push(c)) == byte_len(s) + char_width(c),
{
    assert(s.push(c) == s + seq![c]);
    lemma_byte_len_concat(s, seq![c]);
}

/// Bytes in the UTF-8 encoding of `c`.
pub fn utf8_width(c: char) -> (n: usize)
    ensures
        n == char_width(c),
        1 <= n <= 4,
{
    proof {
        vstd::utf8::char_is_scalar(c);
        reveal_with_fuel(vstd::utf8::encode_utf8, 2);
        assert(seq![c].drop_first() == Seq::<char>::empty());
        assert(seq![c][0] == c);
        assert(byte_len(seq![c]) == vstd::utf8::encode_scalar(c as u32).len());
    }
    let u = c as u32;
    if u < 0x80 {
        1
    } else if u < 0x800 {
        2
    } else if u < 0x10000 {
        3
    } else {
        4
    }
}

/// The number of bytes of `t`, or `limit` when `t` has at least that many.
pub fn bytes_capped(t: &str, limit: u128) -> (n: u128)
    ensures
        n == if byte_len(t@) < limit {
            byte_len(t@)
        } else {
            limit as nat
        },
{
    let v = chars_of(t);
    let mut n: u128 = 0;
    let mut i: usize = 0;
    assert(v@.take(0) == Seq::<char>::empty());
    while i < v.len() && n < limit
        invariant
            v@ == t@,
            i <= v@.len(),
            n <= limit,
            n < limit ==> n == byte_len(v@.take(i as int)),
            n == limit ==> byte_len(v@.take(i as int)) >= limit,
        decreases v@.len() - i,
    {
        let w = utf8_width(v[i]);
        proof {
            assert(v@.take(i + 1) == v@.take(i as int).push(v@[i as int]));
            lemma_byte_len_push(v@.take(i as int), v@[i as int]);
        }
        if limit - n <= w as u128 {
            n = limit;
        } else {
            n = n + w as u128;
        }
        i = i + 1;
    }
    proof {
        if i < v@.len() {
            assert(v@ == v@.take(i as int) + v@.skip(i as int));
            lemma_byte_len_concat(v@.take(i as int), v@.skip(i as int));
        } else {
            assert(v@.take(i as int) == v@);
        }
    }
    n
}


} // verus!
