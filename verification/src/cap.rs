//! Shrink-only capability tokens. A token names the actions its holder may
//! take; a holder may narrow a token's rights but never widen them.

use crate::digest::{hex_encode, hex_lower};
use crate::keyed::{lemma_entries_map, Keyed};
use crate::order::{first_index, lemma_first_index, seq_lt};
use crate::text::{join, join_strings, opt_view, owned, push_str, str_eq};
use vstd::prelude::*;

verus! {

broadcast use vstd::string::group_string_axioms;

/// Right to use the local model.
pub const LOCAL_MODEL: &'static str = "local.model";

/// Right to read plot files.
pub const PLOT_READ: &'static str = "plot.read";

/// Right to write plot files.
pub const PLOT_WRITE: &'static str = "plot.write";

/// Right to use network adapters.
pub const NETWORK: &'static str = "network.adapter";

/// Right to run the plot-scoped shell.
pub const SHELL: &'static str = "shell";

/// Right to use the cloud model.
pub const CLOUD_MODEL: &'static str = "cloud.model";

/// Why a token or a set of rights was refused.
#[derive(Debug)]
pub enum CapError {
    Invalid(String),
    WidenForbidden,
    Expired,
    BadMac,
    UnknownRight(String),
    EmptyRights,
}

/// A capability error with its payload as a character sequence.
pub enum CapFault {
    Invalid(Seq<char>),
    WidenForbidden,
    Expired,
    BadMac,
    UnknownRight(Seq<char>),
    EmptyRights,
}

impl View for CapError {
    type V = CapFault;

    open spec fn view(&self) -> CapFault {
        match self {
            CapError::Invalid(m) => CapFault::Invalid(m@),
            CapError::WidenForbidden => CapFault::WidenForbidden,
            CapError::Expired => CapFault::Expired,
            CapError::BadMac => CapFault::BadMac,
            CapError::UnknownRight(r) => CapFault::UnknownRight(r@),
            CapError::EmptyRights => CapFault::EmptyRights,
        }
    }
}

/// Text of a capability error as it is shown to users.
pub open spec fn cap_message(e: CapFault) -> Seq<char> {
    match e {
        CapFault::Invalid(m) => "invalid token: "@ + m,
        CapFault::WidenForbidden => "attenuation would widen rights"@,
        CapFault::Expired => "token expired"@,
        CapFault::BadMac => "mac verification failed"@,
        CapFault::UnknownRight(r) => "unknown right: "@ + r,
        CapFault::EmptyRights => "empty rights"@,
    }
}

impl CapError {
    /// The user-facing text of this error.
    pub fn message(&self) -> (m: String)
        ensures
            m@ == cap_message(self@),
    {
        match self {
            CapError::Invalid(x) => {
                let mut m = owned("invalid token: ");
                push_str(&mut m, x.as_str());
                m
            },
            CapError::WidenForbidden => owned("attenuation would widen rights"),
            CapError::Expired => owned("token expired"),
            CapError::BadMac => owned("mac verification failed"),
            CapError::UnknownRight(r) => {
                let mut m = owned("unknown right: ");
                push_str(&mut m, r.as_str());
                m
            },
            CapError::EmptyRights => owned("empty rights"),
        }
    }
}

/// The action keys that a token may carry.
pub open spec fn known_right(r: Seq<char>) -> bool {
    ||| r == LOCAL_MODEL@
    ||| r == PLOT_READ@
    ||| r == PLOT_WRITE@
    ||| r == NETWORK@
    ||| r == SHELL@
    ||| r == CLOUD_MODEL@
}

/// Rights that are not action keys.
pub open spec fn is_unknown() -> spec_fn(Seq<char>) -> bool {
    |r: Seq<char>| !known_right(r)
}

/// The texts of a list of strings.
pub open spec fn names(v: Seq<String>) -> Seq<Seq<char>> {
    v.map_values(|s: String| s@)
}

/// Each item sorts strictly before the next, so none occurs twice.
pub open spec fn strictly_sorted(s: Seq<Seq<char>>) -> bool {
    forall|i: int, j: int| 0 <= i < j < s.len() ==> seq_lt(#[trigger] s[i], #[trigger] s[j])
}

/// Every item of `a` occurs in `b`.
pub open spec fn within_set(a: Seq<Seq<char>>, b: Seq<Seq<char>>) -> bool {
    forall|x: Seq<char>| #[trigger] a.contains(x) ==> b.contains(x)
}

/// `a` and `b` hold the same items.
pub open spec fn same_set(a: Seq<Seq<char>>, b: Seq<Seq<char>>) -> bool {
    within_set(a, b) && within_set(b, a)
}

/// `u` is the least right of `s` (in string order) that is not an action key.
pub open spec fn least_unknown(s: Seq<Seq<char>>, u: Seq<char>) -> bool {
    &&& s.contains(u)
    &&& !known_right(u)
    &&& forall|v: Seq<char>| #[trigger] s.contains(v) && !known_right(v) && v != u ==> seq_lt(u, v)
}

/// The rights a charter allows, in string order: the plot rights always,
/// and one right for each capability flag that is set.
pub open spec fn charter_rights(
    allow_local_model: bool,
    allow_cloud_model: bool,
    allow_network_adapters: bool,
    allow_shell: bool,
) -> Seq<Seq<char>> {
    (if allow_cloud_model {
        seq![CLOUD_MODEL@]
    } else {
        Seq::empty()
    }) + (if allow_local_model {
        seq![LOCAL_MODEL@]
    } else {
        Seq::empty()
    }) + (if allow_network_adapters {
        seq![NETWORK@]
    } else {
        Seq::empty()
    }) + seq![PLOT_READ@, PLOT_WRITE@] + (if allow_shell {
        seq![SHELL@]
    } else {
        Seq::empty()
    })
}

/// Checks one right.
pub fn validate_right(r: &str) -> (res: Result<(), CapError>)
    ensures
        res is Ok <==> known_right(r@),
        res matches Err(e) ==> e@ == CapFault::UnknownRight(r@),
{
    if str_eq(r, LOCAL_MODEL) || str_eq(r, PLOT_READ) || str_eq(r, PLOT_WRITE) || str_eq(r, NETWORK)
        || str_eq(r, SHELL) || str_eq(r, CLOUD_MODEL) {
        Ok(())
    } else {
        Err(CapError::UnknownRight(owned(r)))
    }
}

/// The six action keys, in string order.
pub open spec fn all_rights() -> Seq<Seq<char>> {
    seq![CLOUD_MODEL@, LOCAL_MODEL@, NETWORK@, PLOT_READ@, PLOT_WRITE@, SHELL@]
}

/// The action keys are distinct and sorted as `all_rights` lists them.
proof fn lemma_rights_order()
    ensures
        strictly_sorted(all_rights()),
{
    reveal_strlit("cloud.model");
    reveal_strlit("local.model");
    reveal_strlit("network.adapter");
    reveal_strlit("plot.read");
    reveal_strlit("plot.write");
    reveal_strlit("shell");
    let k = all_rights();
    assert forall|a: int, b: int| 0 <= a < b < k.len() implies seq_lt(
        #[trigger] k[a],
        #[trigger] k[b],
    ) by {
        reveal_with_fuel(seq_lt, 7);
    }
}

/// The most rights a token may carry under a charter with these flags.
pub fn rights_for_charter(
    allow_local_model: bool,
    allow_cloud_model: bool,
    allow_network_adapters: bool,
    allow_shell: bool,
) -> (s: Vec<String>)
    ensures
        names(s@) == charter_rights(
            allow_local_model,
            allow_cloud_model,
            allow_network_adapters,
            allow_shell,
        ),
        strictly_sorted(names(s@)),
{
    let mut s: Vec<String> = Vec::new();
    if allow_cloud_model {
        s.push(owned(CLOUD_MODEL));
    }
    if allow_local_model {
        s.push(owned(LOCAL_MODEL));
    }
    if allow_network_adapters {
        s.push(owned(NETWORK));
    }
    s.push(owned(PLOT_READ));
    s.push(owned(PLOT_WRITE));
    if allow_shell {
        s.push(owned(SHELL));
    }
    let ghost c = charter_rights(
        allow_local_model,
        allow_cloud_model,
        allow_network_adapters,
        allow_shell,
    );
    assert(names(s@) =~= c);
    proof {
        lemma_rights_order();
        let k = all_rights();
        assert forall|i: int, j: int| 0 <= i < j < c.len() implies seq_lt(
            #[trigger] c[i],
            #[trigger] c[j],
        ) by {
            assert(exists|a: int, b: int| 0 <= a < b < 6 && c[i] == k[a] && c[j] == k[b]);
        }
    }
    s
}

/// The keys of a list of entries.
pub open spec fn keys_of<V>(es: Seq<(String, V)>) -> Seq<Seq<char>> {
    es.map_values(|e: (String, V)| e.0@)
}

/// `items` as a set: each distinct item once, in string order.
pub fn right_set(items: &[String]) -> (r: Vec<String>)
    ensures
        strictly_sorted(names(r@)),
        same_set(names(r@), names(items@)),
{
    let mut m: Keyed<()> = Keyed::new();
    let mut i: usize = 0;
    while i < items.len()
        invariant
            i <= items@.len(),
            forall|x: Seq<char>|
                #![trigger m.map().contains_key(x)]
                m.map().contains_key(x) <==> exists|k: int| 0 <= k < i && (#[trigger] items@[k])@ == x,
        decreases items@.len() - i,
    {
        let ghost before = m.map();
        m.insert(items[i].clone(), ());
        assert forall|x: Seq<char>| #![trigger m.map().contains_key(x)] m.map().contains_key(x) <==> exists|k: int|
            0 <= k < i + 1 && (#[trigger] items@[k])@ == x by {
            if before.contains_key(x) {
                let k = choose|k: int| 0 <= k < i && (#[trigger] items@[k])@ == x;
                assert(0 <= k < i + 1 && items@[k]@ == x);
            }
            if x == items@[i as int]@ {
                assert(0 <= i < i + 1 && items@[i as int]@ == x);
            }
        }
        i = i + 1;
    }
    let n = m.len();
    let ghost es = m.entries();
    let mut out: Vec<String> = Vec::new();
    let mut j: usize = 0;
    while j < n
        invariant
            n == es.len(),
            es == m.entries(),
            j <= n,
            names(out@) == keys_of(es).take(j as int),
        decreases n - j,
    {
        let e = m.entry_at(j);
        out.push(e.0.clone());
        assert(keys_of(es).take(j + 1) == keys_of(es).take(j as int).push(e.0@));
        j = j + 1;
    }
    assert(keys_of(es).take(n as int) == keys_of(es));
    proof {
        let o = names(out@);
        let it = names(items@);
        assert forall|a: int, b: int| 0 <= a < b < o.len() implies seq_lt(
            #[trigger] o[a],
            #[trigger] o[b],
        ) by {
            assert(o[a] == es[a].0@ && o[b] == es[b].0@);
        }
        assert forall|x: Seq<char>| #[trigger] o.contains(x) implies it.contains(x) by {
            let a = choose|a: int| 0 <= a < o.len() && o[a] == x;
            assert(es[a].0@ == x);
            lemma_entries_map(es, x);
            assert(m.map().contains_key(x));
            let k = choose|k: int| 0 <= k < items@.len() && (#[trigger] items@[k])@ == x;
            assert(it[k] == x);
        }
        assert forall|x: Seq<char>| #[trigger] it.contains(x) implies o.contains(x) by {
            let k = choose|k: int| 0 <= k < it.len() && it[k] == x;
            assert(items@[k]@ == x);
            assert(m.map().contains_key(x));
            lemma_entries_map(es, x);
            let a = choose|a: int| 0 <= a < es.len() && (#[trigger] es[a]).0@ == x;
            assert(o[a] == x);
        }
    }
    out
}

/// In a sorted list, the first right that is not an action key is the least
/// such right; when there is none, every right is an action key.
proof fn lemma_first_unknown(s: Seq<Seq<char>>)
    requires
        strictly_sorted(s),
    ensures
        first_index(s, is_unknown()) >= 0 ==> least_unknown(s, s[first_index(s, is_unknown())]),
        first_index(s, is_unknown()) < 0 ==> forall|x: Seq<char>| #[trigger] s.contains(x) ==> known_right(x),
{
    let f = first_index(s, is_unknown());
    lemma_first_index(s, is_unknown());
    if f >= 0 {
        assert(s.contains(s[f]));
        assert forall|v: Seq<char>| #[trigger] s.contains(v) && !known_right(v) && v != s[f] implies seq_lt(
            s[f],
            v,
        ) by {
            let j = choose|j: int| 0 <= j < s.len() && s[j] == v;
            assert(is_unknown()(s[j]));
            if j < f {
                assert(!is_unknown()(s[j]));
            }
        }
    } else {
        assert forall|x: Seq<char>| #[trigger] s.contains(x) implies known_right(x) by {
            let j = choose|j: int| 0 <= j < s.len() && s[j] == x;
            assert(!is_unknown()(s[j]));
        }
    }
}

/// Lists with the same items have the same least unknown right.
proof fn lemma_least_unknown_same_set(a: Seq<Seq<char>>, b: Seq<Seq<char>>, u: Seq<char>)
    requires
        same_set(a, b),
        least_unknown(a, u),
    ensures
        least_unknown(b, u),
{
    assert forall|v: Seq<char>| #[trigger] b.contains(v) && !known_right(v) && v != u implies seq_lt(u, v) by {
        assert(a.contains(v));
    }
}

/// Checks a list of rights: it must not be empty, and every right must be
/// an action key (the first one that is not is reported).
pub fn check_rights(rights: &[String]) -> (r: Result<(), CapError>)
    ensures
        rights@.len() == 0 ==> (r matches Err(e) && e@ == CapFault::EmptyRights),
        rights@.len() > 0 ==> ({
            let f = first_index(names(rights@), is_unknown());
            if f >= 0 {
                r matches Err(e) && e@ == CapFault::UnknownRight(names(rights@)[f])
            } else {
                r is Ok
            }
        }),
{
    if rights.len() == 0 {
        return Err(CapError::EmptyRights);
    }
    let ghost s = names(rights@);
    let mut i: usize = 0;
    while i < rights.len()
        invariant
            s == names(rights@),
            i <= rights@.len(),
            forall|j: int| 0 <= j < i ==> !is_unknown()(#[trigger] s[j]),
        decreases rights@.len() - i,
    {
        match validate_right(rights[i].as_str()) {
            Ok(()) => {},
            Err(e) => {
                proof {
                    crate::order::lemma_first_index_is(s, is_unknown(), i as int);
                }
                return Err(e);
            },
        }
        i = i + 1;
    }
    proof {
        crate::order::lemma_first_index_none(s, is_unknown());
    }
    Ok(())
}

/// The rights of a new token: `rights` as a set, once it is known to be
/// non-empty and made of action keys only.
pub fn issue_rights(rights: &[String]) -> (r: Result<Vec<String>, CapError>)
    ensures
        r is Ok <==> rights@.len() > 0 && forall|x: Seq<char>| #[trigger] names(rights@).contains(x)
            ==> known_right(x),
        r matches Err(e) ==> (rights@.len() == 0 && e@ == CapFault::EmptyRights) || (rights@.len()
            > 0 && (e@ matches CapFault::UnknownRight(u) && least_unknown(names(rights@), u))),
        r matches Ok(v) ==> strictly_sorted(names(v@)) && same_set(names(v@), names(rights@)),
{
    let set = right_set(rights);
    proof {
        lemma_first_unknown(names(set@));
        if rights@.len() > 0 {
            assert(names(rights@).contains(names(rights@)[0]));
        }
        if set@.len() > 0 {
            assert(names(set@).contains(names(set@)[0]));
        }
    }
    match check_rights(set.as_slice()) {
        Ok(()) => Ok(set),
        Err(e) => {
            proof {
                if set@.len() > 0 {
                    let f = first_index(names(set@), is_unknown());
                    lemma_least_unknown_same_set(names(set@), names(rights@), names(set@)[f]);
                }
            }
            Err(e)
        },
    }
}

/// Whether `x` is one of `list`.
fn has_name(list: &[String], x: &str) -> (r: bool)
    ensures
        r == names(list@).contains(x@),
{
    let mut i: usize = 0;
    while i < list.len()
        invariant
            i <= list@.len(),
            forall|j: int| 0 <= j < i ==> (#[trigger] list@[j])@ != x@,
        decreases list@.len() - i,
    {
        if str_eq(list[i].as_str(), x) {
            assert(names(list@)[i as int] == x@);
            return true;
        }
        i = i + 1;
    }
    assert forall|j: int| 0 <= j < names(list@).len() implies names(list@)[j] != x@ by {
        assert(names(list@)[j] == list@[j]@);
    }
    false
}

/// The rights of a token narrowed from one with rights `parent` to `keep`.
/// Narrowing only removes rights: every right kept is one the parent has.
pub fn attenuate_rights(parent: &[String], keep: &[String]) -> (r: Result<Vec<String>, CapError>)
    ensures
        !within_set(names(keep@), names(parent@)) ==> (r matches Err(e) && e@
            == CapFault::WidenForbidden),
        within_set(names(keep@), names(parent@)) ==> {
            &&& r is Ok <==> keep@.len() > 0 && forall|x: Seq<char>| #[trigger] names(keep@).contains(x)
                ==> known_right(x)
            &&& r matches Err(e) ==> (keep@.len() == 0 && e@ == CapFault::EmptyRights) || (keep@.len()
                > 0 && (e@ matches CapFault::UnknownRight(u) && least_unknown(names(keep@), u)))
        },
        r matches Ok(v) ==> {
            &&& strictly_sorted(names(v@))
            &&& same_set(names(v@), names(keep@))
            &&& within_set(names(v@), names(parent@))
        },
{
    let set = right_set(keep);
    let mut i: usize = 0;
    while i < set.len()
        invariant
            i <= set@.len(),
            same_set(names(set@), names(keep@)),
            forall|j: int| 0 <= j < i ==> names(parent@).contains(#[trigger] names(set@)[j]),
        decreases set@.len() - i,
    {
        if !has_name(parent, set[i].as_str()) {
            proof {
                assert(names(set@).contains(names(set@)[i as int]));
                assert(names(keep@).contains(names(set@)[i as int]));
            }
            return Err(CapError::WidenForbidden);
        }
        assert(names(set@)[i as int] == set@[i as int]@);
        i = i + 1;
    }
    assert(within_set(names(set@), names(parent@))) by {
        assert forall|x: Seq<char>| #[trigger] names(set@).contains(x) implies names(parent@).contains(x) by {
            let j = choose|j: int| 0 <= j < names(set@).len() && names(set@)[j] == x;
        }
    }
    assert(within_set(names(keep@), names(parent@))) by {
        assert forall|x: Seq<char>| #[trigger] names(keep@).contains(x) implies names(parent@).contains(x) by {
            assert(names(set@).contains(x));
        }
    }
    let r = issue_rights(keep);
    proof {
        if r is Ok {
            assert forall|x: Seq<char>| #[trigger] names(r->Ok_0@).contains(x) implies names(parent@).contains(x) by {
                assert(names(keep@).contains(x));
            }
        }
    }
    r
}

/// A token: its public body and the MAC over it. Values never include secrets.
#[derive(Debug, Clone)]
pub struct CapToken {
    pub id: String,
    /// Id of the token this one was narrowed from.
    pub parent: Option<String>,
    pub issued_at: String,
    pub expires_at: Option<String>,
    /// Action keys, each once, in string order.
    pub rights: Vec<String>,
    /// Hex HMAC-SHA256 over the canonical payload (which leaves the MAC out).
    pub mac: String,
}

/// The text of an optional field, empty when absent.
pub open spec fn or_empty(o: Option<String>) -> Seq<char> {
    match o {
        Some(s) => s@,
        None => Seq::empty(),
    }
}

/// The bytes a token's MAC covers, as text: every field but the MAC, in a
/// fixed order, with the rights joined by commas.
pub open spec fn payload_of(t: CapToken) -> Seq<char> {
    "v1|id="@ + t.id@ + "|parent="@ + or_empty(t.parent) + "|issued="@ + t.issued_at@
        + "|expires="@ + or_empty(t.expires_at) + "|rights="@ + join(names(t.rights@), ","@)
}

fn text_or_empty(o: &Option<String>) -> (s: &str)
    ensures
        s@ == or_empty(*o),
{
    proof {
        reveal_strlit("");
    }
    match o {
        Some(x) => x.as_str(),
        None => "",
    }
}

/// The canonical payload of `token`, which its MAC covers.
pub fn canonical_payload(token: &CapToken) -> (p: String)
    ensures
        p@ == payload_of(*token),
{
    proof {
        reveal_strlit("");
    }
    let mut p = owned("v1|id=");
    push_str(&mut p, token.id.as_str());
    push_str(&mut p, "|parent=");
    push_str(&mut p, text_or_empty(&token.parent));
    push_str(&mut p, "|issued=");
    push_str(&mut p, token.issued_at.as_str());
    push_str(&mut p, "|expires=");
    push_str(&mut p, text_or_empty(&token.expires_at));
    push_str(&mut p, "|rights=");
    let rs = join_strings(token.rights.as_slice(), 0, token.rights.len(), ",");
    assert(token.rights@.subrange(0, token.rights@.len() as int) == token.rights@);
    push_str(&mut p, rs.as_str());
    p
}

/// Whether two byte strings are equal, looking at every byte whatever the
/// earlier ones held.
pub fn constant_time_eq(a: &[u8], b: &[u8]) -> (r: bool)
    ensures
        r == (a@ == b@),
{
    if a.len() != b.len() {
        return false;
    }
    let mut diff: u8 = 0;
    let mut i: usize = 0;
    while i < a.len()
        invariant
            a@.len() == b@.len(),
            i <= a@.len(),
            (diff == 0) <==> forall|j: int| 0 <= j < i ==> a@[j] == b@[j],
        decreases a@.len() - i,
    {
        let x = a[i];
        let y = b[i];
        assert((diff | (x ^ y)) == 0u8 <==> (diff == 0u8 && x == y)) by (bit_vector);
        diff = diff | (x ^ y);
        i = i + 1;
    }
    if diff == 0 {
        assert(a@ =~= b@);
        true
    } else {
        false
    }
}

/// What an RFC 3339 timestamp denotes: the instant (seconds since the Unix
/// epoch and nanoseconds within the second) and its rendering in UTC; or the
/// parser's error message.
pub uninterp spec fn rfc3339_utc(text: Seq<char>) -> Result<((i64, u32), Seq<char>), Seq<char>>;

/// Parses an RFC 3339 timestamp.
///
/// Trusted: `chrono::DateTime::parse_from_rfc3339`, then `with_timezone(&Utc)`,
/// `timestamp`, `timestamp_subsec_nanos` and `to_rfc3339`; the error is
/// rendered with `to_string`. The parse depends on the text alone, so its
/// result is named by `rfc3339_utc`.
#[verifier::external_body]
fn parse_rfc3339(text: &str) -> (r: Result<((i64, u32), String), String>)
    ensures
        rfc3339_utc(text@) == match r {
            Ok(p) => Ok((p.0, p.1@)),
            Err(m) => Err(m@),
        },
{
    match chrono::DateTime::parse_from_rfc3339(text) {
        Ok(d) => {
            let u = d.with_timezone(&chrono::Utc);
            Ok(((u.timestamp(), u.timestamp_subsec_nanos()), u.to_rfc3339()))
        },
        Err(e) => Err(e.to_string()),
    }
}

/// Instant `a` is later than instant `b`.
pub open spec fn later(a: (i64, u32), b: (i64, u32)) -> bool {
    a.0 > b.0 || (a.0 == b.0 && a.1 > b.1)
}

fn is_later(a: (i64, u32), b: (i64, u32)) -> (r: bool)
    ensures
        r == later(a, b),
{
    a.0 > b.0 || (a.0 == b.0 && a.1 > b.1)
}

/// What the expiry check answers at instant `now`.
pub open spec fn expiry_check(now: (i64, u32), expires_at: Option<Seq<char>>) -> Result<(), CapFault> {
    match expires_at {
        None => Ok(()),
        Some(t) => match rfc3339_utc(t) {
            Err(m) => Err(CapFault::Invalid(m)),
            Ok((e, _)) => if later(now, e) {
                Err(CapFault::Expired)
            } else {
                Ok(())
            },
        },
    }
}

/// Checks a token's expiry at instant `now`: a token without one never
/// expires; one whose expiry cannot be read is invalid.
pub fn check_expiry(now: (i64, u32), expires_at: &Option<String>) -> (r: Result<(), CapError>)
    ensures
        match r {
            Ok(()) => expiry_check(now, opt_view(*expires_at)) is Ok,
            Err(e) => expiry_check(now, opt_view(*expires_at)) == Err::<(), CapFault>(e@),
        },
{
    match expires_at {
        None => Ok(()),
        Some(t) => match parse_rfc3339(t.as_str()) {
            Err(m) => Err(CapError::Invalid(m)),
            Ok((e, _)) => if is_later(now, e) {
                Err(CapError::Expired)
            } else {
                Ok(())
            },
        },
    }
}

/// The expiry of a narrowed token: the child's own expiry, capped by the
/// parent's so that the child never outlives it. When the parent has no
/// readable expiry the child's stands as given; otherwise the earlier of the
/// two instants is written in UTC (an unreadable child expiry counts as the
/// parent's).
pub open spec fn capped_expiry_of(child: Option<Seq<char>>, parent: Option<Seq<char>>) -> Option<
    Seq<char>,
> {
    match parent {
        None => child,
        Some(p) => match rfc3339_utc(p) {
            Err(_) => child,
            Ok((pi, pt)) => match child {
                Some(c) => match rfc3339_utc(c) {
                    Ok((ci, ct)) => if later(ci, pi) {
                        Some(pt)
                    } else {
                        Some(ct)
                    },
                    Err(_) => Some(pt),
                },
                None => Some(pt),
            },
        },
    }
}

/// The expiry to record for a token narrowed from one expiring at `parent`,
/// when the holder asked for `child`.
pub fn capped_expiry(child: &Option<String>, parent: &Option<String>) -> (r: Option<String>)
    ensures
        opt_view(r) == capped_expiry_of(opt_view(*child), opt_view(*parent)),
{
    let pe = match parent {
        None => return child.clone(),
        Some(p) => match parse_rfc3339(p.as_str()) {
            Err(_) => return child.clone(),
            Ok(x) => x,
        },
    };
    let ce = match child {
        Some(c) => match parse_rfc3339(c.as_str()) {
            Ok(x) => x,
            Err(_) => return Some(pe.1),
        },
        None => return Some(pe.1),
    };
    if is_later(ce.0, pe.0) {
        Some(pe.1)
    } else {
        Some(ce.1)
    }
}

/// What verifying `token` answers at instant `now`, given the MAC the
/// issuing authority computes over its payload.
pub open spec fn verify_answer(token: CapToken, expected_mac: Seq<char>, now: (i64, u32)) -> Result<
    (),
    CapFault,
> {
    let rs = names(token.rights@);
    let f = first_index(rs, is_unknown());
    if rs.len() == 0 {
        Err(CapFault::EmptyRights)
    } else if f >= 0 {
        Err(CapFault::UnknownRight(rs[f]))
    } else if expected_mac != token.mac@ {
        Err(CapFault::BadMac)
    } else {
        expiry_check(now, opt_view(token.expires_at))
    }
}

/// Verifies a token at instant `now` against the MAC the authority computes
/// over its payload (`expected_mac`): its rights, then its MAC (compared in
/// constant time), then its expiry. The parent chain is not checked.
pub fn verify_token(token: &CapToken, expected_mac: &str, now: (i64, u32)) -> (r: Result<
    (),
    CapError,
>)
    ensures
        match r {
            Ok(()) => verify_answer(*token, expected_mac@, now) is Ok,
            Err(e) => verify_answer(*token, expected_mac@, now) == Err::<(), CapFault>(e@),
        },
{
    check_rights(token.rights.as_slice())?;
    let same = constant_time_eq(expected_mac.as_bytes(), token.mac.as_str().as_bytes());
    proof {
        broadcast use vstd::utf8::encode_utf8_decode_utf8;

        if expected_mac@ == token.mac@ {
            assert(vstd::utf8::encode_utf8(expected_mac@) == vstd::utf8::encode_utf8(token.mac@));
        }
        if vstd::utf8::encode_utf8(expected_mac@) == vstd::utf8::encode_utf8(token.mac@) {
            assert(vstd::utf8::decode_utf8(vstd::utf8::encode_utf8(expected_mac@))
                == vstd::utf8::decode_utf8(vstd::utf8::encode_utf8(token.mac@)));
        }
    }
    if !same {
        return Err(CapError::BadMac);
    }
    check_expiry(now, &token.expires_at)
}

/// Law: narrowing only shrinks, however often it is repeated. A token
/// narrowed from a narrowed token carries no right that the first lacks.
pub proof fn law_narrowing_only_shrinks(
    root: Seq<Seq<char>>,
    child: Seq<Seq<char>>,
    grandchild: Seq<Seq<char>>,
)
    requires
        within_set(child, root),
        within_set(grandchild, child),
    ensures
        within_set(grandchild, root),
{
}

/// A new root token over `rights`, with the id, issue time and expiry that
/// the issuing authority chose. Its MAC is left empty: the authority computes
/// it over the canonical payload.
pub fn issue_token(rights: &[String], id: String, issued_at: String, expires_at: Option<String>) -> (r:
    Result<CapToken, CapError>)
    ensures
        r is Ok <==> rights@.len() > 0 && forall|x: Seq<char>| #[trigger] names(rights@).contains(x)
            ==> known_right(x),
        r matches Err(e) ==> (rights@.len() == 0 && e@ == CapFault::EmptyRights) || (rights@.len()
            > 0 && (e@ matches CapFault::UnknownRight(u) && least_unknown(names(rights@), u))),
        r matches Ok(t) ==> {
            &&& t.id == id
            &&& t.parent is None
            &&& t.issued_at == issued_at
            &&& t.expires_at == expires_at
            &&& strictly_sorted(names(t.rights@))
            &&& same_set(names(t.rights@), names(rights@))
            &&& t.mac@.len() == 0
        },
{
    let set = issue_rights(rights)?;
    Ok(CapToken { id, parent: None, issued_at, expires_at, rights: set, mac: String::new() })
}

/// The HMAC-SHA256 tag of `data` under `key`.
pub uninterp spec fn hmac_sha256_tag(key: Seq<u8>, data: Seq<u8>) -> Seq<u8>;

/// HMAC-SHA256 of `data` under `key`.
///
/// Trusted: `hmac::Hmac<sha2::Sha256>` set up with `KeyInit::new_from_slice`
/// (which accepts a key of any length and always succeeds), fed with
/// `Mac::update` and closed with `Mac::finalize`; the tag depends on the key
/// and the data alone, so it is named by `hmac_sha256_tag`.
#[verifier::external_body]
fn hmac_sha256(key: &[u8], data: &[u8]) -> (t: Vec<u8>)
    ensures
        t@ == hmac_sha256_tag(key@, data@),
{
    let mut m = <hmac::Hmac<sha2::Sha256> as hmac::KeyInit>::new_from_slice(key).expect(
        "HMAC accepts keys of any length",
    );
    hmac::Mac::update(&mut m, data);
    hmac::Mac::finalize(m).into_bytes().to_vec()
}

/// The MAC an authority with key `key` gives a token with payload `payload`:
/// the lowercase hex of its HMAC-SHA256 tag.
pub open spec fn mac_of(key: Seq<u8>, payload: Seq<char>) -> Seq<char> {
    hex_lower(hmac_sha256_tag(key, vstd::utf8::encode_utf8(payload)))
}

/// What an authority with key `key` answers when it verifies `t` at `now`:
/// the rights are checked first, then the MAC it computes, then the expiry.
pub open spec fn authority_verify(key: Seq<u8>, t: CapToken, now: (i64, u32)) -> Result<(), CapFault> {
    verify_answer(t, mac_of(key, payload_of(t)), now)
}

/// `b` is a token body with these fields, whose rights are `rights` as a set
/// in string order (its MAC aside).
pub open spec fn is_body(
    b: CapToken,
    rights: Seq<Seq<char>>,
    id: String,
    parent: Option<String>,
    issued_at: String,
    expires_at: Option<Seq<char>>,
) -> bool {
    &&& b.id == id
    &&& b.parent == parent
    &&& b.issued_at == issued_at
    &&& opt_view(b.expires_at) == expires_at
    &&& strictly_sorted(names(b.rights@))
    &&& same_set(names(b.rights@), rights)
}

/// Issues and verifies tokens for one daemon process with its MAC key.
pub struct CapAuthority {
    key: [u8; 32],
}

impl CapAuthority {
    /// An authority with this key.
    pub fn from_bytes(key: [u8; 32]) -> (a: CapAuthority)
        ensures
            a.key() == key@,
    {
        CapAuthority { key }
    }

    /// The MAC key.
    pub closed spec fn key(&self) -> Seq<u8> {
        self.key@
    }

    /// The MAC of `token`: hex HMAC-SHA256 over its canonical payload.
    pub fn mac_hex(&self, token: &CapToken) -> (r: Result<String, CapError>)
        ensures
            r matches Ok(m) && m@ == mac_of(self.key(), payload_of(*token)),
    {
        let payload = canonical_payload(token);
        let t = hmac_sha256(self.key.as_slice(), payload.as_str().as_bytes());
        Ok(hex_encode(t.as_slice()))
    }

    /// A root token over `rights`, with the id, issue time and expiry given
    /// (the process clock decides them), and its MAC.
    pub fn issue(&self, rights: &[String], id: String, issued_at: String, expires_at: Option<
        String,
    >) -> (r: Result<CapToken, CapError>)
        ensures
            r is Ok <==> rights@.len() > 0 && forall|x: Seq<char>| #[trigger] names(rights@).contains(x)
                ==> known_right(x),
            r matches Err(e) ==> (rights@.len() == 0 && e@ == CapFault::EmptyRights) || (rights@.len()
                > 0 && (e@ matches CapFault::UnknownRight(u) && least_unknown(names(rights@), u))),
            r matches Ok(t) ==> {
                &&& is_body(t, names(rights@), id, None, issued_at, opt_view(expires_at))
                &&& t.mac@ == mac_of(self.key(), payload_of(t))
            },
    {
        let mut t = issue_token(rights, id, issued_at, expires_at)?;
        let mac = match self.mac_hex(&t) {
            Ok(m) => m,
            Err(e) => return Err(e),
        };
        t.mac = mac;
        Ok(t)
    }

    /// Verifies `token` at instant `now`: its rights, then the MAC this
    /// authority computes for it (compared in constant time), then its
    /// expiry. The parent chain is not checked.
    pub fn verify(&self, token: &CapToken, now: (i64, u32)) -> (r: Result<(), CapError>)
        ensures
            match r {
                Ok(()) => authority_verify(self.key(), *token, now) is Ok,
                Err(e) => authority_verify(self.key(), *token, now) == Err::<(), CapFault>(e@),
            },
    {
        let expected = match self.mac_hex(token) {
            Ok(m) => m,
            Err(e) => return Err(e),
        };
        verify_token(token, expected.as_str(), now)
    }

    /// Whether `token` verifies at instant `now` and carries `right`.
    pub fn allows(&self, token: &CapToken, right: &str, now: (i64, u32)) -> (r: bool)
        ensures
            r == (authority_verify(self.key(), *token, now) is Ok && names(token.rights@).contains(
                right@,
            )),
    {
        self.verify(token, now).is_ok() && has_name(token.rights.as_slice(), right)
    }

    /// A token narrowed from `parent` to the rights `keep`, once `parent`
    /// verifies at instant `now`; with the id and issue time given, the
    /// expiry asked for (`expires_at`) capped by the parent's, and its MAC.
    /// Narrowing only removes rights.
    pub fn attenuate(
        &self,
        parent: &CapToken,
        keep: &[String],
        now: (i64, u32),
        id: String,
        issued_at: String,
        expires_at: Option<String>,
    ) -> (r: Result<CapToken, CapError>)
        ensures
            authority_verify(self.key(), *parent, now) matches Err(f) ==> (r matches Err(e) && e@
                == f),
            authority_verify(self.key(), *parent, now) is Ok ==> {
                let pr = names(parent.rights@);
                let kr = names(keep@);
                &&& !within_set(kr, pr) ==> (r matches Err(e) && e@ == CapFault::WidenForbidden)
                &&& within_set(kr, pr) ==> {
                    &&& r is Ok <==> keep@.len() > 0 && forall|x: Seq<char>| #[trigger] kr.contains(x)
                        ==> known_right(x)
                    &&& r matches Err(e) ==> (keep@.len() == 0 && e@ == CapFault::EmptyRights) || (
                    keep@.len() > 0 && (e@ matches CapFault::UnknownRight(u) && least_unknown(kr, u)))
                }
            },
            r matches Ok(t) ==> {
                &&& is_body(
                    t,
                    names(keep@),
                    id,
                    Some(parent.id),
                    issued_at,
                    capped_expiry_of(opt_view(expires_at), opt_view(parent.expires_at)),
                )
                &&& within_set(names(t.rights@), names(parent.rights@))
                &&& t.mac@ == mac_of(self.key(), payload_of(t))
            },
    {
        self.verify(parent, now)?;
        let rights = attenuate_rights(parent.rights.as_slice(), keep)?;
        let exp = capped_expiry(&expires_at, &parent.expires_at);
        let mut t = CapToken {
            id,
            parent: Some(parent.id.clone()),
            issued_at,
            expires_at: exp,
            rights,
            mac: String::new(),
        };
        let mac = match self.mac_hex(&t) {
            Ok(m) => m,
            Err(e) => return Err(e),
        };
        t.mac = mac;
        Ok(t)
    }
}

/// Law: a token that an authority issued verifies with that authority until
/// it expires: its rights are non-empty action keys and its MAC is the one
/// the authority computes over its payload.
pub proof fn law_issued_token_verifies(key: Seq<u8>, t: CapToken, now: (i64, u32))
    requires
        names(t.rights@).len() > 0,
        forall|x: Seq<char>| #[trigger] names(t.rights@).contains(x) ==> known_right(x),
        mac_of(key, payload_of(t)) == t.mac@,
        expiry_check(now, opt_view(t.expires_at)) is Ok,
    ensures
        authority_verify(key, t, now) is Ok,
{
    let rs = names(t.rights@);
    assert forall|j: int| 0 <= j < rs.len() implies !is_unknown()(#[trigger] rs[j]) by {
        assert(rs.contains(rs[j]));
    }
    crate::order::lemma_first_index_none(rs, is_unknown());
}

/// Law: a token whose MAC is not the one the authority computes over its
/// payload fails verification with `BadMac` (once its rights pass).
pub proof fn law_tampered_mac_fails(key: Seq<u8>, t: CapToken, now: (i64, u32), m: Seq<char>)
    requires
        names(t.rights@).len() > 0,
        forall|x: Seq<char>| #[trigger] names(t.rights@).contains(x) ==> known_right(x),
        mac_of(key, payload_of(t)) == m,
        m != t.mac@,
    ensures
        authority_verify(key, t, now) == Err::<(), CapFault>(CapFault::BadMac),
{
    let rs = names(t.rights@);
    assert forall|j: int| 0 <= j < rs.len() implies !is_unknown()(#[trigger] rs[j]) by {
        assert(rs.contains(rs[j]));
    }
    crate::order::lemma_first_index_none(rs, is_unknown());
}

} // verus!
