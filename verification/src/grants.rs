//! The Ask protocol: pending capability grants, the user's decisions, and
//! the check that writes must pass when the charter requires Ask.

use crate::charter::{is_builtin_pack, Charter};
use crate::keyed::{
    entries_map, insert_pos, key_index, lemma_key_index_at, lemma_key_index_bounds, lemma_put_entry,
    put_entry, sorted_keys, Keyed,
};
use crate::order::{
    first_index, lemma_first_index, lemma_first_index_is, lemma_first_index_none, seq_lt,
    sort_in_order, sort_stable, str_lt, Ordered,
};
use crate::protocol::{CreateGrantRequest, Grant, GrantDecision, GrantScope, GrantStatus, WritePermission};
use crate::text::{byte_len, bytes_capped, owned, push_str, str_eq, trim, trimmed};
use vstd::prelude::*;

verus! {

broadcast use vstd::string::group_string_axioms;

/// Why a grant request was refused, with the HTTP status it maps to.
#[derive(Debug)]
pub enum GrantError {
    /// 400: malformed request or unusable charter.
    BadRequest(String),
    /// 404: no grant with that id.
    NotFound(String),
    /// 409: the grant was already decided.
    Conflict(String),
}

/// A grant error with its message as a character sequence.
pub enum GrantFault {
    BadRequest(Seq<char>),
    NotFound(Seq<char>),
    Conflict(Seq<char>),
}

impl View for GrantError {
    type V = GrantFault;

    open spec fn view(&self) -> GrantFault {
        match self {
            GrantError::BadRequest(m) => GrantFault::BadRequest(m@),
            GrantError::NotFound(m) => GrantFault::NotFound(m@),
            GrantError::Conflict(m) => GrantFault::Conflict(m@),
        }
    }
}

/// Grants of one daemon process, keyed by id.
pub struct GrantBook {
    grants: Keyed<Grant>,
}

/// Name of a status as the daemon reports it.
pub open spec fn status_name(s: GrantStatus) -> Seq<char> {
    match s {
        GrantStatus::Pending => "Pending"@,
        GrantStatus::Allowed => "Allowed"@,
        GrantStatus::Denied => "Denied"@,
        GrantStatus::Consumed => "Consumed"@,
    }
}

/// `g` after the user's decision at time `now`.
pub open spec fn decided(g: Grant, d: GrantDecision, now: String) -> Grant {
    match d {
        GrantDecision::AllowOnce => Grant {
            status: GrantStatus::Allowed,
            scope: Some(GrantScope::Once),
            decided_at: Some(now),
            ..g
        },
        GrantDecision::AllowTask => Grant {
            status: GrantStatus::Allowed,
            scope: Some(GrantScope::Task),
            decided_at: Some(now),
            ..g
        },
        GrantDecision::Deny => Grant {
            status: GrantStatus::Denied,
            scope: None,
            decided_at: Some(now),
            ..g
        },
    }
}

/// `g` after its single use.
pub open spec fn consumed(g: Grant) -> Grant {
    Grant { status: GrantStatus::Consumed, ..g }
}

/// Entries holding an allowed grant for `action`.
pub open spec fn allowing(action: Seq<char>) -> spec_fn((String, Grant)) -> bool {
    |e: (String, Grant)| e.1.action@ == action && e.1.status == GrantStatus::Allowed
}

/// Some grant for `action` awaits a decision.
pub open spec fn has_pending(es: Seq<(String, Grant)>, action: Seq<char>) -> bool {
    exists|j: int|
        0 <= j < es.len() && (#[trigger] es[j]).1.action@ == action && es[j].1.status
            == GrantStatus::Pending
}

/// Whether a write of `action` may proceed under pack `pack` with these grants.
/// Every builtin pack requires Ask for writes.
pub open spec fn write_check(
    pack: Seq<char>,
    es: Seq<(String, Grant)>,
    action: Seq<char>,
) -> WritePermission {
    if !is_builtin_pack(pack) {
        WritePermission::NeedsGrant
    } else if first_index(es, allowing(action)) >= 0 {
        WritePermission::Allowed
    } else if has_pending(es, action) {
        WritePermission::PendingExists
    } else {
        WritePermission::NeedsGrant
    }
}

/// The grants after a write check: the allowed grant that was used is
/// consumed when its scope is `Once`.
pub open spec fn after_check(
    pack: Seq<char>,
    es: Seq<(String, Grant)>,
    action: Seq<char>,
) -> Seq<(String, Grant)> {
    let a = first_index(es, allowing(action));
    if is_builtin_pack(pack) && a >= 0 && es[a].1.scope == Some(GrantScope::Once) {
        es.update(a, (es[a].0, consumed(es[a].1)))
    } else {
        es
    }
}

/// What `create` answers for this request under pack `pack`.
pub open spec fn create_refusal(pack: Seq<char>, req: CreateGrantRequest) -> Option<GrantFault> {
    let action = trim(req.action@);
    let summary = trim(req.summary@);
    if action.len() == 0 || summary.len() == 0 {
        Some(GrantFault::BadRequest("action and summary are required"@))
    } else if byte_len(action) > 128 || byte_len(summary) > 512 {
        Some(GrantFault::BadRequest("action or summary too long"@))
    } else if !is_builtin_pack(pack) {
        Some(GrantFault::BadRequest("unknown charter pack: "@ + pack))
    } else {
        None
    }
}

/// An allow-once grant is used exactly once: the check that uses it allows
/// the write, and when no other grant allows the action the next check does not.
pub proof fn law_once_grant_used_once(pack: Seq<char>, es: Seq<(String, Grant)>, action: Seq<char>)
    requires
        is_builtin_pack(pack),
        first_index(es, allowing(action)) >= 0,
        es[first_index(es, allowing(action))].1.scope == Some(GrantScope::Once),
        forall|j: int|
            0 <= j < es.len() && j != first_index(es, allowing(action)) ==> !allowing(action)(
                #[trigger] es[j],
            ),
    ensures
        write_check(pack, es, action) == WritePermission::Allowed,
        write_check(pack, after_check(pack, es, action), action) != WritePermission::Allowed,
{
    let a = first_index(es, allowing(action));
    lemma_first_index(es, allowing(action));
    let t = after_check(pack, es, action);
    assert(t == es.update(a, (es[a].0, consumed(es[a].1))));
    assert forall|j: int| 0 <= j < t.len() implies !allowing(action)(#[trigger] t[j]) by {
        if j != a {
            assert(t[j] == es[j]);
        }
    }
    lemma_first_index_none(t, allowing(action));
}

/// An allow-task grant lasts: using it changes nothing, so every later check
/// allows the write again.
pub proof fn law_task_grant_lasts(pack: Seq<char>, es: Seq<(String, Grant)>, action: Seq<char>)
    requires
        is_builtin_pack(pack),
        first_index(es, allowing(action)) >= 0,
        es[first_index(es, allowing(action))].1.scope != Some(GrantScope::Once),
    ensures
        write_check(pack, es, action) == WritePermission::Allowed,
        after_check(pack, es, action) == es,
{
}

/// After the user allows a pending grant (once or for the task), a write of
/// its action is allowed.
pub proof fn law_allowed_after_decision(
    pack: Seq<char>,
    es: Seq<(String, Grant)>,
    i: int,
    d: GrantDecision,
    now: String,
)
    requires
        is_builtin_pack(pack),
        0 <= i < es.len(),
        es[i].1.status == GrantStatus::Pending,
        d != GrantDecision::Deny,
    ensures
        write_check(pack, es.update(i, (es[i].0, decided(es[i].1, d, now))), es[i].1.action@)
            == WritePermission::Allowed,
{
    let t = es.update(i, (es[i].0, decided(es[i].1, d, now)));
    lemma_first_index(t, allowing(es[i].1.action@));
    assert(allowing(es[i].1.action@)(t[i]));
}

/// Law: a grant the user allows once is used once. When it is the only
/// grant allowing its action, the first write check after the decision is
/// allowed and the one after that is not.
pub proof fn law_allow_once_decision_allows_one_write(
    pack: Seq<char>,
    es: Seq<(String, Grant)>,
    i: int,
    now: String,
)
    requires
        is_builtin_pack(pack),
        0 <= i < es.len(),
        es[i].1.status == GrantStatus::Pending,
        forall|j: int| 0 <= j < es.len() && j != i ==> !allowing(es[i].1.action@)(#[trigger] es[j]),
    ensures
        ({
            let a = es[i].1.action@;
            let t = es.update(i, (es[i].0, decided(es[i].1, GrantDecision::AllowOnce, now)));
            &&& write_check(pack, t, a) == WritePermission::Allowed
            &&& write_check(pack, after_check(pack, t, a), a) != WritePermission::Allowed
        }),
{
    let a = es[i].1.action@;
    let t = es.update(i, (es[i].0, decided(es[i].1, GrantDecision::AllowOnce, now)));
    assert(allowing(a)(t[i]));
    assert forall|j: int| 0 <= j < i implies !allowing(a)(#[trigger] t[j]) by {
        assert(t[j] == es[j]);
    }
    lemma_first_index_is(t, allowing(a), i);
    assert forall|j: int| 0 <= j < t.len() && j != i implies !allowing(a)(#[trigger] t[j]) by {
        assert(t[j] == es[j]);
    }
    assert(t[first_index(t, allowing(a))].1.scope == Some(GrantScope::Once));
    law_once_grant_used_once(pack, t, a);
}

/// Law: a grant the user allows for the task keeps allowing: using it
/// changes no grant, so every later check of its action is allowed too.
pub proof fn law_allow_task_decision_keeps_allowing(
    pack: Seq<char>,
    es: Seq<(String, Grant)>,
    i: int,
    now: String,
)
    requires
        is_builtin_pack(pack),
        0 <= i < es.len(),
        es[i].1.status == GrantStatus::Pending,
        forall|j: int| 0 <= j < es.len() && j != i ==> !allowing(es[i].1.action@)(#[trigger] es[j]),
    ensures
        ({
            let a = es[i].1.action@;
            let t = es.update(i, (es[i].0, decided(es[i].1, GrantDecision::AllowTask, now)));
            &&& write_check(pack, t, a) == WritePermission::Allowed
            &&& after_check(pack, t, a) == t
        }),
{
    let a = es[i].1.action@;
    let t = es.update(i, (es[i].0, decided(es[i].1, GrantDecision::AllowTask, now)));
    assert(allowing(a)(t[i]));
    assert forall|j: int| 0 <= j < i implies !allowing(a)(#[trigger] t[j]) by {
        assert(t[j] == es[j]);
    }
    lemma_first_index_is(t, allowing(a), i);
}

/// A denied grant never allows a write: when no other grant allows the
/// action, the write still needs a grant (or waits on a pending one).
pub proof fn law_denied_grant_never_allows(
    pack: Seq<char>,
    es: Seq<(String, Grant)>,
    i: int,
    now: String,
)
    requires
        0 <= i < es.len(),
        es[i].1.status == GrantStatus::Pending,
        forall|j: int| 0 <= j < es.len() && j != i ==> !allowing(es[i].1.action@)(#[trigger] es[j]),
    ensures
        write_check(
            pack,
            es.update(i, (es[i].0, decided(es[i].1, GrantDecision::Deny, now))),
            es[i].1.action@,
        ) != WritePermission::Allowed,
{
    let t = es.update(i, (es[i].0, decided(es[i].1, GrantDecision::Deny, now)));
    assert forall|j: int| 0 <= j < t.len() implies !allowing(es[i].1.action@)(#[trigger] t[j]) by {
        if j != i {
            assert(t[j] == es[j]);
        }
    }
    lemma_first_index_none(t, allowing(es[i].1.action@));
}

/// A recorded allow-once grant is found and used exactly once: in a book
/// where no other grant allows its action, the first write check after
/// recording it is allowed and the next is not (it needs a new grant when
/// none is pending).
pub proof fn law_recorded_once_grant_used_once(pack: Seq<char>, es: Seq<(String, Grant)>, g: Grant)
    requires
        is_builtin_pack(pack),
        sorted_keys(es),
        g.status == GrantStatus::Allowed,
        g.scope == Some(GrantScope::Once),
        forall|j: int| 0 <= j < es.len() ==> !allowing(g.action@)(#[trigger] es[j]),
    ensures
        write_check(pack, put_entry(es, (g.id, g)), g.action@) == WritePermission::Allowed,
        write_check(pack, after_check(pack, put_entry(es, (g.id, g)), g.action@), g.action@)
            != WritePermission::Allowed,
        !has_pending(es, g.action@) ==> write_check(
            pack,
            after_check(pack, put_entry(es, (g.id, g)), g.action@),
            g.action@,
        ) == WritePermission::NeedsGrant,
{
    let k = g.id@;
    let a = g.action@;
    let e = (g.id, g);
    let t = put_entry(es, e);
    lemma_put_entry(es, e);
    lemma_key_index_bounds(es, k);
    let i = key_index(es, k);
    let p = if i >= 0 {
        i
    } else {
        insert_pos(es, k)
    };
    lemma_first_index(es, crate::keyed::not_below::<Grant>(k));
    if i >= 0 {
        assert(t == es.update(i, e));
    } else {
        assert(t == es.take(p).push(e) + es.skip(p));
    }
    lemma_key_index_at(t, p);
    assert(t[p] == e);
    assert forall|j: int| 0 <= j < t.len() && j != p implies !allowing(a)(#[trigger] t[j]) && (
    !has_pending(es, a) ==> !(t[j].1.action@ == a && t[j].1.status == GrantStatus::Pending)) by {
        let m = if i >= 0 || j < p {
            j
        } else {
            j - 1
        };
        assert(t[j] == es[m]);
        assert(!allowing(a)(es[m]));
    }
    lemma_first_index_is(t, allowing(a), p);
    law_once_grant_used_once(pack, t, a);
    if !has_pending(es, a) {
        let u = after_check(pack, t, a);
        assert(u == t.update(p, (t[p].0, consumed(t[p].1))));
        assert forall|j: int| 0 <= j < u.len() implies !((#[trigger] u[j]).1.action@ == a
            && u[j].1.status == GrantStatus::Pending) by {
            if j != p {
                assert(u[j] == t[j]);
            }
        }
    }
}

/// A decision is final: a decided grant is no longer pending, so deciding it
/// again is a conflict.
pub proof fn law_decision_is_final(g: Grant, d: GrantDecision, now: String)
    ensures
        decided(g, d, now).status != GrantStatus::Pending,
{
}

/// Under a pack that is not builtin, writes always need a grant and no grant is used.
pub proof fn law_unknown_pack_needs_grant(pack: Seq<char>, es: Seq<(String, Grant)>, action: Seq<char>)
    requires
        !is_builtin_pack(pack),
    ensures
        write_check(pack, es, action) == WritePermission::NeedsGrant,
        after_check(pack, es, action) == es,
{
}

impl Ordered for Grant {
    open spec fn precedes(a: Grant, b: Grant) -> bool {
        seq_lt(a.created_at@, b.created_at@)
    }

    fn goes_before(&self, other: &Grant) -> (r: bool) {
        str_lt(self.created_at.as_str(), other.created_at.as_str())
    }
}

fn status_text(s: GrantStatus) -> (t: &'static str)
    ensures
        t@ == status_name(s),
{
    match s {
        GrantStatus::Pending => "Pending",
        GrantStatus::Allowed => "Allowed",
        GrantStatus::Denied => "Denied",
        GrantStatus::Consumed => "Consumed",
    }
}

impl GrantBook {
    /// A book without grants.
    pub fn new() -> (b: GrantBook)
        ensures
            b.entries() == Seq::<(String, Grant)>::empty(),
            sorted_keys(b.entries()),
    {
        GrantBook { grants: Keyed::new() }
    }

    /// The grants, keyed by id, in key order.
    pub closed spec fn entries(&self) -> Seq<(String, Grant)> {
        self.grants.entries()
    }

    /// The grants as a map from id.
    pub open spec fn map(&self) -> Map<Seq<char>, Grant> {
        entries_map(self.entries())
    }

    /// Records `grant` under its id, replacing any grant with that id.
    pub fn put(&mut self, grant: Grant)
        ensures
            final(self).entries() == put_entry(old(self).entries(), (grant.id, grant)),
            sorted_keys(final(self).entries()),
            final(self).map() == old(self).map().insert(grant.id@, grant),
    {
        let id = grant.id.clone();
        self.grants.insert(id, grant);
    }

    /// All grants ordered by creation time (grants created at the same time
    /// keep the order of their ids).
    pub fn list(&self) -> (r: Vec<Grant>)
        ensures
            r@ == sort_stable(self.entries().map_values(|e: (String, Grant)| e.1)),
    {
        let n = self.grants.len();
        let mut all: Vec<Grant> = Vec::new();
        let mut i: usize = 0;
        while i < n
            invariant
                n == self.entries().len(),
                i <= n,
                all@ == self.entries().map_values(|e: (String, Grant)| e.1).take(i as int),
            decreases n - i,
        {
            let e = self.grants.entry_at(i);
            all.push(e.1.duplicate());
            assert(self.entries().map_values(|e: (String, Grant)| e.1).take(i + 1)
                == self.entries().map_values(|e: (String, Grant)| e.1).take(i as int).push(e.1));
            i = i + 1;
        }
        assert(self.entries().map_values(|e: (String, Grant)| e.1).take(n as int)
            == self.entries().map_values(|e: (String, Grant)| e.1));
        sort_in_order(all)
    }

    /// Records a new pending grant. `pack` is the active pack; `id` and
    /// `created_at` are the id and creation time to record.
    pub fn create(
        &mut self,
        pack: &str,
        req: CreateGrantRequest,
        id: String,
        created_at: String,
    ) -> (r: Result<Grant, GrantError>)
        ensures
            r is Err <==> create_refusal(pack@, req) is Some,
            r matches Err(e) ==> create_refusal(pack@, req) == Some(e@) && final(self).entries()
                == old(self).entries(),
            r matches Ok(g) ==> {
                &&& g.id == id
                &&& g.created_at == created_at
                &&& g.action@ == trim(req.action@)
                &&& g.summary@ == trim(req.summary@)
                &&& g.requester == match req.requester {
                    Some(s) => if trim(s@).len() > 0 {
                        Some(s)
                    } else {
                        None
                    },
                    None => None,
                }
                &&& g.status == GrantStatus::Pending
                &&& g.scope == None::<GrantScope>
                &&& g.decided_at == None::<String>
                &&& final(self).entries() == put_entry(old(self).entries(), (id, g))
                &&& final(self).map() == old(self).map().insert(id@, g)
            },
    {
        let action = trimmed(req.action.as_str());
        let summary = trimmed(req.summary.as_str());
        if action.as_str().is_empty() || summary.as_str().is_empty() {
            return Err(GrantError::BadRequest(owned("action and summary are required")));
        }
        if bytes_capped(action.as_str(), 129) > 128 || bytes_capped(summary.as_str(), 513) > 512 {
            return Err(GrantError::BadRequest(owned("action or summary too long")));
        }
        match Charter::builtin(pack) {
            Ok(_) => {},
            Err(_) => {
                let mut m = owned("unknown charter pack: ");
                push_str(&mut m, pack);
                return Err(GrantError::BadRequest(m));
            },
        }
        let requester = match req.requester {
            Some(s) => {
                let t = trimmed(s.as_str());
                if t.as_str().is_empty() {
                    None
                } else {
                    Some(s)
                }
            },
            None => None,
        };
        let grant = Grant {
            id,
            created_at,
            action,
            summary,
            requester,
            status: GrantStatus::Pending,
            scope: None,
            decided_at: None,
        };
        self.put(grant.duplicate());
        Ok(grant)
    }

    /// Applies the user's decision to the pending grant `id` at time `now`.
    pub fn decide(&mut self, id: &str, decision: GrantDecision, now: String) -> (r: Result<
        Grant,
        GrantError,
    >)
        ensures
            ({
                let es = old(self).entries();
                let i = key_index(es, id@);
                if i < 0 {
                    &&& r matches Err(e) && e@ == GrantFault::NotFound("grant not found: "@ + id@)
                    &&& final(self).entries() == es
                } else if es[i].1.status != GrantStatus::Pending {
                    &&& r matches Err(e) && e@ == GrantFault::Conflict(
                        "grant "@ + id@ + " is already "@ + status_name(es[i].1.status),
                    )
                    &&& final(self).entries() == es
                } else {
                    &&& r matches Ok(g) && g == decided(es[i].1, decision, now)
                    &&& final(self).entries() == es.update(
                        i,
                        (es[i].0, decided(es[i].1, decision, now)),
                    )
                }
            }),
            sorted_keys(old(self).entries()) ==> sorted_keys(final(self).entries()),
    {
        match self.grants.find(id) {
            None => {
                let mut m = owned("grant not found: ");
                push_str(&mut m, id);
                Err(GrantError::NotFound(m))
            },
            Some(i) => {
                let current = &self.grants.entry_at(i).1;
                if current.status != GrantStatus::Pending {
                    let mut m = owned("grant ");
                    push_str(&mut m, id);
                    push_str(&mut m, " is already ");
                    push_str(&mut m, status_text(current.status));
                    return Err(GrantError::Conflict(m));
                }
                let mut g = current.duplicate();
                match decision {
                    GrantDecision::AllowOnce => {
                        g.status = GrantStatus::Allowed;
                        g.scope = Some(GrantScope::Once);
                        g.decided_at = Some(now);
                    },
                    GrantDecision::AllowTask => {
                        g.status = GrantStatus::Allowed;
                        g.scope = Some(GrantScope::Task);
                        g.decided_at = Some(now);
                    },
                    GrantDecision::Deny => {
                        g.status = GrantStatus::Denied;
                        g.scope = None;
                        g.decided_at = Some(now);
                    },
                }
                self.grants.set_value(i, g.duplicate());
                Ok(g)
            },
        }
    }
}

/// Enforces `writes_require_ask` for adapters: whether a write of `action`
/// may proceed under pack `pack`. A `Once` grant that allows it is consumed.
pub fn check_write_permission(pack: &str, book: &mut GrantBook, action: &str) -> (r:
    WritePermission)
    ensures
        r == write_check(pack@, old(book).entries(), action@),
        final(book).entries() == after_check(pack@, old(book).entries(), action@),
{
    let charter = match Charter::builtin(pack) {
        Ok(c) => c,
        Err(_) => return WritePermission::NeedsGrant,
    };
    if !charter.writes_require_ask {
        return WritePermission::Allowed;
    }
    let ghost es = book.entries();
    let n = book.grants.len();
    let mut pending = false;
    let mut i: usize = 0;
    while i < n
        invariant
            es == book.entries(),
            es == old(book).entries(),
            is_builtin_pack(pack@),
            n == es.len(),
            i <= n,
            forall|j: int| 0 <= j < i ==> !allowing(action@)(#[trigger] es[j]),
            pending == exists|j: int|
                0 <= j < i && (#[trigger] es[j]).1.action@ == action@ && es[j].1.status
                    == GrantStatus::Pending,
        decreases n - i,
    {
        let g = &book.grants.entry_at(i).1;
        if str_eq(g.action.as_str(), action) {
            match g.status {
                GrantStatus::Pending => {
                    pending = true;
                },
                GrantStatus::Allowed => {
                    proof {
                        lemma_first_index_is(es, allowing(action@), i as int);
                    }
                    let once = match g.scope {
                        Some(GrantScope::Once) => true,
                        _ => false,
                    };
                    if once {
                        let mut c = g.duplicate();
                        c.status = GrantStatus::Consumed;
                        book.grants.set_value(i, c);
                    }
                    return WritePermission::Allowed;
                },
                _ => {},
            }
        }
        i = i + 1;
    }
    proof {
        lemma_first_index_none(es, allowing(action@));
    }
    if pending {
        WritePermission::PendingExists
    } else {
        WritePermission::NeedsGrant
    }
}

} // verus!
