//! Reliquary: named secret references. The catalog holds metadata only; the
//! sealed store holds the values, which only `unwrap` hands out.

use crate::keyed::{entries_map, lemma_entries_map, put_entry, sorted_keys, Keyed};
use crate::memory::{memory_message, HelixHome, MemoryError};
use crate::paths::{join_path, path_join};
use crate::text::{chars_of, owned, push_str};
use vstd::prelude::*;

verus! {

broadcast use vstd::string::group_string_axioms;

/// Failures of secret operations that the library decides.
#[derive(Debug)]
pub enum ReliquaryError {
    /// The filesystem failed; the text says how.
    Io(String),
    InvalidName(String),
    NotFound(String),
    AlreadyExists(String),
    KeychainStub,
    EmptyValue,
}

/// A reliquary error with its payload as a character sequence.
pub enum ReliquaryFault {
    Io(Seq<char>),
    InvalidName(Seq<char>),
    NotFound(Seq<char>),
    AlreadyExists(Seq<char>),
    KeychainStub,
    EmptyValue,
}

impl View for ReliquaryError {
    type V = ReliquaryFault;

    open spec fn view(&self) -> ReliquaryFault {
        match self {
            ReliquaryError::Io(m) => ReliquaryFault::Io(m@),
            ReliquaryError::InvalidName(n) => ReliquaryFault::InvalidName(n@),
            ReliquaryError::NotFound(n) => ReliquaryFault::NotFound(n@),
            ReliquaryError::AlreadyExists(n) => ReliquaryFault::AlreadyExists(n@),
            ReliquaryError::KeychainStub => ReliquaryFault::KeychainStub,
            ReliquaryError::EmptyValue => ReliquaryFault::EmptyValue,
        }
    }
}

/// Text of a reliquary error as it is shown to users.
pub open spec fn reliquary_message(e: ReliquaryFault) -> Seq<char> {
    match e {
        ReliquaryFault::Io(m) => m,
        ReliquaryFault::InvalidName(n) => "invalid secret name: "@ + n,
        ReliquaryFault::NotFound(n) => "secret not found: "@ + n,
        ReliquaryFault::AlreadyExists(n) => "secret already exists: "@ + n,
        ReliquaryFault::KeychainStub => "keychain backend is a stub; unwrap not available yet"@,
        ReliquaryFault::EmptyValue => "empty secret value"@,
    }
}

impl ReliquaryError {
    /// The user-facing text of this error.
    pub fn message(&self) -> (m: String)
        ensures
            m@ == reliquary_message(self@),
    {
        match self {
            ReliquaryError::Io(m) => m.clone(),
            ReliquaryError::InvalidName(n) => {
                let mut m = owned("invalid secret name: ");
                push_str(&mut m, n.as_str());
                m
            },
            ReliquaryError::NotFound(n) => {
                let mut m = owned("secret not found: ");
                push_str(&mut m, n.as_str());
                m
            },
            ReliquaryError::AlreadyExists(n) => {
                let mut m = owned("secret already exists: ");
                push_str(&mut m, n.as_str());
                m
            },
            ReliquaryError::KeychainStub => owned("keychain backend is a stub; unwrap not available yet"),
            ReliquaryError::EmptyValue => owned("empty secret value"),
        }
    }
}

/// Backend that holds the sealed material. The keychain backend is a stub.
#[derive(Debug, Clone, Copy, PartialEq, Eq, Structural)]
pub enum Backend {
    /// Local sealed file under the reliquary directory.
    LocalSealed,
    /// Future OS keychain; unwrap falls back to the local sealed copy.
    KeychainStub,
}

/// Metadata for one named secret reference. Never includes the value.
#[derive(Debug, Clone)]
pub struct SecretMeta {
    pub name: String,
    pub backend: Backend,
    pub created_at: String,
    /// Opaque reference id for the sealed blob / keychain account.
    pub ref_id: String,
}

impl SecretMeta {
    /// A field-by-field copy.
    pub fn duplicate(&self) -> (m: SecretMeta)
        ensures
            m == *self,
    {
        SecretMeta {
            name: self.name.clone(),
            backend: self.backend,
            created_at: self.created_at.clone(),
            ref_id: self.ref_id.clone(),
        }
    }
}

/// Catalog and sealed store of one home.
pub struct Reliquary {
    home: HelixHome,
    catalog: Keyed<SecretMeta>,
    sealed: Keyed<String>,
}

/// Characters allowed in a secret name.
pub open spec fn secret_char(c: char) -> bool {
    ('a' <= c && c <= 'z') || ('0' <= c && c <= '9') || c == '-'
}

/// Secret names: 1 to 64 characters from `a-z`, `0-9` and `-`, not starting
/// or ending with `-`.
pub open spec fn valid_secret_name(n: Seq<char>) -> bool {
    &&& 0 < n.len() <= 64
    &&& forall|i: int| 0 <= i < n.len() ==> secret_char(#[trigger] n[i])
    &&& n[0] != '-'
    &&& n.last() != '-'
}

/// What `unwrap` answers for `name` given the catalog and the sealed values.
pub open spec fn unwrap_spec(
    catalog: Map<Seq<char>, SecretMeta>,
    sealed: Map<Seq<char>, String>,
    name: Seq<char>,
) -> Result<Seq<char>, ReliquaryFault> {
    if !valid_secret_name(name) {
        Err(ReliquaryFault::InvalidName(name))
    } else if !catalog.contains_key(name) {
        Err(ReliquaryFault::NotFound(name))
    } else if sealed.contains_key(name) {
        Ok(sealed[name]@)
    } else {
        Err(ReliquaryFault::NotFound(name))
    }
}

/// Whether `add` accepts `name` and `value` against this catalog.
pub open spec fn add_accepted(
    catalog: Map<Seq<char>, SecretMeta>,
    name: Seq<char>,
    value: Seq<char>,
) -> bool {
    valid_secret_name(name) && value.len() > 0 && !catalog.contains_key(name)
}

/// The error `add` gives when it refuses.
pub open spec fn add_refusal(
    catalog: Map<Seq<char>, SecretMeta>,
    name: Seq<char>,
    value: Seq<char>,
) -> ReliquaryFault {
    if !valid_secret_name(name) {
        ReliquaryFault::InvalidName(name)
    } else if value.len() == 0 {
        ReliquaryFault::EmptyValue
    } else {
        ReliquaryFault::AlreadyExists(name)
    }
}

/// The state after `add` stored `value` under `name`: the catalog gains the
/// metadata and the sealed store gains the value; other values stay.
pub open spec fn added(
    old_catalog: Map<Seq<char>, SecretMeta>,
    old_sealed: Map<Seq<char>, String>,
    new_catalog: Map<Seq<char>, SecretMeta>,
    new_sealed: Map<Seq<char>, String>,
    name: Seq<char>,
    value: Seq<char>,
    meta: SecretMeta,
) -> bool {
    &&& new_catalog == old_catalog.insert(name, meta)
    &&& new_sealed.dom() == old_sealed.dom().insert(name)
    &&& new_sealed[name]@ == value
    &&& forall|k: Seq<char>|
        k != name && #[trigger] old_sealed.contains_key(k) ==> new_sealed[k] == old_sealed[k]
}

/// The state after `revoke` deleted `name` from both stores.
pub open spec fn revoked(
    old_catalog: Map<Seq<char>, SecretMeta>,
    old_sealed: Map<Seq<char>, String>,
    new_catalog: Map<Seq<char>, SecretMeta>,
    new_sealed: Map<Seq<char>, String>,
    name: Seq<char>,
) -> bool {
    &&& new_catalog == old_catalog.remove(name)
    &&& new_sealed == old_sealed.remove(name)
}

/// A secret that `add` stored is what `unwrap` gives back.
pub proof fn law_unwrap_after_add(
    old_catalog: Map<Seq<char>, SecretMeta>,
    old_sealed: Map<Seq<char>, String>,
    new_catalog: Map<Seq<char>, SecretMeta>,
    new_sealed: Map<Seq<char>, String>,
    name: Seq<char>,
    value: Seq<char>,
    meta: SecretMeta,
)
    requires
        add_accepted(old_catalog, name, value),
        added(old_catalog, old_sealed, new_catalog, new_sealed, name, value, meta),
    ensures
        unwrap_spec(new_catalog, new_sealed, name) == Ok::<Seq<char>, ReliquaryFault>(value),
{
}

/// Adding one secret leaves what `unwrap` answers for every other name.
pub proof fn law_add_keeps_others(
    old_catalog: Map<Seq<char>, SecretMeta>,
    old_sealed: Map<Seq<char>, String>,
    new_catalog: Map<Seq<char>, SecretMeta>,
    new_sealed: Map<Seq<char>, String>,
    name: Seq<char>,
    value: Seq<char>,
    meta: SecretMeta,
    other: Seq<char>,
)
    requires
        added(old_catalog, old_sealed, new_catalog, new_sealed, name, value, meta),
        other != name,
    ensures
        unwrap_spec(new_catalog, new_sealed, other) == unwrap_spec(old_catalog, old_sealed, other),
{
}

/// After `revoke`, the name is gone: `unwrap` reports it as not found and a
/// new `add` under the same name is accepted again (given a non-empty value).
pub proof fn law_revoke_forgets(
    old_catalog: Map<Seq<char>, SecretMeta>,
    old_sealed: Map<Seq<char>, String>,
    new_catalog: Map<Seq<char>, SecretMeta>,
    new_sealed: Map<Seq<char>, String>,
    name: Seq<char>,
    value: Seq<char>,
)
    requires
        valid_secret_name(name),
        revoked(old_catalog, old_sealed, new_catalog, new_sealed, name),
        value.len() > 0,
    ensures
        unwrap_spec(new_catalog, new_sealed, name) == Err::<Seq<char>, ReliquaryFault>(
            ReliquaryFault::NotFound(name),
        ),
        add_accepted(new_catalog, name, value),
{
}

/// Revoking one secret leaves what `unwrap` answers for every other name.
pub proof fn law_revoke_keeps_others(
    old_catalog: Map<Seq<char>, SecretMeta>,
    old_sealed: Map<Seq<char>, String>,
    new_catalog: Map<Seq<char>, SecretMeta>,
    new_sealed: Map<Seq<char>, String>,
    name: Seq<char>,
    other: Seq<char>,
)
    requires
        revoked(old_catalog, old_sealed, new_catalog, new_sealed, name),
        other != name,
    ensures
        unwrap_spec(new_catalog, new_sealed, other) == unwrap_spec(old_catalog, old_sealed, other),
{
}

/// A name already in the catalog cannot be added twice.
pub proof fn law_no_duplicate(
    catalog: Map<Seq<char>, SecretMeta>,
    name: Seq<char>,
    value: Seq<char>,
)
    requires
        valid_secret_name(name),
        value.len() > 0,
        catalog.contains_key(name),
    ensures
        !add_accepted(catalog, name, value),
        add_refusal(catalog, name, value) == ReliquaryFault::AlreadyExists(name),
{
}

/// OS keychain store stub: always succeeds without storing anything.
pub fn keychain_store_stub(name: &str, value: &str) -> (r: Result<(), ReliquaryError>)
    ensures
        r is Ok,
{
    Ok(())
}

/// OS keychain delete stub: always succeeds.
pub fn keychain_delete_stub(name: &str) -> (r: Result<(), ReliquaryError>)
    ensures
        r is Ok,
{
    Ok(())
}

/// OS keychain unwrap stub: never has the value.
pub fn keychain_unwrap_stub(name: &str) -> (r: Result<String, ReliquaryError>)
    ensures
        r matches Err(ReliquaryError::KeychainStub),
{
    Err(ReliquaryError::KeychainStub)
}

impl Reliquary {
    /// The reliquary of `home` with the given catalog and sealed values.
    pub fn open(home: HelixHome, catalog: Keyed<SecretMeta>, sealed: Keyed<String>) -> (r:
        Reliquary)
        ensures
            r.root() == home.root@,
            r.catalog_entries() == catalog.entries(),
            r.catalog_map() == catalog.map(),
            r.sealed_map() == sealed.map(),
    {
        Reliquary { home, catalog, sealed }
    }

    /// The reliquary of the resolved Helix home (see `HelixHome::resolve`),
    /// with the given catalog and sealed values.
    pub fn from_resolved(
        home: Result<HelixHome, MemoryError>,
        catalog: Keyed<SecretMeta>,
        sealed: Keyed<String>,
    ) -> (r: Result<Reliquary, ReliquaryError>)
        ensures
            match home {
                Ok(h) => r matches Ok(rel) && rel.root() == h.root@ && rel.catalog_entries()
                    == catalog.entries() && rel.sealed_map() == sealed.map(),
                Err(e) => r matches Err(f) && f@ == ReliquaryFault::Io(memory_message(e@)),
            },
    {
        match home {
            Ok(h) => Ok(Self::open(h, catalog, sealed)),
            Err(e) => Err(ReliquaryError::Io(e.message())),
        }
    }

    /// The root of the home this catalog belongs to.
    pub closed spec fn root(&self) -> Seq<char> {
        self.home.root@
    }

    /// The catalog's entries, keyed by name, in name order.
    pub closed spec fn catalog_entries(&self) -> Seq<(String, SecretMeta)> {
        self.catalog.entries()
    }

    /// Name to metadata.
    pub open spec fn catalog_map(&self) -> Map<Seq<char>, SecretMeta> {
        entries_map(self.catalog_entries())
    }

    /// Name to sealed value.
    pub closed spec fn sealed_map(&self) -> Map<Seq<char>, String> {
        self.sealed.map()
    }

    /// Metadata in name order.
    pub open spec fn listing(&self) -> Seq<SecretMeta> {
        self.catalog_entries().map_values(|e: (String, SecretMeta)| e.1)
    }

    /// The catalog's entries in name order.
    pub fn catalog(&self) -> (c: &Keyed<SecretMeta>)
        ensures
            c.map() == self.catalog_map(),
            c.value_seq() == self.listing(),
    {
        &self.catalog
    }

    /// The sealed values.
    pub fn sealed(&self) -> (s: &Keyed<String>)
        ensures
            s.map() == self.sealed_map(),
    {
        &self.sealed
    }

    /// Directory of the reliquary.
    pub fn reliquary_dir(&self) -> (p: String)
        ensures
            p@ == join_path(self.root(), "reliquary"@),
    {
        path_join(self.home.root.as_str(), "reliquary")
    }

    /// File holding the catalog.
    pub fn catalog_path(&self) -> (p: String)
        ensures
            p@ == join_path(join_path(self.root(), "reliquary"@), "catalog.json"@),
    {
        let d = self.reliquary_dir();
        path_join(d.as_str(), "catalog.json")
    }

    /// File holding the sealed values.
    pub fn sealed_path(&self) -> (p: String)
        ensures
            p@ == join_path(join_path(self.root(), "reliquary"@), "sealed.json"@),
    {
        let d = self.reliquary_dir();
        path_join(d.as_str(), "sealed.json")
    }

    /// Checks a secret name.
    pub fn validate_name(name: &str) -> (r: Result<(), ReliquaryError>)
        ensures
            r is Ok <==> valid_secret_name(name@),
            r matches Err(e) ==> e@ == ReliquaryFault::InvalidName(name@),
    {
        let v = chars_of(name);
        if v.len() == 0 || v.len() > 64 {
            return Err(ReliquaryError::InvalidName(owned(name)));
        }
        let mut i: usize = 0;
        while i < v.len()
            invariant
                v@ == name@,
                i <= v@.len(),
                forall|j: int| 0 <= j < i ==> secret_char(#[trigger] v@[j]),
            decreases v@.len() - i,
        {
            let c = v[i];
            if !(('a' <= c && c <= 'z') || ('0' <= c && c <= '9') || c == '-') {
                return Err(ReliquaryError::InvalidName(owned(name)));
            }
            i = i + 1;
        }
        if v[0] == '-' || v[v.len() - 1] == '-' {
            return Err(ReliquaryError::InvalidName(owned(name)));
        }
        Ok(())
    }

    /// Metadata of every secret, in name order: one entry per catalog name,
    /// holding that name's metadata. Never returns values.
    pub fn list(&self) -> (r: Vec<SecretMeta>)
        ensures
            r@ == self.listing(),
            sorted_keys(self.catalog_entries()),
            r@.len() == self.catalog_entries().len(),
            forall|i: int|
                0 <= i < r@.len() ==> self.catalog_map().contains_key(
                    #[trigger] self.catalog_entries()[i].0@,
                ) && r@[i] == self.catalog_map()[self.catalog_entries()[i].0@],
            forall|k: Seq<char>|
                #[trigger] self.catalog_map().contains_key(k) ==> exists|i: int|
                    0 <= i < r@.len() && (#[trigger] self.catalog_entries()[i]).0@ == k,
    {
        let n = self.catalog.len();
        proof {
            assert forall|k: Seq<char>| #[trigger] self.catalog_map().contains_key(k) implies exists|i: int|
                0 <= i < self.catalog_entries().len() && (#[trigger] self.catalog_entries()[i]).0@ == k by {
                lemma_entries_map(self.catalog_entries(), k);
            }
        }
        let mut out: Vec<SecretMeta> = Vec::new();
        let mut i: usize = 0;
        while i < n
            invariant
                n == self.catalog.entries().len(),
                i <= n,
                out@ == self.catalog.value_seq().take(i as int),
            decreases n - i,
        {
            let e = self.catalog.entry_at(i);
            out.push(e.1.duplicate());
            assert(self.catalog.value_seq().take(i + 1) == self.catalog.value_seq().take(
                i as int,
            ).push(e.1));
            i = i + 1;
        }
        assert(self.catalog.value_seq().take(n as int) == self.catalog.value_seq());
        proof {
            assert forall|i: int| 0 <= i < out@.len() implies self.catalog_map().contains_key(
                #[trigger] self.catalog_entries()[i].0@,
            ) && out@[i] == self.catalog_map()[self.catalog_entries()[i].0@] by {
                lemma_entries_map(self.catalog_entries(), self.catalog_entries()[i].0@);
            }
        }
        out
    }

    /// Adds a named secret: the value goes to the sealed store and the
    /// catalog records its metadata. `created_at` and `ref_id` are the
    /// creation time and reference id to record.
    pub fn add(
        &mut self,
        name: &str,
        value: &str,
        prefer_keychain: bool,
        created_at: String,
        ref_id: String,
    ) -> (r: Result<SecretMeta, ReliquaryError>)
        ensures
            r is Ok <==> add_accepted(old(self).catalog_map(), name@, value@),
            final(self).root() == old(self).root(),
            r matches Err(e) ==> {
                &&& e@ == add_refusal(old(self).catalog_map(), name@, value@)
                &&& final(self).catalog_map() == old(self).catalog_map()
                &&& final(self).sealed_map() == old(self).sealed_map()
            },
            r matches Ok(m) ==> {
                &&& m.name@ == name@
                &&& m.backend == if prefer_keychain {
                    Backend::KeychainStub
                } else {
                    Backend::LocalSealed
                }
                &&& m.created_at == created_at
                &&& m.ref_id == ref_id
                &&& final(self).catalog_entries() == put_entry(old(self).catalog_entries(), (m.name, m))
                &&& added(
                    old(self).catalog_map(),
                    old(self).sealed_map(),
                    final(self).catalog_map(),
                    final(self).sealed_map(),
                    name@,
                    value@,
                    m,
                )
            },
    {
        Self::validate_name(name)?;
        if value.is_empty() {
            return Err(ReliquaryError::EmptyValue);
        }
        if self.catalog.contains_key(name) {
            return Err(ReliquaryError::AlreadyExists(owned(name)));
        }
        let backend = if prefer_keychain {
            let _ = keychain_store_stub(name, value);
            Backend::KeychainStub
        } else {
            Backend::LocalSealed
        };
        let meta = SecretMeta { name: owned(name), backend, created_at, ref_id };
        self.sealed.insert(owned(name), owned(value));
        self.catalog.insert(meta.name.clone(), meta.duplicate());
        Ok(meta)
    }

    /// Deletes a named secret reference and its sealed material.
    pub fn revoke(&mut self, name: &str) -> (r: Result<(), ReliquaryError>)
        ensures
            r is Ok <==> valid_secret_name(name@) && old(self).catalog_map().contains_key(name@),
            final(self).root() == old(self).root(),
            r matches Err(e) ==> {
                &&& e@ == if valid_secret_name(name@) {
                    ReliquaryFault::NotFound(name@)
                } else {
                    ReliquaryFault::InvalidName(name@)
                }
                &&& final(self).catalog_map() == old(self).catalog_map()
                &&& final(self).sealed_map() == old(self).sealed_map()
            },
            r is Ok ==> revoked(
                old(self).catalog_map(),
                old(self).sealed_map(),
                final(self).catalog_map(),
                final(self).sealed_map(),
                name@,
            ),
    {
        Self::validate_name(name)?;
        match self.catalog.remove(name) {
            None => Err(ReliquaryError::NotFound(owned(name))),
            Some(_) => {
                let _ = self.sealed.remove(name);
                let _ = keychain_delete_stub(name);
                Ok(())
            },
        }
    }

    /// The value of a named secret, for adapters at the egress boundary.
    /// The keychain backend is a stub, so both backends read the sealed copy.
    pub fn unwrap(&self, name: &str) -> (r: Result<String, ReliquaryError>)
        ensures
            match r {
                Ok(v) => unwrap_spec(self.catalog_map(), self.sealed_map(), name@) == Ok::<
                    Seq<char>,
                    ReliquaryFault,
                >(v@),
                Err(e) => unwrap_spec(self.catalog_map(), self.sealed_map(), name@) == Err::<
                    Seq<char>,
                    ReliquaryFault,
                >(e@),
            },
    {
        Self::validate_name(name)?;
        let meta = match self.catalog.get(name) {
            Some(m) => m,
            None => {
                return Err(ReliquaryError::NotFound(owned(name)));
            },
        };
        match meta.backend {
            Backend::KeychainStub => match keychain_unwrap_stub(name) {
                Ok(v) => Ok(v),
                Err(ReliquaryError::KeychainStub) => self.sealed_value(name),
                Err(e) => Err(e),
            },
            Backend::LocalSealed => self.sealed_value(name),
        }
    }

    /// The sealed copy of `name`.
    fn sealed_value(&self, name: &str) -> (r: Result<String, ReliquaryError>)
        ensures
            match r {
                Ok(v) => self.sealed_map().contains_key(name@) && v@ == self.sealed_map()[name@]@,
                Err(e) => !self.sealed_map().contains_key(name@) && e@ == ReliquaryFault::NotFound(
                    name@,
                ),
            },
    {
        match self.sealed.get(name) {
            Some(v) => Ok(v.clone()),
            None => Err(ReliquaryError::NotFound(owned(name))),
        }
    }
}

} // verus!
