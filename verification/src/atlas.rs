//! Atlas: a catalog of tools pinned by the SHA-256 digest of their bytes.
//!
//! A module whose digest matches a trusted pin is trusted; anything else is
//! untrusted and runs under `UNTRUSTED_FUEL_CAP`.

use crate::digest::{hex_lower, sha256_hex, sha256_spec};
use crate::memory::HelixHome;
use crate::order::{
    first_index, lemma_first_index, lemma_first_index_is, lemma_first_index_none, seq_lt,
    sort_in_order, sort_stable, str_lt, Ordered,
};
use crate::paths::{join_path, path_join};
use crate::text::{chars_of, owned, push_str, str_eq};
use vstd::prelude::*;

verus! {

broadcast use vstd::string::group_string_axioms;

/// Instruction fuel for tools that are not digest-pinned (or whose bytes no
/// longer match their pin).
pub const UNTRUSTED_FUEL_CAP: u64 = 50_000_000;

/// Failures of catalog operations that the library decides.
#[derive(Debug)]
pub enum AtlasError {
    InvalidName(String),
    NotFound(String),
    DigestMismatch { name: String, expected: String, actual: String },
}

/// An atlas error with its payload as character sequences.
pub enum AtlasFault {
    InvalidName(Seq<char>),
    NotFound(Seq<char>),
    DigestMismatch { name: Seq<char>, expected: Seq<char>, actual: Seq<char> },
}

impl View for AtlasError {
    type V = AtlasFault;

    open spec fn view(&self) -> AtlasFault {
        match self {
            AtlasError::InvalidName(n) => AtlasFault::InvalidName(n@),
            AtlasError::NotFound(n) => AtlasFault::NotFound(n@),
            AtlasError::DigestMismatch { name, expected, actual } => AtlasFault::DigestMismatch {
                name: name@,
                expected: expected@,
                actual: actual@,
            },
        }
    }
}

/// Text of an atlas error as it is shown to users.
pub open spec fn atlas_message(e: AtlasFault) -> Seq<char> {
    match e {
        AtlasFault::InvalidName(n) => "invalid tool name: "@ + n,
        AtlasFault::NotFound(n) => "pin not found: "@ + n,
        AtlasFault::DigestMismatch { name, expected, actual } => "pin digest mismatch for "@ + name
            + ": expected "@ + expected + ", got "@ + actual,
    }
}

impl AtlasError {
    /// The user-facing text of this error.
    pub fn message(&self) -> (m: String)
        ensures
            m@ == atlas_message(self@),
    {
        match self {
            AtlasError::InvalidName(n) => {
                let mut m = owned("invalid tool name: ");
                push_str(&mut m, n.as_str());
                m
            },
            AtlasError::NotFound(n) => {
                let mut m = owned("pin not found: ");
                push_str(&mut m, n.as_str());
                m
            },
            AtlasError::DigestMismatch { name, expected, actual } => {
                let mut m = owned("pin digest mismatch for ");
                push_str(&mut m, name.as_str());
                push_str(&mut m, ": expected ");
                push_str(&mut m, expected.as_str());
                push_str(&mut m, ", got ");
                push_str(&mut m, actual.as_str());
                m
            },
        }
    }
}

/// One pinned tool entry.
#[derive(Debug, Clone, PartialEq, Eq)]
pub struct Pin {
    /// Stable short name (lowercase, digits, hyphens).
    pub name: String,
    /// Path recorded at pin time (informational; trust is the digest).
    pub path: String,
    /// Lowercase hex SHA-256 of the file bytes at pin time.
    pub sha256: String,
    /// Explicit trust bit; set for every entry written by `pin`.
    pub trusted: bool,
    /// When the pin was recorded (RFC 3339).
    pub pinned_at: String,
}

/// The pin catalog.
#[derive(Debug, Clone)]
pub struct PinFile {
    pub tools: Vec<Pin>,
}

/// Trust decision for a Wasm module about to run under Hands.
#[derive(Debug, Clone, PartialEq, Eq)]
pub enum Trust {
    /// Digest matches a trusted pin.
    Trusted { name: String, sha256: String },
    /// No pin, or the bytes drifted: apply the fuel cap.
    Untrusted { reason: String, sha256: String, fuel_cap: u64 },
}

/// A trust decision with its text as character sequences.
pub enum TrustView {
    Trusted { name: Seq<char>, sha256: Seq<char> },
    Untrusted { reason: Seq<char>, sha256: Seq<char>, fuel_cap: u64 },
}

impl View for Trust {
    type V = TrustView;

    open spec fn view(&self) -> TrustView {
        match self {
            Trust::Trusted { name, sha256 } => TrustView::Trusted { name: name@, sha256: sha256@ },
            Trust::Untrusted { reason, sha256, fuel_cap } => TrustView::Untrusted {
                reason: reason@,
                sha256: sha256@,
                fuel_cap: *fuel_cap,
            },
        }
    }
}

/// Atlas catalog bound to a Helix home.
#[derive(Debug, Clone)]
pub struct Atlas {
    home: HelixHome,
}

/// Characters allowed in a tool name.
pub open spec fn tool_char(c: char) -> bool {
    ('a' <= c && c <= 'z') || ('0' <= c && c <= '9') || c == '-'
}

/// Tool names: 1 to 64 characters from `a-z`, `0-9` and `-`, not starting or
/// ending with `-`.
pub open spec fn valid_tool_name(n: Seq<char>) -> bool {
    &&& 0 < n.len() <= 64
    &&& forall|i: int| 0 <= i < n.len() ==> tool_char(#[trigger] n[i])
    &&& n[0] != '-'
    &&& n.last() != '-'
}

/// Lowercase hex SHA-256 of some bytes.
pub open spec fn digest_of(bytes: Seq<u8>) -> Seq<char> {
    hex_lower(sha256_spec(bytes))
}

/// Pins named `name`.
pub open spec fn named(name: Seq<char>) -> spec_fn(Pin) -> bool {
    |p: Pin| p.name@ == name
}

/// Pins not named `name`.
pub open spec fn not_named(name: Seq<char>) -> spec_fn(Pin) -> bool {
    |p: Pin| p.name@ != name
}

/// Trusted pins with digest `sha`.
pub open spec fn trusted_with(sha: Seq<char>) -> spec_fn(Pin) -> bool {
    |p: Pin| p.sha256@ == sha && p.trusted
}

/// Pins recorded at `abs` or at `hint`.
pub open spec fn recorded_at(abs: Seq<char>, hint: Seq<char>) -> spec_fn(Pin) -> bool {
    |p: Pin| p.path@ == abs || p.path@ == hint
}

/// Index of the first pin named `name`, or -1.
pub open spec fn pin_index(tools: Seq<Pin>, name: Seq<char>) -> int {
    first_index(tools, named(name))
}

/// Index of the first trusted pin with digest `sha`, or -1.
pub open spec fn trusted_index(tools: Seq<Pin>, sha: Seq<char>) -> int {
    first_index(tools, trusted_with(sha))
}

/// Index of the first pin recorded at `abs` or `hint`, or -1.
pub open spec fn path_index(tools: Seq<Pin>, abs: Seq<char>, hint: Seq<char>) -> int {
    first_index(tools, recorded_at(abs, hint))
}

/// The reason given for a module that is not pinned.
pub open spec fn unsigned_reason() -> Seq<char> {
    "unsigned local tool (not in atlas/pins.json)"@
}

/// The reason given when the bytes at a pinned path no longer match the pin.
pub open spec fn drift_reason(name: Seq<char>, expected: Seq<char>, actual: Seq<char>) -> Seq<
    char,
> {
    "digest drift for pin '"@ + name + "': expected "@ + expected + ", got "@ + actual
}

/// Trust decided for bytes with digest `sha`, given an optional path hint and
/// the hint's resolved (canonical) form when it could be resolved.
pub open spec fn trust_spec(
    tools: Seq<Pin>,
    sha: Seq<char>,
    hint: Option<Seq<char>>,
    resolved: Option<Seq<char>>,
) -> TrustView {
    let t = trusted_index(tools, sha);
    let unsigned = TrustView::Untrusted {
        reason: unsigned_reason(),
        sha256: sha,
        fuel_cap: UNTRUSTED_FUEL_CAP,
    };
    if t >= 0 {
        TrustView::Trusted { name: tools[t].name@, sha256: sha }
    } else {
        match hint {
            None => unsigned,
            Some(h) => {
                let abs = match resolved {
                    Some(a) => a,
                    None => h,
                };
                let d = path_index(tools, abs, h);
                if d >= 0 && tools[d].sha256@ != sha {
                    TrustView::Untrusted {
                        reason: drift_reason(tools[d].name@, tools[d].sha256@, sha),
                        sha256: sha,
                        fuel_cap: UNTRUSTED_FUEL_CAP,
                    }
                } else {
                    unsigned
                }
            },
        }
    }
}

/// What verifying the pin named `name` against digest `actual` answers.
pub open spec fn verified(tools: Seq<Pin>, name: Seq<char>, actual: Seq<char>) -> Result<
    Pin,
    AtlasFault,
> {
    let k = pin_index(tools, name);
    if !valid_tool_name(name) {
        Err(AtlasFault::InvalidName(name))
    } else if k < 0 {
        Err(AtlasFault::NotFound(name))
    } else if tools[k].sha256@ != actual {
        Err(AtlasFault::DigestMismatch { name, expected: tools[k].sha256@, actual })
    } else {
        Ok(tools[k])
    }
}

/// The pins after pinning `p`: an existing pin of the same name is replaced
/// in place, otherwise `p` is appended.
pub open spec fn pinned(tools: Seq<Pin>, p: Pin) -> Seq<Pin> {
    if pin_index(tools, p.name@) >= 0 {
        tools.update(pin_index(tools, p.name@), p)
    } else {
        tools.push(p)
    }
}

/// Law: right after a pin, the name finds that pin, so verifying the same
/// bytes succeeds.
pub proof fn law_pin_then_verify(tools: Seq<Pin>, p: Pin)
    ensures
        pin_index(pinned(tools, p), p.name@) >= 0,
        pinned(tools, p)[pin_index(pinned(tools, p), p.name@)] == p,
{
    let t = pinned(tools, p);
    let k = pin_index(tools, p.name@);
    lemma_first_index(tools, named(p.name@));
    if k >= 0 {
        assert forall|j: int| 0 <= j < k implies !(#[trigger] named(p.name@)(t[j])) by {
            assert(t[j] == tools[j]);
        }
        lemma_first_index_is(t, named(p.name@), k);
    } else {
        assert forall|j: int| 0 <= j < tools.len() implies !(#[trigger] named(p.name@)(t[j])) by {
            assert(t[j] == tools[j]);
        }
        lemma_first_index_is(t, named(p.name@), tools.len() as int);
    }
}

/// Law: a module runs trusted exactly when some trusted pin carries its
/// digest; every untrusted module gets the fuel cap.
pub proof fn law_trusted_iff_pinned(
    tools: Seq<Pin>,
    sha: Seq<char>,
    hint: Option<Seq<char>>,
    resolved: Option<Seq<char>>,
)
    ensures
        (trust_spec(tools, sha, hint, resolved) is Trusted) <==> exists|i: int|
            0 <= i < tools.len() && #[trigger] tools[i].sha256@ == sha && tools[i].trusted,
        trust_spec(tools, sha, hint, resolved) matches TrustView::Untrusted { fuel_cap, .. }
            ==> fuel_cap == UNTRUSTED_FUEL_CAP,
{
    lemma_first_index(tools, trusted_with(sha));
    if exists|i: int| 0 <= i < tools.len() && #[trigger] tools[i].sha256@ == sha && tools[i].trusted {
        let i = choose|i: int| 0 <= i < tools.len() && #[trigger] tools[i].sha256@ == sha && tools[i].trusted;
        assert(trusted_with(sha)(tools[i]));
    }
}

/// Law: bytes just pinned run trusted.
pub proof fn law_pinned_bytes_trusted(
    tools: Seq<Pin>,
    p: Pin,
    hint: Option<Seq<char>>,
    resolved: Option<Seq<char>>,
)
    requires
        p.trusted,
    ensures
        trust_spec(pinned(tools, p), p.sha256@, hint, resolved) is Trusted,
{
    law_pin_then_verify(tools, p);
    let t = pinned(tools, p);
    let k = pin_index(t, p.name@);
    lemma_first_index(t, named(p.name@));
    assert(0 <= k < t.len());
    assert(t[k].sha256@ == p.sha256@ && t[k].trusted);
    law_trusted_iff_pinned(t, p.sha256@, hint, resolved);
}

impl Ordered for Pin {
    open spec fn precedes(a: Pin, b: Pin) -> bool {
        seq_lt(a.name@, b.name@)
    }

    fn goes_before(&self, other: &Pin) -> (r: bool) {
        str_lt(self.name.as_str(), other.name.as_str())
    }
}

impl Pin {
    /// A field-by-field copy.
    pub fn duplicate(&self) -> (p: Pin)
        ensures
            p == *self,
    {
        Pin {
            name: self.name.clone(),
            path: self.path.clone(),
            sha256: self.sha256.clone(),
            trusted: self.trusted,
            pinned_at: self.pinned_at.clone(),
        }
    }
}

impl PinFile {
    /// An empty catalog.
    pub fn empty() -> (f: PinFile)
        ensures
            f.tools@ == Seq::<Pin>::empty(),
    {
        PinFile { tools: Vec::new() }
    }
}

/// Position of the first pin named `name`.
fn find_named(tools: &Vec<Pin>, name: &str) -> (r: Option<usize>)
    ensures
        match r {
            Some(k) => k == pin_index(tools@, name@) && k < tools@.len(),
            None => pin_index(tools@, name@) == -1,
        },
{
    let mut i: usize = 0;
    while i < tools.len()
        invariant
            i <= tools@.len(),
            forall|j: int| 0 <= j < i ==> tools@[j].name@ != name@,
        decreases tools@.len() - i,
    {
        if str_eq(tools[i].name.as_str(), name) {
            proof {
                lemma_first_index_is(tools@, named(name@), i as int);
            }
            return Some(i);
        }
        i = i + 1;
    }
    proof {
        lemma_first_index_none(tools@, named(name@));
    }
    None
}

impl Atlas {
    /// The catalog of a home.
    pub fn open(home: HelixHome) -> (a: Atlas)
        ensures
            a.root() == home.root@,
    {
        Atlas { home }
    }

    /// The root of the home this catalog belongs to.
    pub closed spec fn root(&self) -> Seq<char> {
        self.home.root@
    }

    /// Location of the pin catalog.
    pub fn pins_path(&self) -> (p: String)
        ensures
            p@ == join_path(self.root(), "atlas/pins.json"@),
    {
        path_join(self.home.root.as_str(), "atlas/pins.json")
    }

    /// Checks a tool name.
    pub fn validate_name(name: &str) -> (r: Result<(), AtlasError>)
        ensures
            r is Ok <==> valid_tool_name(name@),
            r matches Err(e) ==> e@ == AtlasFault::InvalidName(name@),
    {
        let v = chars_of(name);
        if v.len() == 0 || v.len() > 64 {
            return Err(AtlasError::InvalidName(owned(name)));
        }
        let mut i: usize = 0;
        while i < v.len()
            invariant
                v@ == name@,
                i <= v@.len(),
                forall|j: int| 0 <= j < i ==> tool_char(#[trigger] v@[j]),
            decreases v@.len() - i,
        {
            let c = v[i];
            if !(('a' <= c && c <= 'z') || ('0' <= c && c <= '9') || c == '-') {
                return Err(AtlasError::InvalidName(owned(name)));
            }
            i = i + 1;
        }
        if v[0] == '-' || v[v.len() - 1] == '-' {
            return Err(AtlasError::InvalidName(owned(name)));
        }
        Ok(())
    }

    /// Lowercase hex SHA-256 of `bytes`.
    pub fn hash_bytes(bytes: &[u8]) -> (s: String)
        ensures
            s@ == digest_of(bytes@),
            s@.len() == 64,
    {
        sha256_hex(bytes)
    }

    /// All pins of `file`, sorted by name (pins with equal names keep their order).
    pub fn list(&self, file: PinFile) -> (r: Vec<Pin>)
        ensures
            r@ == sort_stable(file.tools@),
    {
        sort_in_order(file.tools)
    }

    /// Pins `name` to the digest of `bytes`, the contents of the file at
    /// `path`; an existing pin of the same name is replaced in place.
    pub fn pin(
        &self,
        file: &mut PinFile,
        name: &str,
        path: String,
        bytes: &[u8],
        pinned_at: String,
    ) -> (r: Result<Pin, AtlasError>)
        ensures
            r is Ok <==> valid_tool_name(name@),
            r matches Err(e) ==> e@ == AtlasFault::InvalidName(name@) && final(file).tools@ == old(
                file,
            ).tools@,
            r matches Ok(p) ==> {
                &&& p.name@ == name@
                &&& p.path == path
                &&& p.sha256@ == digest_of(bytes@)
                &&& p.trusted
                &&& p.pinned_at == pinned_at
                &&& final(file).tools@ == pinned(old(file).tools@, p)
            },
    {
        Self::validate_name(name)?;
        let sha256 = Self::hash_bytes(bytes);
        self.pin_digest(file, name, path, sha256, pinned_at)
    }

    /// Pins `name` to digest `sha256` of the file at `path` (see `pin`).
    pub fn pin_digest(
        &self,
        file: &mut PinFile,
        name: &str,
        path: String,
        sha256: String,
        pinned_at: String,
    ) -> (r: Result<Pin, AtlasError>)
        ensures
            r is Ok <==> valid_tool_name(name@),
            r matches Err(e) ==> e@ == AtlasFault::InvalidName(name@) && final(file).tools@ == old(
                file,
            ).tools@,
            r matches Ok(p) ==> {
                &&& p.name@ == name@
                &&& p.path == path
                &&& p.sha256 == sha256
                &&& p.trusted
                &&& p.pinned_at == pinned_at
                &&& final(file).tools@ == pinned(old(file).tools@, p)
            },
    {
        Self::validate_name(name)?;
        let entry = Pin { name: owned(name), path, sha256, trusted: true, pinned_at };
        let stored = entry.duplicate();
        match find_named(&file.tools, name) {
            Some(i) => {
                file.tools.set(i, stored);
            },
            None => {
                file.tools.push(stored);
            },
        }
        Ok(entry)
    }

    /// Removes every pin named `name`.
    pub fn unpin(&self, file: &mut PinFile, name: &str) -> (r: Result<(), AtlasError>)
        ensures
            r is Ok <==> valid_tool_name(name@) && pin_index(old(file).tools@, name@) >= 0,
            r matches Err(e) ==> final(file).tools@ == old(file).tools@ && if valid_tool_name(
                name@,
            ) {
                e@ == AtlasFault::NotFound(name@)
            } else {
                e@ == AtlasFault::InvalidName(name@)
            },
            r is Ok ==> final(file).tools@ == old(file).tools@.filter(not_named(name@)),
    {
        Self::validate_name(name)?;
        let ghost s = file.tools@;
        let ghost keep = not_named(name@);
        let mut rest: Vec<Pin> = Vec::new();
        std::mem::swap(&mut rest, &mut file.tools);
        let mut kept: Vec<Pin> = Vec::new();
        let mut found = false;
        let mut i: usize = 0;
        let n = rest.len();
        proof {
            reveal_with_fuel(Seq::<Pin>::filter, 1);
            assert(s.take(0) == Seq::<Pin>::empty());
            assert(s.skip(0) == s);
        }
        while rest.len() > 0
            invariant
                n == s.len(),
                keep == not_named(name@),
                i + rest@.len() == n,
                rest@ == s.skip(i as int),
                kept@ == s.take(i as int).filter(keep),
                found <==> exists|j: int| 0 <= j < i && s[j].name@ == name@,
                !found ==> kept@ == s.take(i as int),
            decreases rest@.len(),
        {
            let p = rest.remove(0);
            assert(s.take(i + 1).drop_last() == s.take(i as int));
            assert(s.take(i + 1).last() == p);
            proof {
                reveal_with_fuel(Seq::<Pin>::filter, 1);
            }
            if str_eq(p.name.as_str(), name) {
                assert(!keep(p));
                assert(s.take(i + 1).filter(keep) == s.take(i as int).filter(keep));
                found = true;
            } else {
                assert(keep(p));
                assert(s.take(i + 1).filter(keep) == s.take(i as int).filter(keep).push(p));
                kept.push(p);
            }
            assert(rest@ == s.skip(i + 1));
            i = i + 1;
        }
        assert(s.take(n as int) == s);
        file.tools = kept;
        if !found {
            proof {
                lemma_first_index_none(s, named(name@));
            }
            return Err(AtlasError::NotFound(owned(name)));
        }
        proof {
            let j = choose|j: int| 0 <= j < n && s[j].name@ == name@;
            crate::order::lemma_first_index(s, named(name@));
            if pin_index(s, name@) < 0 {
                assert(s[j].name@ == name@);
            }
        }
        Ok(())
    }

    /// The first pin named `name`.
    pub fn find_pin(&self, file: &PinFile, name: &str) -> (r: Result<Pin, AtlasError>)
        ensures
            r is Ok <==> valid_tool_name(name@) && pin_index(file.tools@, name@) >= 0,
            r matches Ok(p) ==> p == file.tools@[pin_index(file.tools@, name@)],
            r matches Err(e) ==> if valid_tool_name(name@) {
                e@ == AtlasFault::NotFound(name@)
            } else {
                e@ == AtlasFault::InvalidName(name@)
            },
    {
        Self::validate_name(name)?;
        match find_named(&file.tools, name) {
            Some(i) => Ok(file.tools[i].duplicate()),
            None => Err(AtlasError::NotFound(owned(name))),
        }
    }

    /// Checks that `bytes`, the current contents of the file recorded by the
    /// pin named `name`, still have the pinned digest.
    pub fn verify_name(&self, file: &PinFile, name: &str, bytes: &[u8]) -> (r: Result<
        Pin,
        AtlasError,
    >)
        ensures
            match r {
                Ok(p) => verified(file.tools@, name@, digest_of(bytes@)) == Ok::<Pin, AtlasFault>(p),
                Err(e) => verified(file.tools@, name@, digest_of(bytes@)) == Err::<Pin, AtlasFault>(
                    e@,
                ),
            },
    {
        let actual = Self::hash_bytes(bytes);
        self.verify_digest(file, name, actual)
    }

    /// Checks the pin named `name` against `actual`, the current digest of
    /// the file it records.
    pub fn verify_digest(&self, file: &PinFile, name: &str, actual: String) -> (r: Result<
        Pin,
        AtlasError,
    >)
        ensures
            match r {
                Ok(p) => verified(file.tools@, name@, actual@) == Ok::<Pin, AtlasFault>(p),
                Err(e) => verified(file.tools@, name@, actual@) == Err::<Pin, AtlasFault>(e@),
            },
    {
        let pin = self.find_pin(file, name)?;
        if !str_eq(actual.as_str(), pin.sha256.as_str()) {
            return Err(
                AtlasError::DigestMismatch { name: owned(name), expected: pin.sha256, actual },
            );
        }
        Ok(pin)
    }

    /// Trust for module `bytes`. `path_hint` is the path the module was read
    /// from, if known, and `resolved_hint` its canonical form when it could
    /// be resolved.
    pub fn classify(
        &self,
        file: &PinFile,
        bytes: &[u8],
        path_hint: Option<&str>,
        resolved_hint: Option<&str>,
    ) -> (t: Trust)
        ensures
            t@ == trust_spec(
                file.tools@,
                digest_of(bytes@),
                match path_hint {
                    Some(h) => Some(h@),
                    None => None,
                },
                match resolved_hint {
                    Some(h) => Some(h@),
                    None => None,
                },
            ),
    {
        let sha = Self::hash_bytes(bytes);
        self.classify_digest(file, sha, path_hint, resolved_hint)
    }

    /// Trust for a module whose digest is `sha` (see `classify`).
    pub fn classify_digest(
        &self,
        file: &PinFile,
        sha: String,
        path_hint: Option<&str>,
        resolved_hint: Option<&str>,
    ) -> (t: Trust)
        ensures
            t@ == trust_spec(
                file.tools@,
                sha@,
                match path_hint {
                    Some(h) => Some(h@),
                    None => None,
                },
                match resolved_hint {
                    Some(h) => Some(h@),
                    None => None,
                },
            ),
    {
        let ghost tools = file.tools@;
        let ghost shav = sha@;
        let mut i: usize = 0;
        while i < file.tools.len()
            invariant
                tools == file.tools@,
                shav == sha@,
                i <= tools.len(),
                forall|j: int| 0 <= j < i ==> !(tools[j].sha256@ == shav && tools[j].trusted),
            decreases tools.len() - i,
        {
            let p = &file.tools[i];
            if p.trusted && str_eq(p.sha256.as_str(), sha.as_str()) {
                proof {
                    lemma_first_index_is(tools, trusted_with(shav), i as int);
                }
                return Trust::Trusted { name: p.name.clone(), sha256: sha };
            }
            i = i + 1;
        }
        proof {
            lemma_first_index_none(tools, trusted_with(shav));
        }
        if let Some(hint) = path_hint {
            let abs = match resolved_hint {
                Some(a) => a,
                None => hint,
            };
            let mut k: usize = 0;
            while k < file.tools.len()
                invariant
                    tools == file.tools@,
                    shav == sha@,
                        trusted_index(tools, shav) == -1,
                    path_hint == Some(hint),
                    abs@ == match resolved_hint {
                        Some(a) => a@,
                        None => hint@,
                    },
                    k <= tools.len(),
                    forall|j: int| 0 <= j < k ==> !(tools[j].path@ == abs@ || tools[j].path@ == hint@),
                decreases tools.len() - k,
            {
                let p = &file.tools[k];
                if str_eq(p.path.as_str(), abs) || str_eq(p.path.as_str(), hint) {
                    proof {
                        lemma_first_index_is(
                            tools,
                            recorded_at(abs@, hint@),
                            k as int,
                        );
                    }
                    if !str_eq(p.sha256.as_str(), sha.as_str()) {
                        let mut reason = owned("digest drift for pin '");
                        push_str(&mut reason, p.name.as_str());
                        push_str(&mut reason, "': expected ");
                        push_str(&mut reason, p.sha256.as_str());
                        push_str(&mut reason, ", got ");
                        push_str(&mut reason, sha.as_str());
                        return Trust::Untrusted { reason, sha256: sha, fuel_cap: UNTRUSTED_FUEL_CAP };
                    }
                    return Trust::Untrusted {
                        reason: owned("unsigned local tool (not in atlas/pins.json)"),
                        sha256: sha,
                        fuel_cap: UNTRUSTED_FUEL_CAP,
                    };
                }
                k = k + 1;
            }
            proof {
                lemma_first_index_none(tools, recorded_at(abs@, hint@));
            }
        }
        Trust::Untrusted {
            reason: owned("unsigned local tool (not in atlas/pins.json)"),
            sha256: sha,
            fuel_cap: UNTRUSTED_FUEL_CAP,
        }
    }
}

} // verus!
