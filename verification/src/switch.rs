//! Switch: the sole egress gate. Its allowlist is derived from the active
//! charter; loopback destinations are the local model runtime.

use crate::charter::{Charter, CharterError};
use crate::hands::{all_digits, decimal};
use crate::paths::{split_at_char, split_char};
use crate::text::{
    ascii_lowercase, chars_eq, chars_of, has_prefix, join, lower, opt_view, owned, push_str,
    starts_with, str_eq,
};
use vstd::prelude::*;

verus! {

broadcast use vstd::string::group_string_axioms;

/// Why a destination was refused.
#[derive(Debug)]
pub enum SwitchError {
    Denied(String),
    InvalidUrl(String),
}

/// A switch error with its message as a character sequence.
pub enum SwitchFault {
    Denied(Seq<char>),
    InvalidUrl(Seq<char>),
}

impl View for SwitchError {
    type V = SwitchFault;

    open spec fn view(&self) -> SwitchFault {
        match self {
            SwitchError::Denied(m) => SwitchFault::Denied(m@),
            SwitchError::InvalidUrl(m) => SwitchFault::InvalidUrl(m@),
        }
    }
}

/// Text of a switch error as it is shown to users.
pub open spec fn switch_message(e: SwitchFault) -> Seq<char> {
    match e {
        SwitchFault::Denied(m) => "egress denied: "@ + m,
        SwitchFault::InvalidUrl(m) => "invalid url: "@ + m,
    }
}

impl SwitchError {
    /// The user-facing text of this error.
    pub fn message(&self) -> (m: String)
        ensures
            m@ == switch_message(self@),
    {
        match self {
            SwitchError::Denied(x) => {
                let mut m = owned("egress denied: ");
                push_str(&mut m, x.as_str());
                m
            },
            SwitchError::InvalidUrl(x) => {
                let mut m = owned("invalid url: ");
                push_str(&mut m, x.as_str());
                m
            },
        }
    }
}

/// Destination class for policy decisions and status.
#[derive(Debug, Clone, Copy, PartialEq, Eq, Structural)]
pub enum DestClass {
    /// Local model runtime on a loopback host.
    LocalModel,
    /// Explicitly allowlisted non-loopback host.
    AllowedRemote,
    /// Everything else.
    Blocked,
}

/// Charter-derived allowlist.
#[derive(Debug, Clone)]
pub struct Switch {
    pack: String,
    /// Lowercase hosts that may be contacted besides loopback.
    allowed_hosts: Vec<String>,
    allow_local_model: bool,
    allow_cloud_model: bool,
    allow_network_adapters: bool,
}

/// What the URL parser yields: the scheme and the host, if any; or its error message.
pub uninterp spec fn url_parse_spec(text: Seq<char>) -> Result<
    (Seq<char>, Option<Seq<char>>),
    Seq<char>,
>;

/// Scheme and host of `text` parsed as a URL.
///
/// Trusted: `url::Url::parse` with `Url::scheme` and `Url::host_str`; what
/// the WHATWG parser returns for a string depends on the string alone, so it
/// is named by `url_parse_spec`. On failure the parser's error is rendered
/// with `to_string`.
#[verifier::external_body]
fn parse_url(text: &str) -> (r: Result<(String, Option<String>), String>)
    ensures
        url_parse_spec(text@) == match r {
            Ok(p) => Ok((p.0@, opt_view(p.1))),
            Err(m) => Err(m@),
        },
{
    match url::Url::parse(text) {
        Ok(u) => Ok((u.scheme().to_string(), u.host_str().map(|h| h.to_string()))),
        Err(e) => Err(e.to_string()),
    }
}

/// One part of a dotted-quad address: one to three decimal digits, at most 255.
pub open spec fn is_octet(p: Seq<char>) -> bool {
    &&& 1 <= p.len() <= 3
    &&& all_digits(p)
    &&& decimal(p) <= 255
}

/// Whether `h` is an IPv4 address written as four dot-separated octets.
pub open spec fn is_ipv4_literal(h: Seq<char>) -> bool {
    let parts = split_at_char(h, '.');
    &&& parts.len() == 4
    &&& forall|i: int| 0 <= i < 4 ==> #[trigger] is_octet(parts[i])
}

/// Loopback hosts: the local model runtime lives there. These are
/// `localhost`, the IPv6 loopback address, and IPv4 addresses in
/// 127.0.0.0/8; a DNS name that merely begins with "127." is not one.
pub open spec fn is_loopback(h: Seq<char>) -> bool {
    ||| h == "127.0.0.1"@
    ||| h == "localhost"@
    ||| h == "::1"@
    ||| h == "[::1]"@
    ||| (has_prefix(h, "127."@) && is_ipv4_literal(h))
}

/// Decision of a switch with these settings on the parsed parts of a URL.
pub open spec fn classify_parts(
    allow_local_model: bool,
    hosts: Seq<Seq<char>>,
    parsed: Result<(Seq<char>, Option<Seq<char>>), Seq<char>>,
) -> Result<DestClass, SwitchFault> {
    match parsed {
        Err(m) => Err(SwitchFault::InvalidUrl(m)),
        Ok((scheme, host)) => if scheme != "http"@ && scheme != "https"@ {
            Err(SwitchFault::Denied("scheme "@ + scheme + " not allowed (only http/https)"@))
        } else {
            match host {
                None => Err(SwitchFault::Denied("url has no host"@)),
                Some(h) => if is_loopback(lower(h)) {
                    if allow_local_model {
                        Ok(DestClass::LocalModel)
                    } else {
                        Err(SwitchFault::Denied("local model not allowed by charter"@))
                    }
                } else if hosts.contains(lower(h)) {
                    Ok(DestClass::AllowedRemote)
                } else {
                    Ok(DestClass::Blocked)
                },
            }
        },
    }
}

/// Law: a switch with no seeded host lets a URL through only when it is
/// http or https to a loopback host and the charter allows the local model;
/// such a URL passes exactly when the charter allows the local model.
pub proof fn law_only_loopback_passes(s: Switch, url: Seq<char>)
    requires
        s.hosts().len() == 0,
    ensures
        s.check_spec(url) is Ok ==> match url_parse_spec(url) {
            Ok((scheme, Some(h))) => (scheme == "http"@ || scheme == "https"@) && is_loopback(
                lower(h),
            ) && s.local_model(),
            _ => false,
        },
        url_parse_spec(url) matches Ok((scheme, Some(h))) ==> ((scheme == "http"@ || scheme
            == "https"@) && is_loopback(lower(h)) ==> (s.check_spec(url) is Ok <==> s.local_model())),
{
    match url_parse_spec(url) {
        Ok((scheme, Some(h))) => {
            assert(!s.hosts().contains(lower(h)));
        },
        _ => {},
    }
}

impl Switch {
    /// The pack this switch was built for.
    pub closed spec fn pack_view(&self) -> Seq<char> {
        self.pack@
    }

    /// The hosts allowed besides loopback, lowercase.
    pub closed spec fn hosts(&self) -> Seq<Seq<char>> {
        self.allowed_hosts@.map_values(|h: String| h@)
    }

    /// Whether the local model may be reached.
    pub closed spec fn local_model(&self) -> bool {
        self.allow_local_model
    }

    /// Whether the charter allows the cloud model.
    pub closed spec fn cloud_model(&self) -> bool {
        self.allow_cloud_model
    }

    /// Whether the charter allows network adapters.
    pub closed spec fn network_adapters(&self) -> bool {
        self.allow_network_adapters
    }

    /// What `classify` answers for `url`.
    pub open spec fn classify_spec(&self, url: Seq<char>) -> Result<DestClass, SwitchFault> {
        classify_parts(self.local_model(), self.hosts(), url_parse_spec(url))
    }

    /// What `check` answers for `url`.
    pub open spec fn check_spec(&self, url: Seq<char>) -> Result<(), SwitchFault> {
        match self.classify_spec(url) {
            Ok(DestClass::Blocked) => Err(
                SwitchFault::Denied(
                    "host not on allowlist for pack "@ + self.pack_view() + " (url="@ + url + ")"@,
                ),
            ),
            Ok(_) => Ok(()),
            Err(e) => Err(e),
        }
    }

    /// The status line of a switch.
    pub open spec fn summary_spec(&self) -> Seq<char> {
        "pack="@ + self.pack_view() + " "@ + (if self.local_model() {
            "local_model=loopback-only"@
        } else {
            "local_model=denied"@
        }) + " "@ + (if self.cloud_model() {
            "cloud_model=flag-on (no hosts seeded yet)"@
        } else {
            "cloud_model=denied"@
        }) + " "@ + (if self.network_adapters() {
            "network_adapters=flag-on (no hosts seeded yet)"@
        } else {
            "network_adapters=denied"@
        }) + " "@ + (if self.hosts().len() == 0 {
            "allowed_hosts=(none)"@
        } else {
            "allowed_hosts="@ + join(self.hosts(), ","@)
        })
    }

    /// The switch of a charter. No remote host is on its allowlist: charter flags for
    /// the cloud model or network adapters do not open any host by themselves.
    pub fn from_charter(charter: &Charter) -> (s: Switch)
        ensures
            s.pack_view() == charter.pack@,
            s.hosts() == Seq::<Seq<char>>::empty(),
            s.local_model() == charter.allow_local_model,
            s.cloud_model() == charter.allow_cloud_model,
            s.network_adapters() == charter.allow_network_adapters,
    {
        let s = Switch {
            pack: charter.pack.clone(),
            allowed_hosts: Vec::new(),
            allow_local_model: charter.allow_local_model,
            allow_cloud_model: charter.allow_cloud_model,
            allow_network_adapters: charter.allow_network_adapters,
        };
        assert(s.hosts() =~= Seq::<Seq<char>>::empty());
        s
    }

    /// The switch of a builtin pack, by name.
    pub fn for_pack(pack: &str) -> (r: Result<Switch, CharterError>)
        ensures
            r is Ok <==> crate::charter::is_builtin_pack(pack@),
            r matches Ok(s) ==> {
                &&& s.pack_view() == pack@
                &&& s.hosts() == Seq::<Seq<char>>::empty()
                &&& s.local_model()
                &&& s.cloud_model() == (pack@ == "workshop"@)
                &&& s.network_adapters() == (pack@ != "hearthside"@)
            },
            r matches Err(e) ==> e matches CharterError::UnknownPack(n) && n@ == pack@,
    {
        let c = Charter::builtin(pack)?;
        Ok(Switch::from_charter(&c))
    }

    /// The pack this switch was built for.
    pub fn pack(&self) -> (p: &str)
        ensures
            p@ == self.pack_view(),
    {
        self.pack.as_str()
    }

    fn host_allowed(&self, host: &str) -> (r: bool)
        ensures
            r == self.hosts().contains(host@),
    {
        let mut i: usize = 0;
        while i < self.allowed_hosts.len()
            invariant
                i <= self.allowed_hosts@.len(),
                forall|j: int| 0 <= j < i ==> self.allowed_hosts@[j]@ != host@,
            decreases self.allowed_hosts@.len() - i,
        {
            if str_eq(self.allowed_hosts[i].as_str(), host) {
                assert(self.hosts()[i as int] == host@);
                return true;
            }
            i = i + 1;
        }
        proof {
            if self.hosts().contains(host@) {
                let k = choose|k: int| 0 <= k < self.hosts().len() && self.hosts()[k] == host@;
                assert(self.allowed_hosts@[k]@ == host@);
            }
        }
        false
    }

    /// Classify a URL without performing I/O.
    pub fn classify(&self, url_str: &str) -> (r: Result<DestClass, SwitchError>)
        ensures
            match r {
                Ok(d) => self.classify_spec(url_str@) == Ok::<DestClass, SwitchFault>(d),
                Err(e) => self.classify_spec(url_str@) == Err::<DestClass, SwitchFault>(e@),
            },
    {
        let parsed = parse_url(url_str);
        self.classify_parsed(parsed)
    }

    /// Classify a URL given what the URL parser made of it: its scheme and
    /// host, or the parser's error message.
    pub fn classify_parsed(&self, parsed: Result<(String, Option<String>), String>) -> (r: Result<
        DestClass,
        SwitchError,
    >)
        ensures
            ({
                let p = match parsed {
                    Ok(q) => Ok((q.0@, opt_view(q.1))),
                    Err(m) => Err(m@),
                };
                match r {
                    Ok(d) => classify_parts(self.local_model(), self.hosts(), p) == Ok::<
                        DestClass,
                        SwitchFault,
                    >(d),
                    Err(e) => classify_parts(self.local_model(), self.hosts(), p) == Err::<
                        DestClass,
                        SwitchFault,
                    >(e@),
                }
            }),
    {
        match parsed {
            Err(m) => Err(SwitchError::InvalidUrl(m)),
            Ok((scheme, host)) => {
                if !str_eq(scheme.as_str(), "http") && !str_eq(scheme.as_str(), "https") {
                    let mut m = owned("scheme ");
                    push_str(&mut m, scheme.as_str());
                    push_str(&mut m, " not allowed (only http/https)");
                    return Err(SwitchError::Denied(m));
                }
                match host {
                    None => Err(SwitchError::Denied(owned("url has no host"))),
                    Some(h) => {
                        let lh = ascii_lowercase(h.as_str());
                        if is_loopback_host(lh.as_str()) {
                            if self.allow_local_model {
                                Ok(DestClass::LocalModel)
                            } else {
                                Err(SwitchError::Denied(owned("local model not allowed by charter")))
                            }
                        } else if self.host_allowed(lh.as_str()) {
                            Ok(DestClass::AllowedRemote)
                        } else {
                            Ok(DestClass::Blocked)
                        }
                    },
                }
            },
        }
    }

    /// `Ok(())` if the URL may be dialed; otherwise the reason for the denial.
    pub fn check(&self, url_str: &str) -> (r: Result<(), SwitchError>)
        ensures
            match r {
                Ok(()) => self.check_spec(url_str@) == Ok::<(), SwitchFault>(()),
                Err(e) => self.check_spec(url_str@) == Err::<(), SwitchFault>(e@),
            },
    {
        match self.classify(url_str)? {
            DestClass::LocalModel | DestClass::AllowedRemote => Ok(()),
            DestClass::Blocked => {
                let mut m = owned("host not on allowlist for pack ");
                push_str(&mut m, self.pack.as_str());
                push_str(&mut m, " (url=");
                push_str(&mut m, url_str);
                push_str(&mut m, ")");
                Err(SwitchError::Denied(m))
            },
        }
    }

    /// Human-readable summary for status output.
    pub fn summary(&self) -> (s: String)
        ensures
            s@ == self.summary_spec(),
    {
        let mut s = owned("pack=");
        push_str(&mut s, self.pack.as_str());
        push_str(&mut s, " ");
        if self.allow_local_model {
            push_str(&mut s, "local_model=loopback-only");
        } else {
            push_str(&mut s, "local_model=denied");
        }
        push_str(&mut s, " ");
        if self.allow_cloud_model {
            push_str(&mut s, "cloud_model=flag-on (no hosts seeded yet)");
        } else {
            push_str(&mut s, "cloud_model=denied");
        }
        push_str(&mut s, " ");
        if self.allow_network_adapters {
            push_str(&mut s, "network_adapters=flag-on (no hosts seeded yet)");
        } else {
            push_str(&mut s, "network_adapters=denied");
        }
        push_str(&mut s, " ");
        if self.allowed_hosts.len() == 0 {
            push_str(&mut s, "allowed_hosts=(none)");
        } else {
            push_str(&mut s, "allowed_hosts=");
            let ghost before = s@;
            let mut i: usize = 0;
            while i < self.allowed_hosts.len()
                invariant
                    0 < self.allowed_hosts@.len(),
                    i <= self.allowed_hosts@.len(),
                    s@ == before + join(self.hosts().take(i as int), ","@),
                decreases self.allowed_hosts@.len() - i,
            {
                if i > 0 {
                    push_str(&mut s, ",");
                }
                push_str(&mut s, self.allowed_hosts[i].as_str());
                assert(self.hosts().take(i + 1).drop_last() == self.hosts().take(i as int));
                i = i + 1;
            }
            assert(self.hosts().take(self.allowed_hosts@.len() as int) == self.hosts());
        }
        s
    }
}

/// Whether `host` names the local machine.
pub fn is_loopback_host(host: &str) -> (r: bool)
    ensures
        r == is_loopback(host@),
{
    let v = chars_of(host);
    let a = chars_of("127.0.0.1");
    let b = chars_of("localhost");
    let c = chars_of("::1");
    let d = chars_of("[::1]");
    chars_eq(v.as_slice(), a.as_slice()) || chars_eq(v.as_slice(), b.as_slice()) || chars_eq(
        v.as_slice(),
        c.as_slice(),
    ) || chars_eq(v.as_slice(), d.as_slice()) || (starts_with(v.as_slice(), "127.")
        && ipv4_literal(host))
}

/// Whether `p` is one octet of a dotted-quad address.
fn octet(p: &str) -> (r: bool)
    ensures
        r == is_octet(p@),
{
    let v = chars_of(p);
    if v.len() < 1 || v.len() > 3 {
        return false;
    }
    let mut val: u32 = 0;
    let mut i: usize = 0;
    while i < v.len()
        invariant
            v@ == p@,
            1 <= v@.len() <= 3,
            i <= v@.len(),
            all_digits(v@.take(i as int)),
            val == decimal(v@.take(i as int)),
            i == 0 ==> val == 0,
            i == 1 ==> val < 10,
            i == 2 ==> val < 100,
            i == 3 ==> val < 1000,
        decreases v@.len() - i,
    {
        let c = v[i];
        if c < '0' || c > '9' {
            assert(!all_digits(v@)) by {
                assert(v@[i as int] == c);
            }
            return false;
        }
        let d: u32 = (c as u32) - 48;
        assert(v@.take(i + 1).drop_last() == v@.take(i as int));
        assert(v@.take(i + 1).last() == c);
        val = val * 10 + d;
        i = i + 1;
    }
    assert(v@.take(i as int) == v@);
    val <= 255
}

/// Whether `host` is an IPv4 address written as four dot-separated octets.
pub fn ipv4_literal(host: &str) -> (r: bool)
    ensures
        r == is_ipv4_literal(host@),
{
    let parts = split_char(host, '.');
    let ghost sp = split_at_char(host@, '.');
    assert(parts@.map_values(|w: String| w@).len() == parts@.len());
    if parts.len() != 4 {
        return false;
    }
    let mut i: usize = 0;
    while i < 4
        invariant
            parts@.len() == 4,
            parts@.map_values(|w: String| w@) == sp,
            sp == split_at_char(host@, '.'),
            i <= 4,
            forall|j: int| 0 <= j < i ==> #[trigger] is_octet(sp[j]),
        decreases 4 - i,
    {
        assert(parts@.map_values(|w: String| w@)[i as int] == parts@[i as int]@);
        if !octet(parts[i].as_str()) {
            return false;
        }
        i = i + 1;
    }
    true
}

} // verus!
