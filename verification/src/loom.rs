//! Loom: the model-provider interface. Every completion passes the Switch
//! before anything is dialed; an API key is unwrapped from the Reliquary only
//! for the cloud provider.

use crate::charter::Charter;
use crate::reliquary::{reliquary_message, unwrap_spec, Reliquary};
use crate::switch::{switch_message, Switch, SwitchError};
use crate::text::{
    ascii_lowercase, lower, opt_view, owned, push_str, str_eq, strip_all_end, trim, trim_end_char,
    trimmed,
};
use vstd::prelude::*;

verus! {

broadcast use vstd::string::group_string_axioms;

/// Which provider produced a completion.
#[derive(Debug, Clone, Copy, PartialEq, Eq, Structural)]
pub enum ProviderKind {
    Ollama,
    OpenAiCompat,
}

/// Failures of a completion.
#[derive(Debug)]
pub enum LoomError {
    LocalModelDenied,
    CloudModelDenied,
    Switch(SwitchError),
    MissingKeyRef,
    Reliquary(String),
    Http(String),
    EmptyResponse,
    NoProvider,
}

/// Text of a completion error as it is shown to users.
pub open spec fn loom_message(e: LoomError) -> Seq<char> {
    match e {
        LoomError::LocalModelDenied => "local model not allowed by charter"@,
        LoomError::CloudModelDenied => "cloud model not allowed by charter"@,
        LoomError::Switch(s) => "switch denied egress: "@ + switch_message(s@),
        LoomError::MissingKeyRef => "missing Reliquary API key reference (set HELIX_OPENAI_KEY_REF and helix secrets add \u{2026})"@,
        LoomError::Reliquary(m) => "reliquary: "@ + m@,
        LoomError::Http(m) => "http: "@ + m@,
        LoomError::EmptyResponse => "empty model response"@,
        LoomError::NoProvider => "no loom provider configured"@,
    }
}

impl LoomError {
    /// The user-facing text of this error.
    pub fn message(&self) -> (m: String)
        ensures
            m@ == loom_message(*self),
    {
        match self {
            LoomError::LocalModelDenied => owned("local model not allowed by charter"),
            LoomError::CloudModelDenied => owned("cloud model not allowed by charter"),
            LoomError::Switch(s) => {
                let mut m = owned("switch denied egress: ");
                let inner = s.message();
                push_str(&mut m, inner.as_str());
                m
            },
            LoomError::MissingKeyRef => owned(
                "missing Reliquary API key reference (set HELIX_OPENAI_KEY_REF and helix secrets add \u{2026})",
            ),
            LoomError::Reliquary(x) => {
                let mut m = owned("reliquary: ");
                push_str(&mut m, x.as_str());
                m
            },
            LoomError::Http(x) => {
                let mut m = owned("http: ");
                push_str(&mut m, x.as_str());
                m
            },
            LoomError::EmptyResponse => owned("empty model response"),
            LoomError::NoProvider => owned("no loom provider configured"),
        }
    }
}

/// Provider preference.
#[derive(Debug, Clone, Copy, PartialEq, Eq, Structural)]
pub enum PreferProvider {
    Auto,
    Ollama,
    OpenAi,
}

/// Loom settings. Values only; never a secret.
#[derive(Debug, Clone)]
pub struct LoomConfig {
    pub model: String,
    pub ollama_base: String,
    /// OpenAI-compatible base URL, if configured.
    pub openai_base: Option<String>,
    /// Reliquary secret name of the API key (never the value).
    pub openai_key_ref: Option<String>,
    pub prefer: PreferProvider,
}

/// Completion request shared by providers.
#[derive(Debug, Clone)]
pub struct CompleteRequest<'a> {
    pub system_and_user_prompt: &'a str,
    pub model: &'a str,
}

/// Result of a completion.
#[derive(Debug, Clone)]
pub struct CompleteResponse {
    pub text: String,
    pub provider: ProviderKind,
}

/// A setting after trimming, absent when blank.
pub open spec fn nonblank(o: Option<Seq<char>>) -> Option<Seq<char>> {
    match o {
        Some(s) => if trim(s).len() > 0 {
            Some(trim(s))
        } else {
            None
        },
        None => None,
    }
}

/// Provider preference named by a setting (case-insensitive).
pub open spec fn prefer_of(s: Seq<char>) -> PreferProvider {
    let l = lower(s);
    if l == "openai"@ || l == "openai-compat"@ || l == "cloud"@ {
        PreferProvider::OpenAi
    } else if l == "ollama"@ || l == "local"@ {
        PreferProvider::Ollama
    } else {
        PreferProvider::Auto
    }
}

/// The system prompt of an ask turn.
pub open spec fn ask_prompt(pack: Seq<char>, summary: Seq<char>, memory: Seq<char>, user: Seq<
    char,
>) -> Seq<char> {
    "You are Helix, a local personal agent.\nYou have no tools and no secrets in this slice.\nCharter pack: "@
        + pack + "\n"@ + summary + "\n\nRetrieved memory:\n"@ + memory + "\n\nUser:\n"@ + user
        + "\n\nReply helpfully. Do not invent capabilities you do not have.\n"@
}

/// Whether a completion goes to the OpenAI-compatible provider.
pub open spec fn uses_openai(charter: Charter, config: LoomConfig) -> bool {
    match config.prefer {
        PreferProvider::OpenAi => true,
        PreferProvider::Ollama => false,
        PreferProvider::Auto => config.openai_base is Some && config.openai_key_ref is Some
            && charter.allow_cloud_model,
    }
}

impl LoomConfig {
    /// Settings from the values of `HELIX_OPENAI_BASE`, `HELIX_OPENAI_KEY_REF`
    /// and `HELIX_LOOM` (each `None` when unset).
    pub fn from_env(
        model: &str,
        ollama_base: &str,
        openai_base: Option<String>,
        openai_key_ref: Option<String>,
        loom: Option<String>,
    ) -> (c: LoomConfig)
        ensures
            c.model@ == model@,
            c.ollama_base@ == strip_all_end(ollama_base@, '/'),
            opt_view(c.openai_base) == nonblank(opt_view(openai_base)),
            opt_view(c.openai_key_ref) == nonblank(opt_view(openai_key_ref)),
            c.prefer == prefer_of(
                match loom {
                    Some(s) => s@,
                    None => Seq::empty(),
                },
            ),
    {
        proof {
            reveal_strlit("openai");
            reveal_strlit("openai-compat");
            reveal_strlit("cloud");
            reveal_strlit("ollama");
            reveal_strlit("local");
        }
        let prefer = match loom {
            Some(s) => {
                let l = ascii_lowercase(s.as_str());
                if str_eq(l.as_str(), "openai") || str_eq(l.as_str(), "openai-compat") || str_eq(
                    l.as_str(),
                    "cloud",
                ) {
                    PreferProvider::OpenAi
                } else if str_eq(l.as_str(), "ollama") || str_eq(l.as_str(), "local") {
                    PreferProvider::Ollama
                } else {
                    PreferProvider::Auto
                }
            },
            None => {
                assert(lower(Seq::<char>::empty()) == Seq::<char>::empty());
                PreferProvider::Auto
            },
        };
        LoomConfig {
            model: owned(model),
            ollama_base: trim_end_char(ollama_base, '/'),
            openai_base: nonblank_setting(openai_base),
            openai_key_ref: nonblank_setting(openai_key_ref),
            prefer,
        }
    }
}

fn nonblank_setting(o: Option<String>) -> (r: Option<String>)
    ensures
        opt_view(r) == nonblank(opt_view(o)),
{
    match o {
        Some(s) => {
            let t = trimmed(s.as_str());
            if t.as_str().is_empty() {
                None
            } else {
                Some(t)
            }
        },
        None => None,
    }
}

/// Whether a completion goes to the OpenAI-compatible provider.
pub fn use_openai(charter: &Charter, config: &LoomConfig) -> (r: bool)
    ensures
        r == uses_openai(*charter, *config),
{
    match config.prefer {
        PreferProvider::OpenAi => true,
        PreferProvider::Ollama => false,
        PreferProvider::Auto => config.openai_base.is_some() && config.openai_key_ref.is_some()
            && charter.allow_cloud_model,
    }
}

/// The local generate endpoint, once the charter allows the local model and
/// the Switch allows the URL.
pub fn ollama_endpoint(charter: &Charter, switch: &Switch, config: &LoomConfig) -> (r: Result<
    String,
    LoomError,
>)
    ensures
        !charter.allow_local_model ==> (r matches Err(LoomError::LocalModelDenied)),
        charter.allow_local_model ==> match switch.check_spec(config.ollama_base@ + "/api/generate"@) {
            Ok(_) => r matches Ok(u) && u@ == config.ollama_base@ + "/api/generate"@,
            Err(f) => r matches Err(LoomError::Switch(e)) && e@ == f,
        },
{
    if !charter.allow_local_model {
        return Err(LoomError::LocalModelDenied);
    }
    let mut url = config.ollama_base.clone();
    push_str(&mut url, "/api/generate");
    match switch.check(url.as_str()) {
        Ok(()) => Ok(url),
        Err(e) => Err(LoomError::Switch(e)),
    }
}

/// The cloud chat endpoint and the API key to send, once the charter allows
/// the cloud model, a base URL and key reference are configured, the Switch
/// allows the URL and the Reliquary holds the key.
pub fn openai_endpoint(
    charter: &Charter,
    switch: &Switch,
    config: &LoomConfig,
    reliquary: Option<&Reliquary>,
) -> (r: Result<(String, String), LoomError>)
    ensures
        !charter.allow_cloud_model ==> (r matches Err(LoomError::CloudModelDenied)),
        charter.allow_cloud_model && config.openai_base is None ==> (r matches Err(
            LoomError::NoProvider,
        )),
        charter.allow_cloud_model && config.openai_base is Some && config.openai_key_ref is None
            ==> (r matches Err(LoomError::MissingKeyRef)),
        charter.allow_cloud_model && config.openai_base is Some && config.openai_key_ref is Some
            ==> ({
            let url = strip_all_end(config.openai_base->0@, '/') + "/chat/completions"@;
            let key = config.openai_key_ref->0@;
            match switch.check_spec(url) {
                Err(f) => r matches Err(LoomError::Switch(e)) && e@ == f,
                Ok(_) => match reliquary {
                    None => r matches Err(LoomError::Reliquary(m))
                        && m@ == "reliquary not available for API key unwrap"@,
                    Some(rel) => match unwrap_spec(rel.catalog_map(), rel.sealed_map(), key) {
                        Ok(v) => r matches Ok(p) && p.0@ == url && p.1@ == v,
                        Err(f) => r matches Err(LoomError::Reliquary(m)) && m@ == reliquary_message(
                            f,
                        ),
                    },
                },
            }
        }),
{
    if !charter.allow_cloud_model {
        return Err(LoomError::CloudModelDenied);
    }
    let base = match &config.openai_base {
        Some(b) => trim_end_char(b.as_str(), '/'),
        None => return Err(LoomError::NoProvider),
    };
    let key_ref = match &config.openai_key_ref {
        Some(k) => k,
        None => return Err(LoomError::MissingKeyRef),
    };
    let mut url = base;
    push_str(&mut url, "/chat/completions");
    match switch.check(url.as_str()) {
        Ok(()) => {},
        Err(e) => return Err(LoomError::Switch(e)),
    }
    let api_key = match reliquary {
        Some(r) => match r.unwrap(key_ref.as_str()) {
            Ok(v) => v,
            Err(e) => return Err(LoomError::Reliquary(e.message())),
        },
        None => {
            return Err(LoomError::Reliquary(owned("reliquary not available for API key unwrap")));
        },
    };
    Ok((url, api_key))
}

/// The completion from the local provider's `response` field.
pub fn ollama_reply(response: Option<String>) -> (r: Result<CompleteResponse, LoomError>)
    ensures
        match response {
            Some(t) if t@.len() > 0 => r matches Ok(c) && c.text == t && c.provider
                == ProviderKind::Ollama,
            _ => r matches Err(LoomError::EmptyResponse),
        },
{
    match response {
        Some(t) => if t.as_str().is_empty() {
            Err(LoomError::EmptyResponse)
        } else {
            Ok(CompleteResponse { text: t, provider: ProviderKind::Ollama })
        },
        None => Err(LoomError::EmptyResponse),
    }
}

/// The completion from the cloud provider's `choices`: each choice's
/// message content, if any; the first choice is used.
pub fn openai_reply(choices: Option<Vec<Option<String>>>) -> (r: Result<
    CompleteResponse,
    LoomError,
>)
    ensures
        match choices {
            Some(cs) if cs@.len() > 0 => match cs@[0] {
                Some(t) if t@.len() > 0 => r matches Ok(c) && c.text == t && c.provider
                    == ProviderKind::OpenAiCompat,
                _ => r matches Err(LoomError::EmptyResponse),
            },
            _ => r matches Err(LoomError::EmptyResponse),
        },
{
    match choices {
        Some(mut cs) => {
            if cs.len() == 0 {
                return Err(LoomError::EmptyResponse);
            }
            match cs.remove(0) {
                Some(t) => if t.as_str().is_empty() {
                    Err(LoomError::EmptyResponse)
                } else {
                    Ok(CompleteResponse { text: t, provider: ProviderKind::OpenAiCompat })
                },
                None => Err(LoomError::EmptyResponse),
            }
        },
        None => Err(LoomError::EmptyResponse),
    }
}

/// Where a completion is sent: the provider, its endpoint, and the API key
/// that goes with it (the cloud provider only).
#[derive(Debug)]
pub struct Dial {
    pub provider: ProviderKind,
    pub url: String,
    pub api_key: Option<String>,
}

/// A provider's reply, as far as a completion reads it: the local
/// provider's `response` field, or each cloud choice's message content.
#[derive(Debug)]
pub enum ProviderReply {
    Ollama(Option<String>),
    OpenAi(Option<Vec<Option<String>>>),
}

/// The provider a reply comes from.
pub open spec fn reply_provider(reply: ProviderReply) -> ProviderKind {
    match reply {
        ProviderReply::Ollama(_) => ProviderKind::Ollama,
        ProviderReply::OpenAi(_) => ProviderKind::OpenAiCompat,
    }
}

/// Whether a completion may dial `url` at `provider`: the charter allows that
/// provider, the URL is the provider's endpoint under the configured base, and
/// the Switch lets it through.
pub open spec fn dial_allowed(
    charter: Charter,
    switch: Switch,
    config: LoomConfig,
    provider: ProviderKind,
    url: Seq<char>,
) -> bool {
    match provider {
        ProviderKind::Ollama => {
            &&& charter.allow_local_model
            &&& url == config.ollama_base@ + "/api/generate"@
            &&& switch.check_spec(url) is Ok
        },
        ProviderKind::OpenAiCompat => {
            &&& charter.allow_cloud_model
            &&& config.openai_key_ref is Some
            &&& config.openai_base is Some
            &&& url == strip_all_end(config.openai_base->0@, '/') + "/chat/completions"@
            &&& switch.check_spec(url) is Ok
        },
    }
}

/// The first half of a completion: picks the provider and settles where to
/// send the prompt. Nothing is dialed unless the charter allows the provider
/// and the Switch allows its endpoint.
pub fn plan_completion(
    charter: &Charter,
    switch: &Switch,
    config: &LoomConfig,
    reliquary: Option<&Reliquary>,
) -> (r: Result<Dial, LoomError>)
    ensures
        r matches Ok(d) ==> {
            &&& dial_allowed(*charter, *switch, *config, d.provider, d.url@)
            &&& (d.provider == ProviderKind::OpenAiCompat <==> uses_openai(*charter, *config))
            &&& (d.api_key is None <==> d.provider == ProviderKind::Ollama)
        },
        !uses_openai(*charter, *config) ==> {
            &&& !charter.allow_local_model ==> (r matches Err(LoomError::LocalModelDenied))
            &&& charter.allow_local_model ==> match switch.check_spec(
                config.ollama_base@ + "/api/generate"@,
            ) {
                Ok(_) => r is Ok,
                Err(f) => r matches Err(LoomError::Switch(e)) && e@ == f,
            }
        },
        uses_openai(*charter, *config) ==> {
            &&& !charter.allow_cloud_model ==> (r matches Err(LoomError::CloudModelDenied))
            &&& charter.allow_cloud_model && config.openai_base is None ==> (r matches Err(
                LoomError::NoProvider,
            ))
            &&& charter.allow_cloud_model && config.openai_base is Some && config.openai_key_ref
                is None ==> (r matches Err(LoomError::MissingKeyRef))
            &&& charter.allow_cloud_model && config.openai_base is Some && config.openai_key_ref
                is Some ==> ({
                let url = strip_all_end(config.openai_base->0@, '/') + "/chat/completions"@;
                let key = config.openai_key_ref->0@;
                match switch.check_spec(url) {
                    Err(f) => r matches Err(LoomError::Switch(e)) && e@ == f,
                    Ok(_) => match reliquary {
                        None => r matches Err(LoomError::Reliquary(m))
                            && m@ == "reliquary not available for API key unwrap"@,
                        Some(rel) => match unwrap_spec(rel.catalog_map(), rel.sealed_map(), key) {
                            Ok(v) => r matches Ok(d) && d.api_key matches Some(k) && k@ == v,
                            Err(f) => r matches Err(LoomError::Reliquary(m)) && m@
                                == reliquary_message(f),
                        },
                    },
                }
            })
        },
{
    if use_openai(charter, config) {
        match openai_endpoint(charter, switch, config, reliquary) {
            Ok((url, key)) => Ok(Dial { provider: ProviderKind::OpenAiCompat, url, api_key: Some(key) }),
            Err(e) => Err(e),
        }
    } else {
        match ollama_endpoint(charter, switch, config) {
            Ok(url) => Ok(Dial { provider: ProviderKind::Ollama, url, api_key: None }),
            Err(e) => Err(e),
        }
    }
}

/// The second half of a completion: the reply of the provider that was
/// dialed, read into a completion. A completion always carries text, and
/// comes from the provider that `plan_completion` chose.
pub fn finish_completion(dial: &Dial, reply: ProviderReply) -> (r: Result<
    CompleteResponse,
    LoomError,
>)
    requires
        reply_provider(reply) == dial.provider,
    ensures
        r matches Ok(c) ==> c.text@.len() > 0 && c.provider == dial.provider,
        match reply {
            ProviderReply::Ollama(response) => match response {
                Some(t) if t@.len() > 0 => r matches Ok(c) && c.text == t,
                _ => r matches Err(LoomError::EmptyResponse),
            },
            ProviderReply::OpenAi(choices) => match choices {
                Some(cs) if cs@.len() > 0 => match cs@[0] {
                    Some(t) if t@.len() > 0 => r matches Ok(c) && c.text == t,
                    _ => r matches Err(LoomError::EmptyResponse),
                },
                _ => r matches Err(LoomError::EmptyResponse),
            },
        },
{
    match reply {
        ProviderReply::Ollama(response) => ollama_reply(response),
        ProviderReply::OpenAi(choices) => openai_reply(choices),
    }
}

/// The tags URL to probe for the local runtime, if the Switch allows it.
pub fn ollama_probe_url(switch: &Switch, ollama_base: &str) -> (r: Option<String>)
    ensures
        ({
            let url = strip_all_end(ollama_base@, '/') + "/api/tags"@;
            match switch.check_spec(url) {
                Ok(_) => r matches Some(u) && u@ == url,
                Err(_) => r is None,
            }
        }),
{
    let mut url = trim_end_char(ollama_base, '/');
    push_str(&mut url, "/api/tags");
    match switch.check(url.as_str()) {
        Ok(()) => Some(url),
        Err(_) => None,
    }
}

/// The constrained Helix system prompt used by ask.
pub fn build_ask_prompt(charter: &Charter, memory: &str, user: &str) -> (p: String)
    ensures
        p@ == ask_prompt(charter.pack@, charter.summary@, memory@, user@),
{
    let mut p = owned(
        "You are Helix, a local personal agent.\nYou have no tools and no secrets in this slice.\nCharter pack: ",
    );
    push_str(&mut p, charter.pack.as_str());
    push_str(&mut p, "\n");
    push_str(&mut p, charter.summary.as_str());
    push_str(&mut p, "\n\nRetrieved memory:\n");
    push_str(&mut p, memory);
    push_str(&mut p, "\n\nUser:\n");
    push_str(&mut p, user);
    push_str(&mut p, "\n\nReply helpfully. Do not invent capabilities you do not have.\n");
    p
}

} // verus!
