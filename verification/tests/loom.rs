use helix::charter::Charter;
use helix::loom::{
    build_ask_prompt, finish_completion, ollama_endpoint, ollama_probe_url, ollama_reply,
    openai_endpoint, openai_reply, plan_completion, use_openai, LoomConfig, LoomError,
    PreferProvider, ProviderKind, ProviderReply,
};
use helix::keyed::Keyed;
use helix::memory::HelixHome;
use helix::reliquary::Reliquary;
use helix::switch::Switch;

fn cloud_config(prefer: PreferProvider) -> LoomConfig {
    LoomConfig {
        model: "gpt-4o-mini".into(),
        ollama_base: "http://127.0.0.1:11434".into(),
        openai_base: Some("https://api.openai.com/v1".into()),
        openai_key_ref: Some("openai-key".into()),
        prefer,
    }
}

#[test]
fn hearthside_rejects_openai_path() {
    let charter = Charter::builtin("hearthside").unwrap();
    let switch = Switch::from_charter(&charter);
    let config = cloud_config(PreferProvider::OpenAi);
    assert!(!charter.allow_cloud_model);
    assert!(matches!(switch.check("https://api.openai.com/v1/chat/completions"), Err(_)));
    assert!(matches!(
        openai_endpoint(&charter, &switch, &config, None),
        Err(LoomError::CloudModelDenied)
    ));
}

#[test]
fn ollama_url_passes_hearthside_switch() {
    let switch = Switch::for_pack("hearthside").unwrap();
    assert!(switch.check("http://127.0.0.1:11434/api/generate").is_ok());
}

#[test]
fn config_from_env_defaults() {
    let c = LoomConfig::from_env("llama3.2", "http://127.0.0.1:11434/", None, None, None);
    assert_eq!(c.ollama_base, "http://127.0.0.1:11434");
    assert_eq!(c.prefer, PreferProvider::Auto);
}

#[test]
fn build_prompt_includes_charter() {
    let c = Charter::builtin("hearthside").unwrap();
    let p = build_ask_prompt(&c, "(none)", "hello");
    assert!(p.contains("hearthside"));
    assert!(p.contains("hello"));
}

#[test]
fn build_prompt_exact_text() {
    let mut c = Charter::builtin("desk").unwrap();
    c.summary = "S".into();
    let p = build_ask_prompt(&c, "M", "U");
    assert_eq!(
        p,
        "You are Helix, a local personal agent.\nYou have no tools and no secrets in this slice.\nCharter pack: desk\nS\n\nRetrieved memory:\nM\n\nUser:\nU\n\nReply helpfully. Do not invent capabilities you do not have.\n"
    );
}

#[test]
fn env_values_are_trimmed_and_read() {
    let c = LoomConfig::from_env(
        "m",
        "http://h//",
        Some("  https://x/v1 ".into()),
        Some("   ".into()),
        Some("CLOUD".into()),
    );
    assert_eq!(c.model, "m");
    assert_eq!(c.ollama_base, "http://h");
    assert_eq!(c.openai_base.as_deref(), Some("https://x/v1"));
    assert_eq!(c.openai_key_ref, None);
    assert_eq!(c.prefer, PreferProvider::OpenAi);
    let c = LoomConfig::from_env("m", "b", None, None, Some("Local".into()));
    assert_eq!(c.prefer, PreferProvider::Ollama);
    let c = LoomConfig::from_env("m", "b", None, None, Some("whatever".into()));
    assert_eq!(c.prefer, PreferProvider::Auto);
}

#[test]
fn provider_selection() {
    let hearth = Charter::builtin("hearthside").unwrap();
    let work = Charter::builtin("workshop").unwrap();
    assert!(use_openai(&hearth, &cloud_config(PreferProvider::OpenAi)));
    assert!(!use_openai(&work, &cloud_config(PreferProvider::Ollama)));
    assert!(use_openai(&work, &cloud_config(PreferProvider::Auto)));
    assert!(!use_openai(&hearth, &cloud_config(PreferProvider::Auto)));
    let mut c = cloud_config(PreferProvider::Auto);
    c.openai_key_ref = None;
    assert!(!use_openai(&work, &c));
}

#[test]
fn ollama_endpoint_goes_through_switch() {
    let charter = Charter::builtin("hearthside").unwrap();
    let switch = Switch::from_charter(&charter);
    let url = ollama_endpoint(&charter, &switch, &cloud_config(PreferProvider::Ollama)).unwrap();
    assert_eq!(url, "http://127.0.0.1:11434/api/generate");
    let mut remote = cloud_config(PreferProvider::Ollama);
    remote.ollama_base = "http://ollama.example.com:11434".into();
    assert!(matches!(
        ollama_endpoint(&charter, &switch, &remote),
        Err(LoomError::Switch(_))
    ));
    let mut no_local = charter.clone();
    no_local.allow_local_model = false;
    assert!(matches!(
        ollama_endpoint(&no_local, &switch, &remote),
        Err(LoomError::LocalModelDenied)
    ));
}

#[test]
fn openai_endpoint_needs_config_and_switch() {
    let work = Charter::builtin("workshop").unwrap();
    let switch = Switch::from_charter(&work);
    let mut c = cloud_config(PreferProvider::OpenAi);
    c.openai_base = None;
    assert!(matches!(openai_endpoint(&work, &switch, &c, None), Err(LoomError::NoProvider)));
    let mut c = cloud_config(PreferProvider::OpenAi);
    c.openai_key_ref = None;
    assert!(matches!(openai_endpoint(&work, &switch, &c, None), Err(LoomError::MissingKeyRef)));
    let c = cloud_config(PreferProvider::OpenAi);
    assert!(matches!(openai_endpoint(&work, &switch, &c, None), Err(LoomError::Switch(_))));
    let mut local = cloud_config(PreferProvider::OpenAi);
    local.openai_base = Some("http://127.0.0.1:8080/v1/".into());
    match openai_endpoint(&work, &switch, &local, None) {
        Err(LoomError::Reliquary(m)) => assert_eq!(m, "reliquary not available for API key unwrap"),
        other => panic!("unexpected {:?}", other),
    }
}

#[test]
fn replies_must_be_non_empty() {
    let r = ollama_reply(Some("hi".into())).unwrap();
    assert_eq!(r.text, "hi");
    assert_eq!(r.provider, ProviderKind::Ollama);
    assert!(matches!(ollama_reply(Some(String::new())), Err(LoomError::EmptyResponse)));
    assert!(matches!(ollama_reply(None), Err(LoomError::EmptyResponse)));
    let r = openai_reply(Some(vec![Some("yo".into()), Some("second".into())])).unwrap();
    assert_eq!(r.text, "yo");
    assert_eq!(r.provider, ProviderKind::OpenAiCompat);
    assert!(matches!(openai_reply(Some(vec![None])), Err(LoomError::EmptyResponse)));
    assert!(matches!(openai_reply(Some(vec![])), Err(LoomError::EmptyResponse)));
    assert!(matches!(openai_reply(None), Err(LoomError::EmptyResponse)));
}

#[test]
fn probe_url_only_when_switch_allows() {
    let switch = Switch::for_pack("hearthside").unwrap();
    assert_eq!(
        ollama_probe_url(&switch, "http://127.0.0.1:11434/").as_deref(),
        Some("http://127.0.0.1:11434/api/tags")
    );
    assert_eq!(ollama_probe_url(&switch, "http://remote.example:11434"), None);
}

#[test]
fn openai_endpoint_unwraps_key() {
    let work = Charter::builtin("workshop").unwrap();
    let switch = Switch::from_charter(&work);
    let mut rel = Reliquary::open(HelixHome { root: "/h".into() }, Keyed::new(), Keyed::new());
    rel.add("openai-key", "sk-test", false, "t".into(), "r".into()).unwrap();
    let mut c = cloud_config(PreferProvider::OpenAi);
    c.openai_base = Some("http://127.0.0.1:8080/v1/".into());
    let (url, key) = openai_endpoint(&work, &switch, &c, Some(&rel)).unwrap();
    assert_eq!(url, "http://127.0.0.1:8080/v1/chat/completions");
    assert_eq!(key, "sk-test");
    c.openai_key_ref = Some("missing".into());
    match openai_endpoint(&work, &switch, &c, Some(&rel)) {
        Err(LoomError::Reliquary(m)) => assert_eq!(m, "secret not found: missing"),
        other => panic!("unexpected {:?}", other),
    }
}

#[test]
fn completion_plans_then_reads_reply() {
    let hearth = Charter::builtin("hearthside").unwrap();
    let switch = Switch::from_charter(&hearth);
    let config = cloud_config(PreferProvider::Auto);
    let dial = plan_completion(&hearth, &switch, &config, None).unwrap();
    assert_eq!(dial.provider, ProviderKind::Ollama);
    assert_eq!(dial.url, "http://127.0.0.1:11434/api/generate");
    assert_eq!(dial.api_key, None);
    let done = finish_completion(&dial, ProviderReply::Ollama(Some("hi".into()))).unwrap();
    assert_eq!(done.text, "hi");
    assert_eq!(done.provider, ProviderKind::Ollama);
    assert!(matches!(
        finish_completion(&dial, ProviderReply::Ollama(Some(String::new()))),
        Err(LoomError::EmptyResponse)
    ));
    assert!(matches!(
        plan_completion(&hearth, &switch, &cloud_config(PreferProvider::OpenAi), None),
        Err(LoomError::CloudModelDenied)
    ));
}

#[test]
fn cloud_completion_carries_the_key() {
    let work = Charter::builtin("workshop").unwrap();
    let switch = Switch::from_charter(&work);
    let mut rel = Reliquary::open(HelixHome { root: "/h".into() }, Keyed::new(), Keyed::new());
    rel.add("openai-key", "sk-test", false, "t".into(), "r".into()).unwrap();
    let mut c = cloud_config(PreferProvider::OpenAi);
    c.openai_base = Some("http://127.0.0.1:8080/v1".into());
    let dial = plan_completion(&work, &switch, &c, Some(&rel)).unwrap();
    assert_eq!(dial.provider, ProviderKind::OpenAiCompat);
    assert_eq!(dial.url, "http://127.0.0.1:8080/v1/chat/completions");
    assert_eq!(dial.api_key.as_deref(), Some("sk-test"));
    let done =
        finish_completion(&dial, ProviderReply::OpenAi(Some(vec![Some("ok".into())]))).unwrap();
    assert_eq!(done.text, "ok");
    assert_eq!(done.provider, ProviderKind::OpenAiCompat);
    assert!(matches!(
        finish_completion(&dial, ProviderReply::OpenAi(Some(vec![]))),
        Err(LoomError::EmptyResponse)
    ));
}
