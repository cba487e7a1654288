use helix::recall::MemoryDoc;
use helix::memory::{Episode, HelixHome};
use helix::words::{count_found, split_words};

fn episode(id: &str, query: &str, verdict: &str) -> Episode {
    Episode {
        id: id.into(),
        created_at: "t".into(),
        query: query.into(),
        reply: "reply".into(),
        verdict: verdict.into(),
        edit: None,
    }
}

#[test]
fn words_split_on_non_alphanumerics() {
    assert_eq!(split_words("how-to: write notes", 2), vec!["how", "write", "notes"]);
    assert_eq!(split_words("how-to: write notes", 3), vec!["write", "notes"]);
    assert_eq!(split_words("café crème", 2), vec!["café", "crème"]);
    assert!(split_words("a b c", 2).is_empty());
}

#[test]
fn found_counts_repetitions() {
    let ws = vec!["note".to_string(), "note".to_string(), "zzz".to_string()];
    assert_eq!(count_found(&ws, "my notes"), 2);
}

#[test]
fn playbook_promoted_after_similar_success() {
    let ep = episode("ep-2", "Summarize weekly report quickly", "accept");
    let others = vec![
        episode("ep-2", "Summarize weekly report quickly", "accept"),
        episode("ep-1", "please summarize the weekly report", "edit"),
    ];
    let (key, body) = HelixHome::maybe_promote_playbook(&ep, &others).unwrap();
    assert_eq!(key, "summarize");
    assert_eq!(
        body,
        "# Playbook: summarize\n\nDerived from accepted episodes.\n\nQuery pattern: Summarize weekly report quickly\n\nSuccessful reply sketch:\nreply\n"
    );
}

#[test]
fn no_playbook_without_similar_accepted_episode() {
    let ep = episode("ep-2", "Summarize weekly report", "accept");
    let rejected = vec![episode("ep-1", "summarize weekly report", "reject")];
    assert!(HelixHome::maybe_promote_playbook(&ep, &rejected).is_none());
    let one_word = vec![episode("ep-1", "summarize something", "accept")];
    assert!(HelixHome::maybe_promote_playbook(&ep, &one_word).is_none());
    let itself = vec![episode("ep-2", "Summarize weekly report", "accept")];
    assert!(HelixHome::maybe_promote_playbook(&ep, &itself).is_none());
    let short = episode("ep-3", "a an the", "accept");
    assert!(HelixHome::maybe_promote_playbook(&short, &one_word).is_none());
}

#[test]
fn playbook_path_and_docs() {
    let h = HelixHome { root: "/h".into() };
    assert_eq!(h.playbook_path("summarize"), "/h/memory/playbooks/summarize.md");
    let d = MemoryDoc { area: "tools".into(), name: "n".into(), text: "t".into() };
    assert_eq!(HelixHome::retrieve_context("xyz", &[d]), "");
}
