//! Recall: episodes of past asks, the memory snippets retrieved for a new
//! ask, and playbooks promoted from repeatedly accepted answers.

use crate::memory::{Episode, HelixHome};
use crate::order::{lemma_sort_by_contains, lemma_sort_view, sort_by, sort_in_order, text_lt};
use crate::paths::{join_path, path_join};
use crate::text::{
    ascii_lowercase, chars_of, has_infix, has_prefix, has_suffix, join, join_strings,
    lemma_join_infix, lower, owned, push_str, str_eq, string_of,
};
use crate::words::{count_found, found_count, split_words, words};
use vstd::prelude::*;

verus! {

broadcast use vstd::string::group_string_axioms;

/// One stored memory file: its area (`episodes`, `playbooks` or `tools`),
/// its file name and its text.
#[derive(Debug, Clone)]
pub struct MemoryDoc {
    pub area: String,
    pub name: String,
    pub text: String,
}

/// At most `n` first characters of `s`.
pub open spec fn first_chars(s: Seq<char>, n: nat) -> Seq<char> {
    if s.len() <= n {
        s
    } else {
        s.take(n as int)
    }
}

/// The line a matching memory file contributes: `[area/name] ` and the
/// first 240 characters of its text.
pub open spec fn hit_line(d: MemoryDoc) -> Seq<char> {
    "["@ + d.area@ + "/"@ + d.name@ + "] "@ + first_chars(d.text@, 240)
}

/// The lines of the files of `docs` whose lowercased text contains at least
/// one of the query words `ws`, in order.
pub open spec fn doc_hits(ws: Seq<Seq<char>>, docs: Seq<MemoryDoc>) -> Seq<Seq<char>>
    decreases docs.len(),
{
    if docs.len() == 0 {
        Seq::empty()
    } else if found_count(ws, lower(docs.last().text@)) > 0 {
        doc_hits(ws, docs.drop_last()).push(hit_line(docs.last()))
    } else {
        doc_hits(ws, docs.drop_last())
    }
}

/// The words of a query that retrieval looks for: those of its lowercase
/// form longer than two bytes.
pub open spec fn query_words(query: Seq<char>) -> Seq<Seq<char>> {
    words(lower(query), 2)
}

/// The memory retrieved for `query` from `docs`: the hit lines sorted,
/// at most eight of them, one per line; empty when the query has no words.
pub open spec fn recalled(query: Seq<char>, docs: Seq<MemoryDoc>) -> Seq<char> {
    let ws = query_words(query);
    if ws.len() == 0 {
        Seq::empty()
    } else {
        let hits = sort_by(doc_hits(ws, docs), text_lt());
        join(first_lines(hits, 8), "\n"@)
    }
}

/// At most `n` first items of `s`.
pub open spec fn first_lines(s: Seq<Seq<char>>, n: nat) -> Seq<Seq<char>> {
    if s.len() <= n {
        s
    } else {
        s.take(n as int)
    }
}

/// Law: retrieval returns at most eight lines, each from a file that matched.
pub proof fn law_recall_at_most_eight(query: Seq<char>, docs: Seq<MemoryDoc>)
    ensures
        first_lines(sort_by(doc_hits(query_words(query), docs), text_lt()), 8).len() <= 8,
{
}

/// A word of `ws` that occurs in `text` is counted.
proof fn lemma_found_count_pos(ws: Seq<Seq<char>>, text: Seq<char>, w: Seq<char>)
    requires
        ws.contains(w),
        has_infix(text, w),
    ensures
        found_count(ws, text) > 0,
    decreases ws.len(),
{
    if ws.last() != w {
        let k = choose|k: int| 0 <= k < ws.len() && ws[k] == w;
        assert(ws.drop_last()[k] == w);
        lemma_found_count_pos(ws.drop_last(), text, w);
    }
}

/// When some word is counted, one of the words occurs in the text.
proof fn lemma_found_count_witness(ws: Seq<Seq<char>>, text: Seq<char>)
    requires
        found_count(ws, text) > 0,
    ensures
        exists|w: Seq<char>| ws.contains(w) && has_infix(text, w),
    decreases ws.len(),
{
    if has_infix(text, ws.last()) {
        assert(ws[ws.len() - 1] == ws.last());
        assert(ws.contains(ws.last()));
    } else {
        lemma_found_count_witness(ws.drop_last(), text);
        let w = choose|w: Seq<char>| ws.drop_last().contains(w) && has_infix(text, w);
        let k = choose|k: int| 0 <= k < ws.drop_last().len() && ws.drop_last()[k] == w;
        assert(ws[k] == w);
    }
}

/// Law: matching is case-insensitive on both sides. A memory file whose
/// lowercased text contains one of the (lowercased) query words is a hit,
/// whatever the case its text is written in.
pub proof fn law_matching_file_is_hit(ws: Seq<Seq<char>>, docs: Seq<MemoryDoc>, i: int, w: Seq<char>)
    requires
        0 <= i < docs.len(),
        ws.contains(w),
        has_infix(lower(docs[i].text@), w),
    ensures
        doc_hits(ws, docs).contains(hit_line(docs[i])),
    decreases docs.len(),
{
    let h = doc_hits(ws, docs);
    if i == docs.len() - 1 {
        lemma_found_count_pos(ws, lower(docs.last().text@), w);
        assert(h == doc_hits(ws, docs.drop_last()).push(hit_line(docs[i])));
        assert(h[h.len() - 1] == hit_line(docs[i]));
    } else {
        assert(docs.drop_last()[i] == docs[i]);
        law_matching_file_is_hit(ws, docs.drop_last(), i, w);
        let p = doc_hits(ws, docs.drop_last());
        let k = choose|k: int| 0 <= k < p.len() && p[k] == hit_line(docs[i]);
        if found_count(ws, lower(docs.last().text@)) > 0 {
            assert(h == p.push(hit_line(docs.last())));
            assert(h[k] == p[k]);
        }
    }
}

/// Law: every hit is the line of a memory file whose lowercased text
/// contains a query word, and there are no more hits than files.
pub proof fn law_hits_are_matching_files(ws: Seq<Seq<char>>, docs: Seq<MemoryDoc>, l: Seq<char>)
    ensures
        doc_hits(ws, docs).len() <= docs.len(),
        doc_hits(ws, docs).contains(l) ==> exists|i: int, w: Seq<char>|
            #![trigger docs[i], ws.contains(w)]
            0 <= i < docs.len() && l == hit_line(docs[i]) && ws.contains(w) && has_infix(
                lower(docs[i].text@),
                w,
            ),
    decreases docs.len(),
{
    if docs.len() > 0 {
        law_hits_are_matching_files(ws, docs.drop_last(), l);
        let p = doc_hits(ws, docs.drop_last());
        let h = doc_hits(ws, docs);
        if h.contains(l) {
            let last = docs.len() - 1;
            if found_count(ws, lower(docs.last().text@)) > 0 && l == hit_line(docs[last]) {
                lemma_found_count_witness(ws, lower(docs[last].text@));
                let w = choose|w: Seq<char>| ws.contains(w) && has_infix(lower(docs[last].text@), w);
                assert(0 <= last < docs.len() && l == hit_line(docs[last]) && ws.contains(w)
                    && has_infix(lower(docs[last].text@), w));
            } else {
                let k = choose|k: int| 0 <= k < h.len() && h[k] == l;
                if found_count(ws, lower(docs.last().text@)) > 0 {
                    assert(h == p.push(hit_line(docs.last())));
                    assert(k < p.len());
                    assert(p[k] == l);
                } else {
                    assert(p[k] == l);
                }
                let (i, w) = choose|i: int, w: Seq<char>|
                    #![trigger docs.drop_last()[i], ws.contains(w)]
                    0 <= i < docs.drop_last().len() && l == hit_line(docs.drop_last()[i])
                        && ws.contains(w) && has_infix(lower(docs.drop_last()[i].text@), w);
                assert(docs.drop_last()[i] == docs[i]);
            }
        }
    }
}

/// Law: when there are at most eight memory files, the memory retrieved for
/// a query holds the line of every file whose lowercased text contains a word
/// of the query.
pub proof fn law_small_memory_fully_recalled(
    query: Seq<char>,
    docs: Seq<MemoryDoc>,
    i: int,
    w: Seq<char>,
)
    requires
        docs.len() <= 8,
        0 <= i < docs.len(),
        query_words(query).contains(w),
        has_infix(lower(docs[i].text@), w),
    ensures
        has_infix(recalled(query, docs), hit_line(docs[i])),
{
    let ws = query_words(query);
    let hits = doc_hits(ws, docs);
    law_matching_file_is_hit(ws, docs, i, w);
    law_hits_are_matching_files(ws, docs, hit_line(docs[i]));
    let sorted = sort_by(hits, text_lt());
    lemma_sort_by_contains(hits, text_lt(), hit_line(docs[i]));
    assert(first_lines(sorted, 8) == sorted);
    let k = choose|k: int| 0 <= k < sorted.len() && sorted[k] == hit_line(docs[i]);
    lemma_join_infix(sorted, "\n"@, k);
}

/// Verdicts under which an answer counts as accepted.
pub open spec fn accepted(verdict: Seq<char>) -> bool {
    verdict == "accept"@ || verdict == "edit"@
}

/// The words of an episode's query that playbook promotion compares: those
/// of its lowercase form longer than three bytes.
pub open spec fn key_words(query: Seq<char>) -> Seq<Seq<char>> {
    words(lower(query), 3)
}

/// Another accepted episode whose query shares at least two key words.
pub open spec fn similar_episode(ep: Episode, other: Episode) -> bool {
    &&& other.id@ != ep.id@
    &&& accepted(other.verdict@)
    &&& found_count(key_words(ep.query@), lower(other.query@)) >= 2
}

/// What a playbook records of an episode.
pub open spec fn playbook_text(key: Seq<char>, ep: Episode) -> Seq<char> {
    let sketch = match ep.edit {
        Some(e) => e@,
        None => ep.reply@,
    };
    "# Playbook: "@ + key + "\n\nDerived from accepted episodes.\n\nQuery pattern: "@ + ep.query@
        + "\n\nSuccessful reply sketch:\n"@ + sketch + "\n"@
}

/// The playbook an accepted episode promotes, given the stored episodes:
/// named by its first key word, when one of the others is similar.
pub open spec fn promoted(ep: Episode, others: Seq<Episode>) -> Option<(Seq<char>, Seq<char>)> {
    let ws = key_words(ep.query@);
    if ws.len() > 0 && exists|i: int| 0 <= i < others.len() && similar_episode(ep, #[trigger] others[i]) {
        Some((ws[0], playbook_text(ws[0], ep)))
    } else {
        None
    }
}

/// Law: an episode with no key words, or with no similar accepted episode
/// among the stored ones, promotes nothing.
pub proof fn law_promotion_needs_similar(ep: Episode, others: Seq<Episode>)
    ensures
        promoted(ep, others) is Some ==> key_words(ep.query@).len() > 0 && exists|i: int|
            0 <= i < others.len() && similar_episode(ep, #[trigger] others[i]),
{
}

/// Law: a promoted playbook records the user's correction. Its text ends
/// with the reply sketch: the episode's edit when it has one, its reply
/// otherwise. It opens with the playbook's key, which is the first key word
/// of the episode's query.
pub proof fn law_playbook_records_the_edit(ep: Episode, others: Seq<Episode>)
    ensures
        promoted(ep, others) matches Some((k, body)) ==> {
            &&& k == key_words(ep.query@)[0]
            &&& has_prefix(body, "# Playbook: "@ + k)
            &&& has_suffix(
                body,
                "Successful reply sketch:\n"@ + match ep.edit {
                    Some(e) => e@,
                    None => ep.reply@,
                } + "\n"@,
            )
        },
{
    if let Some((k, body)) = promoted(ep, others) {
        reveal_strlit("\n\nSuccessful reply sketch:\n");
        reveal_strlit("Successful reply sketch:\n");
        let sketch = match ep.edit {
            Some(e) => e@,
            None => ep.reply@,
        };
        let head = "# Playbook: "@ + k;
        let mid = "\n\nDerived from accepted episodes.\n\nQuery pattern: "@ + ep.query@ + "\n\n"@;
        let tail = "Successful reply sketch:\n"@ + sketch + "\n"@;
        reveal_strlit("\n\n");
        assert("\n\nSuccessful reply sketch:\n"@ =~= "\n\n"@ + "Successful reply sketch:\n"@);
        assert(body =~= head + (mid + tail));
        assert(body.take(head.len() as int) =~= head);
        assert(body.skip(body.len() - tail.len()) =~= tail);
    }
}

/// The string's view, as a closure.
pub open spec fn string_view() -> spec_fn(String) -> Seq<char> {
    |s: String| s@
}

/// `s` cut to its first `n` characters.
fn first_chars_of(s: &str, n: usize) -> (r: String)
    ensures
        r@ == first_chars(s@, n as nat),
{
    let v = chars_of(s);
    if v.len() <= n {
        owned(s)
    } else {
        string_of(v.as_slice(), 0, n)
    }
}

fn hit_line_of(d: &MemoryDoc) -> (r: String)
    ensures
        r@ == hit_line(*d),
{
    let mut line = owned("[");
    push_str(&mut line, d.area.as_str());
    push_str(&mut line, "/");
    push_str(&mut line, d.name.as_str());
    push_str(&mut line, "] ");
    let snippet = first_chars_of(d.text.as_str(), 240);
    push_str(&mut line, snippet.as_str());
    line
}

impl HelixHome {
    /// Memory to show the model for `query`, from the stored files `docs`:
    /// the files that contain a query word, one line each, sorted, at most
    /// eight; empty when nothing matches or the query has no words.
    pub fn retrieve_context(query: &str, docs: &[MemoryDoc]) -> (r: String)
        ensures
            r@ == recalled(query@, docs@),
    {
        let q = ascii_lowercase(query);
        let ws = split_words(q.as_str(), 2);
        if ws.len() == 0 {
            return String::new();
        }
        let ghost wv = ws@.map_values(|w: String| w@);
        let mut hits: Vec<String> = Vec::new();
        let mut i: usize = 0;
        assert(docs@.take(0) == Seq::<MemoryDoc>::empty());
        while i < docs.len()
            invariant
                wv == ws@.map_values(|w: String| w@),
                wv == query_words(query@),
                i <= docs@.len(),
                hits@.map_values(string_view()) == doc_hits(wv, docs@.take(i as int)),
            decreases docs@.len() - i,
        {
            assert(docs@.take(i + 1).drop_last() == docs@.take(i as int));
            assert(docs@.take(i + 1).last() == docs@[i as int]);
            let lowered = ascii_lowercase(docs[i].text.as_str());
            let score = count_found(ws.as_slice(), lowered.as_str());
            if score > 0 {
                let line = hit_line_of(&docs[i]);
                let ghost before = hits@;
                hits.push(line);
                assert(hits@.map_values(string_view()) == before.map_values(string_view()).push(
                    hit_line(docs@[i as int]),
                ));
            }
            i = i + 1;
        }
        assert(docs@.take(i as int) == docs@);
        let ghost unsorted = hits@;
        let sorted = sort_in_order(hits);
        proof {
            lemma_sort_view(unsorted, string_view(), text_lt());
        }
        let ghost sv = sorted@.map_values(string_view());
        let n = if sorted.len() <= 8 {
            sorted.len()
        } else {
            8
        };
        let r = join_strings(sorted.as_slice(), 0, n, "\n");
        assert(sorted@.subrange(0, n as int).map_values(|w: String| w@) == first_lines(sv, 8));
        r
    }

    /// The file recording episode `id`.
    pub fn episode_path(&self, id: &str) -> (p: String)
        ensures
            p@ == join_path(join_path(self.root@, "memory/episodes"@), id@ + ".json"@),
    {
        let dir = path_join(self.root.as_str(), "memory/episodes");
        let mut file = owned(id);
        push_str(&mut file, ".json");
        path_join(dir.as_str(), file.as_str())
    }

    /// The file of the playbook named `key`.
    pub fn playbook_path(&self, key: &str) -> (p: String)
        ensures
            p@ == join_path(join_path(self.root@, "memory/playbooks"@), key@ + ".md"@),
    {
        let dir = path_join(self.root.as_str(), "memory/playbooks");
        let mut file = owned(key);
        push_str(&mut file, ".md");
        path_join(dir.as_str(), file.as_str())
    }

    /// The episode to record for an ask turn stamped `stamp` (its id is
    /// `ep-<stamp>`) and created at `created_at`, and whether its verdict
    /// lets it promote a playbook.
    pub fn write_episode(
        query: &str,
        reply: &str,
        verdict: &str,
        edit: Option<&str>,
        stamp: &str,
        created_at: String,
    ) -> (r: (Episode, bool))
        ensures
            r.0.id@ == "ep-"@ + stamp@,
            r.0.created_at == created_at,
            r.0.query@ == query@,
            r.0.reply@ == reply@,
            r.0.verdict@ == verdict@,
            match edit {
                Some(e) => r.0.edit matches Some(x) && x@ == e@,
                None => r.0.edit is None,
            },
            r.1 == accepted(verdict@),
    {
        let mut id = owned("ep-");
        push_str(&mut id, stamp);
        let promote = str_eq(verdict, "accept") || str_eq(verdict, "edit");
        let ep = Episode {
            id,
            created_at,
            query: owned(query),
            reply: owned(reply),
            verdict: owned(verdict),
            edit: match edit {
                Some(e) => Some(owned(e)),
                None => None,
            },
        };
        (ep, promote)
    }

    /// The playbook `(key, text)` that accepted episode `ep` promotes, given
    /// the stored episodes `others` (`ep` itself may be among them).
    pub fn maybe_promote_playbook(ep: &Episode, others: &[Episode]) -> (r: Option<(String, String)>)
        ensures
            match promoted(*ep, others@) {
                Some(p) => r matches Some(q) && q.0@ == p.0 && q.1@ == p.1,
                None => r is None,
            },
    {
        let q = ascii_lowercase(ep.query.as_str());
        let ws = split_words(q.as_str(), 3);
        let ghost wv = ws@.map_values(|w: String| w@);
        if ws.len() == 0 {
            return None;
        }
        let mut found = false;
        let mut i: usize = 0;
        while i < others.len()
            invariant
                wv == ws@.map_values(|w: String| w@),
                wv == key_words(ep.query@),
                i <= others@.len(),
                found <==> exists|j: int| 0 <= j < i && similar_episode(*ep, #[trigger] others@[j]),
            decreases others@.len() - i,
        {
            let o = &others[i];
            if !str_eq(o.id.as_str(), ep.id.as_str()) && (str_eq(o.verdict.as_str(), "accept")
                || str_eq(o.verdict.as_str(), "edit")) {
                let lowered = ascii_lowercase(o.query.as_str());
                if count_found(ws.as_slice(), lowered.as_str()) >= 2 {
                    found = true;
                }
            }
            assert(similar_episode(*ep, others@[i as int]) ==> found);
            i = i + 1;
        }
        if !found {
            return None;
        }
        let key = ws[0].clone();
        assert(key@ == wv[0]);
        let mut body = owned("# Playbook: ");
        push_str(&mut body, key.as_str());
        push_str(&mut body, "\n\nDerived from accepted episodes.\n\nQuery pattern: ");
        push_str(&mut body, ep.query.as_str());
        push_str(&mut body, "\n\nSuccessful reply sketch:\n");
        match &ep.edit {
            Some(e) => push_str(&mut body, e.as_str()),
            None => push_str(&mut body, ep.reply.as_str()),
        }
        push_str(&mut body, "\n");
        Some((key, body))
    }
}

} // verus!
