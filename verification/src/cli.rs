//! The command line's decisions: where the daemon is, what a verdict flag
//! records, how comma lists are read, and how a Hands run is configured.

use crate::atlas::Trust;
use crate::hands::default_plot_dir;
use crate::memory::{valid_plot_name, HelixHome, MemoryError, MemoryFault};
use crate::paths::{join_path, split_at_char, split_char};
use crate::protocol::DEFAULT_BIND;
use crate::text::{owned, push_str, str_eq, strip_all_end, trim, trim_end_char, trimmed};
use vstd::prelude::*;

verus! {

broadcast use vstd::string::group_string_axioms;

/// The daemon's base URL for bind address `bind` (the value of `HELIX_BIND`,
/// if set; else the default address).
pub fn base_url(bind: Option<&str>) -> (u: String)
    ensures
        u@ == "http://"@ + match bind {
            Some(b) => b@,
            None => DEFAULT_BIND@,
        },
{
    let mut u = owned("http://");
    match bind {
        Some(b) => push_str(&mut u, b),
        None => push_str(&mut u, DEFAULT_BIND),
    }
    u
}

/// The verdict an ask records: `accept`, else `reject`, else `edit` when an
/// edited answer is given, else none.
pub fn ask_verdict(accept: bool, reject: bool, edit: bool) -> (v: Option<String>)
    ensures
        accept ==> (v matches Some(s) && s@ == "accept"@),
        !accept && reject ==> (v matches Some(s) && s@ == "reject"@),
        !accept && !reject && edit ==> (v matches Some(s) && s@ == "edit"@),
        !accept && !reject && !edit ==> v is None,
{
    if accept {
        Some(owned("accept"))
    } else if reject {
        Some(owned("reject"))
    } else if edit {
        Some(owned("edit"))
    } else {
        None
    }
}

/// The non-blank items of comma-separated `ps`, trimmed, in order.
pub open spec fn list_items(ps: Seq<Seq<char>>) -> Seq<Seq<char>>
    decreases ps.len(),
{
    if ps.len() == 0 {
        Seq::empty()
    } else if trim(ps.last()).len() == 0 {
        list_items(ps.drop_last())
    } else {
        list_items(ps.drop_last()).push(trim(ps.last()))
    }
}

/// The items of a comma-separated list such as `plot.read, shell`: each
/// trimmed, blanks dropped.
pub fn split_list(s: &str) -> (r: Vec<String>)
    ensures
        r@.map_values(|w: String| w@) == list_items(split_at_char(s@, ',')),
{
    let parts = split_char(s, ',');
    let ghost ps = split_at_char(s@, ',');
    let mut out: Vec<String> = Vec::new();
    let mut i: usize = 0;
    assert(ps.take(0) == Seq::<Seq<char>>::empty());
    while i < parts.len()
        invariant
            parts@.map_values(|w: String| w@) == ps,
            i <= ps.len(),
            out@.map_values(|w: String| w@) == list_items(ps.take(i as int)),
        decreases ps.len() - i,
    {
        assert(parts@[i as int]@ == ps[i as int]);
        assert(ps.take(i + 1).drop_last() == ps.take(i as int));
        assert(ps.take(i + 1).last() == ps[i as int]);
        let t = trimmed(parts[i].as_str());
        if !t.as_str().is_empty() {
            let ghost before = out@;
            out.push(t);
            assert(out@.map_values(|w: String| w@) == before.map_values(|w: String| w@).push(
                trim(ps[i as int]),
            ));
        }
        i = i + 1;
    }
    assert(ps.take(i as int) == ps);
    out
}

/// The fuel a Hands run gets: what was asked for; for an untrusted module
/// with no request, the atlas's fuel cap.
pub fn effective_fuel(requested: Option<u64>, trust: &Trust) -> (f: Option<u64>)
    ensures
        requested is Some ==> f == requested,
        requested is None ==> match trust {
            Trust::Trusted { .. } => f is None,
            Trust::Untrusted { fuel_cap, .. } => f == Some(*fuel_cap),
        },
{
    match requested {
        Some(x) => Some(x),
        None => match trust {
            Trust::Trusted { .. } => None,
            Trust::Untrusted { fuel_cap, .. } => Some(*fuel_cap),
        },
    }
}

/// The guest argv of a Hands run: the module's file name (or `module`),
/// then the user's arguments.
pub fn module_argv(file_name: Option<&str>, args: Vec<String>) -> (v: Vec<String>)
    ensures
        v@.len() == args@.len() + 1,
        v@[0]@ == match file_name {
            Some(n) => n@,
            None => "module"@,
        },
        v@.skip(1) == args@,
{
    let mut v: Vec<String> = Vec::new();
    v.push(
        match file_name {
            Some(n) => owned(n),
            None => owned("module"),
        },
    );
    let mut rest = args;
    v.append(&mut rest);
    assert(v@.skip(1) == args@);
    v
}

/// The plot directory a Hands run mounts: the default plot needs no check;
/// any other must be a valid, existing plot (`is_dir`).
pub fn hands_plot_dir(home: &HelixHome, plot: &str, is_dir: bool) -> (r: Result<String, MemoryError>)
    ensures
        plot@ == "default"@ ==> (r matches Ok(p) && p@ == join_path(
            join_path(home.root@, "plots"@),
            "default"@,
        )),
        plot@ != "default"@ ==> match r {
            Ok(p) => valid_plot_name(plot@) && is_dir && p@ == join_path(
                join_path(home.root@, "plots"@),
                plot@,
            ),
            Err(e) => if valid_plot_name(plot@) {
                !is_dir && e@ == MemoryFault::PlotNotFound(plot@)
            } else {
                e@ == MemoryFault::InvalidPlotName(plot@)
            },
        },
{
    if str_eq(plot, "default") {
        Ok(default_plot_dir(home.root.as_str()))
    } else {
        home.plot_dir(plot, is_dir)
    }
}

/// Whether a plot's working tree is the snapshot HEAD names.
pub fn is_clean(head: &Option<String>, working: &str) -> (c: bool)
    ensures
        c == (head matches Some(h) && h@ == working@),
{
    match head {
        Some(h) => str_eq(h.as_str(), working),
        None => false,
    }
}

/// A secret value read from standard input: without trailing newlines.
pub fn secret_from_input(input: &str) -> (v: String)
    ensures
        v@ == strip_all_end(input@, '\n'),
{
    trim_end_char(input, '\n')
}

/// What `ask` prints when the daemon cannot be reached.
pub open spec fn offline_ask_text(
    pack: Seq<char>,
    summary: Seq<char>,
    prefs: Seq<char>,
    retrieved: Seq<char>,
    err: Seq<char>,
    text: Seq<char>,
) -> Seq<char> {
    "Charter ("@ + pack + "): "@ + summary + "\n"@ + (if prefs.len() > 0 {
        "\n"@ + prefs + "\n"@
    } else {
        Seq::empty()
    }) + (if retrieved.len() > 0 {
        "Memory:\n"@ + retrieved + "\n"@
    } else {
        Seq::empty()
    }) + "\n(daemon unreachable: "@ + err + ")\n"@ + "User: "@ + text + "\n"@
}

/// What `ask` prints when the daemon cannot be reached: the charter, the
/// preference block and retrieved memory when present, the failure and the
/// question.
pub fn offline_ask(pack: &str, summary: &str, prefs: &str, retrieved: &str, err: &str, text: &str) -> (s:
    String)
    ensures
        s@ == offline_ask_text(pack@, summary@, prefs@, retrieved@, err@, text@),
{
    let mut s = owned("Charter (");
    push_str(&mut s, pack);
    push_str(&mut s, "): ");
    push_str(&mut s, summary);
    push_str(&mut s, "\n");
    if !prefs.is_empty() {
        push_str(&mut s, "\n");
        push_str(&mut s, prefs);
        push_str(&mut s, "\n");
    }
    if !retrieved.is_empty() {
        push_str(&mut s, "Memory:\n");
        push_str(&mut s, retrieved);
        push_str(&mut s, "\n");
    }
    push_str(&mut s, "\n(daemon unreachable: ");
    push_str(&mut s, err);
    push_str(&mut s, ")\n");
    push_str(&mut s, "User: ");
    push_str(&mut s, text);
    push_str(&mut s, "\n");
    s
}

} // verus!
