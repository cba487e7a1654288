//! The daemon's decisions: which charter an ask runs under, what memory it
//! shows and what it answers.

use crate::charter::{is_builtin_charter, is_builtin_pack, Charter};
use crate::protocol::{AskResponse, ErrorBody};
use crate::text::{owned, push_str};
use vstd::prelude::*;

verus! {

broadcast use vstd::string::group_string_axioms;

/// The memory an ask shows: the preference block, a newline and the
/// retrieved memory; just the retrieved memory without preferences.
pub open spec fn ask_memory(prefs: Seq<char>, retrieved: Seq<char>) -> Seq<char> {
    if prefs.len() == 0 {
        retrieved
    } else {
        prefs + "\n"@ + retrieved
    }
}

/// The reply of an ask when the model could not be used.
pub open spec fn offline_reply(pack: Seq<char>, summary: Seq<char>, memory: Seq<char>, err: Seq<char>) -> Seq<char> {
    "Charter ("@ + pack + "): "@ + summary + "\n\nMemory:\n"@ + memory + "\nOllama was not used ("@
        + err + ")."@
}

/// The memory an ask shows, from the preference block and the retrieved memory.
pub fn compose_memory(prefs: &str, retrieved: &str) -> (m: String)
    ensures
        m@ == ask_memory(prefs@, retrieved@),
{
    if prefs.is_empty() {
        owned(retrieved)
    } else {
        let mut m = owned(prefs);
        push_str(&mut m, "\n");
        push_str(&mut m, retrieved);
        m
    }
}

/// The charter an ask runs under, or the 400 body that refuses it.
pub fn ask_charter(pack: &str) -> (r: Result<Charter, ErrorBody>)
    ensures
        is_builtin_pack(pack@) ==> (r matches Ok(c) && is_builtin_charter(c, pack@)),
        !is_builtin_pack(pack@) ==> (r matches Err(b) && b.error@ == "unknown charter pack: "@
            + pack@),
{
    match Charter::builtin(pack) {
        Ok(c) => Ok(c),
        Err(e) => Err(ErrorBody { error: e.message() }),
    }
}

/// The answer to an ask under `pack`, given the memory shown and the model's
/// completion or the reason it failed.
pub fn answer(pack: String, charter: &Charter, memory: String, completion: Result<String, String>) -> (r:
    AskResponse)
    ensures
        r.pack == pack,
        r.memory_context == memory,
        match completion {
            Ok(t) => r.reply == t && r.model_used,
            Err(e) => r.reply@ == offline_reply(pack@, charter.summary@, memory@, e@)
                && !r.model_used,
        },
{
    match completion {
        Ok(t) => AskResponse { pack, memory_context: memory, reply: t, model_used: true },
        Err(e) => {
            let mut reply = owned("Charter (");
            push_str(&mut reply, pack.as_str());
            push_str(&mut reply, "): ");
            push_str(&mut reply, charter.summary.as_str());
            push_str(&mut reply, "\n\nMemory:\n");
            push_str(&mut reply, memory.as_str());
            push_str(&mut reply, "\nOllama was not used (");
            push_str(&mut reply, e.as_str());
            push_str(&mut reply, ").");
            AskResponse { pack, memory_context: memory, reply, model_used: false }
        },
    }
}

/// The IP address the daemon is asked to listen on, as parsed from its
/// bind setting.
#[derive(Debug, Clone, Copy, PartialEq, Eq)]
pub enum BindIp {
    /// The four octets of an IPv4 address.
    V4([u8; 4]),
    /// The eight 16-bit segments of an IPv6 address.
    V6([u16; 8]),
}

/// Loopback addresses: IPv4 127.0.0.0/8 and the IPv6 address `::1`.
pub open spec fn is_loopback_ip(ip: BindIp) -> bool {
    match ip {
        BindIp::V4(o) => o@[0] == 127,
        BindIp::V6(s) => s@ == seq![0u16, 0, 0, 0, 0, 0, 0, 1],
    }
}

/// Whether the daemon may listen on `ip`: it binds to loopback only.
pub fn bind_allowed(ip: &BindIp) -> (r: bool)
    ensures
        r == is_loopback_ip(*ip),
{
    match ip {
        BindIp::V4(o) => o[0] == 127,
        BindIp::V6(s) => {
            let r = s[0] == 0 && s[1] == 0 && s[2] == 0 && s[3] == 0 && s[4] == 0 && s[5] == 0
                && s[6] == 0 && s[7] == 1;
            proof {
                if r {
                    assert(s@ =~= seq![0u16, 0, 0, 0, 0, 0, 0, 1]);
                }
            }
            r
        },
    }
}

} // verus!
