//! Charter packs: what the agent may attempt under the active pack.

use crate::text::{chars_of, owned, push_char, push_str, str_eq};
use vstd::prelude::*;

verus! {

broadcast use vstd::string::group_string_axioms;

/// Errors from selecting or reading a charter.
#[derive(Debug)]
pub enum CharterError {
    UnknownPack(String),
    Invalid(String),
}

/// Text of a charter error as it is shown to users.
pub open spec fn charter_message(e: CharterError) -> Seq<char> {
    match e {
        CharterError::UnknownPack(p) => "unknown charter pack: "@ + p@,
        CharterError::Invalid(m) => "invalid charter: "@ + m@,
    }
}

impl CharterError {
    /// The user-facing text of this error.
    pub fn message(&self) -> (m: String)
        ensures
            m@ == charter_message(*self),
    {
        match self {
            CharterError::UnknownPack(p) => {
                let mut m = owned("unknown charter pack: ");
                push_str(&mut m, p.as_str());
                m
            },
            CharterError::Invalid(x) => {
                let mut m = owned("invalid charter: ");
                push_str(&mut m, x.as_str());
                m
            },
        }
    }
}

/// Capability flags of one charter pack.
#[derive(Debug, Clone)]
pub struct Charter {
    pub pack: String,
    pub summary: String,
    pub allow_local_model: bool,
    pub allow_cloud_model: bool,
    pub allow_network_adapters: bool,
    pub allow_shell: bool,
    pub writes_require_ask: bool,
}

/// The names of the builtin packs.
pub open spec fn is_builtin_pack(p: Seq<char>) -> bool {
    p == "hearthside"@ || p == "desk"@ || p == "workshop"@
}

/// Summary text of a builtin pack.
pub open spec fn pack_summary(p: Seq<char>) -> Seq<char> {
    if p == "hearthside"@ {
        "Chat, local model, and the plot workspace. No network adapters, no shell, no cloud Loom."@
    } else if p == "desk"@ {
        "Hearthside plus future read-only connectors. Writes require an Ask grant in the app."@
    } else {
        "Desk plus plot-scoped shell and optional cloud Loom. Highest power; review Chronicle often."@
    }
}

/// `c` is the builtin charter of pack `p`: every pack allows the local model
/// and requires Ask for writes; desk adds network adapters; workshop adds
/// the cloud model and the shell.
pub open spec fn is_builtin_charter(c: Charter, p: Seq<char>) -> bool {
    &&& c.pack@ == p
    &&& c.summary@ == pack_summary(p)
    &&& c.allow_local_model
    &&& c.allow_cloud_model == (p == "workshop"@)
    &&& c.allow_network_adapters == (p != "hearthside"@)
    &&& c.allow_shell == (p == "workshop"@)
    &&& c.writes_require_ask
}

/// `summary` with every newline replaced by a space.
pub open spec fn flatten_newlines(s: Seq<char>) -> Seq<char> {
    s.map_values(|c: char| if c == '\n' { ' ' } else { c })
}

/// The TOML text written for a charter: the pack line and the summary as a comment.
pub open spec fn charter_toml(pack: Seq<char>, summary: Seq<char>) -> Seq<char> {
    "pack = \""@ + pack + "\"\n# "@ + flatten_newlines(summary) + "\n"@
}

/// `c` is the charter read from a charter file whose `pack` key is `pack`
/// and whose `summary` key is `summary`: the builtin pack, with its summary
/// replaced when the file gives one.
pub open spec fn read_from_file(c: Charter, pack: Seq<char>, summary: Option<Seq<char>>) -> bool {
    &&& c.pack@ == pack
    &&& c.summary@ == match summary {
        Some(s) => s,
        None => pack_summary(pack),
    }
    &&& c.allow_local_model
    &&& c.allow_cloud_model == (pack == "workshop"@)
    &&& c.allow_network_adapters == (pack != "hearthside"@)
    &&& c.allow_shell == (pack == "workshop"@)
    &&& c.writes_require_ask
}

/// Law: a builtin charter written out and read back is the same charter.
/// The text that `to_toml` writes names the pack and keeps the summary only
/// in a comment, so the file read back gives the pack and no summary; a
/// charter read from such a file equals the builtin one, field for field.
pub proof fn law_builtin_round_trip(c: Charter, d: Charter, p: Seq<char>)
    requires
        is_builtin_pack(p),
        is_builtin_charter(c, p),
        read_from_file(d, p, None),
    ensures
        d.pack@ == c.pack@,
        d.summary@ == c.summary@,
        d.allow_local_model == c.allow_local_model,
        d.allow_cloud_model == c.allow_cloud_model,
        d.allow_network_adapters == c.allow_network_adapters,
        d.allow_shell == c.allow_shell,
        d.writes_require_ask == c.writes_require_ask,
{
}

impl Charter {
    /// The builtin charter for `pack`, or `UnknownPack`.
    pub fn builtin(pack: &str) -> (r: Result<Charter, CharterError>)
        ensures
            r is Ok <==> is_builtin_pack(pack@),
            r matches Ok(c) ==> is_builtin_charter(c, pack@),
            r matches Err(e) ==> e matches CharterError::UnknownPack(n) && n@ == pack@,
    {
        proof {
            reveal_strlit("hearthside");
            reveal_strlit("desk");
            reveal_strlit("workshop");
            assert("hearthside"@.len() != "workshop"@.len());
            assert("desk"@.len() != "workshop"@.len());
            assert("desk"@.len() != "hearthside"@.len());
        }
        if str_eq(pack, "hearthside") {
            Ok(Charter {
                pack: owned(pack),
                summary: owned(
                    "Chat, local model, and the plot workspace. No network adapters, no shell, no cloud Loom.",
                ),
                allow_local_model: true,
                allow_cloud_model: false,
                allow_network_adapters: false,
                allow_shell: false,
                writes_require_ask: true,
            })
        } else if str_eq(pack, "desk") {
            Ok(Charter {
                pack: owned(pack),
                summary: owned(
                    "Hearthside plus future read-only connectors. Writes require an Ask grant in the app.",
                ),
                allow_local_model: true,
                allow_cloud_model: false,
                allow_network_adapters: true,
                allow_shell: false,
                writes_require_ask: true,
            })
        } else if str_eq(pack, "workshop") {
            Ok(Charter {
                pack: owned(pack),
                summary: owned(
                    "Desk plus plot-scoped shell and optional cloud Loom. Highest power; review Chronicle often.",
                ),
                allow_local_model: true,
                allow_cloud_model: true,
                allow_network_adapters: true,
                allow_shell: true,
                writes_require_ask: true,
            })
        } else {
            Err(CharterError::UnknownPack(owned(pack)))
        }
    }

    /// The charter read from a charter file whose `pack` key is `pack` and
    /// whose optional `summary` key is `summary`: the builtin pack, with its
    /// summary replaced when the file gives one.
    pub fn from_toml(pack: &str, summary: Option<String>) -> (r: Result<
        Charter,
        CharterError,
    >)
        ensures
            r is Ok <==> is_builtin_pack(pack@),
            r matches Ok(c) ==> read_from_file(
                c,
                pack@,
                match summary {
                    Some(s) => Some(s@),
                    None => None,
                },
            ),
            r matches Err(e) ==> e matches CharterError::UnknownPack(n) && n@ == pack@,
    {
        let mut c = Charter::builtin(pack)?;
        if let Some(s) = summary {
            c.summary = s;
        }
        Ok(c)
    }

    /// The charter file text for this charter.
    pub fn to_toml(&self) -> (s: String)
        ensures
            s@ == charter_toml(self.pack@, self.summary@),
    {
        let mut out = owned("pack = \"");
        push_str(&mut out, self.pack.as_str());
        push_str(&mut out, "\"\n# ");
        let v = chars_of(self.summary.as_str());
        let ghost base = out@;
        let mut i: usize = 0;
        while i < v.len()
            invariant
                v@ == self.summary@,
                i <= v@.len(),
                out@ == base + flatten_newlines(v@.take(i as int)),
            decreases v@.len() - i,
        {
            let c = v[i];
            push_char(&mut out, if c == '\n' { ' ' } else { c });
            assert(flatten_newlines(v@.take(i + 1)) == flatten_newlines(v@.take(i as int)).push(
                if v@[i as int] == '\n' { ' ' } else { v@[i as int] },
            ));
            i = i + 1;
        }
        assert(v@.take(v@.len() as int) == v@);
        push_str(&mut out, "\n");
        out
    }
}

} // verus!
