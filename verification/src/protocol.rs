//! Messages exchanged between the daemon and its clients.

use vstd::prelude::*;

verus! {

pub const DEFAULT_BIND: &'static str = "127.0.0.1:7420";

pub const DEFAULT_MODEL: &'static str = "llama3.2";

pub const DEFAULT_OLLAMA: &'static str = "http://127.0.0.1:11434";

pub const DEFAULT_PACK: &'static str = "hearthside";

/// Daemon status report.
#[derive(Debug, Clone)]
pub struct Status {
    pub home: String,
    pub bind: String,
    pub pack: String,
    pub model: String,
    pub ollama: String,
    pub ollama_reachable: bool,
    pub version: String,
    /// The Switch summary line, when the daemon reports it.
    pub switch: Option<String>,
    /// The model provider line, when the daemon reports it.
    pub loom: Option<String>,
}

#[derive(Debug, Clone)]
pub struct AskRequest {
    pub text: String,
}

#[derive(Debug, Clone)]
pub struct AskResponse {
    pub pack: String,
    pub memory_context: String,
    pub reply: String,
    pub model_used: bool,
}

#[derive(Debug, Clone)]
pub struct ErrorBody {
    pub error: String,
}

/// How long a grant remains usable after the user decides.
#[derive(Debug, Clone, Copy, PartialEq, Eq, Structural)]
pub enum GrantScope {
    /// Single write/action; consumed after one successful use.
    Once,
    /// Valid for the rest of the task/session.
    Task,
}

/// User decision on a pending grant request.
#[derive(Debug, Clone, Copy, PartialEq, Eq, Structural)]
pub enum GrantDecision {
    AllowOnce,
    AllowTask,
    Deny,
}

/// Lifecycle of a grant.
#[derive(Debug, Clone, Copy, PartialEq, Eq, Structural)]
pub enum GrantStatus {
    Pending,
    Allowed,
    Denied,
    Consumed,
}

/// A capability request that must be approved when `writes_require_ask` is true.
#[derive(Debug, Clone)]
pub struct Grant {
    pub id: String,
    pub created_at: String,
    /// Short machine action key, e.g. `plot.write`.
    pub action: String,
    /// Human-readable summary.
    pub summary: String,
    /// Adapter or tool that requested the grant, if any.
    pub requester: Option<String>,
    pub status: GrantStatus,
    /// Set when the status is `Allowed`.
    pub scope: Option<GrantScope>,
    pub decided_at: Option<String>,
}

impl Grant {
    /// A field-by-field copy.
    pub fn duplicate(&self) -> (g: Grant)
        ensures
            g == *self,
    {
        Grant {
            id: self.id.clone(),
            created_at: self.created_at.clone(),
            action: self.action.clone(),
            summary: self.summary.clone(),
            requester: match &self.requester {
                Some(r) => Some(r.clone()),
                None => None,
            },
            status: self.status,
            scope: self.scope,
            decided_at: match &self.decided_at {
                Some(d) => Some(d.clone()),
                None => None,
            },
        }
    }
}

#[derive(Debug, Clone)]
pub struct CreateGrantRequest {
    pub action: String,
    pub summary: String,
    pub requester: Option<String>,
}

#[derive(Debug, Clone)]
pub struct DecideGrantRequest {
    pub decision: GrantDecision,
}

#[derive(Debug, Clone)]
pub struct GrantListResponse {
    pub grants: Vec<Grant>,
}

/// Result of checking whether a write may proceed under the active charter.
#[derive(Debug, Clone, Copy, PartialEq, Eq, Structural)]
pub enum WritePermission {
    /// The charter does not require Ask, or a matching allowed grant exists.
    Allowed,
    /// Ask is required and no usable grant exists for this action.
    NeedsGrant,
    /// A pending grant already exists for this action.
    PendingExists,
}

/// Issue a root token with full charter rights, or a subset.
#[derive(Debug, Clone)]
pub struct IssueTokenRequest {
    /// Subset of charter rights; empty means the full charter set.
    pub rights: Vec<String>,
    /// Lifetime in seconds, if any.
    pub ttl_secs: Option<u64>,
}

#[derive(Debug, Clone)]
pub struct VerifyTokenResponse {
    pub valid: bool,
    pub error: Option<String>,
    pub rights: Option<Vec<String>>,
}

} // verus!
