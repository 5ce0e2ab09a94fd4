//! Small protocol types shared with clients: account plans, model and
//! sandbox settings, parsed commands and skills as clients see them.
use vstd::prelude::*;

use crate::text::{ascii_lower_seq, to_ascii_lowercase, trim_string, trimmed};

verus! {

/// The plan of a ChatGPT account.
#[derive(Debug, Clone, Copy, PartialEq, Eq, Structural)]
pub enum PlanType {
    Free,
    Go,
    Plus,
    Pro,
    Team,
    Business,
    Enterprise,
    Edu,
    Unknown,
}

impl Default for PlanType {
    /// The free plan.
    fn default() -> (p: Self)
        ensures
            p == PlanType::Free,
    {
        PlanType::Free
    }
}

/// The plan a text names, ignoring case and surrounding white space.
pub open spec fn plan_of(value: Seq<char>) -> Option<PlanType> {
    let n = ascii_lower_seq(trimmed(value));
    if n == "free"@ {
        Some(PlanType::Free)
    } else if n == "go"@ {
        Some(PlanType::Go)
    } else if n == "plus"@ {
        Some(PlanType::Plus)
    } else if n == "pro"@ {
        Some(PlanType::Pro)
    } else if n == "team"@ {
        Some(PlanType::Team)
    } else if n == "business"@ {
        Some(PlanType::Business)
    } else if n == "enterprise"@ {
        Some(PlanType::Enterprise)
    } else if n == "edu"@ {
        Some(PlanType::Edu)
    } else {
        None
    }
}

impl PlanType {
    /// Reads a plan name; `None` for a name that is not a known plan.
    pub fn try_from_str(value: &str) -> (r: Option<Self>)
        ensures
            r == plan_of(value@),
    {
        let t = trim_string(value);
        let normalized = to_ascii_lowercase(t.as_str());
        let n = normalized.as_str();
        if crate::text::str_eq(n, "free") {
            Some(PlanType::Free)
        } else if crate::text::str_eq(n, "go") {
            Some(PlanType::Go)
        } else if crate::text::str_eq(n, "plus") {
            Some(PlanType::Plus)
        } else if crate::text::str_eq(n, "pro") {
            Some(PlanType::Pro)
        } else if crate::text::str_eq(n, "team") {
            Some(PlanType::Team)
        } else if crate::text::str_eq(n, "business") {
            Some(PlanType::Business)
        } else if crate::text::str_eq(n, "enterprise") {
            Some(PlanType::Enterprise)
        } else if crate::text::str_eq(n, "edu") {
            Some(PlanType::Edu)
        } else {
            None
        }
    }
}

/// How hard a reasoning model thinks.
#[derive(Debug, Clone, Copy, PartialEq, Eq, Structural)]
pub enum ReasoningEffort {
    Minimal,
    Low,
    Medium,
    High,
    XHigh,
}

impl Default for ReasoningEffort {
    /// Medium effort.
    fn default() -> (e: Self)
        ensures
            e == ReasoningEffort::Medium,
    {
        ReasoningEffort::Medium
    }
}

impl ReasoningEffort {
    /// The lowercase name of the effort.
    pub fn as_str(&self) -> (s: &'static str)
        ensures
            s@ == match *self {
                ReasoningEffort::Minimal => "minimal"@,
                ReasoningEffort::Low => "low"@,
                ReasoningEffort::Medium => "medium"@,
                ReasoningEffort::High => "high"@,
                ReasoningEffort::XHigh => "xhigh"@,
            },
    {
        match self {
            ReasoningEffort::Minimal => "minimal",
            ReasoningEffort::Low => "low",
            ReasoningEffort::Medium => "medium",
            ReasoningEffort::High => "high",
            ReasoningEffort::XHigh => "xhigh",
        }
    }
}

/// How the model's reasoning is summarized.
#[derive(Debug, Clone, Copy, PartialEq, Eq, Structural)]
pub enum ReasoningSummary {
    Auto,
    Concise,
    Detailed,
    /// No summary (`none` on the wire).
    Disabled,
}

impl Default for ReasoningSummary {
    /// Automatic summaries.
    fn default() -> (s: Self)
        ensures
            s == ReasoningSummary::Auto,
    {
        ReasoningSummary::Auto
    }
}

impl ReasoningSummary {
    /// The lowercase name of the setting.
    pub fn as_str(&self) -> (s: &'static str)
        ensures
            s@ == match *self {
                ReasoningSummary::Auto => "auto"@,
                ReasoningSummary::Concise => "concise"@,
                ReasoningSummary::Detailed => "detailed"@,
                ReasoningSummary::Disabled => "none"@,
            },
    {
        match self {
            ReasoningSummary::Auto => "auto",
            ReasoningSummary::Concise => "concise",
            ReasoningSummary::Detailed => "detailed",
            ReasoningSummary::Disabled => "none",
        }
    }
}

/// How long and detailed the model's output is.
#[derive(Debug, Clone, Copy, PartialEq, Eq, Structural)]
pub enum Verbosity {
    Low,
    Medium,
    High,
}

impl Default for Verbosity {
    /// Medium verbosity.
    fn default() -> (v: Self)
        ensures
            v == Verbosity::Medium,
    {
        Verbosity::Medium
    }
}

impl Verbosity {
    /// The lowercase name of the setting.
    pub fn as_str(&self) -> (s: &'static str)
        ensures
            s@ == match *self {
                Verbosity::Low => "low"@,
                Verbosity::Medium => "medium"@,
                Verbosity::High => "high"@,
            },
    {
        match self {
            Verbosity::Low => "low",
            Verbosity::Medium => "medium",
            Verbosity::High => "high",
        }
    }
}

/// The tone of the assistant.
#[derive(Debug, Clone, Copy, PartialEq, Eq, Structural)]
pub enum Personality {
    /// No particular tone (`none` on the wire).
    NoPersonality,
    Friendly,
    Pragmatic,
}

impl Personality {
    /// The lowercase name of the personality.
    pub fn as_str(&self) -> (s: &'static str)
        ensures
            s@ == match *self {
                Personality::NoPersonality => "none"@,
                Personality::Friendly => "friendly"@,
                Personality::Pragmatic => "pragmatic"@,
            },
    {
        match self {
            Personality::NoPersonality => "none",
            Personality::Friendly => "friendly",
            Personality::Pragmatic => "pragmatic",
        }
    }
}

/// What commands may touch.
#[derive(Debug, Clone, Copy, PartialEq, Eq, Structural)]
pub enum SandboxMode {
    ReadOnly,
    WorkspaceWrite,
    DangerFullAccess,
}

impl Default for SandboxMode {
    /// Read-only.
    fn default() -> (m: Self)
        ensures
            m == SandboxMode::ReadOnly,
    {
        SandboxMode::ReadOnly
    }
}

impl SandboxMode {
    /// The kebab-case name of the mode.
    pub fn as_str(&self) -> (s: &'static str)
        ensures
            s@ == match *self {
                SandboxMode::ReadOnly => "read-only"@,
                SandboxMode::WorkspaceWrite => "workspace-write"@,
                SandboxMode::DangerFullAccess => "danger-full-access"@,
            },
    {
        match self {
            SandboxMode::ReadOnly => "read-only",
            SandboxMode::WorkspaceWrite => "workspace-write",
            SandboxMode::DangerFullAccess => "danger-full-access",
        }
    }
}

/// Collaboration mode at start.
#[derive(Debug, Clone, Copy, PartialEq, Eq, Structural)]
pub enum ModeKind {
    Plan,
    Default,
}

impl ModeKind {
    /// The lowercase name of the mode.
    pub fn as_str(&self) -> (s: &'static str)
        ensures
            s@ == match *self {
                ModeKind::Plan => "plan"@,
                ModeKind::Default => "default"@,
            },
    {
        match self {
            ModeKind::Plan => "plan",
            ModeKind::Default => "default",
        }
    }
}

/// Settings of a collaboration mode.
#[derive(Debug, Clone, PartialEq)]
pub struct Settings {
    pub model: String,
    pub reasoning_effort: Option<ReasoningEffort>,
    pub developer_instructions: Option<String>,
}

/// A collaboration mode and its settings.
#[derive(Debug, Clone, PartialEq)]
pub struct CollaborationMode {
    pub mode: ModeKind,
    pub settings: Settings,
}

/// A partial update of collaboration mode settings.
#[derive(Debug, Clone, PartialEq)]
pub struct CollaborationModeMask {
    pub name: String,
    pub mode: Option<ModeKind>,
    pub model: Option<String>,
    pub reasoning_effort: Option<Option<ReasoningEffort>>,
    pub developer_instructions: Option<Option<String>>,
}

/// Whether the model may search the web.
#[derive(Debug, Clone, Copy, PartialEq, Eq, Structural)]
pub enum WebSearchMode {
    Disabled,
    Cached,
    Live,
}

impl WebSearchMode {
    /// The lowercase name of the mode.
    pub fn as_str(&self) -> (s: &'static str)
        ensures
            s@ == match *self {
                WebSearchMode::Disabled => "disabled"@,
                WebSearchMode::Cached => "cached"@,
                WebSearchMode::Live => "live"@,
            },
    {
        match self {
            WebSearchMode::Disabled => "disabled",
            WebSearchMode::Cached => "cached",
            WebSearchMode::Live => "live",
        }
    }
}

/// The login method a configuration forces.
#[derive(Debug, Clone, Copy, PartialEq, Eq, Structural)]
pub enum ForcedLoginMethod {
    Chatgpt,
    Api,
}

impl ForcedLoginMethod {
    /// The lowercase name of the method.
    pub fn as_str(&self) -> (s: &'static str)
        ensures
            s@ == match *self {
                ForcedLoginMethod::Chatgpt => "chatgpt"@,
                ForcedLoginMethod::Api => "api"@,
            },
    {
        match self {
            ForcedLoginMethod::Chatgpt => "chatgpt",
            ForcedLoginMethod::Api => "api",
        }
    }
}

/// When commands ask for approval.
#[derive(Debug, Clone, Copy, PartialEq, Eq, Structural)]
pub enum AskForApproval {
    UnlessTrusted,
    OnFailure,
    OnRequest,
    Never,
}

/// Options a user can set as a unit.
#[derive(Debug, Clone, PartialEq)]
pub struct ConfigProfile {
    pub model: Option<String>,
    pub approval_policy: Option<AskForApproval>,
    pub model_reasoning_effort: Option<ReasoningEffort>,
}

/// The API a model provider speaks.
#[derive(Debug, Clone, Copy, PartialEq, Eq, Structural)]
pub enum WireApi {
    Responses,
    ResponsesWebsocket,
    Chat,
}

impl Default for WireApi {
    /// Chat completions.
    fn default() -> (w: Self)
        ensures
            w == WireApi::Chat,
    {
        WireApi::Chat
    }
}

/// Whether OpenRouter providers may collect data.
#[derive(Debug, Clone, Copy, PartialEq, Eq, Structural)]
pub enum OpenRouterDataCollectionPolicy {
    Allow,
    Deny,
}

impl Default for OpenRouterDataCollectionPolicy {
    /// Collection allowed.
    fn default() -> (p: Self)
        ensures
            p == OpenRouterDataCollectionPolicy::Allow,
    {
        OpenRouterDataCollectionPolicy::Allow
    }
}

/// How OpenRouter ranks providers.
#[derive(Debug, Clone, Copy, PartialEq, Eq, Structural)]
pub enum OpenRouterProviderSort {
    Price,
    Throughput,
    Latency,
}

impl Default for OpenRouterProviderSort {
    /// By price.
    fn default() -> (s: Self)
        ensures
            s == OpenRouterProviderSort::Price,
    {
        OpenRouterProviderSort::Price
    }
}

/// A shell command as it was understood, for display.
#[derive(Debug, Clone, PartialEq, Eq)]
pub enum ParsedCommand {
    Read { cmd: String, name: String },
    ListFiles { cmd: String, path: Option<String> },
    Search { cmd: String, query: Option<String>, path: Option<String> },
    ReadCommand { cmd: String },
    Unknown { cmd: String },
}

/// Where a skill shown to clients comes from.
#[derive(Debug, Clone, Copy, PartialEq, Eq, Structural)]
pub enum SkillScope {
    User,
    Repo,
    System,
}

/// A skill as clients see it.
#[derive(Debug, Clone)]
pub struct Skill {
    pub name: String,
    pub description: String,
    pub short_description: Option<String>,
    pub path: String,
    pub scope: SkillScope,
    pub allow_implicit_invocation: bool,
    pub content: String,
}

/// The value of `allow_implicit_invocation` when a client leaves it out.
pub fn default_true_bool() -> (b: bool)
    ensures
        b,
{
    true
}

} // verus!
