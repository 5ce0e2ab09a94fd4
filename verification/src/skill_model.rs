//! What a loaded skill is: its metadata, the resources and commands it
//! declares, and the command policies it asks the runtime to enforce.
//! Paths are kept as the text of the path.
use vstd::prelude::*;

use crate::text::{clone_opt_string, clone_strings, opt_view, strings_view};

verus! {

/// Where a skill was found.
#[derive(Debug, Clone, Copy, PartialEq, Eq, Structural)]
pub enum SkillScope {
    Repo,
    User,
    System,
    Admin,
}

/// A loaded skill.
#[derive(Debug, Clone, PartialEq, Eq)]
pub struct SkillMetadata {
    pub name: String,
    pub description: String,
    pub short_description: Option<String>,
    pub path: String,
    pub scope: SkillScope,
    pub content: String,
    pub policy: Option<SkillPolicy>,
    pub resources: Vec<SkillResource>,
    pub commands: Vec<SkillCommand>,
    pub workflow_defaults: Vec<SkillWorkflowDefault>,
}

/// Whether a skill may be invoked without the user naming it: what its
/// policy says, and `true` when it says nothing.
pub open spec fn allows_implicit(skill: SkillMetadata) -> bool {
    match skill.policy {
        Some(p) => match p.allow_implicit_invocation {
            Some(b) => b,
            None => true,
        },
        None => true,
    }
}

impl SkillMetadata {
    /// Whether the skill may be invoked implicitly.
    pub fn allow_implicit_invocation(&self) -> (b: bool)
        ensures
            b == allows_implicit(*self),
    {
        match &self.policy {
            Some(p) => match p.allow_implicit_invocation {
                Some(b) => b,
                None => true,
            },
            None => true,
        }
    }
}

/// A file bundled with a skill.
#[derive(Debug, Clone, PartialEq, Eq)]
pub struct SkillResource {
    pub path: String,
    pub kind: SkillResourceKind,
    pub description: Option<String>,
}

/// What a bundled file is for.
#[derive(Debug, Clone, Copy, PartialEq, Eq, Structural)]
pub enum SkillResourceKind {
    Script,
    Reference,
    Template,
    Asset,
}

/// A named command of a skill, run through one of its resources.
#[derive(Debug, Clone, PartialEq, Eq)]
pub struct SkillCommand {
    pub name: String,
    pub resource_path: String,
    pub example_argv: Vec<String>,
    pub purpose: String,
}

/// A default value a skill's workflow uses.
#[derive(Debug, Clone, PartialEq, Eq)]
pub struct SkillWorkflowDefault {
    pub name: String,
    pub value: String,
    pub description: Option<String>,
}

/// How a skill may be invoked and which raw commands it governs.
#[derive(Debug, Clone, PartialEq, Eq)]
pub struct SkillPolicy {
    pub allow_implicit_invocation: Option<bool>,
    pub command_policies: Vec<SkillCommandPolicy>,
}

impl Default for SkillPolicy {
    /// No invocation preference and no command policies.
    fn default() -> (p: Self)
        ensures
            p.allow_implicit_invocation is None,
            p.command_policies@.len() == 0,
    {
        SkillPolicy { allow_implicit_invocation: None, command_policies: Vec::new() }
    }
}

/// A rule on raw commands that a skill owns.
#[derive(Debug, Clone, PartialEq, Eq)]
pub struct SkillCommandPolicy {
    pub id: String,
    pub matcher: SkillCommandMatcher,
    pub action: SkillCommandPolicyAction,
    pub message: Option<String>,
    pub preferred: Vec<SkillCommandPolicyPreferred>,
}

/// Which commands a policy applies to: an exact argument vector, an argument
/// prefix, or a pattern on the shell text.
#[derive(Debug, Clone, PartialEq, Eq)]
pub struct SkillCommandMatcher {
    pub argv_exact: Option<Vec<String>>,
    pub argv_prefix: Option<Vec<String>>,
    pub shell_regex: Option<String>,
}

impl Default for SkillCommandMatcher {
    /// A matcher with no condition set.
    fn default() -> (m: Self)
        ensures
            m.argv_exact is None,
            m.argv_prefix is None,
            m.shell_regex is None,
    {
        SkillCommandMatcher { argv_exact: None, argv_prefix: None, shell_regex: None }
    }
}

/// What happens to a matched command.
#[derive(Debug, Clone, Copy, PartialEq, Eq, Structural)]
pub enum SkillCommandPolicyAction {
    RequirePreferred,
    RequireConfirm,
    Reject,
}

/// An action a policy recommends in place of the raw command.
#[derive(Debug, Clone, PartialEq, Eq)]
pub struct SkillCommandPolicyPreferred {
    pub kind: SkillCommandPolicyPreferredKind,
    pub path: Option<String>,
    pub name: Option<String>,
    pub example_argv: Vec<String>,
    pub purpose: Option<String>,
}

/// The kind of a recommended action.
#[derive(Debug, Clone, Copy, PartialEq, Eq, Structural)]
pub enum SkillCommandPolicyPreferredKind {
    Script,
    Skill,
    Command,
}

/// A skill file that could not be loaded, with the reason.
#[derive(Debug, Clone, PartialEq, Eq)]
pub struct SkillError {
    pub path: String,
    pub message: String,
}

/// The skills loaded from a set of roots, and the files that failed.
#[derive(Debug, Clone)]
pub struct SkillLoadOutcome {
    pub skills: Vec<SkillMetadata>,
    pub errors: Vec<SkillError>,
}

impl Default for SkillLoadOutcome {
    /// No skills and no errors.
    fn default() -> (o: Self)
        ensures
            o.skills@.len() == 0,
            o.errors@.len() == 0,
    {
        SkillLoadOutcome { skills: Vec::new(), errors: Vec::new() }
    }
}

/// Content of a recommended action.
pub struct PreferredView {
    pub kind: SkillCommandPolicyPreferredKind,
    pub path: Option<Seq<char>>,
    pub name: Option<Seq<char>>,
    pub example_argv: Seq<Seq<char>>,
    pub purpose: Option<Seq<char>>,
}

impl View for SkillCommandPolicyPreferred {
    type V = PreferredView;

    open spec fn view(&self) -> PreferredView {
        PreferredView {
            kind: self.kind,
            path: opt_view(self.path),
            name: opt_view(self.name),
            example_argv: strings_view(self.example_argv@),
            purpose: opt_view(self.purpose),
        }
    }
}

/// Views of a list of recommended actions.
pub open spec fn preferred_views(s: Seq<SkillCommandPolicyPreferred>) -> Seq<PreferredView> {
    s.map_values(|p: SkillCommandPolicyPreferred| p@)
}

/// Content of a matcher.
pub struct MatcherView {
    pub argv_exact: Option<Seq<Seq<char>>>,
    pub argv_prefix: Option<Seq<Seq<char>>>,
    pub shell_regex: Option<Seq<char>>,
}

/// View of an optional argument vector.
pub open spec fn opt_strings_view(v: Option<Vec<String>>) -> Option<Seq<Seq<char>>> {
    match v {
        Some(x) => Some(strings_view(x@)),
        None => None,
    }
}

impl View for SkillCommandMatcher {
    type V = MatcherView;

    open spec fn view(&self) -> MatcherView {
        MatcherView {
            argv_exact: opt_strings_view(self.argv_exact),
            argv_prefix: opt_strings_view(self.argv_prefix),
            shell_regex: opt_view(self.shell_regex),
        }
    }
}

/// Clones an optional argument vector.
pub fn clone_opt_strings(v: &Option<Vec<String>>) -> (r: Option<Vec<String>>)
    ensures
        opt_strings_view(r) == opt_strings_view(*v),
{
    match v {
        Some(x) => Some(clone_strings(x)),
        None => None,
    }
}

/// Clones a matcher.
pub fn clone_matcher(m: &SkillCommandMatcher) -> (r: SkillCommandMatcher)
    ensures
        r@ == m@,
{
    SkillCommandMatcher {
        argv_exact: clone_opt_strings(&m.argv_exact),
        argv_prefix: clone_opt_strings(&m.argv_prefix),
        shell_regex: clone_opt_string(&m.shell_regex),
    }
}

/// Clones a recommended action.
pub fn clone_preferred(p: &SkillCommandPolicyPreferred) -> (r: SkillCommandPolicyPreferred)
    ensures
        r@ == p@,
{
    SkillCommandPolicyPreferred {
        kind: p.kind,
        path: clone_opt_string(&p.path),
        name: clone_opt_string(&p.name),
        example_argv: clone_strings(&p.example_argv),
        purpose: clone_opt_string(&p.purpose),
    }
}

/// Clones a list of recommended actions.
pub fn clone_preferred_list(v: &Vec<SkillCommandPolicyPreferred>) -> (r: Vec<SkillCommandPolicyPreferred>)
    ensures
        preferred_views(r@) == preferred_views(v@),
{
    let mut r: Vec<SkillCommandPolicyPreferred> = Vec::new();
    let mut i: usize = 0;
    while i < v.len()
        invariant
            i <= v.len(),
            r.len() == i,
            forall|j: int| 0 <= j < i ==> r@[j]@ == v@[j]@,
        decreases v.len() - i,
    {
        r.push(clone_preferred(&v[i]));
        i = i + 1;
    }
    proof {
        assert(preferred_views(r@) =~= preferred_views(v@));
    }
    r
}

/// Content of a resource.
pub struct ResourceView {
    pub path: Seq<char>,
    pub kind: SkillResourceKind,
    pub description: Option<Seq<char>>,
}

impl View for SkillResource {
    type V = ResourceView;

    open spec fn view(&self) -> ResourceView {
        ResourceView { path: self.path@, kind: self.kind, description: opt_view(self.description) }
    }
}

/// Content of a command.
pub struct CommandView {
    pub name: Seq<char>,
    pub resource_path: Seq<char>,
    pub example_argv: Seq<Seq<char>>,
    pub purpose: Seq<char>,
}

impl View for SkillCommand {
    type V = CommandView;

    open spec fn view(&self) -> CommandView {
        CommandView {
            name: self.name@,
            resource_path: self.resource_path@,
            example_argv: strings_view(self.example_argv@),
            purpose: self.purpose@,
        }
    }
}

/// Content of a workflow default.
pub struct DefaultView {
    pub name: Seq<char>,
    pub value: Seq<char>,
    pub description: Option<Seq<char>>,
}

impl View for SkillWorkflowDefault {
    type V = DefaultView;

    open spec fn view(&self) -> DefaultView {
        DefaultView { name: self.name@, value: self.value@, description: opt_view(self.description) }
    }
}

/// Content of a command policy.
pub struct CommandPolicyView {
    pub id: Seq<char>,
    pub matcher: MatcherView,
    pub action: SkillCommandPolicyAction,
    pub message: Option<Seq<char>>,
    pub preferred: Seq<PreferredView>,
}

impl View for SkillCommandPolicy {
    type V = CommandPolicyView;

    open spec fn view(&self) -> CommandPolicyView {
        CommandPolicyView {
            id: self.id@,
            matcher: self.matcher@,
            action: self.action,
            message: opt_view(self.message),
            preferred: preferred_views(self.preferred@),
        }
    }
}

/// Views of a list of command policies.
pub open spec fn command_policy_views(s: Seq<SkillCommandPolicy>) -> Seq<CommandPolicyView> {
    s.map_values(|p: SkillCommandPolicy| p@)
}

/// Content of a skill policy.
pub struct SkillPolicyView {
    pub allow_implicit_invocation: Option<bool>,
    pub command_policies: Seq<CommandPolicyView>,
}

impl View for SkillPolicy {
    type V = SkillPolicyView;

    open spec fn view(&self) -> SkillPolicyView {
        SkillPolicyView {
            allow_implicit_invocation: self.allow_implicit_invocation,
            command_policies: command_policy_views(self.command_policies@),
        }
    }
}

/// View of an optional skill policy.
pub open spec fn opt_policy_view(p: Option<SkillPolicy>) -> Option<SkillPolicyView> {
    match p {
        Some(x) => Some(x@),
        None => None,
    }
}

/// Views of a list of resources.
pub open spec fn resource_views(s: Seq<SkillResource>) -> Seq<ResourceView> {
    s.map_values(|r: SkillResource| r@)
}

/// Views of a list of commands.
pub open spec fn command_views(s: Seq<SkillCommand>) -> Seq<CommandView> {
    s.map_values(|c: SkillCommand| c@)
}

/// Views of a list of workflow defaults.
pub open spec fn default_views(s: Seq<SkillWorkflowDefault>) -> Seq<DefaultView> {
    s.map_values(|d: SkillWorkflowDefault| d@)
}

/// Content of a loaded skill.
pub struct MetadataView {
    pub name: Seq<char>,
    pub description: Seq<char>,
    pub short_description: Option<Seq<char>>,
    pub path: Seq<char>,
    pub scope: SkillScope,
    pub content: Seq<char>,
    pub policy: Option<SkillPolicyView>,
    pub resources: Seq<ResourceView>,
    pub commands: Seq<CommandView>,
    pub workflow_defaults: Seq<DefaultView>,
}

impl View for SkillMetadata {
    type V = MetadataView;

    open spec fn view(&self) -> MetadataView {
        MetadataView {
            name: self.name@,
            description: self.description@,
            short_description: opt_view(self.short_description),
            path: self.path@,
            scope: self.scope,
            content: self.content@,
            policy: opt_policy_view(self.policy),
            resources: resource_views(self.resources@),
            commands: command_views(self.commands@),
            workflow_defaults: default_views(self.workflow_defaults@),
        }
    }
}

} // verus!
