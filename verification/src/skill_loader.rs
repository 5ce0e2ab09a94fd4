//! Loading skills: the frontmatter of a `SKILL.md` file, the validation of
//! every field it declares, the rules of the configuration that switch
//! implicit invocation, and the order in which roots and skills are taken.
//! Reading directories and files, parsing YAML and resolving symbolic links
//! are left to the caller.
use vstd::prelude::*;

use crate::command_policy::{regex_check, regex_outcome};
use crate::skill_model::{
    CommandPolicyView, CommandView, DefaultView, MatcherView, MetadataView, PreferredView,
    ResourceView, SkillCommand, SkillCommandMatcher, SkillCommandPolicy, SkillCommandPolicyAction,
    SkillCommandPolicyPreferred, SkillCommandPolicyPreferredKind, SkillLoadOutcome, SkillMetadata, SkillPolicy,
    SkillPolicyView, SkillResource, SkillResourceKind, SkillScope, SkillWorkflowDefault,
    command_policy_views, command_views, default_views, opt_strings_view,
    preferred_views, resource_views,
};
use crate::text::{
    clone_string, collapse_whitespace, collapse_ws, concat, decimal, join_seqs, join_strings,
    opt_view, push_line, push_str, strings_view, to_chars, to_owned_string, trim_string,
    trimmed, usize_to_string,
};

verus! {

/// Longest skill name, in characters.
pub const MAX_NAME_LEN: usize = 64;
/// Longest skill description, in characters.
pub const MAX_DESCRIPTION_LEN: usize = 1024;
/// Longest short description, in characters.
pub const MAX_SHORT_DESCRIPTION_LEN: usize = 160;
/// Longest command policy id, in characters.
pub const MAX_COMMAND_POLICY_ID_LEN: usize = 96;
/// Longest command policy message, in characters.
pub const MAX_COMMAND_POLICY_MESSAGE_LEN: usize = 512;
/// Longest argv token, in characters.
pub const MAX_COMMAND_POLICY_TOKEN_LEN: usize = 160;
/// Longest shell pattern, in characters.
pub const MAX_COMMAND_POLICY_REGEX_LEN: usize = 512;
/// Longest purpose of a recommended action, in characters.
pub const MAX_COMMAND_POLICY_PURPOSE_LEN: usize = 256;
/// Most command policies one skill may declare.
pub const MAX_COMMAND_POLICIES_PER_SKILL: usize = 64;
/// Most recommended actions one command policy may declare.
pub const MAX_COMMAND_POLICY_PREFERRED: usize = 8;
/// Most tokens in an argv.
pub const MAX_COMMAND_POLICY_ARGV_TOKENS: usize = 32;
/// Most resources, commands or workflow defaults one skill may declare.
pub const MAX_STRUCTURED_ITEMS_PER_SKILL: usize = 64;
/// Longest command or workflow default name, in characters.
pub const MAX_STRUCTURED_ID_LEN: usize = 96;
/// Longest purpose or description of a structured item, in characters.
pub const MAX_STRUCTURED_PURPOSE_LEN: usize = 256;
/// Longest workflow default value, in characters.
pub const MAX_STRUCTURED_VALUE_LEN: usize = 512;

/// Why a skill file could not be loaded.
#[derive(Debug, Clone, PartialEq, Eq)]
pub enum SkillParseError {
    Read(String),
    MissingFrontmatter,
    InvalidYaml(String),
    MissingField(String),
    InvalidField { field: String, reason: String },
}

/// Content of a parse error.
pub enum ParseErrorView {
    Read(Seq<char>),
    MissingFrontmatter,
    InvalidYaml(Seq<char>),
    MissingField(Seq<char>),
    InvalidField(Seq<char>, Seq<char>),
}

impl View for SkillParseError {
    type V = ParseErrorView;

    open spec fn view(&self) -> ParseErrorView {
        match self {
            SkillParseError::Read(e) => ParseErrorView::Read(e@),
            SkillParseError::MissingFrontmatter => ParseErrorView::MissingFrontmatter,
            SkillParseError::InvalidYaml(e) => ParseErrorView::InvalidYaml(e@),
            SkillParseError::MissingField(f) => ParseErrorView::MissingField(f@),
            SkillParseError::InvalidField { field, reason } => ParseErrorView::InvalidField(field@, reason@),
        }
    }
}

/// The message of a parse error.
pub open spec fn parse_error_text(e: ParseErrorView) -> Seq<char> {
    match e {
        ParseErrorView::Read(x) => "failed to read file: "@ + x,
        ParseErrorView::MissingFrontmatter => "missing YAML frontmatter delimited by ---"@,
        ParseErrorView::InvalidYaml(x) => "invalid YAML: "@ + x,
        ParseErrorView::MissingField(f) => "missing field `"@ + f + "`"@,
        ParseErrorView::InvalidField(f, r) => "invalid "@ + f + ": "@ + r,
    }
}

impl SkillParseError {
    /// The message of the error.
    pub fn message(&self) -> (s: String)
        ensures
            s@ == parse_error_text(self@),
    {
        match self {
            SkillParseError::Read(e) => concat("failed to read file: ", e.as_str()),
            SkillParseError::MissingFrontmatter => to_owned_string("missing YAML frontmatter delimited by ---"),
            SkillParseError::InvalidYaml(e) => concat("invalid YAML: ", e.as_str()),
            SkillParseError::MissingField(f) => {
                let mut s = concat("missing field `", f.as_str());
                push_str(&mut s, "`");
                s
            },
            SkillParseError::InvalidField { field, reason } => {
                let mut s = concat("invalid ", field.as_str());
                push_str(&mut s, ": ");
                push_str(&mut s, reason.as_str());
                s
            },
        }
    }
}

/// View of a result whose value has a view.
pub open spec fn result_view<T: View>(r: Result<T, SkillParseError>) -> Result<T::V, ParseErrorView> {
    match r {
        Ok(x) => Ok(x@),
        Err(e) => Err(e@),
    }
}

/// The error for a field: missing when empty, too long when it has more
/// than `max` characters.
pub open spec fn field_error(value: Seq<char>, max: nat, field: Seq<char>) -> Option<ParseErrorView> {
    if value.len() == 0 {
        Some(ParseErrorView::MissingField(field))
    } else if value.len() > max {
        Some(
            ParseErrorView::InvalidField(
                field,
                "exceeds maximum length of "@ + decimal(max) + " characters"@,
            ),
        )
    } else {
        None
    }
}

/// Collapses white space: the words of `raw` joined by single spaces.
pub fn sanitize_single_line(raw: &str) -> (s: String)
    ensures
        s@ == collapse_ws(raw@),
{
    collapse_whitespace(raw)
}

/// Checks that a field is present and not longer than `max_len` characters.
pub fn validate_field(value: &str, max_len: usize, field_name: &str) -> (r: Result<(), SkillParseError>)
    ensures
        match r {
            Ok(_) => field_error(value@, max_len as nat, field_name@) is None,
            Err(e) => field_error(value@, max_len as nat, field_name@) == Some(e@),
        },
{
    let n = crate::text::to_chars(value).len();
    if n == 0 {
        return Err(SkillParseError::MissingField(to_owned_string(field_name)));
    }
    if n > max_len {
        let mut reason = to_owned_string("exceeds maximum length of ");
        let m = usize_to_string(max_len);
        push_str(&mut reason, m.as_str());
        push_str(&mut reason, " characters");
        return Err(SkillParseError::InvalidField { field: to_owned_string(field_name), reason });
    }
    Ok(())
}

/// An optional text: collapsed, dropped when empty, else validated.
pub open spec fn opt_text_result(value: Option<Seq<char>>, max: nat, field: Seq<char>) -> Result<
    Option<Seq<char>>,
    ParseErrorView,
> {
    match value {
        None => Ok(None),
        Some(v) => {
            let s = collapse_ws(v);
            if s.len() == 0 {
                Ok(None)
            } else {
                match field_error(s, max, field) {
                    Some(e) => Err(e),
                    None => Ok(Some(s)),
                }
            }
        },
    }
}

/// View of a result that holds an optional string.
pub open spec fn opt_text_view(r: Result<Option<String>, SkillParseError>) -> Result<Option<Seq<char>>, ParseErrorView> {
    match r {
        Ok(x) => Ok(opt_view(x)),
        Err(e) => Err(e@),
    }
}

/// Parses an optional text field.
pub fn parse_optional_text(value: &Option<String>, max_len: usize, field: &str) -> (r: Result<
    Option<String>,
    SkillParseError,
>)
    ensures
        opt_text_view(r) == opt_text_result(opt_view(*value), max_len as nat, field@),
{
    match value {
        None => Ok(None),
        Some(v) => {
            let s = sanitize_single_line(v.as_str());
            if crate::text::to_chars(s.as_str()).len() == 0 {
                return Ok(None);
            }
            match validate_field(s.as_str(), max_len, field) {
                Err(e) => Err(e),
                Ok(_) => Ok(Some(s)),
            }
        },
    }
}

/// Applies `f` to each element of `s` in order, with its position, and
/// stops at the first error.
pub open spec fn collect_results<A, B>(s: Seq<A>, f: spec_fn(int, A) -> Result<B, ParseErrorView>) -> Result<
    Seq<B>,
    ParseErrorView,
>
    decreases s.len(),
{
    if s.len() == 0 {
        Ok(Seq::empty())
    } else {
        match collect_results(s.drop_last(), f) {
            Err(e) => Err(e),
            Ok(v) => match f(s.len() - 1, s.last()) {
                Err(e) => Err(e),
                Ok(b) => Ok(v.push(b)),
            },
        }
    }
}

/// Once a prefix fails, the whole sequence fails with the same error.
pub proof fn lemma_collect_error_sticks<A, B>(s: Seq<A>, f: spec_fn(int, A) -> Result<B, ParseErrorView>, i: int)
    requires
        0 <= i <= s.len(),
        collect_results(s.take(i), f) is Err,
    ensures
        collect_results(s, f) == collect_results(s.take(i), f),
    decreases s.len() - i,
{
    if i == s.len() {
        assert(s.take(i) =~= s);
    } else {
        assert(s.take(i + 1).drop_last() =~= s.take(i));
        lemma_collect_error_sticks(s, f, i + 1);
    }
}

/// One extra element: the collected prefix grows by the element's result.
pub proof fn lemma_collect_step<A, B>(s: Seq<A>, f: spec_fn(int, A) -> Result<B, ParseErrorView>, i: int)
    requires
        0 <= i < s.len(),
    ensures
        collect_results(s.take(i + 1), f) == match collect_results(s.take(i), f) {
            Err(e) => Err(e),
            Ok(v) => match f(i, s[i]) {
                Err(e) => Err(e),
                Ok(b) => Ok(v.push(b)),
            },
        },
{
    assert(s.take(i + 1).drop_last() =~= s.take(i));
    assert(s.take(i + 1).last() == s[i]);
}

/// The tokens of an argv: between one and the maximum number of them, each
/// collapsed and validated.
pub open spec fn token_result(field: Seq<char>) -> spec_fn(int, Seq<char>) -> Result<Seq<char>, ParseErrorView> {
    |k: int, t: Seq<char>|
        match field_error(collapse_ws(t), MAX_COMMAND_POLICY_TOKEN_LEN as nat, field) {
            Some(e) => Err(e),
            None => Ok(collapse_ws(t)),
        }
}

/// Validated tokens of an argv.
pub open spec fn tokens_result(argv: Seq<Seq<char>>, field: Seq<char>) -> Result<Seq<Seq<char>>, ParseErrorView> {
    if argv.len() == 0 || argv.len() > MAX_COMMAND_POLICY_ARGV_TOKENS {
        Err(
            ParseErrorView::InvalidField(
                field,
                "must contain between 1 and "@ + decimal(MAX_COMMAND_POLICY_ARGV_TOKENS as nat) + " tokens"@,
            ),
        )
    } else {
        collect_results(argv, token_result(field))
    }
}

/// View of a result that holds a list of strings.
pub open spec fn strings_result_view(r: Result<Vec<String>, SkillParseError>) -> Result<Seq<Seq<char>>, ParseErrorView> {
    match r {
        Ok(x) => Ok(strings_view(x@)),
        Err(e) => Err(e@),
    }
}

fn count_error(field: &str, max: usize, suffix: &str) -> (e: SkillParseError)
    ensures
        e@ == ParseErrorView::InvalidField(field@, "must contain at most "@ + decimal(max as nat) + suffix@),
{
    let mut reason = to_owned_string("must contain at most ");
    let m = usize_to_string(max);
    push_str(&mut reason, m.as_str());
    push_str(&mut reason, suffix);
    SkillParseError::InvalidField { field: to_owned_string(field), reason }
}

/// Validates the tokens of an argv.
pub fn validate_argv_tokens(argv: &Vec<String>, field: &str) -> (r: Result<Vec<String>, SkillParseError>)
    ensures
        strings_result_view(r) == tokens_result(strings_view(argv@), field@),
{
    if argv.len() == 0 || argv.len() > MAX_COMMAND_POLICY_ARGV_TOKENS {
        let mut reason = to_owned_string("must contain between 1 and ");
        let m = usize_to_string(MAX_COMMAND_POLICY_ARGV_TOKENS);
        push_str(&mut reason, m.as_str());
        push_str(&mut reason, " tokens");
        return Err(SkillParseError::InvalidField { field: to_owned_string(field), reason });
    }
    let ghost s = strings_view(argv@);
    let ghost f = token_result(field@);
    let mut tokens: Vec<String> = Vec::new();
    let mut i: usize = 0;
    proof {
        assert(s.take(0) =~= Seq::<Seq<char>>::empty());
        assert(strings_view(tokens@) =~= Seq::<Seq<char>>::empty());
    }
    while i < argv.len()
        invariant
            i <= argv.len(),
            s == strings_view(argv@),
            0 < argv.len() <= MAX_COMMAND_POLICY_ARGV_TOKENS,
            f == token_result(field@),
            collect_results(s.take(i as int), f) == Ok::<Seq<Seq<char>>, ParseErrorView>(strings_view(tokens@)),
        decreases argv.len() - i,
    {
        proof {
            lemma_collect_step(s, f, i as int);
            assert(s[i as int] == argv@[i as int]@);
        }
        let token = sanitize_single_line(argv[i].as_str());
        match validate_field(token.as_str(), MAX_COMMAND_POLICY_TOKEN_LEN, field) {
            Err(e) => {
                proof {
                    lemma_collect_error_sticks(s, f, i + 1);
                }
                return Err(e);
            },
            Ok(_) => {},
        }
        push_line(&mut tokens, token);
        i = i + 1;
    }
    proof {
        assert(s.take(argv.len() as int) =~= s);
        assert(s.len() > 0 && s.len() <= MAX_COMMAND_POLICY_ARGV_TOKENS);
    }
    Ok(tokens)
}

/// An optional argv of a matcher.
pub open spec fn match_argv_result(argv: Option<Seq<Seq<char>>>, field: Seq<char>) -> Result<
    Option<Seq<Seq<char>>>,
    ParseErrorView,
> {
    match argv {
        None => Ok(None),
        Some(a) => match tokens_result(a, field) {
            Err(e) => Err(e),
            Ok(t) => Ok(Some(t)),
        },
    }
}

/// Validates an optional argv of a matcher.
pub fn parse_match_argv(argv: &Option<Vec<String>>, field: &str) -> (r: Result<Option<Vec<String>>, SkillParseError>)
    ensures
        match r {
            Ok(x) => match_argv_result(opt_strings_view(*argv), field@) == Ok::<Option<Seq<Seq<char>>>, ParseErrorView>(
                opt_strings_view(x),
            ),
            Err(e) => match_argv_result(opt_strings_view(*argv), field@) == Err::<Option<Seq<Seq<char>>>, ParseErrorView>(e@),
        },
{
    match argv {
        None => Ok(None),
        Some(a) => match validate_argv_tokens(a, field) {
            Err(e) => Err(e),
            Ok(t) => Ok(Some(t)),
        },
    }
}

/// A path written in the frontmatter, and the path it names once resolved
/// against the skill's directory.
#[derive(Debug, Clone, PartialEq, Eq)]
pub struct SkillPathText {
    pub given: String,
    pub resolved: String,
}

/// The YAML frontmatter of a `SKILL.md` file, as parsed.
#[derive(Debug, Clone)]
pub struct SkillFrontmatter {
    pub name: String,
    pub description: String,
    pub metadata: Option<SkillFrontmatterMetadata>,
    pub resources: Vec<SkillFrontmatterResource>,
    pub commands: Vec<SkillFrontmatterCommand>,
    pub workflow_defaults: Vec<SkillFrontmatterWorkflowDefault>,
    pub policy: Option<SkillFrontmatterPolicy>,
}

/// The `metadata` table of the frontmatter.
#[derive(Debug, Clone)]
pub struct SkillFrontmatterMetadata {
    pub short_description: Option<String>,
}

/// A declared resource.
#[derive(Debug, Clone)]
pub struct SkillFrontmatterResource {
    pub path: SkillPathText,
    pub kind: SkillResourceKind,
    pub description: Option<String>,
}

/// A declared command.
#[derive(Debug, Clone)]
pub struct SkillFrontmatterCommand {
    pub name: String,
    pub resource_path: SkillPathText,
    pub example_argv: Vec<String>,
    pub purpose: String,
}

/// A declared workflow default.
#[derive(Debug, Clone)]
pub struct SkillFrontmatterWorkflowDefault {
    pub name: String,
    pub value: String,
    pub description: Option<String>,
}

/// The declared policy.
#[derive(Debug, Clone)]
pub struct SkillFrontmatterPolicy {
    pub allow_implicit_invocation: Option<bool>,
    pub command_policies: Vec<SkillFrontmatterCommandPolicy>,
}

/// A declared command policy.
#[derive(Debug, Clone)]
pub struct SkillFrontmatterCommandPolicy {
    pub id: String,
    pub matcher: SkillFrontmatterCommandMatcher,
    pub action: SkillCommandPolicyAction,
    pub message: Option<String>,
    pub preferred: Vec<SkillFrontmatterCommandPolicyPreferred>,
}

/// A declared matcher.
#[derive(Debug, Clone)]
pub struct SkillFrontmatterCommandMatcher {
    pub argv_exact: Option<Vec<String>>,
    pub argv_prefix: Option<Vec<String>>,
    pub shell_regex: Option<String>,
}

/// A declared recommended action.
#[derive(Debug, Clone)]
pub struct SkillFrontmatterCommandPolicyPreferred {
    pub kind: SkillCommandPolicyPreferredKind,
    pub path: Option<SkillPathText>,
    pub name: Option<String>,
    pub example_argv: Vec<String>,
    pub purpose: Option<String>,
}

/// A declared resource, validated.
pub open spec fn resource_result(r: SkillFrontmatterResource) -> Result<ResourceView, ParseErrorView> {
    match opt_text_result(opt_view(r.description), MAX_STRUCTURED_PURPOSE_LEN as nat, "resources.description"@) {
        Err(e) => Err(e),
        Ok(d) => Ok(ResourceView { path: r.path.resolved@, kind: r.kind, description: d }),
    }
}

/// `resource_result` over a list.
pub open spec fn resource_fn() -> spec_fn(int, SkillFrontmatterResource) -> Result<ResourceView, ParseErrorView> {
    |k: int, r: SkillFrontmatterResource| resource_result(r)
}

/// The declared resources, validated: at most the maximum number of them.
pub open spec fn resources_result(rs: Seq<SkillFrontmatterResource>) -> Result<Seq<ResourceView>, ParseErrorView> {
    if rs.len() > MAX_STRUCTURED_ITEMS_PER_SKILL {
        Err(
            ParseErrorView::InvalidField(
                "resources"@,
                "must contain at most "@ + decimal(MAX_STRUCTURED_ITEMS_PER_SKILL as nat) + " entries"@,
            ),
        )
    } else {
        collect_results(rs, resource_fn())
    }
}


/// Validates the declared resources.
pub fn parse_skill_resources(resources: &Vec<SkillFrontmatterResource>) -> (r: Result<Vec<SkillResource>, SkillParseError>)
    ensures
        match r {
            Ok(v) => resources_result(resources@) == Ok::<Seq<ResourceView>, ParseErrorView>(resource_views(v@)),
            Err(e) => resources_result(resources@) == Err::<Seq<ResourceView>, ParseErrorView>(e@),
        },
{
    if resources.len() > MAX_STRUCTURED_ITEMS_PER_SKILL {
        return Err(count_error("resources", MAX_STRUCTURED_ITEMS_PER_SKILL, " entries"));
    }
    let ghost s = resources@;
    let ghost f = resource_fn();
    let mut parsed: Vec<SkillResource> = Vec::new();
    let mut i: usize = 0;
    proof {
        assert(s.take(0) =~= Seq::<SkillFrontmatterResource>::empty());
        assert(resource_views(parsed@) =~= Seq::<ResourceView>::empty());
    }
    while i < resources.len()
        invariant
            i <= resources.len() <= MAX_STRUCTURED_ITEMS_PER_SKILL,
            s == resources@,
            f == resource_fn(),
            collect_results(s.take(i as int), f) == Ok::<Seq<ResourceView>, ParseErrorView>(resource_views(parsed@)),
        decreases resources.len() - i,
    {
        proof {
            lemma_collect_step(s, f, i as int);
        }
        let res = &resources[i];
        let description = match parse_optional_text(&res.description, MAX_STRUCTURED_PURPOSE_LEN, "resources.description") {
            Err(e) => {
                proof {
                    lemma_collect_error_sticks(s, f, i + 1);
                }
                return Err(e);
            },
            Ok(d) => d,
        };
        let item = SkillResource { path: clone_string(&res.path.resolved), kind: res.kind, description };
        let ghost before = parsed@;
        parsed.push(item);
        proof {
            assert(resource_views(parsed@) =~= resource_views(before).push(item@));
        }
        i = i + 1;
    }
    proof {
        assert(s.take(resources.len() as int) =~= s);
    }
    Ok(parsed)
}

/// Some declared resource has path `p`.
pub open spec fn declares_path(rs: Seq<ResourceView>, p: Seq<char>) -> bool {
    exists|j: int| 0 <= j < rs.len() && rs[j].path == p
}

/// A declared command, validated against the declared resources.
pub open spec fn command_result(c: SkillFrontmatterCommand, declared: Seq<ResourceView>) -> Result<CommandView, ParseErrorView> {
    let name = collapse_ws(c.name@);
    let purpose = collapse_ws(c.purpose@);
    let resolved = c.resource_path.resolved@;
    if field_error(name, MAX_STRUCTURED_ID_LEN as nat, "commands.name"@) is Some {
        Err(field_error(name, MAX_STRUCTURED_ID_LEN as nat, "commands.name"@)->0)
    } else if field_error(purpose, MAX_STRUCTURED_PURPOSE_LEN as nat, "commands.purpose"@) is Some {
        Err(field_error(purpose, MAX_STRUCTURED_PURPOSE_LEN as nat, "commands.purpose"@)->0)
    } else if !declares_path(declared, resolved) {
        Err(
            ParseErrorView::InvalidField(
                "commands.resource_path"@,
                "command '"@ + name + "' references resource_path '"@ + c.resource_path.given@
                    + "' which is not declared in the resources section"@,
            ),
        )
    } else {
        let example = if c.example_argv@.len() == 0 {
            Ok(Seq::empty())
        } else {
            tokens_result(strings_view(c.example_argv@), "commands.example_argv"@)
        };
        match example {
            Err(e) => Err(e),
            Ok(ex) => Ok(CommandView { name, resource_path: resolved, example_argv: ex, purpose }),
        }
    }
}

/// `command_result` over a list.
pub open spec fn command_fn(declared: Seq<ResourceView>) -> spec_fn(int, SkillFrontmatterCommand) -> Result<CommandView, ParseErrorView> {
    |k: int, c: SkillFrontmatterCommand| command_result(c, declared)
}

/// The declared commands, validated: at most the maximum number of them.
pub open spec fn commands_result(cs: Seq<SkillFrontmatterCommand>, declared: Seq<ResourceView>) -> Result<Seq<CommandView>, ParseErrorView> {
    if cs.len() > MAX_STRUCTURED_ITEMS_PER_SKILL {
        Err(
            ParseErrorView::InvalidField(
                "commands"@,
                "must contain at most "@ + decimal(MAX_STRUCTURED_ITEMS_PER_SKILL as nat) + " entries"@,
            ),
        )
    } else {
        collect_results(cs, command_fn(declared))
    }
}


fn declares_path_exec(declared: &Vec<SkillResource>, p: &str) -> (b: bool)
    ensures
        b == declares_path(resource_views(declared@), p@),
{
    let mut i: usize = 0;
    while i < declared.len()
        invariant
            i <= declared.len(),
            forall|j: int| 0 <= j < i ==> declared@[j].path@ != p@,
        decreases declared.len() - i,
    {
        if crate::text::str_eq(declared[i].path.as_str(), p) {
            proof {
                assert(resource_views(declared@)[i as int].path == p@);
            }
            return true;
        }
        i = i + 1;
    }
    proof {
        assert forall|j: int| 0 <= j < resource_views(declared@).len() implies resource_views(declared@)[j].path != p@ by {
            assert(resource_views(declared@)[j] == declared@[j]@);
        }
    }
    false
}

/// Validates the declared commands; each must run a declared resource.
pub fn parse_skill_commands(commands: &Vec<SkillFrontmatterCommand>, declared_resources: &Vec<SkillResource>) -> (r: Result<
    Vec<SkillCommand>,
    SkillParseError,
>)
    ensures
        match r {
            Ok(v) => commands_result(commands@, resource_views(declared_resources@)) == Ok::<Seq<CommandView>, ParseErrorView>(
                command_views(v@),
            ),
            Err(e) => commands_result(commands@, resource_views(declared_resources@)) == Err::<Seq<CommandView>, ParseErrorView>(e@),
        },
{
    if commands.len() > MAX_STRUCTURED_ITEMS_PER_SKILL {
        return Err(count_error("commands", MAX_STRUCTURED_ITEMS_PER_SKILL, " entries"));
    }
    let ghost s = commands@;
    let ghost f = command_fn(resource_views(declared_resources@));
    let mut parsed: Vec<SkillCommand> = Vec::new();
    let mut i: usize = 0;
    proof {
        assert(s.take(0) =~= Seq::<SkillFrontmatterCommand>::empty());
        assert(command_views(parsed@) =~= Seq::<CommandView>::empty());
    }
    while i < commands.len()
        invariant
            i <= commands.len() <= MAX_STRUCTURED_ITEMS_PER_SKILL,
            s == commands@,
            f == command_fn(resource_views(declared_resources@)),
            collect_results(s.take(i as int), f) == Ok::<Seq<CommandView>, ParseErrorView>(command_views(parsed@)),
        decreases commands.len() - i,
    {
        proof {
            lemma_collect_step(s, f, i as int);
        }
        let c = &commands[i];
        let name = sanitize_single_line(c.name.as_str());
        if let Err(e) = validate_field(name.as_str(), MAX_STRUCTURED_ID_LEN, "commands.name") {
            proof {
                lemma_collect_error_sticks(s, f, i + 1);
            }
            return Err(e);
        }
        let purpose = sanitize_single_line(c.purpose.as_str());
        if let Err(e) = validate_field(purpose.as_str(), MAX_STRUCTURED_PURPOSE_LEN, "commands.purpose") {
            proof {
                lemma_collect_error_sticks(s, f, i + 1);
            }
            return Err(e);
        }
        if !declares_path_exec(declared_resources, c.resource_path.resolved.as_str()) {
            let mut reason = concat("command '", name.as_str());
            push_str(&mut reason, "' references resource_path '");
            push_str(&mut reason, c.resource_path.given.as_str());
            push_str(&mut reason, "' which is not declared in the resources section");
            let e = SkillParseError::InvalidField { field: to_owned_string("commands.resource_path"), reason };
            proof {
                lemma_collect_error_sticks(s, f, i + 1);
            }
            return Err(e);
        }
        let example_argv = if c.example_argv.len() == 0 {
            Vec::new()
        } else {
            match validate_argv_tokens(&c.example_argv, "commands.example_argv") {
                Err(e) => {
                    proof {
                        lemma_collect_error_sticks(s, f, i + 1);
                    }
                    return Err(e);
                },
                Ok(t) => t,
            }
        };
        let item = SkillCommand {
            name,
            resource_path: clone_string(&c.resource_path.resolved),
            example_argv,
            purpose,
        };
        proof {
            if c.example_argv@.len() == 0 {
                assert(strings_view(item.example_argv@) =~= Seq::<Seq<char>>::empty());
            }
            assert(f(i as int, s[i as int]) == Ok::<CommandView, ParseErrorView>(item@));
        }
        let ghost before = parsed@;
        parsed.push(item);
        proof {
            assert(command_views(parsed@) =~= command_views(before).push(item@));
        }
        i = i + 1;
    }
    proof {
        assert(s.take(commands.len() as int) =~= s);
    }
    Ok(parsed)
}

/// A declared workflow default, validated.
pub open spec fn default_result(d: SkillFrontmatterWorkflowDefault) -> Result<DefaultView, ParseErrorView> {
    let name = collapse_ws(d.name@);
    let value = collapse_ws(d.value@);
    if field_error(name, MAX_STRUCTURED_ID_LEN as nat, "workflow_defaults.name"@) is Some {
        Err(field_error(name, MAX_STRUCTURED_ID_LEN as nat, "workflow_defaults.name"@)->0)
    } else if field_error(value, MAX_STRUCTURED_VALUE_LEN as nat, "workflow_defaults.value"@) is Some {
        Err(field_error(value, MAX_STRUCTURED_VALUE_LEN as nat, "workflow_defaults.value"@)->0)
    } else {
        match opt_text_result(opt_view(d.description), MAX_STRUCTURED_PURPOSE_LEN as nat, "workflow_defaults.description"@) {
            Err(e) => Err(e),
            Ok(x) => Ok(DefaultView { name, value, description: x }),
        }
    }
}

/// `default_result` over a list.
pub open spec fn default_fn() -> spec_fn(int, SkillFrontmatterWorkflowDefault) -> Result<DefaultView, ParseErrorView> {
    |k: int, d: SkillFrontmatterWorkflowDefault| default_result(d)
}

/// The declared workflow defaults, validated: at most the maximum number of
/// them.
pub open spec fn defaults_result(ds: Seq<SkillFrontmatterWorkflowDefault>) -> Result<Seq<DefaultView>, ParseErrorView> {
    if ds.len() > MAX_STRUCTURED_ITEMS_PER_SKILL {
        Err(
            ParseErrorView::InvalidField(
                "workflow_defaults"@,
                "must contain at most "@ + decimal(MAX_STRUCTURED_ITEMS_PER_SKILL as nat) + " entries"@,
            ),
        )
    } else {
        collect_results(ds, default_fn())
    }
}


/// Validates the declared workflow defaults.
pub fn parse_workflow_defaults(defaults: &Vec<SkillFrontmatterWorkflowDefault>) -> (r: Result<Vec<SkillWorkflowDefault>, SkillParseError>)
    ensures
        match r {
            Ok(v) => defaults_result(defaults@) == Ok::<Seq<DefaultView>, ParseErrorView>(default_views(v@)),
            Err(e) => defaults_result(defaults@) == Err::<Seq<DefaultView>, ParseErrorView>(e@),
        },
{
    if defaults.len() > MAX_STRUCTURED_ITEMS_PER_SKILL {
        return Err(count_error("workflow_defaults", MAX_STRUCTURED_ITEMS_PER_SKILL, " entries"));
    }
    let ghost s = defaults@;
    let ghost f = default_fn();
    let mut parsed: Vec<SkillWorkflowDefault> = Vec::new();
    let mut i: usize = 0;
    proof {
        assert(s.take(0) =~= Seq::<SkillFrontmatterWorkflowDefault>::empty());
        assert(default_views(parsed@) =~= Seq::<DefaultView>::empty());
    }
    while i < defaults.len()
        invariant
            i <= defaults.len() <= MAX_STRUCTURED_ITEMS_PER_SKILL,
            s == defaults@,
            f == default_fn(),
            collect_results(s.take(i as int), f) == Ok::<Seq<DefaultView>, ParseErrorView>(default_views(parsed@)),
        decreases defaults.len() - i,
    {
        proof {
            lemma_collect_step(s, f, i as int);
        }
        let d = &defaults[i];
        let name = sanitize_single_line(d.name.as_str());
        if let Err(e) = validate_field(name.as_str(), MAX_STRUCTURED_ID_LEN, "workflow_defaults.name") {
            proof {
                lemma_collect_error_sticks(s, f, i + 1);
            }
            return Err(e);
        }
        let value = sanitize_single_line(d.value.as_str());
        if let Err(e) = validate_field(value.as_str(), MAX_STRUCTURED_VALUE_LEN, "workflow_defaults.value") {
            proof {
                lemma_collect_error_sticks(s, f, i + 1);
            }
            return Err(e);
        }
        let description = match parse_optional_text(&d.description, MAX_STRUCTURED_PURPOSE_LEN, "workflow_defaults.description") {
            Err(e) => {
                proof {
                    lemma_collect_error_sticks(s, f, i + 1);
                }
                return Err(e);
            },
            Ok(x) => x,
        };
        let item = SkillWorkflowDefault { name, value, description };
        let ghost before = parsed@;
        parsed.push(item);
        proof {
            assert(default_views(parsed@) =~= default_views(before).push(item@));
        }
        i = i + 1;
    }
    proof {
        assert(s.take(defaults.len() as int) =~= s);
    }
    Ok(parsed)
}

/// The shell pattern of a matcher: collapsed, dropped when empty, else
/// validated and required to compile.
pub open spec fn regex_field_result(r: Option<Seq<char>>, index: nat) -> Result<Option<Seq<char>>, ParseErrorView> {
    match r {
        None => Ok(None),
        Some(x) => {
            let s = collapse_ws(x);
            if s.len() == 0 {
                Ok(None)
            } else if field_error(s, MAX_COMMAND_POLICY_REGEX_LEN as nat, "policy.command_policies.match.shell_regex"@) is Some {
                Err(field_error(s, MAX_COMMAND_POLICY_REGEX_LEN as nat, "policy.command_policies.match.shell_regex"@)->0)
            } else {
                match regex_outcome(s, Seq::empty()) {
                    Err(msg) => Err(
                        ParseErrorView::InvalidField(
                            "policy.command_policies.match.shell_regex"@,
                            "invalid regex in entry "@ + decimal(index) + ": "@ + msg,
                        ),
                    ),
                    Ok(_) => Ok(Some(s)),
                }
            }
        },
    }
}

/// A declared matcher, validated: exactly one of its three conditions set.
pub open spec fn matcher_result(m: SkillFrontmatterCommandMatcher, index: nat) -> Result<MatcherView, ParseErrorView> {
    match match_argv_result(opt_strings_view(m.argv_exact), "policy.command_policies.match.argv_exact"@) {
        Err(e) => Err(e),
        Ok(ex) => match match_argv_result(opt_strings_view(m.argv_prefix), "policy.command_policies.match.argv_prefix"@) {
            Err(e) => Err(e),
            Ok(px) => match regex_field_result(opt_view(m.shell_regex), index) {
                Err(e) => Err(e),
                Ok(rx) => {
                    let count = (if ex is Some { 1int } else { 0int }) + (if px is Some { 1int } else { 0int }) + (if rx is Some {
                        1int
                    } else {
                        0int
                    });
                    if count == 0 {
                        Err(
                            ParseErrorView::InvalidField(
                                "policy.command_policies.match"@,
                                "entry "@ + decimal(index) + " must set one of argv_exact, argv_prefix, or shell_regex"@,
                            ),
                        )
                    } else if count > 1 {
                        Err(
                            ParseErrorView::InvalidField(
                                "policy.command_policies.match"@,
                                "entry "@ + decimal(index) + " must set only one of argv_exact, argv_prefix, or shell_regex"@,
                            ),
                        )
                    } else {
                        Ok(MatcherView { argv_exact: ex, argv_prefix: px, shell_regex: rx })
                    }
                },
            },
        },
    }
}

fn entry_error(index: usize, suffix: &str) -> (e: SkillParseError)
    ensures
        e@ == ParseErrorView::InvalidField("policy.command_policies.match"@, "entry "@ + decimal(index as nat) + suffix@),
{
    let mut reason = to_owned_string("entry ");
    let n = usize_to_string(index);
    push_str(&mut reason, n.as_str());
    push_str(&mut reason, suffix);
    SkillParseError::InvalidField { field: to_owned_string("policy.command_policies.match"), reason }
}

/// Validates a declared matcher.
pub fn parse_command_matcher(matcher: &SkillFrontmatterCommandMatcher, index: usize) -> (r: Result<SkillCommandMatcher, SkillParseError>)
    ensures
        result_view(r) == matcher_result(*matcher, index as nat),
{
    let argv_exact = match parse_match_argv(&matcher.argv_exact, "policy.command_policies.match.argv_exact") {
        Err(e) => return Err(e),
        Ok(x) => x,
    };
    let argv_prefix = match parse_match_argv(&matcher.argv_prefix, "policy.command_policies.match.argv_prefix") {
        Err(e) => return Err(e),
        Ok(x) => x,
    };
    let shell_regex = match &matcher.shell_regex {
        None => None,
        Some(raw) => {
            let pattern = sanitize_single_line(raw.as_str());
            if to_chars(pattern.as_str()).len() == 0 {
                None
            } else {
                if let Err(e) = validate_field(pattern.as_str(), MAX_COMMAND_POLICY_REGEX_LEN, "policy.command_policies.match.shell_regex") {
                    return Err(e);
                }
                match regex_check(pattern.as_str(), "") {
                    Err(msg) => {
                        let mut reason = to_owned_string("invalid regex in entry ");
                        let n = usize_to_string(index);
                        push_str(&mut reason, n.as_str());
                        push_str(&mut reason, ": ");
                        push_str(&mut reason, msg.as_str());
                        proof {
                            reveal_strlit("");
                            assert(""@ =~= Seq::<char>::empty());
                        }
                        return Err(SkillParseError::InvalidField {
                            field: to_owned_string("policy.command_policies.match.shell_regex"),
                            reason,
                        });
                    },
                    Ok(_) => {
                        proof {
                            reveal_strlit("");
                            assert(""@ =~= Seq::<char>::empty());
                        }
                        Some(pattern)
                    },
                }
            }
        },
    };
    let count: usize = (if argv_exact.is_some() { 1 } else { 0 }) + (if argv_prefix.is_some() { 1 } else { 0 }) + (if shell_regex.is_some() {
        1
    } else {
        0
    });
    if count == 0 {
        return Err(entry_error(index, " must set one of argv_exact, argv_prefix, or shell_regex"));
    }
    if count > 1 {
        return Err(entry_error(index, " must set only one of argv_exact, argv_prefix, or shell_regex"));
    }
    Ok(SkillCommandMatcher { argv_exact, argv_prefix, shell_regex })
}

/// A declared recommended action, validated.
pub open spec fn preferred_result(p: SkillFrontmatterCommandPolicyPreferred) -> Result<PreferredView, ParseErrorView> {
    match opt_text_result(opt_view(p.purpose), MAX_COMMAND_POLICY_PURPOSE_LEN as nat, "policy.command_policies.preferred.purpose"@) {
        Err(e) => Err(e),
        Ok(purpose) => match opt_text_result(opt_view(p.name), MAX_NAME_LEN as nat, "policy.command_policies.preferred.name"@) {
            Err(e) => Err(e),
            Ok(name) => {
                let path = match p.path {
                    Some(x) => Some(x.resolved@),
                    None => None,
                };
                let ex = if p.example_argv@.len() == 0 {
                    Ok(Seq::empty())
                } else {
                    tokens_result(strings_view(p.example_argv@), "policy.command_policies.preferred.example_argv"@)
                };
                match ex {
                    Err(e) => Err(e),
                    Ok(ex) => Ok(PreferredView { kind: p.kind, path, name, example_argv: ex, purpose }),
                }
            },
        },
    }
}

/// Validates a declared recommended action.
pub fn parse_command_policy_preferred(preferred: &SkillFrontmatterCommandPolicyPreferred) -> (r: Result<
    SkillCommandPolicyPreferred,
    SkillParseError,
>)
    ensures
        result_view(r) == preferred_result(*preferred),
{
    let purpose = match parse_optional_text(&preferred.purpose, MAX_COMMAND_POLICY_PURPOSE_LEN, "policy.command_policies.preferred.purpose") {
        Err(e) => return Err(e),
        Ok(x) => x,
    };
    let name = match parse_optional_text(&preferred.name, MAX_NAME_LEN, "policy.command_policies.preferred.name") {
        Err(e) => return Err(e),
        Ok(x) => x,
    };
    let path = match &preferred.path {
        Some(x) => Some(clone_string(&x.resolved)),
        None => None,
    };
    let example_argv = if preferred.example_argv.len() == 0 {
        Vec::new()
    } else {
        match validate_argv_tokens(&preferred.example_argv, "policy.command_policies.preferred.example_argv") {
            Err(e) => return Err(e),
            Ok(t) => t,
        }
    };
    let r = SkillCommandPolicyPreferred { kind: preferred.kind, path, name, example_argv, purpose };
    proof {
        if preferred.example_argv@.len() == 0 {
            assert(strings_view(r.example_argv@) =~= Seq::<Seq<char>>::empty());
        }
    }
    Ok(r)
}

/// `preferred_result` over a list.
pub open spec fn preferred_fn() -> spec_fn(int, SkillFrontmatterCommandPolicyPreferred) -> Result<PreferredView, ParseErrorView> {
    |k: int, p: SkillFrontmatterCommandPolicyPreferred| preferred_result(p)
}

/// A declared command policy, validated; `index` is its position in the
/// skill's list.
pub open spec fn command_policy_result(cp: SkillFrontmatterCommandPolicy, index: nat) -> Result<CommandPolicyView, ParseErrorView> {
    let id = collapse_ws(cp.id@);
    if field_error(id, MAX_COMMAND_POLICY_ID_LEN as nat, "policy.command_policies.id"@) is Some {
        Err(field_error(id, MAX_COMMAND_POLICY_ID_LEN as nat, "policy.command_policies.id"@)->0)
    } else {
        match matcher_result(cp.matcher, index) {
            Err(e) => Err(e),
            Ok(m) => match opt_text_result(opt_view(cp.message), MAX_COMMAND_POLICY_MESSAGE_LEN as nat, "policy.command_policies.message"@) {
                Err(e) => Err(e),
                Ok(msg) => if cp.preferred@.len() > MAX_COMMAND_POLICY_PREFERRED {
                    Err(
                        ParseErrorView::InvalidField(
                            "policy.command_policies.preferred"@,
                            "must contain at most "@ + decimal(MAX_COMMAND_POLICY_PREFERRED as nat) + " entries"@,
                        ),
                    )
                } else {
                    match collect_results(cp.preferred@, preferred_fn()) {
                        Err(e) => Err(e),
                        Ok(pv) => Ok(CommandPolicyView { id, matcher: m, action: cp.action, message: msg, preferred: pv }),
                    }
                },
            },
        }
    }
}

/// Validates a declared command policy.
pub fn parse_command_policy(policy: &SkillFrontmatterCommandPolicy, index: usize) -> (r: Result<SkillCommandPolicy, SkillParseError>)
    ensures
        result_view(r) == command_policy_result(*policy, index as nat),
{
    let id = sanitize_single_line(policy.id.as_str());
    if let Err(e) = validate_field(id.as_str(), MAX_COMMAND_POLICY_ID_LEN, "policy.command_policies.id") {
        return Err(e);
    }
    let matcher = match parse_command_matcher(&policy.matcher, index) {
        Err(e) => return Err(e),
        Ok(m) => m,
    };
    let message = match parse_optional_text(&policy.message, MAX_COMMAND_POLICY_MESSAGE_LEN, "policy.command_policies.message") {
        Err(e) => return Err(e),
        Ok(m) => m,
    };
    if policy.preferred.len() > MAX_COMMAND_POLICY_PREFERRED {
        return Err(count_error("policy.command_policies.preferred", MAX_COMMAND_POLICY_PREFERRED, " entries"));
    }
    let ghost s = policy.preferred@;
    let ghost f = preferred_fn();
    let mut preferred: Vec<SkillCommandPolicyPreferred> = Vec::new();
    let mut i: usize = 0;
    proof {
        assert(s.take(0) =~= Seq::<SkillFrontmatterCommandPolicyPreferred>::empty());
        assert(preferred_views(preferred@) =~= Seq::<PreferredView>::empty());
    }
    while i < policy.preferred.len()
        invariant
            i <= policy.preferred.len() <= MAX_COMMAND_POLICY_PREFERRED,
            s == policy.preferred@,
            id@ == collapse_ws(policy.id@),
            field_error(id@, MAX_COMMAND_POLICY_ID_LEN as nat, "policy.command_policies.id"@) is None,
            matcher_result(policy.matcher, index as nat) == Ok::<MatcherView, ParseErrorView>(matcher@),
            opt_text_result(opt_view(policy.message), MAX_COMMAND_POLICY_MESSAGE_LEN as nat, "policy.command_policies.message"@)
                == Ok::<Option<Seq<char>>, ParseErrorView>(opt_view(message)),
            f == preferred_fn(),
            collect_results(s.take(i as int), f) == Ok::<Seq<PreferredView>, ParseErrorView>(preferred_views(preferred@)),
        decreases policy.preferred.len() - i,
    {
        proof {
            lemma_collect_step(s, f, i as int);
        }
        match parse_command_policy_preferred(&policy.preferred[i]) {
            Err(e) => {
                proof {
                    lemma_collect_error_sticks(s, f, i + 1);
                }
                return Err(e);
            },
            Ok(p) => {
                let ghost before = preferred@;
                let ghost pp = p;
                preferred.push(p);
                proof {
                    assert(preferred_views(preferred@) =~= preferred_views(before).push(pp@));
                }
            },
        }
        i = i + 1;
    }
    proof {
        assert(s.take(policy.preferred.len() as int) =~= s);
    }
    Ok(SkillCommandPolicy { id, matcher, action: policy.action, message, preferred })
}

/// `command_policy_result` over a list, with positions.
pub open spec fn command_policy_fn() -> spec_fn(int, SkillFrontmatterCommandPolicy) -> Result<CommandPolicyView, ParseErrorView> {
    |k: int, cp: SkillFrontmatterCommandPolicy| command_policy_result(cp, k as nat)
}

/// A declared policy, validated: at most the maximum number of command
/// policies.
pub open spec fn policy_result(p: SkillFrontmatterPolicy) -> Result<SkillPolicyView, ParseErrorView> {
    if p.command_policies@.len() > MAX_COMMAND_POLICIES_PER_SKILL {
        Err(
            ParseErrorView::InvalidField(
                "policy.command_policies"@,
                "must contain at most "@ + decimal(MAX_COMMAND_POLICIES_PER_SKILL as nat) + " entries"@,
            ),
        )
    } else {
        match collect_results(p.command_policies@, command_policy_fn()) {
            Err(e) => Err(e),
            Ok(v) => Ok(SkillPolicyView { allow_implicit_invocation: p.allow_implicit_invocation, command_policies: v }),
        }
    }
}

/// Validates a declared policy.
pub fn parse_skill_policy(policy: &SkillFrontmatterPolicy) -> (r: Result<SkillPolicy, SkillParseError>)
    ensures
        result_view(r) == policy_result(*policy),
{
    if policy.command_policies.len() > MAX_COMMAND_POLICIES_PER_SKILL {
        return Err(count_error("policy.command_policies", MAX_COMMAND_POLICIES_PER_SKILL, " entries"));
    }
    let ghost s = policy.command_policies@;
    let ghost f = command_policy_fn();
    let mut command_policies: Vec<SkillCommandPolicy> = Vec::new();
    let mut i: usize = 0;
    proof {
        assert(s.take(0) =~= Seq::<SkillFrontmatterCommandPolicy>::empty());
        assert(command_policy_views(command_policies@) =~= Seq::<CommandPolicyView>::empty());
    }
    while i < policy.command_policies.len()
        invariant
            i <= policy.command_policies.len() <= MAX_COMMAND_POLICIES_PER_SKILL,
            s == policy.command_policies@,
            f == command_policy_fn(),
            collect_results(s.take(i as int), f) == Ok::<Seq<CommandPolicyView>, ParseErrorView>(command_policy_views(command_policies@)),
        decreases policy.command_policies.len() - i,
    {
        proof {
            lemma_collect_step(s, f, i as int);
        }
        match parse_command_policy(&policy.command_policies[i], i) {
            Err(e) => {
                proof {
                    lemma_collect_error_sticks(s, f, i + 1);
                }
                return Err(e);
            },
            Ok(p) => {
                let ghost before = command_policies@;
                let ghost pp = p;
                command_policies.push(p);
                proof {
                    assert(command_policy_views(command_policies@) =~= command_policy_views(before).push(pp@));
                }
            },
        }
        i = i + 1;
    }
    proof {
        assert(s.take(policy.command_policies.len() as int) =~= s);
    }
    Ok(SkillPolicy { allow_implicit_invocation: policy.allow_implicit_invocation, command_policies })
}

/// The short description: collapsed, and absent when empty.
pub open spec fn short_description_of(front: SkillFrontmatter) -> Option<Seq<char>> {
    match front.metadata {
        Some(m) => match m.short_description {
            Some(v) => if collapse_ws(v@).len() > 0 {
                Some(collapse_ws(v@))
            } else {
                None
            },
            None => None,
        },
        None => None,
    }
}

/// The skill a frontmatter declares, or the first error in the order the
/// fields are checked: name, description, short description, resources,
/// commands, workflow defaults, policy.
pub open spec fn skill_result(front: SkillFrontmatter, path: Seq<char>, scope: SkillScope, contents: Seq<char>) -> Result<
    MetadataView,
    ParseErrorView,
> {
    let name = collapse_ws(front.name@);
    let description = collapse_ws(front.description@);
    let short = short_description_of(front);
    if field_error(name, MAX_NAME_LEN as nat, "name"@) is Some {
        Err(field_error(name, MAX_NAME_LEN as nat, "name"@)->0)
    } else if field_error(description, MAX_DESCRIPTION_LEN as nat, "description"@) is Some {
        Err(field_error(description, MAX_DESCRIPTION_LEN as nat, "description"@)->0)
    } else if short is Some && field_error(short->0, MAX_SHORT_DESCRIPTION_LEN as nat, "metadata.short-description"@) is Some {
        Err(field_error(short->0, MAX_SHORT_DESCRIPTION_LEN as nat, "metadata.short-description"@)->0)
    } else {
        match resources_result(front.resources@) {
            Err(e) => Err(e),
            Ok(rs) => match commands_result(front.commands@, rs) {
                Err(e) => Err(e),
                Ok(cs) => match defaults_result(front.workflow_defaults@) {
                    Err(e) => Err(e),
                    Ok(ds) => {
                        let pol = match front.policy {
                            Some(p) => match policy_result(p) {
                                Err(e) => Err(e),
                                Ok(v) => Ok(Some(v)),
                            },
                            None => Ok(None),
                        };
                        match pol {
                            Err(e) => Err(e),
                            Ok(pv) => Ok(
                                MetadataView {
                                    name,
                                    description,
                                    short_description: short,
                                    path,
                                    scope,
                                    content: contents,
                                    policy: pv,
                                    resources: rs,
                                    commands: cs,
                                    workflow_defaults: ds,
                                },
                            ),
                        }
                    },
                },
            },
        }
    }
}

/// Builds a skill from its parsed frontmatter: every field validated, the
/// path of the skill file and its full contents kept.
pub fn parse_skill_frontmatter(front: &SkillFrontmatter, resolved_path: &str, scope: SkillScope, contents: String) -> (r: Result<
    SkillMetadata,
    SkillParseError,
>)
    ensures
        result_view(r) == skill_result(*front, resolved_path@, scope, contents@),
{
    let name = sanitize_single_line(front.name.as_str());
    let description = sanitize_single_line(front.description.as_str());
    let short_description = match &front.metadata {
        Some(m) => match &m.short_description {
            Some(v) => {
                let s = sanitize_single_line(v.as_str());
                if to_chars(s.as_str()).len() > 0 {
                    Some(s)
                } else {
                    None
                }
            },
            None => None,
        },
        None => None,
    };
    if let Err(e) = validate_field(name.as_str(), MAX_NAME_LEN, "name") {
        return Err(e);
    }
    if let Err(e) = validate_field(description.as_str(), MAX_DESCRIPTION_LEN, "description") {
        return Err(e);
    }
    if let Some(sd) = &short_description {
        if let Err(e) = validate_field(sd.as_str(), MAX_SHORT_DESCRIPTION_LEN, "metadata.short-description") {
            return Err(e);
        }
    }
    let resources = match parse_skill_resources(&front.resources) {
        Err(e) => return Err(e),
        Ok(x) => x,
    };
    let commands = match parse_skill_commands(&front.commands, &resources) {
        Err(e) => return Err(e),
        Ok(x) => x,
    };
    let workflow_defaults = match parse_workflow_defaults(&front.workflow_defaults) {
        Err(e) => return Err(e),
        Ok(x) => x,
    };
    let policy = match &front.policy {
        Some(p) => match parse_skill_policy(p) {
            Err(e) => return Err(e),
            Ok(x) => Some(x),
        },
        None => None,
    };
    Ok(SkillMetadata {
        name,
        description,
        short_description,
        path: to_owned_string(resolved_path),
        scope,
        content: contents,
        policy,
        resources,
        commands,
        workflow_defaults,
    })
}

/// Splits text at `\n` into pieces; there is always one piece more than
/// there are newlines.
pub open spec fn split_nl(s: Seq<char>) -> Seq<Seq<char>>
    decreases s.len(),
{
    if s.len() == 0 {
        seq![Seq::empty()]
    } else {
        let p = split_nl(s.drop_last());
        if s.last() == '\n' {
            p.push(Seq::empty())
        } else {
            p.update(p.len() - 1, p.last().push(s.last()))
        }
    }
}

proof fn lemma_split_nl_len(s: Seq<char>)
    ensures
        split_nl(s).len() >= 1,
    decreases s.len(),
{
    if s.len() > 0 {
        lemma_split_nl_len(s.drop_last());
    }
}

/// A line without its `\r` ending.
pub open spec fn strip_cr(l: Seq<char>) -> Seq<char> {
    if l.len() > 0 && l.last() == '\r' {
        l.drop_last()
    } else {
        l
    }
}

/// The lines of a text, as `str::lines` gives them: split at `\n`, a `\r`
/// before the `\n` dropped, and no empty line after a final `\n`.
pub open spec fn lines_of(s: Seq<char>) -> Seq<Seq<char>> {
    let p = split_nl(s);
    let init = p.drop_last().map_values(|l: Seq<char>| strip_cr(l));
    if p.last().len() > 0 {
        init.push(p.last())
    } else {
        init
    }
}

/// Splits text into lines.
pub fn split_lines(s: &str) -> (r: Vec<String>)
    ensures
        strings_view(r@) == lines_of(s@),
{
    let v = to_chars(s);
    let mut done: Vec<String> = Vec::new();
    let mut cur: Vec<char> = Vec::new();
    let mut i: usize = 0;
    proof {
        assert(v@.take(0) =~= Seq::<char>::empty());
        assert(strings_view(done@) =~= split_nl(v@.take(0)).drop_last().map_values(|l: Seq<char>| strip_cr(l)));
    }
    while i < v.len()
        invariant
            i <= v.len(),
            v@ == s@,
            strings_view(done@) == split_nl(v@.take(i as int)).drop_last().map_values(|l: Seq<char>| strip_cr(l)),
            cur@ == split_nl(v@.take(i as int)).last(),
        decreases v.len() - i,
    {
        let c = v[i];
        let ghost p = split_nl(v@.take(i as int));
        proof {
            lemma_split_nl_len(v@.take(i as int));
            assert(v@.take(i + 1).drop_last() =~= v@.take(i as int));
            assert(v@.take(i + 1).last() == c);
        }
        if c == '\n' {
            let n = cur.len();
            let line = if n > 0 && cur[n - 1] == '\r' {
                crate::text::from_chars_range(&cur, 0, n - 1)
            } else {
                crate::text::from_chars(&cur)
            };
            proof {
                assert(line@ =~= strip_cr(cur@));
            }
            push_line(&mut done, line);
            cur = Vec::new();
            proof {
                assert(split_nl(v@.take(i + 1)) == p.push(Seq::<char>::empty()));
                assert(p.push(Seq::<char>::empty()).drop_last() =~= p);
                assert(p =~= p.drop_last().push(p.last()));
                assert(strings_view(done@) =~= p.map_values(|l: Seq<char>| strip_cr(l)));
                assert(p.map_values(|l: Seq<char>| strip_cr(l)) =~= split_nl(v@.take(i + 1)).drop_last().map_values(
                    |l: Seq<char>| strip_cr(l),
                ));
                assert(cur@ =~= split_nl(v@.take(i + 1)).last());
            }
        } else {
            cur.push(c);
            proof {
                let q = split_nl(v@.take(i + 1));
                assert(q == p.update(p.len() - 1, p.last().push(c)));
                assert(q.drop_last() =~= p.drop_last());
            }
        }
        i = i + 1;
    }
    proof {
        assert(v@.take(v.len() as int) =~= v@);
        lemma_split_nl_len(s@);
    }
    if cur.len() > 0 {
        push_line(&mut done, crate::text::from_chars(&cur));
    }
    done
}

/// Position of the closing `---` line, looked for from line `j` on.
pub open spec fn closing_from(ls: Seq<Seq<char>>, j: int) -> Option<int>
    decreases ls.len() - j,
{
    if j < 1 || j >= ls.len() {
        None
    } else if trimmed(ls[j]) == "---"@ {
        Some(j)
    } else {
        closing_from(ls, j + 1)
    }
}

/// The frontmatter of a skill file: the lines between a first line `---`
/// and the next line `---` (each compared without surrounding white
/// space), joined by newlines; `None` without both delimiters or with
/// nothing between them.
pub open spec fn frontmatter_of(contents: Seq<char>) -> Option<Seq<char>> {
    let ls = lines_of(contents);
    if ls.len() == 0 || trimmed(ls[0]) != "---"@ {
        None
    } else {
        match closing_from(ls, 1) {
            None => None,
            Some(j) => if j == 1 {
                None
            } else {
                Some(join_seqs(ls.subrange(1, j), "\n"@))
            },
        }
    }
}

/// Extracts the YAML frontmatter of a skill file.
pub fn extract_frontmatter(contents: &str) -> (r: Option<String>)
    ensures
        opt_view(r) == frontmatter_of(contents@),
{
    let lines = split_lines(contents);
    let ghost ls = lines_of(contents@);
    if lines.len() == 0 {
        return None;
    }
    let first = trim_string(lines[0].as_str());
    proof {
        assert(ls[0] == lines@[0]@);
    }
    if !crate::text::str_eq(first.as_str(), "---") {
        return None;
    }
    let mut j: usize = 1;
    while j < lines.len()
        invariant
            1 <= j <= lines.len(),
            ls == lines_of(contents@),
            strings_view(lines@) == ls,
            closing_from(ls, 1) == closing_from(ls, j as int),
        ensures
            1 <= j <= lines.len(),
            closing_from(ls, 1) == closing_from(ls, j as int),
            j < lines.len() ==> trimmed(ls[j as int]) == "---"@,
        decreases lines.len() - j,
    {
        let t = trim_string(lines[j].as_str());
        proof {
            assert(ls[j as int] == lines@[j as int]@);
        }
        if crate::text::str_eq(t.as_str(), "---") {
            break;
        }
        j = j + 1;
    }
    if j == lines.len() || j == 1 {
        return None;
    }
    let mut body: Vec<String> = Vec::new();
    let mut k: usize = 1;
    while k < j
        invariant
            1 <= k <= j < lines.len(),
            strings_view(lines@) == ls,
            strings_view(body@) == ls.subrange(1, k as int),
        decreases j - k,
    {
        proof {
            assert(ls.subrange(1, k + 1) =~= ls.subrange(1, k as int).push(lines@[k as int]@));
        }
        push_line(&mut body, clone_string(&lines[k]));
        k = k + 1;
    }
    Some(join_strings(&body, "\n"))
}

/// A path of the frontmatter resolved against the skill's directory: an
/// absolute path as it is, a relative one joined onto the directory.
pub open spec fn relative_path(skill_dir: Seq<char>, path: Seq<char>) -> Seq<char> {
    if path.len() > 0 && path[0] == '/' {
        path
    } else {
        crate::review_store::path_join(skill_dir, path)
    }
}

/// Resolves a path of the frontmatter against the skill's directory
/// (symbolic links are the caller's to resolve).
pub fn resolve_skill_relative_path(skill_dir: &str, path: &str) -> (r: String)
    ensures
        r@ == relative_path(skill_dir@, path@),
{
    let v = to_chars(path);
    if v.len() > 0 && v[0] == '/' {
        to_owned_string(path)
    } else {
        crate::review_store::join_path(skill_dir, path)
    }
}

/// Which skills a configuration rule applies to.
#[derive(Debug, Clone, PartialEq, Eq)]
pub enum SkillConfigRuleSelector {
    Name(String),
    Path(String),
}

/// A configuration rule that enables or disables implicit invocation.
#[derive(Debug, Clone, PartialEq, Eq)]
pub struct SkillConfigRule {
    pub selector: SkillConfigRuleSelector,
    pub enabled: bool,
}

/// The rule applies to the skill: same name, or same path.
pub open spec fn rule_selects(rule: SkillConfigRule, skill: MetadataView) -> bool {
    match rule.selector {
        SkillConfigRuleSelector::Name(n) => skill.name == n@,
        SkillConfigRuleSelector::Path(p) => skill.path == p@,
    }
}

/// A policy with implicit invocation set; a skill without a policy gets an
/// empty one.
pub open spec fn with_allow(p: Option<SkillPolicyView>, enabled: bool) -> SkillPolicyView {
    match p {
        Some(v) => SkillPolicyView { allow_implicit_invocation: Some(enabled), ..v },
        None => SkillPolicyView { allow_implicit_invocation: Some(enabled), command_policies: Seq::empty() },
    }
}

/// The policy of a skill after the rules, applied in order: each rule that
/// applies sets implicit invocation, so the last one wins.
pub open spec fn policy_after_rules(rules: Seq<SkillConfigRule>, skill: MetadataView) -> Option<SkillPolicyView>
    decreases rules.len(),
{
    if rules.len() == 0 {
        skill.policy
    } else {
        let prev = policy_after_rules(rules.drop_last(), skill);
        if rule_selects(rules.last(), skill) {
            Some(with_allow(prev, rules.last().enabled))
        } else {
            prev
        }
    }
}

/// A skill with another policy.
pub open spec fn with_policy(v: MetadataView, p: Option<SkillPolicyView>) -> MetadataView {
    MetadataView { policy: p, ..v }
}

/// Sets whether a skill may be invoked implicitly.
pub fn set_allow_implicit_invocation(skill: &mut SkillMetadata, enabled: bool)
    ensures
        final(skill)@ == with_policy(old(skill)@, Some(with_allow(old(skill)@.policy, enabled))),
{
    let mut policy: Option<SkillPolicy> = None;
    std::mem::swap(&mut policy, &mut skill.policy);
    let updated = match policy {
        Some(p) => SkillPolicy { allow_implicit_invocation: Some(enabled), command_policies: p.command_policies },
        None => SkillPolicy { allow_implicit_invocation: Some(enabled), command_policies: Vec::new() },
    };
    skill.policy = Some(updated);
    proof {
        assert(command_policy_views(Seq::<SkillCommandPolicy>::empty()) =~= Seq::<CommandPolicyView>::empty());
    }
}

fn rule_selects_exec(rule: &SkillConfigRule, skill: &SkillMetadata) -> (b: bool)
    ensures
        b == rule_selects(*rule, skill@),
{
    match &rule.selector {
        SkillConfigRuleSelector::Name(n) => crate::text::str_eq(skill.name.as_str(), n.as_str()),
        SkillConfigRuleSelector::Path(p) => crate::text::str_eq(skill.path.as_str(), p.as_str()),
    }
}

/// Applies the configuration's skill rules in order.
pub fn apply_skill_config_rules(skills: &mut Vec<SkillMetadata>, rules: &Vec<SkillConfigRule>)
    ensures
        final(skills)@.len() == old(skills)@.len(),
        forall|k: int|
            0 <= k < old(skills)@.len() ==> (#[trigger] final(skills)@[k])@ == with_policy(old(skills)@[k]@, policy_after_rules(rules@, old(skills)@[k]@)),
{
    let ghost orig = skills@;
    let mut r: usize = 0;
    while r < rules.len()
        invariant
            r <= rules.len(),
            skills@.len() == orig.len(),
            forall|k: int|
                0 <= k < orig.len() ==> (#[trigger] skills@[k])@ == with_policy(orig[k]@, policy_after_rules(rules@.take(r as int), orig[k]@)),
        decreases rules.len() - r,
    {
        let rule = &rules[r];
        proof {
            assert(rules@.take(r + 1).drop_last() =~= rules@.take(r as int));
            assert(rules@.take(r + 1).last() == *rule);
        }
        let mut i: usize = 0;
        while i < skills.len()
            invariant
                i <= skills.len(),
                r < rules.len(),
                *rule == rules@[r as int],
                skills@.len() == orig.len(),
                forall|k: int|
                    0 <= k < i ==> (#[trigger] skills@[k])@ == with_policy(orig[k]@, policy_after_rules(rules@.take(r + 1), orig[k]@)),
                forall|k: int|
                    i <= k < orig.len() ==> (#[trigger] skills@[k])@ == with_policy(orig[k]@, policy_after_rules(rules@.take(r as int), orig[k]@)),
                rules@.take(r + 1).drop_last() == rules@.take(r as int),
                rules@.take(r + 1).last() == *rule,
            decreases skills.len() - i,
        {
            let ghost before = skills@;
            let mut sk = skills.remove(i);
            proof {
                assert(sk == before[i as int]);
            }
            if rule_selects_exec(rule, &sk) {
                set_allow_implicit_invocation(&mut sk, rule.enabled);
            }
            skills.insert(i, sk);
            proof {
                assert forall|k: int| 0 <= k < orig.len() && k != i implies #[trigger] skills@[k] == before[k] by {}
            }
            i = i + 1;
        }
        r = r + 1;
    }
    proof {
        assert(rules@.take(rules@.len() as int) =~= rules@);
    }
}

/// A directory searched for skills, and the scope of what it holds.
#[derive(Debug, Clone, PartialEq, Eq)]
pub struct SkillRoot {
    pub path: String,
    pub scope: SkillScope,
}

/// Directory of skills installed by an administrator.
pub const ADMIN_SKILLS_ROOT: &'static str = "/etc/codex/skills";

/// The root of administrator skills.
pub fn admin_skills_root() -> (r: SkillRoot)
    ensures
        r.path@ == ADMIN_SKILLS_ROOT@,
        r.scope == SkillScope::Admin,
{
    SkillRoot { path: to_owned_string(ADMIN_SKILLS_ROOT), scope: SkillScope::Admin }
}

/// Some skill of `r` has name `n`.
pub open spec fn name_seen(r: Seq<MetadataView>, n: Seq<char>) -> bool {
    exists|j: int| 0 <= j < r.len() && r[j].name == n
}

/// The skills of `s` whose name did not occur earlier: the first skill of
/// each name wins.
pub open spec fn dedup_by_name(s: Seq<MetadataView>) -> Seq<MetadataView>
    decreases s.len(),
{
    if s.len() == 0 {
        s
    } else {
        let r = dedup_by_name(s.drop_last());
        if name_seen(r, s.last().name) {
            r
        } else {
            r.push(s.last())
        }
    }
}

/// Names strictly increase along `r`.
pub open spec fn sorted_by_name(r: Seq<MetadataView>) -> bool {
    forall|i: int, j: int| 0 <= i < j < r.len() ==> crate::order::seq_lt(#[trigger] r[i].name, #[trigger] r[j].name)
}

/// `a` and `b` hold the same skills, each as often.
pub open spec fn same_skills(a: Seq<MetadataView>, b: Seq<MetadataView>) -> bool {
    &&& a.len() == b.len()
    &&& forall|i: int| 0 <= i < a.len() ==> b.contains(#[trigger] a[i])
    &&& forall|i: int| 0 <= i < b.len() ==> a.contains(#[trigger] b[i])
}

/// Views of a list of skills.
pub open spec fn skill_views(s: Seq<SkillMetadata>) -> Seq<MetadataView> {
    s.map_values(|m: SkillMetadata| m@)
}

proof fn lemma_dedup_distinct(s: Seq<MetadataView>)
    ensures
        forall|i: int, j: int|
            0 <= i < j < dedup_by_name(s).len() ==> #[trigger] dedup_by_name(s)[i].name != #[trigger] dedup_by_name(s)[j].name,
    decreases s.len(),
{
    if s.len() > 0 {
        lemma_dedup_distinct(s.drop_last());
    }
}

/// Keeps the first skill of each name and orders the skills by name.
pub fn finalize_loaded_skills(skills: Vec<SkillMetadata>) -> (r: Vec<SkillMetadata>)
    ensures
        sorted_by_name(skill_views(r@)),
        same_skills(skill_views(r@), dedup_by_name(skill_views(skills@))),
{
    let ghost input = skill_views(skills@);
    let skills_len = skills.len();
    let mut rest = skills;
    let mut out: Vec<SkillMetadata> = Vec::new();
    let mut taken: usize = 0;
    let ghost n = rest@.len();
    proof {
        assert(input.take(0) =~= Seq::<MetadataView>::empty());
        assert(skill_views(out@) =~= Seq::<MetadataView>::empty());
    }
    while rest.len() > 0
        invariant
            taken + rest@.len() == n,
            n == input.len(),
            n == skills_len,
            forall|q: int| 0 <= q < rest@.len() ==> (#[trigger] rest@[q])@ == input[q + taken],
            sorted_by_name(skill_views(out@)),
            same_skills(skill_views(out@), dedup_by_name(input.take(taken as int))),
        decreases rest@.len(),
    {
        let ghost ov = skill_views(out@);
        let ghost d = dedup_by_name(input.take(taken as int));
        let sk = rest.remove(0);
        let ghost x = sk@;
        proof {
            assert(input.take(taken + 1).drop_last() =~= input.take(taken as int));
            assert(input.take(taken + 1).last() == x);
            assert forall|q: int| 0 <= q < rest@.len() implies (#[trigger] rest@[q])@ == input[q + taken + 1] by {}
        }
        let mut p: usize = 0;
        let mut seen = false;
        while p < out.len()
            invariant_except_break
                !seen,
            invariant
                p <= out.len(),
                skill_views(out@) == ov,
                x == sk@,
                forall|q: int| 0 <= q < p ==> crate::order::seq_lt(#[trigger] ov[q].name, x.name),
            ensures
                p <= out.len(),
                skill_views(out@) == ov,
                seen ==> p < out.len() && ov[p as int].name == x.name,
                !seen ==> forall|q: int| 0 <= q < p ==> crate::order::seq_lt(#[trigger] ov[q].name, x.name),
                !seen && p < out.len() ==> crate::order::seq_lt(x.name, ov[p as int].name),
            decreases out.len() - p,
        {
            let c = crate::order::compare_str(out[p].name.as_str(), sk.name.as_str());
            proof {
                assert(ov[p as int] == out@[p as int]@);
            }
            if c == 0 {
                seen = true;
                break;
            }
            if c > 0 {
                proof {
                    crate::order::lemma_seq_lt_asym(ov[p as int].name, x.name);
                    crate::order::lemma_seq_lt_total(ov[p as int].name, x.name);
                }
                break;
            }
            p = p + 1;
        }
        if !seen {
            proof {
                assert forall|q: int| p <= q < ov.len() implies crate::order::seq_lt(x.name, #[trigger] ov[q].name) by {
                    if q > p {
                        crate::order::lemma_seq_lt_trans(x.name, ov[p as int].name, ov[q].name);
                    }
                }
            }
        }
        proof {
            if seen {
                assert(d.contains(ov[p as int]));
                let k = choose|k: int| 0 <= k < d.len() && d[k] == ov[p as int];
                assert(name_seen(d, x.name));
            } else {
                if name_seen(d, x.name) {
                    let k = choose|k: int| 0 <= k < d.len() && d[k].name == x.name;
                    assert(ov.contains(d[k]));
                    let q = choose|q: int| 0 <= q < ov.len() && ov[q] == d[k];
                    if q < p {
                        crate::order::lemma_seq_lt_irrefl(x.name);
                    } else {
                        crate::order::lemma_seq_lt_irrefl(x.name);
                    }
                }
                assert(!name_seen(d, x.name));
            }
        }
        if !seen {
            out.insert(p, sk);
            proof {
                let nv = skill_views(out@);
                assert(nv =~= ov.insert(p as int, x));
                let nd = d.push(x);
                assert(dedup_by_name(input.take(taken + 1)) == nd);
                assert forall|i: int, j: int| 0 <= i < j < nv.len() implies crate::order::seq_lt(#[trigger] nv[i].name, #[trigger] nv[j].name) by {
                    if j < p {
                        assert(nv[i] == ov[i] && nv[j] == ov[j]);
                    } else if j == p {
                        assert(nv[i] == ov[i]);
                    } else if i == p {
                        assert(nv[j] == ov[j - 1]);
                    } else if i < p {
                        assert(nv[i] == ov[i] && nv[j] == ov[j - 1]);
                    } else {
                        assert(nv[i] == ov[i - 1] && nv[j] == ov[j - 1]);
                    }
                }
                assert forall|i: int| 0 <= i < nv.len() implies nd.contains(#[trigger] nv[i]) by {
                    if i == p {
                        assert(nd[d.len() as int] == x);
                    } else if i < p {
                        assert(nv[i] == ov[i]);
                        assert(d.contains(ov[i]));
                        let k = choose|k: int| 0 <= k < d.len() && d[k] == ov[i];
                        assert(nd[k] == d[k]);
                    } else {
                        assert(nv[i] == ov[i - 1]);
                        assert(d.contains(ov[i - 1]));
                        let k = choose|k: int| 0 <= k < d.len() && d[k] == ov[i - 1];
                        assert(nd[k] == d[k]);
                    }
                }
                assert forall|i: int| 0 <= i < nd.len() implies nv.contains(#[trigger] nd[i]) by {
                    if i == d.len() {
                        assert(nv[p as int] == x);
                    } else {
                        assert(nd[i] == d[i]);
                        assert(ov.contains(d[i]));
                        let q = choose|q: int| 0 <= q < ov.len() && ov[q] == d[i];
                        if q < p {
                            assert(nv[q] == ov[q]);
                        } else {
                            assert(nv[q + 1] == ov[q]);
                        }
                    }
                }
            }
        } else {
            proof {
                assert(dedup_by_name(input.take(taken + 1)) == d);
            }
        }
        taken = taken + 1;
    }
    proof {
        assert(input.take(n as int) =~= input);
    }
    out
}

/// Name of the file that defines a skill.
pub const SKILLS_FILENAME: &'static str = "SKILL.md";

/// Whether discovery follows symbolic links under a root of this scope:
/// everywhere but in the system cache.
pub open spec fn follows_symlinks_spec(scope: SkillScope) -> bool {
    scope == SkillScope::Repo || scope == SkillScope::User || scope == SkillScope::Admin
}

/// Whether discovery follows symbolic links under a root of this scope.
pub fn follows_symlinks(scope: SkillScope) -> (b: bool)
    ensures
        b == follows_symlinks_spec(scope),
{
    match scope {
        SkillScope::Repo | SkillScope::User | SkillScope::Admin => true,
        SkillScope::System => false,
    }
}

/// What a directory entry met during discovery is.
#[derive(Debug, Clone, Copy, PartialEq, Eq, Structural)]
pub enum SkillEntryKind {
    /// A symbolic link, and whether it leads to a directory.
    Symlink { target_is_dir: bool },
    Dir,
    File,
    Other,
}

/// What discovery does with a directory entry.
#[derive(Debug, Clone, Copy, PartialEq, Eq, Structural)]
pub enum SkillEntryAction {
    Skip,
    EnqueueDir,
    ParseSkill,
}

/// The action for an entry: hidden entries are skipped; directories, and
/// links to directories where links are followed, are searched; files named
/// `SKILL.md` are parsed.
pub open spec fn entry_action_spec(file_name: Seq<char>, kind: SkillEntryKind, scope: SkillScope) -> SkillEntryAction {
    if file_name.len() > 0 && file_name[0] == '.' {
        SkillEntryAction::Skip
    } else {
        match kind {
            SkillEntryKind::Symlink { target_is_dir } => if follows_symlinks_spec(scope) && target_is_dir {
                SkillEntryAction::EnqueueDir
            } else {
                SkillEntryAction::Skip
            },
            SkillEntryKind::Dir => SkillEntryAction::EnqueueDir,
            SkillEntryKind::File => if file_name == SKILLS_FILENAME@ {
                SkillEntryAction::ParseSkill
            } else {
                SkillEntryAction::Skip
            },
            SkillEntryKind::Other => SkillEntryAction::Skip,
        }
    }
}

/// A visible link to a directory is searched like the directory itself
/// under repository, user and admin roots, and skipped only under the
/// system cache; a link to anything else is never followed.
pub proof fn law_directory_links_followed_outside_system_cache(file_name: Seq<char>, scope: SkillScope)
    requires
        !(file_name.len() > 0 && file_name[0] == '.'),
    ensures
        scope != SkillScope::System ==> entry_action_spec(file_name, (SkillEntryKind::Symlink { target_is_dir: true }), scope)
            == SkillEntryAction::EnqueueDir,
        scope == SkillScope::System ==> entry_action_spec(file_name, (SkillEntryKind::Symlink { target_is_dir: true }), scope)
            == SkillEntryAction::Skip,
        scope != SkillScope::System ==> entry_action_spec(file_name, (SkillEntryKind::Symlink { target_is_dir: true }), scope)
            == entry_action_spec(file_name, SkillEntryKind::Dir, scope),
        entry_action_spec(file_name, (SkillEntryKind::Symlink { target_is_dir: false }), scope) == SkillEntryAction::Skip,
{
}

/// Entries whose names start with a dot are skipped whatever they are;
/// visible directories are always searched, and a visible file is parsed
/// exactly when it is named `SKILL.md`.
pub proof fn law_hidden_skipped_dirs_searched_skill_files_parsed(
    file_name: Seq<char>,
    kind: SkillEntryKind,
    scope: SkillScope,
)
    ensures
        file_name.len() > 0 && file_name[0] == '.' ==> entry_action_spec(file_name, kind, scope)
            == SkillEntryAction::Skip,
        !(file_name.len() > 0 && file_name[0] == '.') ==> entry_action_spec(file_name, SkillEntryKind::Dir, scope)
            == SkillEntryAction::EnqueueDir,
        (entry_action_spec(file_name, SkillEntryKind::File, scope) == SkillEntryAction::ParseSkill) == (file_name
            == "SKILL.md"@),
        entry_action_spec(file_name, SkillEntryKind::Other, scope) == SkillEntryAction::Skip,
        entry_action_spec(file_name, kind, scope) == SkillEntryAction::ParseSkill ==> kind == SkillEntryKind::File,
{
    reveal_strlit("SKILL.md");
}

/// Decides what discovery does with a directory entry.
pub fn skill_entry_action(file_name: &str, kind: SkillEntryKind, scope: SkillScope) -> (a: SkillEntryAction)
    ensures
        a == entry_action_spec(file_name@, kind, scope),
{
    let v = to_chars(file_name);
    if v.len() > 0 && v[0] == '.' {
        return SkillEntryAction::Skip;
    }
    match kind {
        SkillEntryKind::Symlink { target_is_dir } => {
            if follows_symlinks(scope) && target_is_dir {
                SkillEntryAction::EnqueueDir
            } else {
                SkillEntryAction::Skip
            }
        },
        SkillEntryKind::Dir => SkillEntryAction::EnqueueDir,
        SkillEntryKind::File => {
            if crate::text::str_eq(file_name, SKILLS_FILENAME) {
                SkillEntryAction::ParseSkill
            } else {
                SkillEntryAction::Skip
            }
        },
        SkillEntryKind::Other => SkillEntryAction::Skip,
    }
}

/// Queues a directory for the breadth-first search unless it was seen
/// before.
pub fn enqueue_dir(queue: &mut Vec<String>, visited: &mut Vec<String>, path: String)
    ensures
        strings_view(old(visited)@).contains(path@) ==> final(queue)@ == old(queue)@ && final(visited)@ == old(visited)@,
        !strings_view(old(visited)@).contains(path@) ==> strings_view(final(queue)@) == strings_view(old(queue)@).push(path@)
            && strings_view(final(visited)@) == strings_view(old(visited)@).push(path@),
{
    if !crate::text::contains_text(visited, path.as_str()) {
        push_line(visited, clone_string(&path));
        push_line(queue, path);
    }
}

/// Records the outcome of parsing one skill file: the skill, or an error
/// unless the root is the system cache.
pub fn record_skill_result(
    outcome: &mut crate::skill_model::SkillLoadOutcome,
    path: &str,
    result: Result<SkillMetadata, SkillParseError>,
    scope: SkillScope,
)
    ensures
        match result {
            Ok(skill) => final(outcome).skills@ == old(outcome).skills@.push(skill) && final(outcome).errors@
                == old(outcome).errors@,
            Err(e) => final(outcome).skills@ == old(outcome).skills@ && if scope == SkillScope::System {
                final(outcome).errors@ == old(outcome).errors@
            } else {
                &&& final(outcome).errors@.len() == old(outcome).errors@.len() + 1
                &&& final(outcome).errors@.drop_last() == old(outcome).errors@
                &&& final(outcome).errors@.last().path@ == path@
                &&& final(outcome).errors@.last().message@ == parse_error_text(e@)
            },
        },
{
    match result {
        Ok(skill) => {
            outcome.skills.push(skill);
        },
        Err(e) => {
            if scope != SkillScope::System {
                let message = e.message();
                outcome.errors.push(crate::skill_model::SkillError { path: to_owned_string(path), message });
                proof {
                    assert(outcome.errors@.drop_last() =~= old(outcome).errors@);
                }
            }
        },
    }
}

/// The roots in load order: repository `.agents` roots, repository `.codex`
/// roots, the home `.agents` root, the user root, the system cache and the
/// administrator root. Skills of earlier roots win over later ones of the
/// same name.
pub fn skill_roots_in_load_order(
    repo_agents: Vec<SkillRoot>,
    repo_codex: Vec<SkillRoot>,
    home_agents: Option<SkillRoot>,
    user: SkillRoot,
    system: SkillRoot,
    admin: SkillRoot,
) -> (r: Vec<SkillRoot>)
    ensures
        r@ == repo_agents@ + repo_codex@ + (match home_agents {
            Some(h) => seq![h],
            None => Seq::empty(),
        }) + seq![user, system, admin],
{
    let ghost a = repo_agents@;
    let ghost b = repo_codex@;
    let mut roots = repo_agents;
    let mut more = repo_codex;
    roots.append(&mut more);
    if let Some(h) = home_agents {
        roots.push(h);
    }
    roots.push(user);
    roots.push(system);
    roots.push(admin);
    proof {
        assert(roots@ =~= a + b + (match home_agents {
            Some(h) => seq![h],
            None => Seq::empty(),
        }) + seq![user, system, admin]);
    }
    roots
}

/// The positions of `keys` whose key did not occur earlier.
pub open spec fn first_key_positions(keys: Seq<Seq<char>>) -> Seq<int>
    decreases keys.len(),
{
    if keys.len() == 0 {
        Seq::empty()
    } else {
        let r = first_key_positions(keys.drop_last());
        if keys.drop_last().contains(keys.last()) {
            r
        } else {
            r.push(keys.len() - 1)
        }
    }
}

/// Keeps the first root of each key; `keys[i]` is the normalized path of
/// `roots[i]`.
pub fn dedupe_skill_roots_by_path(roots: Vec<SkillRoot>, keys: &Vec<String>) -> (r: Vec<SkillRoot>)
    requires
        keys@.len() == roots@.len(),
    ensures
        r@.len() == first_key_positions(strings_view(keys@)).len(),
        forall|j: int|
            0 <= j < r@.len() ==> #[trigger] r@[j] == roots@[first_key_positions(strings_view(keys@))[j]],
{
    let ghost ks = strings_view(keys@);
    let ghost rs = roots@;
    let mut rest = roots;
    let mut out: Vec<SkillRoot> = Vec::new();
    let mut i: usize = 0;
    proof {
        assert(ks.take(0) =~= Seq::<Seq<char>>::empty());
    }
    while rest.len() > 0
        invariant
            i + rest@.len() == rs.len(),
            ks.len() == rs.len(),
            ks == strings_view(keys@),
            forall|q: int| 0 <= q < rest@.len() ==> #[trigger] rest@[q] == rs[q + i],
            out@.len() == first_key_positions(ks.take(i as int)).len(),
            forall|j: int| 0 <= j < out@.len() ==> #[trigger] out@[j] == rs[first_key_positions(ks.take(i as int))[j]],
        decreases rest@.len(),
    {
        let root = rest.remove(0);
        let ghost t = ks.take(i + 1);
        proof {
            assert(t.drop_last() =~= ks.take(i as int));
            assert(t.last() == ks[i as int]);
            assert forall|q: int| 0 <= q < rest@.len() implies #[trigger] rest@[q] == rs[q + i + 1] by {}
        }
        let mut seen = false;
        let mut k: usize = 0;
        while k < i
            invariant
                k <= i < keys.len(),
                ks == strings_view(keys@),
                seen == ks.take(k as int).contains(ks[i as int]),
            decreases i - k,
        {
            let eq = crate::text::str_eq(keys[k].as_str(), keys[i].as_str());
            if eq {
                seen = true;
            }
            proof {
                assert(eq == (ks[k as int] == ks[i as int]));
                assert(ks[k as int] == keys@[k as int]@);
                assert(ks[i as int] == keys@[i as int]@);
                assert(ks.take(k + 1) =~= ks.take(k as int).push(ks[k as int]));
                let a = ks.take(k as int);
                let b = ks.take(k + 1);
                if eq {
                    assert(b[k as int] == ks[i as int]);
                }
                if b.contains(ks[i as int]) {
                    let w = choose|w: int| 0 <= w < b.len() && b[w] == ks[i as int];
                    if w < k {
                        assert(a[w] == ks[i as int]);
                    }
                }
                if a.contains(ks[i as int]) {
                    let w = choose|w: int| 0 <= w < a.len() && a[w] == ks[i as int];
                    assert(b[w] == ks[i as int]);
                }
            }
            k = k + 1;
        }
        proof {
            assert(ks.take(i as int) == t.drop_last());
        }
        if !seen {
            out.push(root);
        }
        i = i + 1;
    }
    proof {
        assert(ks.take(rs.len() as int) =~= ks);
    }
    out
}


/// The skills that discovery over all roots produced, as configured: the first
/// skill of each name is kept, the skills are sorted by name, and the
/// configuration rules then set implicit invocation. Errors pass through.
pub fn load_skills(discovered: SkillLoadOutcome, rules: &Vec<SkillConfigRule>) -> (r: SkillLoadOutcome)
    ensures
        r.errors@ == discovered.errors@,
        exists|f: Seq<MetadataView>|
            {
                &&& sorted_by_name(f)
                &&& same_skills(f, dedup_by_name(skill_views(discovered.skills@)))
                &&& r.skills@.len() == f.len()
                &&& forall|k: int|
                    0 <= k < f.len() ==> (#[trigger] r.skills@[k])@ == with_policy(f[k], policy_after_rules(rules@, f[k]))
            },
{
    let SkillLoadOutcome { skills, errors } = discovered;
    let mut finalized = finalize_loaded_skills(skills);
    let ghost f = skill_views(finalized@);
    apply_skill_config_rules(&mut finalized, rules);
    proof {
        assert forall|k: int| 0 <= k < f.len() implies (#[trigger] finalized@[k])@ == with_policy(f[k], policy_after_rules(rules@, f[k])) by {}
    }
    SkillLoadOutcome { skills: finalized, errors }
}

} // verus!
