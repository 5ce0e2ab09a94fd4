//! Command policies of loaded skills: which raw shell commands a skill owns,
//! how an overlap of several matching policies is resolved, and the guidance
//! shown when a command is stopped.
use vstd::prelude::*;

use crate::skill_model::{
    MatcherView, PreferredView, SkillCommandMatcher, SkillCommandPolicy, SkillCommandPolicyAction,
    SkillCommandPolicyPreferred, SkillCommandPolicyPreferredKind, SkillMetadata, clone_matcher,
    clone_preferred, clone_preferred_list, preferred_views,
};
use crate::text::{
    clone_opt_string, clone_string, clone_strings, concat, contains_text, extend_lines, join_seqs, join_strings,
    opt_view, push_line, push_str, str_eq, strings_view, to_owned_string,
};

verus! {

/// What `regex_lite` makes of a pattern and a text: `Err` with the error's
/// text when the pattern does not compile, else whether the text matches.
pub uninterp spec fn regex_outcome(pattern: Seq<char>, text: Seq<char>) -> Result<bool, Seq<char>>;

/// Compiles `pattern` with `regex_lite::Regex::new` and, when it compiles,
/// tests `text` with `Regex::is_match`. The result is a function of the two
/// texts, named `regex_outcome`; which texts match is not stated here.
#[verifier::external_body]
pub(crate) fn regex_check(pattern: &str, text: &str) -> (r: Result<bool, String>)
    ensures
        match r {
            Ok(b) => regex_outcome(pattern@, text@) == Ok::<bool, Seq<char>>(b),
            Err(e) => regex_outcome(pattern@, text@) == Err::<bool, Seq<char>>(e@),
        },
{
    match regex_lite::Regex::new(pattern) {
        Ok(re) => Ok(re.is_match(text)),
        Err(err) => Err(err.to_string()),
    }
}

/// What `shlex::split` makes of a script: its words, or `None` when the
/// quoting is unbalanced.
pub uninterp spec fn shlex_words(script: Seq<char>) -> Option<Seq<Seq<char>>>;

/// Splits a shell script into words with `shlex::split`; the result is a
/// function of the script, named `shlex_words`.
#[verifier::external_body]
fn shell_split(script: &str) -> (r: Option<Vec<String>>)
    ensures
        match r {
            Some(v) => shlex_words(script@) == Some(strings_view(v@)),
            None => shlex_words(script@) is None,
        },
{
    shlex::split(script)
}

/// Name of a recommended action's kind.
pub open spec fn kind_text(k: SkillCommandPolicyPreferredKind) -> Seq<char> {
    match k {
        SkillCommandPolicyPreferredKind::Script => "script"@,
        SkillCommandPolicyPreferredKind::Skill => "skill"@,
        SkillCommandPolicyPreferredKind::Command => "command"@,
    }
}

fn kind_str(k: SkillCommandPolicyPreferredKind) -> (s: &'static str)
    ensures
        s@ == kind_text(k),
{
    match k {
        SkillCommandPolicyPreferredKind::Script => "script",
        SkillCommandPolicyPreferredKind::Skill => "skill",
        SkillCommandPolicyPreferredKind::Command => "command",
    }
}

/// The parts of the one-line description of a recommended action.
pub open spec fn preferred_parts(p: PreferredView) -> Seq<Seq<char>> {
    let a = seq!["- "@ + kind_text(p.kind)];
    let b = match p.name {
        Some(n) => a.push("name: "@ + n),
        None => a,
    };
    let c = match p.path {
        Some(x) => b.push("path: "@ + x),
        None => b,
    };
    let d = if p.example_argv.len() > 0 {
        c.push("example: "@ + join_seqs(p.example_argv, " "@))
    } else {
        c
    };
    match p.purpose {
        Some(u) => d.push("purpose: "@ + u),
        None => d,
    }
}

/// One-line description of a recommended action.
pub open spec fn preferred_text(p: PreferredView) -> Seq<char> {
    join_seqs(preferred_parts(p), "; "@)
}

/// Describes a recommended action on one line.
pub fn format_preferred(preferred: &SkillCommandPolicyPreferred) -> (s: String)
    ensures
        s@ == preferred_text(preferred@),
{
    let p = preferred;
    let mut parts: Vec<String> = Vec::new();
    push_line(&mut parts, concat("- ", kind_str(p.kind)));
    if let Some(name) = &p.name {
        push_line(&mut parts, concat("name: ", name.as_str()));
    }
    if let Some(path) = &p.path {
        push_line(&mut parts, concat("path: ", path.as_str()));
    }
    if p.example_argv.len() > 0 {
        let ex = join_strings(&p.example_argv, " ");
        push_line(&mut parts, concat("example: ", ex.as_str()));
    }
    if let Some(purpose) = &p.purpose {
        push_line(&mut parts, concat("purpose: ", purpose.as_str()));
    }
    proof {
        assert(strings_view(parts@) =~= preferred_parts(preferred@));
    }
    join_strings(&parts, "; ")
}

/// Text of an optional value, empty when absent.
pub open spec fn or_empty(o: Option<Seq<char>>) -> Seq<char> {
    match o {
        Some(x) => x,
        None => Seq::empty(),
    }
}

/// The key by which recommended actions are told apart: kind, path, name
/// and example joined by the unit separator.
pub open spec fn preferred_key_text(p: PreferredView) -> Seq<char> {
    kind_text(p.kind) + "\u{1f}"@ + or_empty(p.path) + "\u{1f}"@ + or_empty(p.name) + "\u{1f}"@
        + join_seqs(p.example_argv, "\u{1f}"@)
}

/// The identity key of a recommended action.
pub fn preferred_key(preferred: &SkillCommandPolicyPreferred) -> (s: String)
    ensures
        s@ == preferred_key_text(preferred@),
{
    let mut s = concat(kind_str(preferred.kind), "\u{1f}");
    if let Some(path) = &preferred.path {
        push_str(&mut s, path.as_str());
    }
    push_str(&mut s, "\u{1f}");
    if let Some(name) = &preferred.name {
        push_str(&mut s, name.as_str());
    }
    push_str(&mut s, "\u{1f}");
    let ex = join_strings(&preferred.example_argv, "\u{1f}");
    push_str(&mut s, ex.as_str());
    proof {
        assert(s@ =~= preferred_key_text(preferred@));
    }
    s
}

/// Short text of a matcher: the exact argv, the prefix followed by ` ...`,
/// the pattern between slashes, or `<invalid matcher>`.
pub open spec fn matcher_text(m: MatcherView) -> Seq<char> {
    match m.argv_exact {
        Some(e) => join_seqs(e, " "@),
        None => match m.argv_prefix {
            Some(p) => join_seqs(p, " "@) + " ..."@,
            None => match m.shell_regex {
                Some(r) => "/"@ + r + "/"@,
                None => "<invalid matcher>"@,
            },
        },
    }
}

/// Describes a matcher.
pub fn describe_matcher(matcher: &SkillCommandMatcher) -> (s: String)
    ensures
        s@ == matcher_text(matcher@),
{
    if let Some(argv_exact) = &matcher.argv_exact {
        return join_strings(argv_exact, " ");
    }
    if let Some(argv_prefix) = &matcher.argv_prefix {
        let mut s = join_strings(argv_prefix, " ");
        push_str(&mut s, " ...");
        return s;
    }
    if let Some(shell_regex) = &matcher.shell_regex {
        let mut s = concat("/", shell_regex.as_str());
        push_str(&mut s, "/");
        return s;
    }
    to_owned_string("<invalid matcher>")
}

/// The summary line of one command policy.
pub open spec fn summary_line(cp: SkillCommandPolicy) -> Seq<char> {
    let pref = if cp.preferred@.len() > 0 {
        preferred_text(cp.preferred@[0]@)
    } else {
        "preferred action declared in skill body"@
    };
    "  - `"@ + matcher_text(cp.matcher@) + "`: use "@ + pref + " instead."@
}

/// The summary lines of a skill's command policies, in declaration order.
pub open spec fn summary_lines(skill: SkillMetadata) -> Seq<Seq<char>> {
    match skill.policy {
        Some(p) => p.command_policies@.map_values(|cp: SkillCommandPolicy| summary_line(cp)),
        None => Seq::empty(),
    }
}

/// One line per command policy of the skill: what it matches and what to use
/// instead.
pub fn render_command_policy_summary(skill: &SkillMetadata) -> (lines: Vec<String>)
    ensures
        strings_view(lines@) == summary_lines(*skill),
{
    let mut lines: Vec<String> = Vec::new();
    let policy = match &skill.policy {
        Some(p) => p,
        None => {
            proof {
                assert(strings_view(lines@) =~= summary_lines(*skill));
            }
            return lines;
        },
    };
    let cps = &policy.command_policies;
    let mut i: usize = 0;
    while i < cps.len()
        invariant
            i <= cps.len(),
            skill.policy == Some(*policy),
            cps == &policy.command_policies,
            strings_view(lines@) == cps@.take(i as int).map_values(|cp: SkillCommandPolicy| summary_line(cp)),
        decreases cps.len() - i,
    {
        let cp = &cps[i];
        let matcher = describe_matcher(&cp.matcher);
        let preferred = if cp.preferred.len() > 0 {
            format_preferred(&cp.preferred[0])
        } else {
            to_owned_string("preferred action declared in skill body")
        };
        let mut line = concat("  - `", matcher.as_str());
        push_str(&mut line, "`: use ");
        push_str(&mut line, preferred.as_str());
        push_str(&mut line, " instead.");
        proof {
            assert(line@ =~= summary_line(*cp));
            assert(cps@.take(i + 1).map_values(|cp: SkillCommandPolicy| summary_line(cp)) =~= cps@.take(
                i as int,
            ).map_values(|cp: SkillCommandPolicy| summary_line(cp)).push(summary_line(cps@[i as int])));
        }
        push_line(&mut lines, line);
        i = i + 1;
    }
    proof {
        assert(cps@.take(cps.len() as int) =~= cps@);
    }
    lines
}

/// Name of a policy action.
pub open spec fn action_text(a: SkillCommandPolicyAction) -> Seq<char> {
    match a {
        SkillCommandPolicyAction::RequirePreferred => "require_preferred"@,
        SkillCommandPolicyAction::RequireConfirm => "require_confirm"@,
        SkillCommandPolicyAction::Reject => "reject"@,
    }
}

/// Names a policy action.
pub fn describe_action(action: SkillCommandPolicyAction) -> (s: &'static str)
    ensures
        s@ == action_text(action),
{
    match action {
        SkillCommandPolicyAction::RequirePreferred => "require_preferred",
        SkillCommandPolicyAction::RequireConfirm => "require_confirm",
        SkillCommandPolicyAction::Reject => "reject",
    }
}

/// A command policy ready to be checked, with its skill and its position in
/// the load order.
#[derive(Debug, Clone)]
pub struct CompiledSkillCommandPolicy {
    pub order: usize,
    pub skill_name: String,
    pub skill_path: String,
    pub id: String,
    pub matcher: SkillCommandMatcher,
    pub action: SkillCommandPolicyAction,
    pub message: Option<String>,
    pub preferred: Vec<SkillCommandPolicyPreferred>,
}

/// The warning of a policy: its own message, or the default of its action.
pub open spec fn policy_message_text(c: CompiledSkillCommandPolicy) -> Seq<char> {
    match c.message {
        Some(m) => m@,
        None => match c.action {
            SkillCommandPolicyAction::RequirePreferred =>
                "A loaded skill owns this workflow; use one of the preferred actions instead."@,
            SkillCommandPolicyAction::RequireConfirm =>
                "A loaded skill requires explicit confirmation before this raw command runs."@,
            SkillCommandPolicyAction::Reject => "A loaded skill rejects this raw command shape."@,
        },
    }
}

fn policy_message(policy: &CompiledSkillCommandPolicy) -> (s: String)
    ensures
        s@ == policy_message_text(*policy),
{
    match &policy.message {
        Some(m) => clone_string(m),
        None => match policy.action {
            SkillCommandPolicyAction::RequirePreferred => to_owned_string(
                "A loaded skill owns this workflow; use one of the preferred actions instead.",
            ),
            SkillCommandPolicyAction::RequireConfirm => to_owned_string(
                "A loaded skill requires explicit confirmation before this raw command runs.",
            ),
            SkillCommandPolicyAction::Reject => to_owned_string(
                "A loaded skill rejects this raw command shape.",
            ),
        },
    }
}

/// `c` is the compiled form of command policy `cp` of `skill`, at position
/// `order` of the load order.
pub open spec fn compiled_from(
    c: CompiledSkillCommandPolicy,
    skill: SkillMetadata,
    cp: SkillCommandPolicy,
    order: int,
) -> bool {
    &&& c.order == order
    &&& c.skill_name@ == skill.name@
    &&& c.skill_path@ == skill.path@
    &&& c.id@ == cp.id@
    &&& c.matcher@ == cp.matcher@
    &&& c.action == cp.action
    &&& opt_view(c.message) == opt_view(cp.message)
    &&& preferred_views(c.preferred@) == preferred_views(cp.preferred@)
}

/// Compiles one command policy of a skill.
pub fn compile_policy(skill: &SkillMetadata, policy: &SkillCommandPolicy, order: usize) -> (c:
    CompiledSkillCommandPolicy)
    ensures
        compiled_from(c, *skill, *policy, order as int),
{
    CompiledSkillCommandPolicy {
        order,
        skill_name: clone_string(&skill.name),
        skill_path: clone_string(&skill.path),
        id: clone_string(&policy.id),
        matcher: clone_matcher(&policy.matcher),
        action: policy.action,
        message: clone_opt_string(&policy.message),
        preferred: clone_preferred_list(&policy.preferred),
    }
}

/// Every command policy of `skills`, with its skill, in load order.
pub open spec fn skill_policies(skills: Seq<SkillMetadata>) -> Seq<(SkillMetadata, SkillCommandPolicy)>
    decreases skills.len(),
{
    if skills.len() == 0 {
        Seq::empty()
    } else {
        let s = skills.last();
        let rest = skill_policies(skills.drop_last());
        match s.policy {
            Some(p) => rest + p.command_policies@.map_values(
                |cp: SkillCommandPolicy| (s, cp),
            ),
            None => rest,
        }
    }
}

/// The command policies of a set of skills, in load order.
pub struct SkillCommandPolicyRuntime {
    policies: Vec<CompiledSkillCommandPolicy>,
}

impl SkillCommandPolicyRuntime {
    /// The compiled policies.
    pub closed spec fn policies_view(&self) -> Seq<CompiledSkillCommandPolicy> {
        self.policies@
    }

    /// Each policy sits at the position its order names.
    pub open spec fn wf(&self) -> bool {
        forall|k: int| 0 <= k < self.policies_view().len() ==> (#[trigger] self.policies_view()[k]).order == k
    }

    /// Compiles the command policies of `skills`, keeping their load order.
    pub fn from_skills(skills: &[SkillMetadata]) -> (rt: Self)
        ensures
            rt.wf(),
            rt.policies_view().len() == skill_policies(skills@).len(),
            forall|k: int|
                0 <= k < rt.policies_view().len() ==> compiled_from(
                    #[trigger] rt.policies_view()[k],
                    skill_policies(skills@)[k].0,
                    skill_policies(skills@)[k].1,
                    k,
                ),
    {
        let mut policies: Vec<CompiledSkillCommandPolicy> = Vec::new();
        let mut i: usize = 0;
        while i < skills.len()
            invariant
                i <= skills.len(),
                policies.len() == skill_policies(skills@.take(i as int)).len(),
                forall|k: int|
                    0 <= k < policies.len() ==> compiled_from(
                        #[trigger] policies@[k],
                        skill_policies(skills@.take(i as int))[k].0,
                        skill_policies(skills@.take(i as int))[k].1,
                        k,
                    ),
            decreases skills.len() - i,
        {
            let skill = &skills[i];
            proof {
                assert(skills@.take(i + 1).drop_last() =~= skills@.take(i as int));
                assert(skills@.take(i + 1).last() == skills@[i as int]);
            }
            let ghost before = skill_policies(skills@.take(i as int));
            if let Some(policy) = &skill.policy {
                let cps = &policy.command_policies;
                let mut j: usize = 0;
                while j < cps.len()
                    invariant
                        j <= cps.len(),
                        skill.policy == Some(*policy),
                        cps == &policy.command_policies,
                        policies.len() == before.len() + j,
                        forall|k: int|
                            0 <= k < policies.len() ==> compiled_from(
                                #[trigger] policies@[k],
                                (before + cps@.map_values(|cp: SkillCommandPolicy| (*skill, cp)))[k].0,
                                (before + cps@.map_values(|cp: SkillCommandPolicy| (*skill, cp)))[k].1,
                                k,
                            ),
                    decreases cps.len() - j,
                {
                    let order = policies.len();
                    let c = compile_policy(skill, &cps[j], order);
                    policies.push(c);
                    j = j + 1;
                }
            }
            i = i + 1;
        }
        proof {
            assert(skills@.take(skills@.len() as int) =~= skills@);
        }
        SkillCommandPolicyRuntime { policies }
    }
}

/// Text after the last `/` of `s` (all of `s` when it has none).
pub open spec fn after_last_slash(s: Seq<char>) -> Seq<char>
    decreases s.len(),
{
    if s.len() == 0 {
        s
    } else if s.last() == '/' {
        Seq::empty()
    } else {
        after_last_slash(s.drop_last()).push(s.last())
    }
}

/// A shell that takes a script with `-c`.
pub open spec fn is_shell_name(s: Seq<char>) -> bool {
    s == "bash"@ || s == "sh"@ || s == "zsh"@ || s == "fish"@
}

/// A flag that passes the script.
pub open spec fn is_script_flag(s: Seq<char>) -> bool {
    s == "-c"@ || s == "-lc"@ || s == "-ic"@
}

/// Scans the flags of a shell invocation from position `i` for the script
/// flag; the script is the next argument.
pub open spec fn script_scan(cmd: Seq<Seq<char>>, i: int) -> Option<int>
    decreases cmd.len() - i,
{
    if i < 1 || i >= cmd.len() {
        None
    } else if is_script_flag(cmd[i]) {
        if i + 1 < cmd.len() {
            Some(i + 1)
        } else {
            None
        }
    } else if cmd[i].len() > 0 && cmd[i][0] == '-' {
        script_scan(cmd, i + 1)
    } else {
        None
    }
}

/// Position of the script in a `bash -lc <script>`-like command.
pub open spec fn shell_script_index(cmd: Seq<Seq<char>>) -> Option<int> {
    if cmd.len() < 3 {
        None
    } else if !is_shell_name(after_last_slash(cmd[0])) {
        None
    } else {
        script_scan(cmd, 1)
    }
}

fn is_shell_name_exec(s: &str) -> (b: bool)
    ensures
        b == is_shell_name(s@),
{
    str_eq(s, "bash") || str_eq(s, "sh") || str_eq(s, "zsh") || str_eq(s, "fish")
}

fn last_component(s: &str) -> (r: String)
    ensures
        r@ == after_last_slash(s@),
{
    let v = crate::text::to_chars(s);
    let mut start: usize = v.len();
    proof {
        assert(v@.take(v.len() as int) =~= v@);
        assert(v@.subrange(v.len() as int, v.len() as int) =~= Seq::<char>::empty());
        assert(after_last_slash(s@) =~= after_last_slash(v@.take(start as int)) + v@.subrange(start as int, v.len() as int));
    }
    while start > 0 && v[start - 1] != '/'
        invariant
            start <= v.len(),
            v@ == s@,
            after_last_slash(s@) == after_last_slash(v@.take(start as int)) + v@.subrange(start as int, v.len() as int),
        decreases start,
    {
        proof {
            let t = v@.take(start as int);
            assert(t.drop_last() =~= v@.take(start - 1));
            assert(v@.subrange(start - 1, v.len() as int) =~= seq![v@[start - 1]] + v@.subrange(start as int, v.len() as int));
        }
        start = start - 1;
    }
    proof {
        assert(v@.take(v.len() as int) =~= v@);
        if start > 0 {
            assert(v@.take(start as int).last() == '/');
        }
        assert(after_last_slash(v@.take(start as int)) =~= Seq::<char>::empty());
    }
    crate::text::from_chars_range(&v, start, v.len())
}

/// Finds the script of a shell invocation such as `bash -lc "<script>"`:
/// the argument after `-c`, `-lc` or `-ic`, looked for among the leading
/// flags.
pub fn extract_shell_script(command: &[String]) -> (r: Option<usize>)
    ensures
        match r {
            Some(i) => shell_script_index(strings_view(command@)) == Some(i as int) && i < command@.len(),
            None => shell_script_index(strings_view(command@)) is None,
        },
{
    let ghost cmd = strings_view(command@);
    if command.len() < 3 {
        return None;
    }
    let shell = last_component(command[0].as_str());
    assert(cmd[0] == command@[0]@);
    if !is_shell_name_exec(shell.as_str()) {
        return None;
    }
    let mut i: usize = 1;
    while i < command.len()
        invariant
            1 <= i <= command.len(),
            cmd == strings_view(command@),
            command.len() >= 3,
            is_shell_name(after_last_slash(cmd[0])),
            shell_script_index(cmd) == script_scan(cmd, i as int),
        decreases command.len() - i,
    {
        let arg = command[i].as_str();
        assert(cmd[i as int] == arg@);
        if str_eq(arg, "-c") || str_eq(arg, "-lc") || str_eq(arg, "-ic") {
            if i + 1 < command.len() {
                return Some(i + 1);
            }
            return None;
        }
        if !crate::text::starts_with(arg, "-") {
            proof {
                reveal_strlit("-");
                if arg@.len() > 0 && arg@[0] == '-' {
                    assert(arg@.take(1) =~= "-"@);
                }
            }
            return None;
        }
        proof {
            reveal_strlit("-");
            assert(arg@.take(1) == "-"@);
            assert(arg@.take(1)[0] == '-');
            assert(arg@[0] == '-');
        }
        i = i + 1;
    }
    None
}

/// The script of a shell invocation, if the command is one.
pub open spec fn norm_script(cmd: Seq<Seq<char>>) -> Option<Seq<char>> {
    match shell_script_index(cmd) {
        Some(i) => Some(cmd[i]),
        None => None,
    }
}

/// The words of the script, if it splits.
pub open spec fn norm_shell_argv(cmd: Seq<Seq<char>>) -> Option<Seq<Seq<char>>> {
    match norm_script(cmd) {
        Some(s) => shlex_words(s),
        None => None,
    }
}

/// Argument vectors a policy is matched against: the script's words, then
/// the command itself.
pub open spec fn argv_cands(cmd: Seq<Seq<char>>) -> Seq<Seq<Seq<char>>> {
    match norm_shell_argv(cmd) {
        Some(a) => seq![a, cmd],
        None => seq![cmd],
    }
}

/// Texts a pattern is matched against: the script, then the command joined
/// by spaces.
pub open spec fn text_cands(cmd: Seq<Seq<char>>) -> Seq<Seq<char>> {
    match norm_script(cmd) {
        Some(s) => seq![s, join_seqs(cmd, " "@)],
        None => seq![join_seqs(cmd, " "@)],
    }
}

/// A command in the forms a policy can match.
pub struct NormalizedCommand {
    pub original_argv: Vec<String>,
    pub shell_script: Option<String>,
    pub shell_argv: Option<Vec<String>>,
}

/// `n` is the normal form of `cmd`.
pub open spec fn normalized_of(n: NormalizedCommand, cmd: Seq<Seq<char>>) -> bool {
    &&& strings_view(n.original_argv@) == cmd
    &&& opt_view(n.shell_script) == norm_script(cmd)
    &&& crate::skill_model::opt_strings_view(n.shell_argv) == norm_shell_argv(cmd)
}

impl NormalizedCommand {
    /// Normalizes a command: finds the script of a shell invocation and
    /// splits it into words.
    pub fn from_command(command: &[String]) -> (n: Self)
        ensures
            normalized_of(n, strings_view(command@)),
    {
        let shell_script = match extract_shell_script(command) {
            Some(i) => Some(clone_string(&command[i])),
            None => None,
        };
        let shell_argv = match &shell_script {
            Some(script) => shell_split(script.as_str()),
            None => None,
        };
        let mut original_argv: Vec<String> = Vec::new();
        let mut k: usize = 0;
        while k < command.len()
            invariant
                k <= command.len(),
                original_argv.len() == k,
                forall|j: int| 0 <= j < k ==> original_argv@[j]@ == command@[j]@,
            decreases command.len() - k,
        {
            original_argv.push(clone_string(&command[k]));
            k = k + 1;
        }
        proof {
            assert(strings_view(original_argv@) =~= strings_view(command@));
        }
        NormalizedCommand { original_argv, shell_script, shell_argv }
    }

    /// The argument vectors to match against.
    pub fn argv_candidates(&self) -> (r: Vec<Vec<String>>)
        ensures
            r@.map_values(|v: Vec<String>| strings_view(v@)) == match crate::skill_model::opt_strings_view(
                self.shell_argv,
            ) {
                Some(a) => seq![a, strings_view(self.original_argv@)],
                None => seq![strings_view(self.original_argv@)],
            },
    {
        let mut r: Vec<Vec<String>> = Vec::new();
        if let Some(a) = &self.shell_argv {
            r.push(clone_strings(a));
        }
        r.push(clone_strings(&self.original_argv));
        proof {
            assert(r@.map_values(|v: Vec<String>| strings_view(v@)) =~= match crate::skill_model::opt_strings_view(
                self.shell_argv,
            ) {
                Some(a) => seq![a, strings_view(self.original_argv@)],
                None => seq![strings_view(self.original_argv@)],
            });
        }
        r
    }

    /// The texts to match against.
    pub fn text_candidates(&self) -> (r: Vec<String>)
        ensures
            strings_view(r@) == match opt_view(self.shell_script) {
                Some(s) => seq![s, join_seqs(strings_view(self.original_argv@), " "@)],
                None => seq![join_seqs(strings_view(self.original_argv@), " "@)],
            },
    {
        let mut r: Vec<String> = Vec::new();
        if let Some(s) = &self.shell_script {
            push_line(&mut r, clone_string(s));
        }
        push_line(&mut r, join_strings(&self.original_argv, " "));
        proof {
            assert(strings_view(r@) =~= match opt_view(self.shell_script) {
                Some(s) => seq![s, join_seqs(strings_view(self.original_argv@), " "@)],
                None => seq![join_seqs(strings_view(self.original_argv@), " "@)],
            });
        }
        r
    }
}

/// What a policy match found: the matched command text, the rank of the
/// matcher kind (exact 0, prefix 1, pattern 2) and the matcher's width.
pub struct MatchInfo {
    pub command: Seq<char>,
    pub rank: nat,
    pub width: nat,
}

/// `p` is a prefix of the argument vector `a`.
pub open spec fn is_argv_prefix(p: Seq<Seq<char>>, a: Seq<Seq<char>>) -> bool {
    p.len() <= a.len() && a.take(p.len() as int) == p
}

/// The first candidate equal to `t`.
pub open spec fn first_equal(c: Seq<Seq<Seq<char>>>, t: Seq<Seq<char>>) -> Option<Seq<Seq<char>>>
    decreases c.len(),
{
    if c.len() == 0 {
        None
    } else if c[0] == t {
        Some(c[0])
    } else {
        first_equal(c.drop_first(), t)
    }
}

/// The first candidate that starts with `p`.
pub open spec fn first_prefixed(c: Seq<Seq<Seq<char>>>, p: Seq<Seq<char>>) -> Option<Seq<Seq<char>>>
    decreases c.len(),
{
    if c.len() == 0 {
        None
    } else if is_argv_prefix(p, c[0]) {
        Some(c[0])
    } else {
        first_prefixed(c.drop_first(), p)
    }
}

/// The first text that the pattern matches.
pub open spec fn first_regex(c: Seq<Seq<char>>, pattern: Seq<char>) -> Option<Seq<char>>
    decreases c.len(),
{
    if c.len() == 0 {
        None
    } else if regex_outcome(pattern, c[0]) == Ok::<bool, Seq<char>>(true) {
        Some(c[0])
    } else {
        first_regex(c.drop_first(), pattern)
    }
}

/// How a matcher matches a command: by its exact argv, else its prefix, else
/// its pattern.
pub open spec fn match_info(m: MatcherView, cmd: Seq<Seq<char>>) -> Option<MatchInfo> {
    let exact = match m.argv_exact {
        Some(e) => match first_equal(argv_cands(cmd), e) {
            Some(a) => Some(MatchInfo { command: join_seqs(a, " "@), rank: 0, width: e.len() }),
            None => None,
        },
        None => None,
    };
    let prefix = match m.argv_prefix {
        Some(p) => match first_prefixed(argv_cands(cmd), p) {
            Some(a) => Some(MatchInfo { command: join_seqs(a, " "@), rank: 1, width: p.len() }),
            None => None,
        },
        None => None,
    };
    let pattern = match m.shell_regex {
        Some(r) => match first_regex(text_cands(cmd), r) {
            Some(t) => Some(MatchInfo { command: t, rank: 2, width: 0 }),
            None => None,
        },
        None => None,
    };
    if exact is Some {
        exact
    } else if prefix is Some {
        prefix
    } else {
        pattern
    }
}

/// How a policy matches a command; a policy that asks for confirmation does
/// not take part when the command carries the confirm prefix.
pub open spec fn considered(c: CompiledSkillCommandPolicy, cmd: Seq<Seq<char>>, confirm: bool) -> Option<MatchInfo> {
    if confirm && c.action == SkillCommandPolicyAction::RequireConfirm {
        None
    } else {
        match_info(c.matcher@, cmd)
    }
}

/// Kind of matcher that matched.
#[derive(Debug, Clone, Copy, PartialEq, Eq, Structural)]
pub enum MatchSpecificity {
    Exact,
    Prefix,
    Regex,
}

/// Rank of a matcher kind: exact before prefix before pattern.
pub open spec fn rank_of(s: MatchSpecificity) -> nat {
    match s {
        MatchSpecificity::Exact => 0,
        MatchSpecificity::Prefix => 1,
        MatchSpecificity::Regex => 2,
    }
}

/// Ranks a matcher kind.
pub fn specificity_rank(specificity: MatchSpecificity) -> (r: u8)
    ensures
        r == rank_of(specificity),
{
    match specificity {
        MatchSpecificity::Exact => 0,
        MatchSpecificity::Prefix => 1,
        MatchSpecificity::Regex => 2,
    }
}

/// One policy that matched a command.
#[derive(Debug)]
pub struct SingleSkillCommandPolicyMatch<'a> {
    pub policy: &'a CompiledSkillCommandPolicy,
    pub matched_command: String,
    pub specificity: MatchSpecificity,
    pub matcher_width: usize,
}

/// What a single match records.
pub open spec fn single_info<'a>(s: SingleSkillCommandPolicyMatch<'a>) -> MatchInfo {
    MatchInfo { command: s.matched_command@, rank: rank_of(s.specificity), width: s.matcher_width as nat }
}

/// Resolution order of matches: more specific kind first, then the wider
/// matcher, then the earlier policy in load order.
pub open spec fn precedes<'a>(a: SingleSkillCommandPolicyMatch<'a>, b: SingleSkillCommandPolicyMatch<'a>) -> bool {
    let ra = rank_of(a.specificity);
    let rb = rank_of(b.specificity);
    ra < rb || (ra == rb && (a.matcher_width > b.matcher_width || (a.matcher_width == b.matcher_width
        && a.policy.order < b.policy.order)))
}

/// Matches in resolution order.
pub open spec fn sorted_matches<'a>(s: Seq<SingleSkillCommandPolicyMatch<'a>>) -> bool {
    forall|i: int, j: int| 0 <= i < j < s.len() ==> precedes(#[trigger] s[i], #[trigger] s[j])
}

/// Whether `a` precedes `b` in resolution order.
pub fn compare_policy_matches<'a>(a: &SingleSkillCommandPolicyMatch<'a>, b: &SingleSkillCommandPolicyMatch<'a>) -> (r: bool)
    ensures
        r == precedes(*a, *b),
{
    let ra = specificity_rank(a.specificity);
    let rb = specificity_rank(b.specificity);
    if ra != rb {
        return ra < rb;
    }
    if a.matcher_width != b.matcher_width {
        return a.matcher_width > b.matcher_width;
    }
    a.policy.order < b.policy.order
}

fn strings_equal(a: &Vec<String>, b: &Vec<String>) -> (r: bool)
    ensures
        r == (strings_view(a@) == strings_view(b@)),
{
    if a.len() != b.len() {
        proof {
            assert(strings_view(a@).len() != strings_view(b@).len());
        }
        return false;
    }
    let mut i: usize = 0;
    while i < a.len()
        invariant
            i <= a.len(),
            a.len() == b.len(),
            forall|j: int| 0 <= j < i ==> a@[j]@ == b@[j]@,
        decreases a.len() - i,
    {
        if !str_eq(a[i].as_str(), b[i].as_str()) {
            proof {
                assert(strings_view(a@)[i as int] != strings_view(b@)[i as int]);
            }
            return false;
        }
        i = i + 1;
    }
    proof {
        assert(strings_view(a@) =~= strings_view(b@));
    }
    true
}

fn strings_start_with(a: &Vec<String>, p: &Vec<String>) -> (r: bool)
    ensures
        r == is_argv_prefix(strings_view(p@), strings_view(a@)),
{
    if p.len() > a.len() {
        return false;
    }
    let mut i: usize = 0;
    while i < p.len()
        invariant
            i <= p.len(),
            p.len() <= a.len(),
            forall|j: int| 0 <= j < i ==> a@[j]@ == p@[j]@,
        decreases p.len() - i,
    {
        if !str_eq(a[i].as_str(), p[i].as_str()) {
            proof {
                assert(strings_view(a@).take(p.len() as int)[i as int] != strings_view(p@)[i as int]);
            }
            return false;
        }
        i = i + 1;
    }
    proof {
        assert(strings_view(a@).take(p.len() as int) =~= strings_view(p@));
    }
    true
}

/// Views of a list of argument vectors.
pub open spec fn argvs_view(v: Seq<Vec<String>>) -> Seq<Seq<Seq<char>>> {
    v.map_values(|x: Vec<String>| strings_view(x@))
}

fn find_equal(cands: &Vec<Vec<String>>, target: &Vec<String>) -> (r: Option<usize>)
    ensures
        match r {
            Some(i) => i < cands.len() && first_equal(argvs_view(cands@), strings_view(target@)) == Some(
                strings_view(cands@[i as int]@),
            ),
            None => first_equal(argvs_view(cands@), strings_view(target@)) is None,
        },
{
    let ghost c = argvs_view(cands@);
    let ghost t = strings_view(target@);
    let mut i: usize = 0;
    proof {
        assert(c.skip(0) =~= c);
    }
    while i < cands.len()
        invariant
            i <= cands.len(),
            c == argvs_view(cands@),
            t == strings_view(target@),
            first_equal(c, t) == first_equal(c.skip(i as int), t),
        decreases cands.len() - i,
    {
        proof {
            assert(c.skip(i as int)[0] == strings_view(cands@[i as int]@));
            assert(c.skip(i as int).drop_first() =~= c.skip(i + 1));
        }
        if strings_equal(&cands[i], target) {
            return Some(i);
        }
        i = i + 1;
    }
    None
}

fn find_prefixed(cands: &Vec<Vec<String>>, prefix: &Vec<String>) -> (r: Option<usize>)
    ensures
        match r {
            Some(i) => i < cands.len() && first_prefixed(argvs_view(cands@), strings_view(prefix@)) == Some(
                strings_view(cands@[i as int]@),
            ),
            None => first_prefixed(argvs_view(cands@), strings_view(prefix@)) is None,
        },
{
    let ghost c = argvs_view(cands@);
    let ghost t = strings_view(prefix@);
    let mut i: usize = 0;
    proof {
        assert(c.skip(0) =~= c);
    }
    while i < cands.len()
        invariant
            i <= cands.len(),
            c == argvs_view(cands@),
            t == strings_view(prefix@),
            first_prefixed(c, t) == first_prefixed(c.skip(i as int), t),
        decreases cands.len() - i,
    {
        proof {
            assert(c.skip(i as int)[0] == strings_view(cands@[i as int]@));
            assert(c.skip(i as int).drop_first() =~= c.skip(i + 1));
        }
        if strings_start_with(&cands[i], prefix) {
            return Some(i);
        }
        i = i + 1;
    }
    None
}

fn find_regex(cands: &Vec<String>, pattern: &str) -> (r: Option<usize>)
    ensures
        match r {
            Some(i) => i < cands.len() && first_regex(strings_view(cands@), pattern@) == Some(cands@[i as int]@),
            None => first_regex(strings_view(cands@), pattern@) is None,
        },
{
    let ghost c = strings_view(cands@);
    let mut i: usize = 0;
    proof {
        assert(c.skip(0) =~= c);
    }
    while i < cands.len()
        invariant
            i <= cands.len(),
            c == strings_view(cands@),
            first_regex(c, pattern@) == first_regex(c.skip(i as int), pattern@),
        decreases cands.len() - i,
    {
        proof {
            assert(c.skip(i as int)[0] == cands@[i as int]@);
            assert(c.skip(i as int).drop_first() =~= c.skip(i + 1));
        }
        match regex_check(pattern, cands[i].as_str()) {
            Ok(true) => {
                return Some(i);
            },
            _ => {},
        }
        i = i + 1;
    }
    None
}

/// Matches one policy against a normalized command.
pub fn policy_matches<'a>(policy: &'a CompiledSkillCommandPolicy, normalized: &NormalizedCommand) -> (r:
    Option<SingleSkillCommandPolicyMatch<'a>>)
    requires
        normalized_of(*normalized, strings_view(normalized.original_argv@)),
    ensures
        match r {
            Some(s) => *s.policy == *policy && match_info(policy.matcher@, strings_view(normalized.original_argv@))
                == Some(single_info(s)),
            None => match_info(policy.matcher@, strings_view(normalized.original_argv@)) is None,
        },
{
    let ghost cmd = strings_view(normalized.original_argv@);
    let argvs = normalized.argv_candidates();
    proof {
        assert(argvs_view(argvs@) == argv_cands(cmd));
    }
    if let Some(argv_exact) = &policy.matcher.argv_exact {
        if let Some(i) = find_equal(&argvs, argv_exact) {
            return Some(SingleSkillCommandPolicyMatch {
                policy,
                matched_command: join_strings(&argvs[i], " "),
                specificity: MatchSpecificity::Exact,
                matcher_width: argv_exact.len(),
            });
        }
    }
    if let Some(argv_prefix) = &policy.matcher.argv_prefix {
        if let Some(i) = find_prefixed(&argvs, argv_prefix) {
            return Some(SingleSkillCommandPolicyMatch {
                policy,
                matched_command: join_strings(&argvs[i], " "),
                specificity: MatchSpecificity::Prefix,
                matcher_width: argv_prefix.len(),
            });
        }
    }
    if let Some(pattern) = &policy.matcher.shell_regex {
        let texts = normalized.text_candidates();
        if let Some(i) = find_regex(&texts, pattern.as_str()) {
            return Some(SingleSkillCommandPolicyMatch {
                policy,
                matched_command: clone_string(&texts[i]),
                specificity: MatchSpecificity::Regex,
                matcher_width: 0,
            });
        }
    }
    None
}

/// Inserts a match into a list in resolution order; the new match comes
/// later in load order than every match of the list.
fn insert_match<'a>(v: &mut Vec<SingleSkillCommandPolicyMatch<'a>>, m: SingleSkillCommandPolicyMatch<'a>) -> (p: usize)
    requires
        sorted_matches(old(v)@),
        forall|j: int| 0 <= j < old(v)@.len() ==> (#[trigger] old(v)@[j]).policy.order < m.policy.order,
    ensures
        p <= old(v)@.len(),
        final(v)@ == old(v)@.insert(p as int, m),
        sorted_matches(final(v)@),
{
    let ghost old_v = v@;
    let mut p: usize = 0;
    while p < v.len() && !compare_policy_matches(&m, &v[p])
        invariant
            p <= v.len(),
            v@ == old_v,
            forall|j: int| 0 <= j < p ==> precedes(#[trigger] v@[j], m),
            forall|j: int| 0 <= j < v@.len() ==> (#[trigger] v@[j]).policy.order < m.policy.order,
        decreases v.len() - p,
    {
        p = p + 1;
    }
    let ghost mm = m;
    v.insert(p, m);
    proof {
        assert forall|i: int, j: int| 0 <= i < j < v@.len() implies precedes(#[trigger] v@[i], #[trigger] v@[j]) by {
            if j < p {
                assert(v@[i] == old_v[i] && v@[j] == old_v[j]);
            } else if j == p {
                assert(v@[i] == old_v[i]);
            } else if i == p {
                assert(v@[j] == old_v[j - 1]);
                assert(precedes(mm, old_v[p as int]));
                if j - 1 > p {
                    assert(precedes(old_v[p as int], old_v[j - 1]));
                }
            } else if i < p {
                assert(v@[i] == old_v[i] && v@[j] == old_v[j - 1]);
            } else {
                assert(v@[i] == old_v[i - 1] && v@[j] == old_v[j - 1]);
            }
        }
    }
    p
}

/// The policy chosen for a command, with every policy that matched it.
#[derive(Debug)]
pub struct SkillCommandPolicyMatch<'a> {
    pub policy: &'a CompiledSkillCommandPolicy,
    pub matched_command: String,
    pub related: Vec<SingleSkillCommandPolicyMatch<'a>>,
}

/// `s` is the match of the policy at its own position of `ps`.
pub open spec fn match_of_policy<'a>(
    s: SingleSkillCommandPolicyMatch<'a>,
    ps: Seq<CompiledSkillCommandPolicy>,
    cmd: Seq<Seq<char>>,
    confirm: bool,
) -> bool {
    &&& 0 <= s.policy.order < ps.len()
    &&& *s.policy == ps[s.policy.order as int]
    &&& considered(*s.policy, cmd, confirm) == Some(single_info(s))
}

impl SkillCommandPolicyRuntime {
    #[verifier::type_invariant]
    closed spec fn orders_are_positions(&self) -> bool {
        forall|k: int| 0 <= k < self.policies@.len() ==> (#[trigger] self.policies@[k]).order == k
    }

    /// Checks a command against every policy. `None` when no policy
    /// matches; else the matches in resolution order, the first of which
    /// decides.
    pub fn check<'a>(&'a self, command: &[String], has_confirm_prefix: bool) -> (r: Option<
        SkillCommandPolicyMatch<'a>,
    >)
        ensures
            match r {
                None => forall|k: int|
                    0 <= k < self.policies_view().len() ==> considered(
                        #[trigger] self.policies_view()[k],
                        strings_view(command@),
                        has_confirm_prefix,
                    ) is None,
                Some(m) => {
                    &&& m.related@.len() > 0
                    &&& *m.policy == *m.related@[0].policy
                    &&& m.matched_command@ == m.related@[0].matched_command@
                    &&& sorted_matches(m.related@)
                    &&& forall|j: int|
                        0 <= j < m.related@.len() ==> match_of_policy(
                            #[trigger] m.related@[j],
                            self.policies_view(),
                            strings_view(command@),
                            has_confirm_prefix,
                        )
                    &&& forall|k: int|
                        0 <= k < self.policies_view().len() && (considered(
                            #[trigger] self.policies_view()[k],
                            strings_view(command@),
                            has_confirm_prefix,
                        ) is Some) ==> exists|j: int|
                            0 <= j < m.related@.len() && m.related@[j].policy.order == k
                },
            },
    {
        proof {
            use_type_invariant(self);
        }
        let ghost cmd = strings_view(command@);
        let ghost ps = self.policies@;
        let normalized = NormalizedCommand::from_command(command);
        let mut matches: Vec<SingleSkillCommandPolicyMatch<'a>> = Vec::new();
        let mut k: usize = 0;
        while k < self.policies.len()
            invariant
                k <= self.policies.len(),
                ps == self.policies@,
                cmd == strings_view(command@),
                normalized_of(normalized, cmd),
                forall|q: int| 0 <= q < ps.len() ==> (#[trigger] ps[q]).order == q,
                sorted_matches(matches@),
                forall|j: int|
                    0 <= j < matches@.len() ==> (#[trigger] matches@[j]).policy.order < k && match_of_policy(
                        matches@[j],
                        ps,
                        cmd,
                        has_confirm_prefix,
                    ),
                forall|q: int|
                    0 <= q < k && (considered(#[trigger] ps[q], cmd, has_confirm_prefix) is Some) ==> exists|j: int|
                        0 <= j < matches@.len() && matches@[j].policy.order == q,
            decreases self.policies.len() - k,
        {
            let policy = &self.policies[k];
            let skip = has_confirm_prefix && policy.action == SkillCommandPolicyAction::RequireConfirm;
            if !skip {
                match policy_matches(policy, &normalized) {
                    Some(c) => {
                        let ghost before = matches@;
                        let ghost cc = c;
                        let p = insert_match(&mut matches, c);
                        proof {
                            assert forall|j: int| 0 <= j < matches@.len() implies (#[trigger] matches@[j]).policy.order < k + 1
                                && match_of_policy(matches@[j], ps, cmd, has_confirm_prefix) by {
                                if j < p {
                                    assert(matches@[j] == before[j]);
                                } else if j > p {
                                    assert(matches@[j] == before[j - 1]);
                                } else {
                                    assert(matches@[j] == cc);
                                }
                            }
                            assert forall|q: int|
                                0 <= q < k + 1 && (considered(#[trigger] ps[q], cmd, has_confirm_prefix) is Some) implies exists|j: int|
                                    0 <= j < matches@.len() && matches@[j].policy.order == q by {
                                if q == k {
                                    assert(matches@[p as int] == cc);
                                } else {
                                    let j0 = choose|j: int| 0 <= j < before.len() && before[j].policy.order == q;
                                    if j0 < p {
                                        assert(matches@[j0] == before[j0]);
                                    } else {
                                        assert(matches@[j0 + 1] == before[j0]);
                                    }
                                }
                            }
                        }
                    },
                    None => {},
                }
            }
            k = k + 1;
        }
        if matches.len() == 0 {
            proof {
                assert forall|q: int| 0 <= q < ps.len() implies considered(#[trigger] ps[q], cmd, has_confirm_prefix) is None by {
                    if considered(ps[q], cmd, has_confirm_prefix) is Some {
                        let j0 = choose|j: int| 0 <= j < matches@.len() && matches@[j].policy.order == q;
                    }
                }
            }
            return None;
        }
        let primary_policy = matches[0].policy;
        let matched_command = clone_string(&matches[0].matched_command);
        Some(SkillCommandPolicyMatch { policy: primary_policy, matched_command, related: matches })
    }
}

/// The line describing a further matched policy.
pub open spec fn related_line<'a>(s: SingleSkillCommandPolicyMatch<'a>) -> Seq<char> {
    "- skill `"@ + s.policy.skill_name@ + "` ("@ + s.policy.id@ + ") at "@ + s.policy.skill_path@
        + "; action: "@ + action_text(s.policy.action) + "; warning: "@ + policy_message_text(*s.policy)
        + "; matched_command: "@ + s.matched_command@
}

/// Lines of the matches after the first.
pub open spec fn related_lines_of<'a>(rel: Seq<SingleSkillCommandPolicyMatch<'a>>) -> Seq<Seq<char>> {
    if rel.len() == 0 {
        Seq::empty()
    } else {
        rel.skip(1).map_values(|s: SingleSkillCommandPolicyMatch<'a>| related_line(s))
    }
}

/// Every recommended action of the matches, in match order.
pub open spec fn all_preferred<'a>(rel: Seq<SingleSkillCommandPolicyMatch<'a>>) -> Seq<PreferredView>
    decreases rel.len(),
{
    if rel.len() == 0 {
        Seq::empty()
    } else {
        all_preferred(rel.drop_last()) + preferred_views(rel.last().policy.preferred@)
    }
}

/// Some action of `r` has key `key`.
pub open spec fn key_seen(r: Seq<PreferredView>, key: Seq<char>) -> bool {
    exists|j: int| 0 <= j < r.len() && preferred_key_text(r[j]) == key
}

/// `s` with every action whose key occurred earlier left out.
pub open spec fn dedup_preferred(s: Seq<PreferredView>) -> Seq<PreferredView>
    decreases s.len(),
{
    if s.len() == 0 {
        s
    } else {
        let r = dedup_preferred(s.drop_last());
        if key_seen(r, preferred_key_text(s.last())) {
            r
        } else {
            r.push(s.last())
        }
    }
}

/// Lines of the guidance shown when a command is stopped.
pub open spec fn guidance_lines<'a>(m: SkillCommandPolicyMatch<'a>, label: Seq<char>, value: Seq<char>) -> Seq<Seq<char>> {
    let p = *m.policy;
    let head = seq![
        "Command policy matched skill `"@ + p.skill_name@ + "` ("@ + p.id@ + ") at "@ + p.skill_path@ + "."@,
        "Selected by matcher specificity, matcher width, then stable skill load order."@,
        Seq::empty(),
        policy_message_text(p),
        Seq::empty(),
    ];
    let pref = dedup_preferred(all_preferred(m.related@));
    let l1 = if pref.len() > 0 {
        head + seq!["Preferred actions:"@] + pref.map_values(|v: PreferredView| preferred_text(v)) + seq![Seq::empty()]
    } else {
        head
    };
    let rel = related_lines_of(m.related@);
    let l2 = if rel.len() > 0 {
        l1 + seq!["Also matched policies:"@] + rel + seq![Seq::empty()]
    } else {
        l1
    };
    let l3 = if p.action == SkillCommandPolicyAction::RequireConfirm {
        l2 + seq!["Resend with `confirm:` only if the user explicitly asked for this raw command."@, Seq::empty()]
    } else {
        l2
    };
    l3 + seq!["matched_command: "@ + m.matched_command@, label + ": "@ + value]
}

impl<'a> SkillCommandPolicyMatch<'a> {
    /// The recommended actions of all matches, each key once, in match
    /// order.
    pub fn unique_preferred_actions(&self) -> (r: Vec<SkillCommandPolicyPreferred>)
        ensures
            preferred_views(r@) == dedup_preferred(all_preferred(self.related@)),
    {
        let rel = &self.related;
        let mut seen: Vec<String> = Vec::new();
        let mut out: Vec<SkillCommandPolicyPreferred> = Vec::new();
        let mut i: usize = 0;
        while i < rel.len()
            invariant
                i <= rel.len(),
                rel == &self.related,
                preferred_views(out@) == dedup_preferred(all_preferred(rel@.take(i as int))),
                strings_view(seen@) == preferred_views(out@).map_values(|v: PreferredView| preferred_key_text(v)),
            decreases rel.len() - i,
        {
            let prefs = &rel[i].policy.preferred;
            let ghost base = all_preferred(rel@.take(i as int));
            proof {
                assert(rel@.take(i + 1).drop_last() =~= rel@.take(i as int));
                assert(preferred_views(prefs@.take(0)) =~= Seq::<PreferredView>::empty());
                assert(base + preferred_views(prefs@.take(0)) =~= base);
            }
            let mut j: usize = 0;
            while j < prefs.len()
                invariant
                    j <= prefs.len(),
                    preferred_views(out@) == dedup_preferred(base + preferred_views(prefs@.take(j as int))),
                    strings_view(seen@) == preferred_views(out@).map_values(|v: PreferredView| preferred_key_text(v)),
                decreases prefs.len() - j,
            {
                let key = preferred_key(&prefs[j]);
                let ghost s_next = base + preferred_views(prefs@.take(j + 1));
                proof {
                    assert(s_next.drop_last() =~= base + preferred_views(prefs@.take(j as int)));
                    assert(s_next.last() == prefs@[j as int]@);
                }
                let found = contains_text(&seen, key.as_str());
                proof {
                    let r = preferred_views(out@);
                    if found {
                        let q = choose|q: int| 0 <= q < strings_view(seen@).len() && strings_view(seen@)[q] == key@;
                        assert(preferred_key_text(r[q]) == key@);
                    } else {
                        assert forall|q: int| 0 <= q < r.len() implies preferred_key_text(r[q]) != key@ by {
                            assert(strings_view(seen@)[q] == preferred_key_text(r[q]));
                        }
                    }
                }
                if !found {
                    let ghost old_out = out@;
                    out.push(clone_preferred(&prefs[j]));
                    push_line(&mut seen, key);
                    proof {
                        assert(preferred_views(out@) =~= preferred_views(old_out).push(prefs@[j as int]@));
                        assert(strings_view(seen@) =~= preferred_views(out@).map_values(|v: PreferredView| preferred_key_text(v)));
                    }
                }
                j = j + 1;
            }
            proof {
                assert(prefs@.take(prefs.len() as int) =~= prefs@);
                assert(all_preferred(rel@.take(i + 1)) =~= base + preferred_views(prefs@));
            }
            i = i + 1;
        }
        proof {
            assert(rel@.take(rel.len() as int) =~= rel@);
        }
        out
    }

    /// One line per further matched policy: its skill, action, warning and
    /// matched command.
    pub fn related_policy_lines(&self) -> (r: Vec<String>)
        ensures
            strings_view(r@) == related_lines_of(self.related@),
    {
        let rel = &self.related;
        let mut lines: Vec<String> = Vec::new();
        let mut i: usize = 1;
        proof {
            if rel@.len() > 0 {
                assert(rel@.subrange(1, 1).map_values(|s: SingleSkillCommandPolicyMatch<'a>| related_line(s)) =~= Seq::<Seq<char>>::empty());
            }
        }
        while i < rel.len()
            invariant
                1 <= i,
                rel.len() > 0 ==> i <= rel.len(),
                rel == &self.related,
                rel.len() > 0 ==> strings_view(lines@) == rel@.subrange(1, i as int).map_values(
                    |s: SingleSkillCommandPolicyMatch<'a>| related_line(s),
                ),
                rel.len() == 0 ==> lines@.len() == 0,
            decreases rel.len() - i,
        {
            let s = &rel[i];
            let mut line = concat("- skill `", s.policy.skill_name.as_str());
            push_str(&mut line, "` (");
            push_str(&mut line, s.policy.id.as_str());
            push_str(&mut line, ") at ");
            push_str(&mut line, s.policy.skill_path.as_str());
            push_str(&mut line, "; action: ");
            push_str(&mut line, describe_action(s.policy.action));
            push_str(&mut line, "; warning: ");
            let msg = policy_message(s.policy);
            push_str(&mut line, msg.as_str());
            push_str(&mut line, "; matched_command: ");
            push_str(&mut line, s.matched_command.as_str());
            proof {
                assert(line@ =~= related_line(*s));
                assert(rel@.subrange(1, i + 1).map_values(|s: SingleSkillCommandPolicyMatch<'a>| related_line(s))
                    =~= rel@.subrange(1, i as int).map_values(|s: SingleSkillCommandPolicyMatch<'a>| related_line(s)).push(
                    related_line(rel@[i as int]),
                ));
            }
            push_line(&mut lines, line);
            i = i + 1;
        }
        proof {
            if rel@.len() > 0 {
                assert(rel@.subrange(1, rel@.len() as int) =~= rel@.skip(1));
            } else {
                assert(strings_view(lines@) =~= related_lines_of(rel@));
            }
        }
        lines
    }

    /// The guidance shown when the command is stopped: the chosen policy,
    /// its warning, the recommended actions, the other matches, and the
    /// command as matched and as given.
    pub fn guidance(&self, original_label: &str, original_value: &str) -> (s: String)
        ensures
            s@ == join_seqs(guidance_lines(*self, original_label@, original_value@), "\n"@),
    {
        let policy = self.policy;
        let message = policy_message(policy);
        let mut head = concat("Command policy matched skill `", policy.skill_name.as_str());
        push_str(&mut head, "` (");
        push_str(&mut head, policy.id.as_str());
        push_str(&mut head, ") at ");
        push_str(&mut head, policy.skill_path.as_str());
        push_str(&mut head, ".");
        let mut lines: Vec<String> = Vec::new();
        push_line(&mut lines, head);
        push_line(&mut lines, to_owned_string("Selected by matcher specificity, matcher width, then stable skill load order."));
        push_line(&mut lines, String::new());
        push_line(&mut lines, message);
        push_line(&mut lines, String::new());
        let ghost p = *policy;
        let ghost head_v = seq![
            "Command policy matched skill `"@ + p.skill_name@ + "` ("@ + p.id@ + ") at "@ + p.skill_path@ + "."@,
            "Selected by matcher specificity, matcher width, then stable skill load order."@,
            Seq::<char>::empty(),
            policy_message_text(p),
            Seq::<char>::empty(),
        ];
        proof {
            assert(strings_view(lines@) =~= head_v);
        }
        let preferred = self.unique_preferred_actions();
        let ghost pref = dedup_preferred(all_preferred(self.related@));
        if preferred.len() > 0 {
            push_line(&mut lines, to_owned_string("Preferred actions:"));
            let ghost start = strings_view(lines@);
            let mut i: usize = 0;
            while i < preferred.len()
                invariant
                    i <= preferred.len(),
                    strings_view(lines@) == start + preferred_views(preferred@).take(i as int).map_values(
                        |v: PreferredView| preferred_text(v),
                    ),
                decreases preferred.len() - i,
            {
                let line = format_preferred(&preferred[i]);
                proof {
                    assert(preferred_views(preferred@).take(i + 1).map_values(|v: PreferredView| preferred_text(v))
                        =~= preferred_views(preferred@).take(i as int).map_values(|v: PreferredView| preferred_text(v)).push(
                        preferred_text(preferred@[i as int]@),
                    ));
                }
                push_line(&mut lines, line);
                i = i + 1;
            }
            proof {
                assert(preferred_views(preferred@).take(preferred.len() as int) =~= preferred_views(preferred@));
            }
            push_line(&mut lines, String::new());
        }
        let ghost l1 = if pref.len() > 0 {
            head_v + seq!["Preferred actions:"@] + pref.map_values(|v: PreferredView| preferred_text(v)) + seq![Seq::<char>::empty()]
        } else {
            head_v
        };
        proof {
            assert(strings_view(lines@) =~= l1);
        }
        let related = self.related_policy_lines();
        if related.len() > 0 {
            push_line(&mut lines, to_owned_string("Also matched policies:"));
            extend_lines(&mut lines, related);
            push_line(&mut lines, String::new());
        }
        let ghost rel = related_lines_of(self.related@);
        let ghost l2 = if rel.len() > 0 {
            l1 + seq!["Also matched policies:"@] + rel + seq![Seq::<char>::empty()]
        } else {
            l1
        };
        proof {
            assert(strings_view(lines@) =~= l2);
        }
        if policy.action == SkillCommandPolicyAction::RequireConfirm {
            push_line(&mut lines, to_owned_string("Resend with `confirm:` only if the user explicitly asked for this raw command."));
            push_line(&mut lines, String::new());
        }
        push_line(&mut lines, concat("matched_command: ", self.matched_command.as_str()));
        let mut last = concat(original_label, ": ");
        push_str(&mut last, original_value);
        push_line(&mut lines, last);
        proof {
            assert(strings_view(lines@) =~= guidance_lines(*self, original_label@, original_value@));
        }
        join_strings(&lines, "\n")
    }
}

} // verus!
