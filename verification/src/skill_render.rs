//! The skills section of the model instructions: implicitly invokable
//! skills with their descriptions and structured guidance, manual-only
//! skills by name, and the rules for using skills.
use vstd::prelude::*;

use crate::command_policy::{render_command_policy_summary, summary_lines};
use crate::skill_model::{
    SkillCommand, SkillMetadata, SkillResource, SkillResourceKind, SkillWorkflowDefault,
    allows_implicit,
};
use crate::text::{
    concat, extend_lines, join_seqs, join_strings, push_char, push_line, push_str, strings_view,
    to_chars, to_owned_string,
};

verus! {

/// A path with every backslash turned into a slash.
pub open spec fn slash_path(s: Seq<char>) -> Seq<char> {
    s.map_values(|c: char| if c == '\\' { '/' } else { c })
}

/// Writes a path with forward slashes.
pub fn forward_slashes(s: &str) -> (r: String)
    ensures
        r@ == slash_path(s@),
{
    let v = to_chars(s);
    let mut r = String::new();
    let mut i: usize = 0;
    while i < v.len()
        invariant
            i <= v.len(),
            v@ == s@,
            r@ == slash_path(v@.take(i as int)),
        decreases v.len() - i,
    {
        let c = v[i];
        push_char(&mut r, if c == '\\' { '/' } else { c });
        i = i + 1;
        proof {
            assert(r@ =~= slash_path(v@.take(i as int)));
        }
    }
    proof {
        assert(v@.take(v.len() as int) =~= v@);
    }
    r
}

/// Name of a resource kind.
pub open spec fn resource_kind_text(k: SkillResourceKind) -> Seq<char> {
    match k {
        SkillResourceKind::Script => "script"@,
        SkillResourceKind::Reference => "reference"@,
        SkillResourceKind::Template => "template"@,
        SkillResourceKind::Asset => "asset"@,
    }
}

fn resource_kind_str(k: SkillResourceKind) -> (s: &'static str)
    ensures
        s@ == resource_kind_text(k),
{
    match k {
        SkillResourceKind::Script => "script",
        SkillResourceKind::Reference => "reference",
        SkillResourceKind::Template => "template",
        SkillResourceKind::Asset => "asset",
    }
}

/// `"; description: "` and the text, or nothing.
pub open spec fn description_suffix(d: Option<String>) -> Seq<char> {
    match d {
        Some(x) => "; description: "@ + x@,
        None => Seq::empty(),
    }
}

/// Guidance line of a resource.
pub open spec fn resource_line(r: SkillResource) -> Seq<char> {
    "  - resource: "@ + slash_path(r.path@) + " ("@ + resource_kind_text(r.kind) + ")"@ + description_suffix(
        r.description,
    )
}

/// Guidance line of a command: its example invocation, or its name when it
/// has none.
pub open spec fn command_line(c: SkillCommand) -> Seq<char> {
    let example = if c.example_argv@.len() == 0 {
        c.name@
    } else {
        join_seqs(strings_view(c.example_argv@), " "@)
    };
    "  - command `"@ + c.name@ + "`: run `"@ + example + "` (helper script: "@ + slash_path(c.resource_path@)
        + "); purpose: "@ + c.purpose@
}

/// Guidance line of a workflow default.
pub open spec fn default_line(d: SkillWorkflowDefault) -> Seq<char> {
    "  - workflow default `"@ + d.name@ + "`: "@ + d.value@ + description_suffix(d.description)
}

/// The structured guidance of a skill: resources, then commands, then
/// workflow defaults.
pub open spec fn structured_lines(skill: SkillMetadata) -> Seq<Seq<char>> {
    skill.resources@.map_values(|r: SkillResource| resource_line(r)) + skill.commands@.map_values(
        |c: SkillCommand| command_line(c),
    ) + skill.workflow_defaults@.map_values(|d: SkillWorkflowDefault| default_line(d))
}

fn push_description(line: &mut String, d: &Option<String>)
    ensures
        final(line)@ == old(line)@ + description_suffix(*d),
{
    if let Some(x) = d {
        push_str(line, "; description: ");
        push_str(line, x.as_str());
    }
}

/// The structured guidance lines of a skill.
pub fn render_structured_skill_guidance(skill: &SkillMetadata) -> (lines: Vec<String>)
    ensures
        strings_view(lines@) == structured_lines(*skill),
{
    let mut lines: Vec<String> = Vec::new();
    let ghost rs = skill.resources@.map_values(|r: SkillResource| resource_line(r));
    let ghost cs = skill.commands@.map_values(|c: SkillCommand| command_line(c));
    let ghost ds = skill.workflow_defaults@.map_values(|d: SkillWorkflowDefault| default_line(d));
    let mut i: usize = 0;
    while i < skill.resources.len()
        invariant
            i <= skill.resources.len(),
            rs == skill.resources@.map_values(|r: SkillResource| resource_line(r)),
            strings_view(lines@) == rs.take(i as int),
        decreases skill.resources.len() - i,
    {
        let r = &skill.resources[i];
        let path = forward_slashes(r.path.as_str());
        let mut line = concat("  - resource: ", path.as_str());
        push_str(&mut line, " (");
        push_str(&mut line, resource_kind_str(r.kind));
        push_str(&mut line, ")");
        push_description(&mut line, &r.description);
        proof {
            assert(line@ =~= resource_line(*r));
            assert(rs.take(i + 1) =~= rs.take(i as int).push(line@));
        }
        push_line(&mut lines, line);
        i = i + 1;
    }
    proof {
        assert(rs.take(skill.resources.len() as int) =~= rs);
    }
    let mut j: usize = 0;
    while j < skill.commands.len()
        invariant
            j <= skill.commands.len(),
            rs == skill.resources@.map_values(|r: SkillResource| resource_line(r)),
            cs == skill.commands@.map_values(|c: SkillCommand| command_line(c)),
            strings_view(lines@) == rs + cs.take(j as int),
        decreases skill.commands.len() - j,
    {
        let c = &skill.commands[j];
        let example = if c.example_argv.len() == 0 {
            crate::text::clone_string(&c.name)
        } else {
            join_strings(&c.example_argv, " ")
        };
        let path = forward_slashes(c.resource_path.as_str());
        let mut line = concat("  - command `", c.name.as_str());
        push_str(&mut line, "`: run `");
        push_str(&mut line, example.as_str());
        push_str(&mut line, "` (helper script: ");
        push_str(&mut line, path.as_str());
        push_str(&mut line, "); purpose: ");
        push_str(&mut line, c.purpose.as_str());
        proof {
            assert(line@ =~= command_line(*c));
            assert(rs + cs.take(j + 1) =~= (rs + cs.take(j as int)).push(line@));
        }
        push_line(&mut lines, line);
        j = j + 1;
    }
    proof {
        assert(cs.take(skill.commands.len() as int) =~= cs);
    }
    let mut k: usize = 0;
    while k < skill.workflow_defaults.len()
        invariant
            k <= skill.workflow_defaults.len(),
            rs == skill.resources@.map_values(|r: SkillResource| resource_line(r)),
            cs == skill.commands@.map_values(|c: SkillCommand| command_line(c)),
            ds == skill.workflow_defaults@.map_values(|d: SkillWorkflowDefault| default_line(d)),
            strings_view(lines@) == rs + cs + ds.take(k as int),
        decreases skill.workflow_defaults.len() - k,
    {
        let d = &skill.workflow_defaults[k];
        let mut line = concat("  - workflow default `", d.name.as_str());
        push_str(&mut line, "`: ");
        push_str(&mut line, d.value.as_str());
        push_description(&mut line, &d.description);
        proof {
            assert(line@ =~= default_line(*d));
            assert(rs + cs + ds.take(k + 1) =~= (rs + cs + ds.take(k as int)).push(line@));
        }
        push_line(&mut lines, line);
        k = k + 1;
    }
    proof {
        assert(ds.take(skill.workflow_defaults.len() as int) =~= ds);
    }
    lines
}

/// The lines of an implicitly invokable skill: name, description and path,
/// then its structured guidance, then its command policies.
pub open spec fn implicit_entry(skill: SkillMetadata) -> Seq<Seq<char>> {
    seq!["- "@ + skill.name@ + ": "@ + skill.description@ + " (file: "@ + slash_path(skill.path@) + ")"@]
        + structured_lines(skill) + summary_lines(skill)
}

/// Lines of the implicitly invokable skills of `skills`, in order.
pub open spec fn implicit_entries(skills: Seq<SkillMetadata>) -> Seq<Seq<char>>
    decreases skills.len(),
{
    if skills.len() == 0 {
        Seq::empty()
    } else if allows_implicit(skills.last()) {
        implicit_entries(skills.drop_last()) + implicit_entry(skills.last())
    } else {
        implicit_entries(skills.drop_last())
    }
}

/// Lines of the manual-only skills of `skills`: their names only.
pub open spec fn manual_entries(skills: Seq<SkillMetadata>) -> Seq<Seq<char>>
    decreases skills.len(),
{
    if skills.len() == 0 {
        Seq::empty()
    } else if !allows_implicit(skills.last()) {
        manual_entries(skills.drop_last()).push("- "@ + skills.last().name@)
    } else {
        manual_entries(skills.drop_last())
    }
}

/// Some skill of `skills` is implicitly invokable.
pub open spec fn has_implicit(skills: Seq<SkillMetadata>) -> bool {
    exists|i: int| 0 <= i < skills.len() && allows_implicit(#[trigger] skills[i])
}

/// Some skill of `skills` is manual-only.
pub open spec fn has_manual(skills: Seq<SkillMetadata>) -> bool {
    exists|i: int| 0 <= i < skills.len() && !allows_implicit(#[trigger] skills[i])
}

/// Opening paragraph of the skills section.
pub open spec fn intro_text() -> Seq<char> {
    "A skill is a set of local instructions to follow that is stored in a `SKILL.md` file. Below are the implicitly invokable skills whose descriptions can trigger use. Skill bodies live on disk and should be opened only when the trigger rules say to use the skill."@
}

fn intro_str() -> (s: &'static str)
    ensures
        s@ == intro_text(),
{
    "A skill is a set of local instructions to follow that is stored in a `SKILL.md` file. Below are the implicitly invokable skills whose descriptions can trigger use. Skill bodies live on disk and should be opened only when the trigger rules say to use the skill."
}

/// Paragraph introducing the manual-only skills.
pub open spec fn manual_text() -> Seq<char> {
    "These skills are discoverable but not implicitly invokable. Use them only when the user explicitly names them with `$<skill-name>` or when the skill body has already been injected into the conversation."@
}

fn manual_str() -> (s: &'static str)
    ensures
        s@ == manual_text(),
{
    "These skills are discoverable but not implicitly invokable. Use them only when the user explicitly names them with `$<skill-name>` or when the skill body has already been injected into the conversation."
}

/// The rules for using skills.
pub open spec fn usage_text() -> Seq<char> {
    r###"- Discovery: The "Available skills" list is for implicit routing; descriptions there can trigger skill use. The "Manual-only skills" list is name-only so the user can explicitly invoke those skills without adding their instructions to every turn.
- Trigger rules: If the user names an available skill in plain text, or the task clearly matches an available skill's description, you must use that skill for that turn. If the user explicitly names any skill with `$<skill-name>`, use it for that turn when the skill body is available or can be opened. Multiple mentions mean use them all. Do not carry skills across turns unless re-mentioned.
- Missing/blocked: If an explicitly named skill body is already injected in the conversation, follow it even if the skill is not in the available-skills list. If a named skill cannot be opened or its body is unavailable, say so briefly and continue with the best fallback.
- How to use a skill (progressive disclosure):
  1) After deciding to use a skill, open its `SKILL.md`. Read only enough to follow the workflow.
  2) When `SKILL.md` references bundled skill resources or scripts with relative paths such as `scripts/foo.py`, resolve them relative to the directory containing that `SKILL.md` first, and only consider other paths if needed.
  3) If `SKILL.md` points to extra folders such as `references/`, load only the specific files needed for the request; don't bulk-load everything.
  4) If `scripts/` exist, prefer running or patching them instead of retyping large code blocks.
  5) If `assets/` or templates exist, reuse them instead of recreating from scratch.
- Coordination and sequencing:
  - If multiple skills apply, choose the minimal set that covers the request and state the order you'll use them.
  - Announce which skill(s) you're using and why (one short line). If you skip an obvious skill, say why.
- Context hygiene:
  - Keep context small: summarize long sections instead of pasting them; only load extra files when needed.
  - Avoid deep reference-chasing: prefer opening only files directly linked from `SKILL.md` unless you're blocked.
  - When variants exist (frameworks, providers, domains), pick only the relevant reference file(s) and note that choice.
- Safety and fallback: If a skill can't be applied cleanly (missing files, unclear instructions), state the issue, pick the next-best approach, and continue."###@
}

fn usage_str() -> (s: &'static str)
    ensures
        s@ == usage_text(),
{
    r###"- Discovery: The "Available skills" list is for implicit routing; descriptions there can trigger skill use. The "Manual-only skills" list is name-only so the user can explicitly invoke those skills without adding their instructions to every turn.
- Trigger rules: If the user names an available skill in plain text, or the task clearly matches an available skill's description, you must use that skill for that turn. If the user explicitly names any skill with `$<skill-name>`, use it for that turn when the skill body is available or can be opened. Multiple mentions mean use them all. Do not carry skills across turns unless re-mentioned.
- Missing/blocked: If an explicitly named skill body is already injected in the conversation, follow it even if the skill is not in the available-skills list. If a named skill cannot be opened or its body is unavailable, say so briefly and continue with the best fallback.
- How to use a skill (progressive disclosure):
  1) After deciding to use a skill, open its `SKILL.md`. Read only enough to follow the workflow.
  2) When `SKILL.md` references bundled skill resources or scripts with relative paths such as `scripts/foo.py`, resolve them relative to the directory containing that `SKILL.md` first, and only consider other paths if needed.
  3) If `SKILL.md` points to extra folders such as `references/`, load only the specific files needed for the request; don't bulk-load everything.
  4) If `scripts/` exist, prefer running or patching them instead of retyping large code blocks.
  5) If `assets/` or templates exist, reuse them instead of recreating from scratch.
- Coordination and sequencing:
  - If multiple skills apply, choose the minimal set that covers the request and state the order you'll use them.
  - Announce which skill(s) you're using and why (one short line). If you skip an obvious skill, say why.
- Context hygiene:
  - Keep context small: summarize long sections instead of pasting them; only load extra files when needed.
  - Avoid deep reference-chasing: prefer opening only files directly linked from `SKILL.md` unless you're blocked.
  - When variants exist (frameworks, providers, domains), pick only the relevant reference file(s) and note that choice.
- Safety and fallback: If a skill can't be applied cleanly (missing files, unclear instructions), state the issue, pick the next-best approach, and continue."###
}

/// The lines of the skills section.
pub open spec fn section_lines(skills: Seq<SkillMetadata>) -> Seq<Seq<char>> {
    let a = seq!["## Skills"@, intro_text()];
    let b = if has_implicit(skills) {
        a.push("### Available skills"@) + implicit_entries(skills)
    } else {
        a
    };
    let c = if has_manual(skills) {
        b + seq!["### Manual-only skills"@, manual_text()] + manual_entries(skills)
    } else {
        b
    };
    c + seq!["### How to use skills"@, usage_text()]
}

/// The skills section, or `None` when there are no skills.
pub open spec fn skills_section(skills: Seq<SkillMetadata>) -> Option<Seq<char>> {
    if skills.len() == 0 {
        None
    } else {
        Some(join_seqs(section_lines(skills), "\n"@))
    }
}

/// Renders the skills section of the instructions: implicitly invokable
/// skills with their guidance, manual-only skills by name, and the usage
/// rules; `None` when there are no skills.
pub fn render_skills_section(skills: &[SkillMetadata]) -> (r: Option<String>)
    ensures
        crate::text::opt_view(r) == skills_section(skills@),
{
    let mut implicit_lines: Vec<String> = Vec::new();
    let mut manual_lines: Vec<String> = Vec::new();
    let mut any_implicit = false;
    let mut any_manual = false;
    let mut i: usize = 0;
    while i < skills.len()
        invariant
            i <= skills.len(),
            strings_view(implicit_lines@) == implicit_entries(skills@.take(i as int)),
            strings_view(manual_lines@) == manual_entries(skills@.take(i as int)),
            any_implicit == has_implicit(skills@.take(i as int)),
            any_manual == has_manual(skills@.take(i as int)),
        decreases skills.len() - i,
    {
        let skill = &skills[i];
        let ghost pre = skills@.take(i as int);
        let ghost next = skills@.take(i + 1);
        proof {
            assert(next.drop_last() =~= pre);
            assert(next.last() == *skill);
            assert(next[i as int] == *skill);
            assert forall|q: int| 0 <= q < i implies next[q] == pre[q] by {}
        }
        if skill.allow_implicit_invocation() {
            let path = forward_slashes(skill.path.as_str());
            let mut line = concat("- ", skill.name.as_str());
            push_str(&mut line, ": ");
            push_str(&mut line, skill.description.as_str());
            push_str(&mut line, " (file: ");
            push_str(&mut line, path.as_str());
            push_str(&mut line, ")");
            push_line(&mut implicit_lines, line);
            extend_lines(&mut implicit_lines, render_structured_skill_guidance(skill));
            extend_lines(&mut implicit_lines, render_command_policy_summary(skill));
            any_implicit = true;
            proof {
                assert(strings_view(implicit_lines@) =~= implicit_entries(next));
                assert(has_implicit(next));
                assert(manual_entries(next) == manual_entries(pre));
                assert(has_manual(next) == has_manual(pre));
            }
        } else {
            push_line(&mut manual_lines, concat("- ", skill.name.as_str()));
            any_manual = true;
            proof {
                assert(strings_view(manual_lines@) =~= manual_entries(next));
                assert(has_manual(next));
                assert(implicit_entries(next) == implicit_entries(pre));
                assert(has_implicit(next) == has_implicit(pre));
            }
        }
        i = i + 1;
    }
    proof {
        assert(skills@.take(skills@.len() as int) =~= skills@);
    }
    if !any_implicit && !any_manual {
        proof {
            if skills@.len() > 0 {
                if allows_implicit(skills@[0]) {
                    assert(has_implicit(skills@));
                } else {
                    assert(has_manual(skills@));
                }
            }
        }
        return None;
    }
    let mut lines: Vec<String> = Vec::new();
    push_line(&mut lines, to_owned_string("## Skills"));
    push_line(&mut lines, to_owned_string(intro_str()));
    if any_implicit {
        push_line(&mut lines, to_owned_string("### Available skills"));
        extend_lines(&mut lines, implicit_lines);
    }
    if any_manual {
        push_line(&mut lines, to_owned_string("### Manual-only skills"));
        push_line(&mut lines, to_owned_string(manual_str()));
        extend_lines(&mut lines, manual_lines);
    }
    push_line(&mut lines, to_owned_string("### How to use skills"));
    push_line(&mut lines, to_owned_string(usage_str()));
    proof {
        assert(strings_view(lines@) =~= section_lines(skills@));
        assert(skills@.len() > 0);
    }
    Some(join_strings(&lines, "\n"))
}

} // verus!
