use code_core::skill_model::SkillCommand;
use code_core::skill_model::SkillCommandMatcher;
use code_core::skill_model::SkillCommandPolicy;
use code_core::skill_model::SkillCommandPolicyAction;
use code_core::skill_model::SkillCommandPolicyPreferred;
use code_core::skill_model::SkillCommandPolicyPreferredKind;
use code_core::skill_model::SkillMetadata;
use code_core::skill_model::SkillPolicy;
use code_core::skill_model::SkillResource;
use code_core::skill_model::SkillResourceKind;
use code_core::skill_model::SkillScope;
use code_core::skill_model::SkillWorkflowDefault;
use code_core::skill_render::render_skills_section;

fn skill(name: &str, allow_implicit_invocation: Option<bool>) -> SkillMetadata {
    SkillMetadata {
        name: name.to_string(),
        description: format!("{name} description"),
        short_description: None,
        path: format!("/tmp/{name}/SKILL.md"),
        scope: SkillScope::User,
        content: String::new(),
        resources: Vec::new(),
        policy: allow_implicit_invocation.map(|allow_implicit_invocation| SkillPolicy {
            allow_implicit_invocation: Some(allow_implicit_invocation),
            command_policies: Vec::new(),
        }),
        commands: Vec::new(),
        workflow_defaults: Vec::new(),
    }
}

#[test]
fn render_skills_section_omits_manual_only_skills() {
    let rendered = render_skills_section(&[skill("implicit", None), skill("manual", Some(false))])
        .expect("implicit skill should render");

    assert!(rendered.contains("- implicit: implicit description"));
    assert!(!rendered.contains("- manual: manual description"));
    assert!(rendered.contains("### Manual-only skills"));
    assert!(rendered.contains("- manual"));
    assert!(!rendered.contains("manual description"));
}

#[test]
fn render_skills_section_lists_only_manual_skill_names() {
    let rendered = render_skills_section(&[skill("manual", Some(false))]);

    let rendered = rendered.expect("manual skill names should render");
    assert!(!rendered.contains("### Available skills"));
    assert!(rendered.contains("### Manual-only skills"));
    assert!(rendered.contains("- manual"));
    assert!(!rendered.contains("manual description"));
}

#[test]
fn render_skills_section_avoids_exhaustive_missing_skill_language() {
    let rendered = render_skills_section(&[skill("implicit", None), skill("manual", Some(false))])
        .expect("skills should render");

    assert!(!rendered.contains("the skills available in this session"));
    assert!(!rendered.contains("isn't in the list"));
    assert!(rendered.contains("If an explicitly named skill body is already injected"));
}

#[test]
fn render_skills_section_uses_full_description_for_model_context() {
    let mut skill = skill("compact", None);
    skill.description = "full trigger description".to_string();
    skill.short_description = Some("compact UI summary".to_string());

    let rendered = render_skills_section(&[skill]).expect("skill should render");

    assert!(rendered.contains("- compact: full trigger description"));
    assert!(!rendered.contains("compact UI summary"));
}

#[test]
fn render_skills_section_includes_command_policy_guidance() {
    let mut skill = skill("github", None);
    skill.policy = Some(SkillPolicy {
        allow_implicit_invocation: None,
        command_policies: vec![SkillCommandPolicy {
            id: "prefer-pr-merge".to_string(),
            matcher: SkillCommandMatcher {
                argv_prefix: Some(vec!["gh".to_string(), "pr".to_string(), "merge".to_string()]),
                ..Default::default()
            },
            action: SkillCommandPolicyAction::RequirePreferred,
            message: Some("use helper".to_string()),
            preferred: vec![SkillCommandPolicyPreferred {
                kind: SkillCommandPolicyPreferredKind::Script,
                path: Some("/tmp/github/scripts/gh-pr.py".to_string()),
                name: None,
                example_argv: vec!["scripts/gh-pr.py".to_string(), "merge".to_string()],
                purpose: Some("merge through helper".to_string()),
            }],
        }],
    });

    let rendered = render_skills_section(&[skill]).expect("skill should render");

    assert!(rendered.contains("`gh pr merge ...`: use - script"));
    assert!(rendered.contains("scripts/gh-pr.py"));
}

#[test]
fn render_skills_section_includes_resources_and_commands() {
    let mut skill = skill("plan", None);
    skill.resources = vec![SkillResource {
        path: "/tmp/plan/scripts/create_plan.py".to_string(),
        kind: SkillResourceKind::Script,
        description: Some("Helper to create a plan".to_string()),
    }];
    skill.commands = vec![SkillCommand {
        name: "create-plan".to_string(),
        resource_path: "/tmp/plan/scripts/create_plan.py".to_string(),
        example_argv: vec!["python".to_string(), "scripts/create_plan.py".to_string(), "--name".to_string()],
        purpose: "Create and save a new plan".to_string(),
    }];
    skill.workflow_defaults = vec![SkillWorkflowDefault {
        name: "save_location".to_string(),
        value: "$CODEX_HOME/plans".to_string(),
        description: Some("Keep plans outside repos".to_string()),
    }];

    let rendered = render_skills_section(&[skill]).expect("skill should render");

    assert!(rendered.contains("resource: /tmp/plan/scripts/create_plan.py (script); description: Helper to create a plan"));
    assert!(rendered.contains("command `create-plan`: run `python scripts/create_plan.py --name` (helper script: /tmp/plan/scripts/create_plan.py); purpose: Create and save a new plan"));
    assert!(rendered.contains("workflow default `save_location`: $CODEX_HOME/plans; description: Keep plans outside repos"));
}

#[test]
fn render_skills_section_omits_structured_guidance_for_manual_only_skills() {
    let mut skill = skill("manual-plan", Some(false));
    skill.resources = vec![SkillResource {
        path: "/tmp/plan/scripts/create_plan.py".to_string(),
        kind: SkillResourceKind::Script,
        description: Some("Helper to create a plan".to_string()),
    }];
    skill.commands = vec![SkillCommand {
        name: "create-plan".to_string(),
        resource_path: "/tmp/plan/scripts/create_plan.py".to_string(),
        example_argv: vec!["python".to_string(), "scripts/create_plan.py".to_string()],
        purpose: "Create and save a new plan".to_string(),
    }];

    let rendered = render_skills_section(&[skill]).expect("manual skill should render");

    assert!(rendered.contains("### Manual-only skills"));
    assert!(rendered.contains("- manual-plan"));
    assert!(!rendered.contains("command `create-plan`"));
    assert!(!rendered.contains("Helper to create a plan"));
}

#[test]
fn render_skills_section_is_none_without_skills() {
    assert!(render_skills_section(&[]).is_none());
}

#[test]
fn render_skills_section_turns_backslashes_into_slashes() {
    let mut s = skill("win", None);
    s.path = "C:\\skills\\win\\SKILL.md".to_string();
    let rendered = render_skills_section(&[s]).expect("skill should render");
    assert!(rendered.contains("- win: win description (file: C:/skills/win/SKILL.md)"));
    assert!(rendered.starts_with("## Skills\nA skill is a set of local instructions"));
    assert!(rendered.ends_with("pick the next-best approach, and continue."));
}
