use code_core::skill_loader::{
    admin_skills_root, load_skills, record_skill_result, apply_skill_config_rules, dedupe_skill_roots_by_path, extract_frontmatter,
    finalize_loaded_skills, parse_skill_frontmatter, resolve_skill_relative_path, sanitize_single_line,
    skill_entry_action, skill_roots_in_load_order, split_lines, validate_argv_tokens, validate_field,
    SkillConfigRule, SkillConfigRuleSelector, SkillEntryAction, SkillEntryKind, SkillFrontmatter,
    SkillFrontmatterCommand, SkillFrontmatterCommandMatcher, SkillFrontmatterCommandPolicy,
    SkillFrontmatterCommandPolicyPreferred, SkillFrontmatterMetadata, SkillFrontmatterPolicy,
    SkillFrontmatterResource, SkillFrontmatterWorkflowDefault, SkillParseError, SkillPathText, SkillRoot,
};
use code_core::skill_model::{
    SkillLoadOutcome, SkillCommandPolicyAction, SkillCommandPolicyPreferredKind, SkillMetadata, SkillPolicy, SkillResourceKind,
    SkillScope,
};

#[test]
fn admin_root_uses_expected_path() {
    let root = admin_skills_root();
    assert_eq!(root.path, "/etc/codex/skills".to_string());
    assert_eq!(root.scope, SkillScope::Admin);
}

fn path(given: &str, dir: &str) -> SkillPathText {
    SkillPathText { given: given.to_string(), resolved: resolve_skill_relative_path(dir, given) }
}

fn front(name: &str, description: &str) -> SkillFrontmatter {
    SkillFrontmatter {
        name: name.to_string(),
        description: description.to_string(),
        metadata: None,
        resources: Vec::new(),
        commands: Vec::new(),
        workflow_defaults: Vec::new(),
        policy: None,
    }
}

fn parse(f: &SkillFrontmatter) -> Result<SkillMetadata, SkillParseError> {
    parse_skill_frontmatter(f, "/skills/plan/SKILL.md", SkillScope::User, "body".to_string())
}

#[test]
fn frontmatter_is_the_text_between_delimiters() {
    assert_eq!(
        extract_frontmatter("---\nname: a\ndescription: b\n---\nbody\n"),
        Some("name: a\ndescription: b".to_string())
    );
    assert_eq!(extract_frontmatter("  ---  \r\nname: a\r\n---\r\n"), Some("name: a".to_string()));
    assert_eq!(extract_frontmatter("name: a\n---\n"), None);
    assert_eq!(extract_frontmatter("---\n---\nbody"), None);
    assert_eq!(extract_frontmatter("---\nname: a\n"), None);
    assert_eq!(extract_frontmatter(""), None);
    assert_eq!(split_lines("a\r\nb\rc\n\nd"), vec!["a", "b\rc", "", "d"]);
}

#[test]
fn sanitize_collapses_white_space() {
    assert_eq!(sanitize_single_line("  a \t b\n c  "), "a b c");
    assert_eq!(sanitize_single_line(" \n "), "");
}

#[test]
fn validate_field_reports_missing_and_long_values() {
    assert!(validate_field("abc", 3, "name").is_ok());
    assert_eq!(validate_field("", 3, "name"), Err(SkillParseError::MissingField("name".to_string())));
    let err = validate_field("abcd", 3, "name").unwrap_err();
    assert_eq!(err.message(), "invalid name: exceeds maximum length of 3 characters");
    assert!(validate_field("ééé", 3, "name").is_ok());
}

#[test]
fn argv_tokens_are_bounded_and_collapsed() {
    assert_eq!(
        validate_argv_tokens(&vec![" gh ".to_string(), "pr  merge".to_string()], "f").unwrap(),
        vec!["gh".to_string(), "pr merge".to_string()]
    );
    let err = validate_argv_tokens(&vec![], "f").unwrap_err();
    assert_eq!(err.message(), "invalid f: must contain between 1 and 32 tokens");
    let err = validate_argv_tokens(&vec!["ok".to_string(), " ".to_string()], "f").unwrap_err();
    assert_eq!(err.message(), "missing field `f`");
}

#[test]
fn loads_skill_fields_and_resolves_paths() {
    let dir = "/skills/plan";
    let mut f = front("  plan  skill ", "Make\na plan");
    f.metadata = Some(SkillFrontmatterMetadata { short_description: Some("  ".to_string()) });
    f.resources = vec![SkillFrontmatterResource {
        path: path("scripts/create_plan.py", dir),
        kind: SkillResourceKind::Script,
        description: Some(" Helper ".to_string()),
    }];
    f.commands = vec![SkillFrontmatterCommand {
        name: "create-plan".to_string(),
        resource_path: path("scripts/create_plan.py", dir),
        example_argv: vec!["python".to_string(), "scripts/create_plan.py".to_string()],
        purpose: "Create a saved plan.".to_string(),
    }];
    f.workflow_defaults = vec![SkillFrontmatterWorkflowDefault {
        name: "save_location".to_string(),
        value: "$CODEX_HOME/plans or ~/.codex/plans".to_string(),
        description: Some("Keep plan files outside repositories.".to_string()),
    }];
    let skill = parse(&f).expect("skill");
    assert_eq!(skill.name, "plan skill");
    assert_eq!(skill.description, "Make a plan");
    assert_eq!(skill.short_description, None);
    assert_eq!(skill.path, "/skills/plan/SKILL.md");
    assert_eq!(skill.content, "body");
    assert_eq!(skill.resources[0].path, "/skills/plan/scripts/create_plan.py");
    assert_eq!(skill.resources[0].description.as_deref(), Some("Helper"));
    assert_eq!(skill.commands[0].resource_path, "/skills/plan/scripts/create_plan.py");
    assert_eq!(skill.commands[0].example_argv, ["python", "scripts/create_plan.py"]);
    assert_eq!(skill.workflow_defaults[0].value, "$CODEX_HOME/plans or ~/.codex/plans");
    assert!(skill.allow_implicit_invocation());
}

#[test]
fn command_must_run_a_declared_resource() {
    let mut f = front("bad", "bad skill");
    f.commands = vec![SkillFrontmatterCommand {
        name: "run".to_string(),
        resource_path: path("scripts/missing.py", "/skills/bad"),
        example_argv: Vec::new(),
        purpose: "Run it.".to_string(),
    }];
    let err = parse(&f).unwrap_err();
    assert_eq!(
        err.message(),
        "invalid commands.resource_path: command 'run' references resource_path 'scripts/missing.py' which is not declared in the resources section"
    );
}

fn policy_with(matcher: SkillFrontmatterCommandMatcher) -> SkillFrontmatterPolicy {
    SkillFrontmatterPolicy {
        allow_implicit_invocation: Some(false),
        command_policies: vec![SkillFrontmatterCommandPolicy {
            id: "prefer-pr-merge".to_string(),
            matcher,
            action: SkillCommandPolicyAction::RequirePreferred,
            message: Some("use helper".to_string()),
            preferred: vec![SkillFrontmatterCommandPolicyPreferred {
                kind: SkillCommandPolicyPreferredKind::Script,
                path: Some(path("scripts/gh-pr.py", "/skills/github")),
                name: None,
                example_argv: vec!["scripts/gh-pr.py".to_string()],
                purpose: Some("merge".to_string()),
            }],
        }],
    }
}

#[test]
fn loads_command_policy_and_rejects_bad_matchers() {
    let mut f = front("github", "GitHub workflows");
    f.policy = Some(policy_with(SkillFrontmatterCommandMatcher {
        argv_exact: None,
        argv_prefix: Some(vec!["gh".to_string(), "pr".to_string(), "merge".to_string()]),
        shell_regex: None,
    }));
    let skill = parse(&f).expect("skill");
    assert!(!skill.allow_implicit_invocation());
    let p = &skill.policy.as_ref().unwrap().command_policies[0];
    assert_eq!(p.matcher.argv_prefix.as_deref(), Some(&["gh".to_string(), "pr".to_string(), "merge".to_string()][..]));
    assert_eq!(p.preferred[0].path.as_deref(), Some("/skills/github/scripts/gh-pr.py"));

    f.policy = Some(policy_with(SkillFrontmatterCommandMatcher {
        argv_exact: Some(vec!["gh".to_string()]),
        argv_prefix: None,
        shell_regex: Some("^gh".to_string()),
    }));
    assert_eq!(
        parse(&f).unwrap_err().message(),
        "invalid policy.command_policies.match: entry 0 must set only one of argv_exact, argv_prefix, or shell_regex"
    );
    f.policy = Some(policy_with(SkillFrontmatterCommandMatcher {
        argv_exact: None,
        argv_prefix: None,
        shell_regex: Some("  ".to_string()),
    }));
    assert_eq!(
        parse(&f).unwrap_err().message(),
        "invalid policy.command_policies.match: entry 0 must set one of argv_exact, argv_prefix, or shell_regex"
    );
    f.policy = Some(policy_with(SkillFrontmatterCommandMatcher {
        argv_exact: None,
        argv_prefix: None,
        shell_regex: Some("(unclosed".to_string()),
    }));
    let msg = parse(&f).unwrap_err().message();
    assert!(msg.starts_with("invalid policy.command_policies.match.shell_regex: invalid regex in entry 0: "), "{msg}");
}

#[test]
fn rejects_too_long_short_description() {
    let mut f = front("short", "desc");
    f.metadata = Some(SkillFrontmatterMetadata { short_description: Some("x".repeat(161)) });
    assert_eq!(
        parse(&f).unwrap_err().message(),
        "invalid metadata.short-description: exceeds maximum length of 160 characters"
    );
    f.metadata = Some(SkillFrontmatterMetadata { short_description: Some(" ui  summary ".to_string()) });
    assert_eq!(parse(&f).unwrap().short_description.as_deref(), Some("ui summary"));
}

fn loaded(name: &str, skill_path: &str) -> SkillMetadata {
    let mut f = front(name, "d");
    f.description = format!("{name} description");
    parse_skill_frontmatter(&f, skill_path, SkillScope::Repo, String::new()).unwrap()
}

#[test]
fn config_rules_switch_implicit_invocation_last_rule_wins() {
    let mut skills = vec![loaded("a", "/r/a/SKILL.md"), loaded("b", "/r/b/SKILL.md")];
    let rules = vec![
        SkillConfigRule { selector: SkillConfigRuleSelector::Name("a".to_string()), enabled: false },
        SkillConfigRule { selector: SkillConfigRuleSelector::Path("/r/b/SKILL.md".to_string()), enabled: false },
        SkillConfigRule { selector: SkillConfigRuleSelector::Name("a".to_string()), enabled: true },
    ];
    apply_skill_config_rules(&mut skills, &rules);
    assert!(skills[0].allow_implicit_invocation());
    assert!(!skills[1].allow_implicit_invocation());
    assert_eq!(
        skills[1].policy,
        Some(SkillPolicy { allow_implicit_invocation: Some(false), command_policies: Vec::new() })
    );
}

#[test]
fn first_skill_of_a_name_wins_and_skills_sort_by_name() {
    let skills = vec![
        loaded("zeta", "/repo/zeta/SKILL.md"),
        loaded("alpha", "/repo/alpha/SKILL.md"),
        loaded("zeta", "/user/zeta/SKILL.md"),
    ];
    let out = finalize_loaded_skills(skills);
    let names: Vec<(&str, &str)> = out.iter().map(|s| (s.name.as_str(), s.path.as_str())).collect();
    assert_eq!(names, vec![("alpha", "/repo/alpha/SKILL.md"), ("zeta", "/repo/zeta/SKILL.md")]);
}

#[test]
fn roots_keep_load_order_and_first_of_each_path() {
    let root = |p: &str, scope| SkillRoot { path: p.to_string(), scope };
    let roots = skill_roots_in_load_order(
        vec![root("/repo/.agents/skills", SkillScope::Repo)],
        vec![root("/repo/.codex/skills", SkillScope::Repo)],
        Some(root("/home/.agents/skills", SkillScope::User)),
        root("/home/.codex/skills", SkillScope::User),
        root("/home/.codex/skills/.system", SkillScope::System),
        admin_skills_root(),
    );
    assert_eq!(roots.len(), 6);
    assert_eq!(roots[5].scope, SkillScope::Admin);
    let keys: Vec<String> = vec!["/a", "/b", "/a", "/c", "/b", "/d"].into_iter().map(String::from).collect();
    let kept = dedupe_skill_roots_by_path(roots, &keys);
    let scopes: Vec<SkillScope> = kept.iter().map(|r| r.scope).collect();
    assert_eq!(scopes, vec![SkillScope::Repo, SkillScope::Repo, SkillScope::User, SkillScope::Admin]);
}

#[test]
fn discovery_actions_follow_scope_rules() {
    assert_eq!(skill_entry_action(".hidden", SkillEntryKind::Dir, SkillScope::User), SkillEntryAction::Skip);
    assert_eq!(skill_entry_action("sub", SkillEntryKind::Dir, SkillScope::System), SkillEntryAction::EnqueueDir);
    assert_eq!(
        skill_entry_action("link", SkillEntryKind::Symlink { target_is_dir: true }, SkillScope::System),
        SkillEntryAction::Skip
    );
    assert_eq!(
        skill_entry_action("link", SkillEntryKind::Symlink { target_is_dir: true }, SkillScope::Repo),
        SkillEntryAction::EnqueueDir
    );
    assert_eq!(skill_entry_action("SKILL.md", SkillEntryKind::File, SkillScope::User), SkillEntryAction::ParseSkill);
    assert_eq!(skill_entry_action("README.md", SkillEntryKind::File, SkillScope::User), SkillEntryAction::Skip);
    assert_eq!(resolve_skill_relative_path("/skills/x", "/abs/p"), "/abs/p");
    assert_eq!(resolve_skill_relative_path("/skills/x/", "rel"), "/skills/x/rel");
}

/// Loads one skill file's frontmatter the way discovery does: a valid skill
/// is kept, an invalid one becomes an error of the outcome.
fn load_one(f: &SkillFrontmatter, skill_path: &str, rules: &Vec<SkillConfigRule>) -> SkillLoadOutcome {
    let mut outcome = SkillLoadOutcome::default();
    let result = parse_skill_frontmatter(f, skill_path, SkillScope::User, String::new());
    record_skill_result(&mut outcome, skill_path, result, SkillScope::User);
    load_skills(outcome, rules)
}

fn manual_skill() -> SkillFrontmatter {
    let mut f = front("manual-skill", "Manual skill");
    f.policy = Some(SkillFrontmatterPolicy { allow_implicit_invocation: Some(false), command_policies: Vec::new() });
    f
}

#[test]
fn loads_skill_policy_from_frontmatter() {
    let skill_path = "/skills/manual/SKILL.md";
    let outcome = load_one(&manual_skill(), skill_path, &Vec::new());

    assert!(outcome.errors.is_empty(), "unexpected errors: {:?}", outcome.errors);
    assert_eq!(outcome.skills.len(), 1);
    let skill = &outcome.skills[0];
    assert_eq!(skill.path, skill_path);
    assert_eq!(
        skill.policy,
        Some(SkillPolicy { allow_implicit_invocation: Some(false), command_policies: Vec::new() })
    );
    assert!(!skill.allow_implicit_invocation());
}

#[test]
fn loads_command_policy_from_frontmatter() {
    let dir = "/skills/github";
    let mut f = front("github", "GitHub workflows");
    f.policy = Some(SkillFrontmatterPolicy {
        allow_implicit_invocation: None,
        command_policies: vec![SkillFrontmatterCommandPolicy {
            id: "prefer-pr-merge".to_string(),
            matcher: SkillFrontmatterCommandMatcher {
                argv_exact: None,
                argv_prefix: Some(vec!["gh".to_string(), "pr".to_string(), "merge".to_string()]),
                shell_regex: None,
            },
            action: SkillCommandPolicyAction::RequirePreferred,
            message: Some("Raw gh pr merge bypasses helper flow.".to_string()),
            preferred: vec![
                SkillFrontmatterCommandPolicyPreferred {
                    kind: SkillCommandPolicyPreferredKind::Script,
                    path: Some(path("scripts/gh-pr.py", dir)),
                    name: None,
                    example_argv: vec!["scripts/gh-pr.py".to_string(), "merge".to_string(), "<pr>".to_string()],
                    purpose: Some("Use helper script.".to_string()),
                },
                SkillFrontmatterCommandPolicyPreferred {
                    kind: SkillCommandPolicyPreferredKind::Skill,
                    path: None,
                    name: Some("github".to_string()),
                    example_argv: Vec::new(),
                    purpose: None,
                },
            ],
        }],
    });
    let outcome = load_one(&f, "/skills/github/SKILL.md", &Vec::new());

    assert!(outcome.errors.is_empty(), "unexpected errors: {:?}", outcome.errors);
    let skill = outcome.skills.first().expect("skill");
    let policy = skill.policy.as_ref().expect("policy");
    assert!(skill.allow_implicit_invocation());
    assert_eq!(policy.command_policies.len(), 1);
    let command_policy = &policy.command_policies[0];
    assert_eq!(command_policy.id, "prefer-pr-merge");
    assert_eq!(
        command_policy.matcher.argv_prefix.as_deref(),
        Some(&["gh".to_string(), "pr".to_string(), "merge".to_string()][..])
    );
    assert_eq!(command_policy.action, SkillCommandPolicyAction::RequirePreferred);
    assert_eq!(command_policy.preferred.len(), 2);
    assert_eq!(command_policy.preferred[0].path.as_deref(), Some("/skills/github/scripts/gh-pr.py"));
}

#[test]
fn loads_structured_skill_workflow_fields_from_frontmatter() {
    let dir = "/skills/plan";
    let resource = |p: &str, kind, d: &str| SkillFrontmatterResource {
        path: path(p, dir),
        kind,
        description: Some(d.to_string()),
    };
    let mut f = front("plan", "Plan workflows");
    f.resources = vec![
        resource("scripts/create_plan.py", SkillResourceKind::Script, "Script to create plan"),
        resource("scripts/list_plans.py", SkillResourceKind::Script, "Script to list plans"),
        resource("references/format.md", SkillResourceKind::Reference, "Plan body format."),
    ];
    f.commands = vec![
        SkillFrontmatterCommand {
            name: "create-plan".to_string(),
            resource_path: path("scripts/create_plan.py", dir),
            example_argv: ["python", "scripts/create_plan.py", "--name", "<name>"].iter().map(|s| s.to_string()).collect(),
            purpose: "Create a saved plan.".to_string(),
        },
        SkillFrontmatterCommand {
            name: "list-plans".to_string(),
            resource_path: path("scripts/list_plans.py", dir),
            example_argv: ["python", "scripts/list_plans.py"].iter().map(|s| s.to_string()).collect(),
            purpose: "List saved plans.".to_string(),
        },
    ];
    f.workflow_defaults = vec![SkillFrontmatterWorkflowDefault {
        name: "save_location".to_string(),
        value: "$CODEX_HOME/plans or ~/.codex/plans".to_string(),
        description: Some("Keep plan files outside repositories.".to_string()),
    }];
    let outcome = load_one(&f, "/skills/plan/SKILL.md", &Vec::new());

    assert!(outcome.errors.is_empty(), "unexpected errors: {:?}", outcome.errors);
    let skill = outcome.skills.first().expect("skill");
    assert_eq!(skill.resources.len(), 3);
    assert_eq!(skill.resources[0].kind, SkillResourceKind::Script);
    assert_eq!(skill.resources[0].path, "/skills/plan/scripts/create_plan.py");
    assert_eq!(skill.resources[1].kind, SkillResourceKind::Script);
    assert_eq!(skill.resources[1].path, "/skills/plan/scripts/list_plans.py");
    assert_eq!(skill.resources[2].kind, SkillResourceKind::Reference);
    assert_eq!(skill.resources[2].path, "/skills/plan/references/format.md");

    assert_eq!(skill.commands.len(), 2);
    assert_eq!(skill.commands[0].name, "create-plan");
    assert_eq!(skill.commands[0].resource_path, "/skills/plan/scripts/create_plan.py");
    assert_eq!(skill.commands[0].example_argv, ["python", "scripts/create_plan.py", "--name", "<name>"]);
    assert_eq!(skill.commands[0].purpose, "Create a saved plan.");
    assert_eq!(skill.commands[1].name, "list-plans");
    assert_eq!(skill.commands[1].resource_path, "/skills/plan/scripts/list_plans.py");
    assert_eq!(skill.commands[1].example_argv, ["python", "scripts/list_plans.py"]);
    assert_eq!(skill.commands[1].purpose, "List saved plans.");
    assert_eq!(skill.workflow_defaults.len(), 1);
    assert_eq!(skill.workflow_defaults[0].name, "save_location");
    assert_eq!(skill.workflow_defaults[0].value, "$CODEX_HOME/plans or ~/.codex/plans");
    assert_eq!(
        skill.workflow_defaults[0].description.as_deref(),
        Some("Keep plan files outside repositories.")
    );
}

#[test]
fn command_resource_path_must_be_declared_resource() {
    let mut f = front("bad", "Bad command resource");
    f.commands = vec![SkillFrontmatterCommand {
        name: "missing-resource".to_string(),
        resource_path: path("scripts/missing.py", "/skills/bad"),
        example_argv: vec!["python".to_string(), "scripts/missing.py".to_string()],
        purpose: "Run a missing helper.".to_string(),
    }];
    let outcome = load_one(&f, "/skills/bad/SKILL.md", &Vec::new());

    assert!(outcome.skills.is_empty());
    assert_eq!(outcome.errors.len(), 1);
    assert!(
        outcome.errors[0].message.contains("is not declared in the resources section"),
        "unexpected error: {}",
        outcome.errors[0].message
    );
}

fn bad_policy(id: &str, matcher: SkillFrontmatterCommandMatcher) -> SkillFrontmatter {
    let mut f = front("bad", "Bad policy");
    f.policy = Some(SkillFrontmatterPolicy {
        allow_implicit_invocation: None,
        command_policies: vec![SkillFrontmatterCommandPolicy {
            id: id.to_string(),
            matcher,
            action: SkillCommandPolicyAction::RequirePreferred,
            message: None,
            preferred: Vec::new(),
        }],
    });
    f
}

#[test]
fn invalid_command_policy_reports_skill_error() {
    let f = bad_policy(
        "bad-regex",
        SkillFrontmatterCommandMatcher { argv_exact: None, argv_prefix: None, shell_regex: Some("[".to_string()) },
    );
    let outcome = load_one(&f, "/skills/bad/SKILL.md", &Vec::new());

    assert!(outcome.skills.is_empty());
    assert_eq!(outcome.errors.len(), 1);
    assert!(outcome.errors[0].message.contains("invalid regex"), "unexpected error: {}", outcome.errors[0].message);
}

#[test]
fn command_policy_rejects_multiple_matchers() {
    let f = bad_policy(
        "too-many",
        SkillFrontmatterCommandMatcher {
            argv_exact: Some(vec!["gh".to_string(), "pr".to_string(), "merge".to_string()]),
            argv_prefix: Some(vec!["gh".to_string(), "pr".to_string()]),
            shell_regex: None,
        },
    );
    let outcome = load_one(&f, "/skills/bad/SKILL.md", &Vec::new());

    assert!(outcome.skills.is_empty());
    assert_eq!(outcome.errors.len(), 1);
    assert!(outcome.errors[0].message.contains("must set only one"), "unexpected error: {}", outcome.errors[0].message);
}

#[test]
fn config_name_selector_disables_implicit_invocation() {
    let rules = vec![SkillConfigRule {
        selector: SkillConfigRuleSelector::Name("manual-skill".to_string()),
        enabled: false,
    }];
    let outcome = load_one(&front("manual-skill", "Manual skill"), "/skills/manual/SKILL.md", &rules);

    assert_eq!(outcome.skills.len(), 1);
    assert!(!outcome.skills[0].allow_implicit_invocation());
}

#[test]
fn config_path_selector_disables_implicit_invocation() {
    let skill_path = "/skills/manual/SKILL.md";
    let rules = vec![SkillConfigRule {
        selector: SkillConfigRuleSelector::Path(skill_path.to_string()),
        enabled: false,
    }];
    let outcome = load_one(&front("manual-skill", "Manual skill"), skill_path, &rules);

    assert_eq!(outcome.skills.len(), 1);
    assert_eq!(outcome.skills[0].path, skill_path);
    assert!(!outcome.skills[0].allow_implicit_invocation());
}

#[test]
fn later_skill_config_rule_can_re_enable_matching_skill() {
    let rules = vec![
        SkillConfigRule { selector: SkillConfigRuleSelector::Name("enabled-skill".to_string()), enabled: false },
        SkillConfigRule { selector: SkillConfigRuleSelector::Name("enabled-skill".to_string()), enabled: true },
    ];
    let outcome = load_one(&front("enabled-skill", "Enabled skill"), "/skills/enabled/SKILL.md", &rules);

    assert_eq!(outcome.skills.len(), 1);
    assert!(outcome.skills[0].allow_implicit_invocation());
}

fn with_short_description(name: &str, description: &str, short: &str) -> SkillFrontmatter {
    let mut f = front(name, description);
    f.metadata = Some(SkillFrontmatterMetadata { short_description: Some(short.to_string()) });
    f
}

#[test]
fn loads_optional_short_description_from_metadata_frontmatter() {
    let skill_path = "/skills/compact/SKILL.md";
    let f = with_short_description("compact-skill", "Long model-visible trigger description", "Compact UI summary");
    let outcome = load_one(&f, skill_path, &Vec::new());

    assert!(outcome.errors.is_empty(), "unexpected errors: {:?}", outcome.errors);
    assert_eq!(outcome.skills.len(), 1);
    let skill = &outcome.skills[0];
    assert_eq!(skill.path, skill_path);
    assert_eq!(skill.description, "Long model-visible trigger description");
    assert_eq!(skill.short_description.as_deref(), Some("Compact UI summary"));
}

#[test]
fn ignores_empty_short_description_metadata() {
    let f = with_short_description("empty-compact-skill", "Full description", "   ");
    let outcome = load_one(&f, "/skills/empty-compact/SKILL.md", &Vec::new());

    assert!(outcome.errors.is_empty(), "unexpected errors: {:?}", outcome.errors);
    assert_eq!(outcome.skills.len(), 1);
    assert_eq!(outcome.skills[0].short_description, None);
}

#[test]
fn rejects_too_long_short_description_metadata() {
    let f = with_short_description("long-compact-skill", "Full description", &"x".repeat(160 + 1));
    let outcome = load_one(&f, "/skills/long-compact/SKILL.md", &Vec::new());

    assert!(outcome.skills.is_empty());
    assert_eq!(outcome.errors.len(), 1);
    assert!(
        outcome.errors[0].message.contains("invalid metadata.short-description"),
        "unexpected error: {:?}",
        outcome.errors
    );
}

#[test]
fn loader_parses_resources_and_commands() {
    let dir = "/code-home/skills/plan";
    let mut f = front("plan", "Generate a plan");
    f.resources = vec![
        SkillFrontmatterResource {
            path: path("create_plan.py", dir),
            kind: SkillResourceKind::Script,
            description: Some("Helper to create a plan".to_string()),
        },
        SkillFrontmatterResource {
            path: path("template.md", dir),
            kind: SkillResourceKind::Template,
            description: Some("Markdown template".to_string()),
        },
    ];
    f.commands = vec![SkillFrontmatterCommand {
        name: "create-plan".to_string(),
        resource_path: path("create_plan.py", dir),
        example_argv: vec!["python".to_string(), "create_plan.py".to_string(), "--name".to_string()],
        purpose: "Create a plan file".to_string(),
    }];
    let outcome = load_one(&f, "/code-home/skills/plan/SKILL.md", &Vec::new());

    assert!(outcome.errors.is_empty(), "unexpected errors: {:?}", outcome.errors);
    assert_eq!(outcome.skills.len(), 1);
    let skill = &outcome.skills[0];

    assert_eq!(skill.resources.len(), 2);
    assert_eq!(skill.resources[0].path, "/code-home/skills/plan/create_plan.py");
    assert_eq!(skill.resources[0].kind, SkillResourceKind::Script);
    assert_eq!(skill.resources[0].description.as_deref(), Some("Helper to create a plan"));

    assert_eq!(skill.commands.len(), 1);
    assert_eq!(skill.commands[0].name, "create-plan");
    assert_eq!(skill.commands[0].resource_path, "/code-home/skills/plan/create_plan.py");
    assert_eq!(skill.commands[0].example_argv, vec!["python", "create_plan.py", "--name"]);
    assert_eq!(skill.commands[0].purpose, "Create a plan file");
}

#[test]
fn loader_fails_when_command_references_undeclared_resource() {
    let dir = "/code-home/skills/plan";
    let mut f = front("plan", "Generate a plan");
    f.resources = vec![SkillFrontmatterResource {
        path: path("template.md", dir),
        kind: SkillResourceKind::Template,
        description: None,
    }];
    f.commands = vec![SkillFrontmatterCommand {
        name: "create-plan".to_string(),
        resource_path: path("create_plan.py", dir),
        example_argv: Vec::new(),
        purpose: "Create a plan file".to_string(),
    }];
    let outcome = load_one(&f, "/code-home/skills/plan/SKILL.md", &Vec::new());

    assert!(!outcome.errors.is_empty(), "expected validation failure");
    assert!(outcome.errors[0].message.contains("references resource_path"));
}
