use code_core::command_policy::SkillCommandPolicyRuntime;
use code_core::command_policy::{describe_matcher, extract_shell_script, format_preferred, preferred_key};
use code_core::skill_model::SkillCommandMatcher;
use code_core::skill_model::SkillCommandPolicy;
use code_core::skill_model::SkillCommandPolicyAction;
use code_core::skill_model::SkillCommandPolicyPreferred;
use code_core::skill_model::SkillCommandPolicyPreferredKind;
use code_core::skill_model::SkillMetadata;
use code_core::skill_model::SkillPolicy;
use code_core::skill_model::SkillScope;

fn runtime(policy: SkillCommandPolicy) -> SkillCommandPolicyRuntime {
    runtime_from_skills(vec![skill("github", vec![policy], false)])
}

fn runtime_from_skills(skills: Vec<SkillMetadata>) -> SkillCommandPolicyRuntime {
    SkillCommandPolicyRuntime::from_skills(&skills)
}

fn skill(name: &str, command_policies: Vec<SkillCommandPolicy>, allow_implicit_invocation: bool) -> SkillMetadata {
    SkillMetadata {
        name: name.to_string(),
        description: format!("{name} workflows"),
        short_description: None,
        path: format!("/tmp/{name}/SKILL.md"),
        scope: SkillScope::User,
        content: String::new(),
        policy: Some(SkillPolicy {
            allow_implicit_invocation: Some(allow_implicit_invocation),
            command_policies,
        }),
        resources: Vec::new(),
        commands: Vec::new(),
        workflow_defaults: Vec::new(),
    }
}

fn policy(matcher: SkillCommandMatcher) -> SkillCommandPolicy {
    SkillCommandPolicy {
        id: "prefer-helper".to_string(),
        matcher,
        action: SkillCommandPolicyAction::RequirePreferred,
        message: Some("use the helper".to_string()),
        preferred: vec![SkillCommandPolicyPreferred {
            kind: SkillCommandPolicyPreferredKind::Script,
            path: Some("/tmp/github/scripts/gh-pr.py".to_string()),
            name: None,
            example_argv: vec!["scripts/gh-pr.py".to_string(), "merge".to_string()],
            purpose: Some("merge safely".to_string()),
        }],
    }
}

fn policy_with_id(id: &str, matcher: SkillCommandMatcher) -> SkillCommandPolicy {
    let mut policy = policy(matcher);
    policy.id = id.to_string();
    policy
}

fn script_preferred(path: &str, purpose: &str) -> SkillCommandPolicyPreferred {
    SkillCommandPolicyPreferred {
        kind: SkillCommandPolicyPreferredKind::Script,
        path: Some(path.to_string()),
        name: None,
        example_argv: vec![path.to_string()],
        purpose: Some(purpose.to_string()),
    }
}

#[test]
fn argv_prefix_matches_direct_command() {
    let runtime = runtime(policy(SkillCommandMatcher {
        argv_prefix: Some(vec!["gh".to_string(), "pr".to_string(), "merge".to_string()]),
        ..Default::default()
    }));

    let matched = runtime
        .check(
            &["gh".to_string(), "pr".to_string(), "merge".to_string(), "234".to_string()],
            false,
        )
        .expect("match");

    assert_eq!(matched.policy.id, "prefer-helper");
}

#[test]
fn argv_prefix_matches_shell_script() {
    let runtime = runtime(policy(SkillCommandMatcher {
        argv_prefix: Some(vec!["gh".to_string(), "pr".to_string(), "merge".to_string()]),
        ..Default::default()
    }));

    let matched = runtime
        .check(
            &[
                "bash".to_string(),
                "-lc".to_string(),
                "gh pr merge 234 --delete-branch".to_string(),
            ],
            false,
        )
        .expect("match");

    assert_eq!(matched.matched_command, "gh pr merge 234 --delete-branch");
}

#[test]
fn shell_regex_matches_script_text() {
    let runtime = runtime(policy(SkillCommandMatcher {
        shell_regex: Some("^gh\\s+pr\\s+merge\\b".to_string()),
        ..Default::default()
    }));

    assert!(
        runtime
            .check(
                &[
                    "bash".to_string(),
                    "-lc".to_string(),
                    "gh pr merge 234".to_string(),
                ],
                false,
            )
            .is_some()
    );
}

#[test]
fn require_confirm_is_bypassed_by_confirm_prefix() {
    let mut command_policy = policy(SkillCommandMatcher {
        argv_prefix: Some(vec!["gh".to_string(), "pr".to_string(), "merge".to_string()]),
        ..Default::default()
    });
    command_policy.action = SkillCommandPolicyAction::RequireConfirm;
    let runtime = runtime(command_policy);

    assert!(
        runtime
            .check(
                &["gh".to_string(), "pr".to_string(), "merge".to_string()],
                true,
            )
            .is_none()
    );
}

#[test]
fn overlap_prefers_exact_over_prefix_and_includes_related_guidance() {
    let prefix_policy = policy_with_id(
        "prefix-policy",
        SkillCommandMatcher {
            argv_prefix: Some(vec!["gh".to_string(), "pr".to_string()]),
            ..Default::default()
        },
    );
    let exact_policy = policy_with_id(
        "exact-policy",
        SkillCommandMatcher {
            argv_exact: Some(vec!["gh".to_string(), "pr".to_string(), "merge".to_string()]),
            ..Default::default()
        },
    );
    let runtime = runtime_from_skills(vec![
        skill("github", vec![prefix_policy], true),
        skill("merge-helper", vec![exact_policy], false),
    ]);

    let guidance = runtime
        .check(&["gh".to_string(), "pr".to_string(), "merge".to_string()], false)
        .expect("match")
        .guidance("original_argv", "[\"gh\", \"pr\", \"merge\"]");

    assert!(guidance.contains("Command policy matched skill `merge-helper` (exact-policy)"));
    assert!(guidance.contains("Also matched policies:"));
    assert!(guidance.contains("skill `github` (prefix-policy)"));
}

#[test]
fn overlap_prefers_prefix_over_regex() {
    let regex_policy = policy_with_id(
        "regex-policy",
        SkillCommandMatcher {
            shell_regex: Some("^gh\\s+pr\\s+merge\\b".to_string()),
            ..Default::default()
        },
    );
    let prefix_policy = policy_with_id(
        "prefix-policy",
        SkillCommandMatcher {
            argv_prefix: Some(vec!["gh".to_string(), "pr".to_string(), "merge".to_string()]),
            ..Default::default()
        },
    );
    let runtime = runtime_from_skills(vec![skill(
        "github",
        vec![regex_policy, prefix_policy],
        true,
    )]);

    let matched = runtime
        .check(
            &[
                "bash".to_string(),
                "-lc".to_string(),
                "gh pr merge 244".to_string(),
            ],
            false,
        )
        .expect("match");

    assert_eq!(matched.policy.id, "prefix-policy");
}

#[test]
fn equal_specificity_uses_stable_loader_order() {
    let first_policy = policy_with_id(
        "first-policy",
        SkillCommandMatcher {
            argv_prefix: Some(vec!["gh".to_string(), "issue".to_string()]),
            ..Default::default()
        },
    );
    let second_policy = policy_with_id(
        "second-policy",
        SkillCommandMatcher {
            argv_prefix: Some(vec!["gh".to_string(), "issue".to_string()]),
            ..Default::default()
        },
    );
    let runtime = runtime_from_skills(vec![
        skill("first", vec![first_policy], true),
        skill("second", vec![second_policy], true),
    ]);

    let guidance = runtime
        .check(&["gh".to_string(), "issue".to_string(), "list".to_string()], false)
        .expect("match")
        .guidance("original_argv", "[\"gh\", \"issue\", \"list\"]");

    assert!(guidance.contains("Command policy matched skill `first` (first-policy)"));
    assert!(guidance.contains("skill `second` (second-policy)"));
}

#[test]
fn longer_prefix_beats_shorter_prefix() {
    let broad_policy = policy_with_id(
        "broad-policy",
        SkillCommandMatcher {
            argv_prefix: Some(vec!["gh".to_string(), "pr".to_string()]),
            ..Default::default()
        },
    );
    let narrow_policy = policy_with_id(
        "narrow-policy",
        SkillCommandMatcher {
            argv_prefix: Some(vec!["gh".to_string(), "pr".to_string(), "merge".to_string()]),
            ..Default::default()
        },
    );
    let runtime = runtime_from_skills(vec![skill(
        "github",
        vec![broad_policy, narrow_policy],
        true,
    )]);

    let matched = runtime
        .check(
            &[
                "gh".to_string(),
                "pr".to_string(),
                "merge".to_string(),
                "246".to_string(),
            ],
            false,
        )
        .expect("match");

    assert_eq!(matched.policy.id, "narrow-policy");
}

#[test]
fn related_policy_lines_include_action_and_warning() {
    let preferred_policy = policy_with_id(
        "preferred-policy",
        SkillCommandMatcher {
            argv_exact: Some(vec!["gh".to_string(), "pr".to_string(), "merge".to_string()]),
            ..Default::default()
        },
    );
    let mut reject_policy = policy_with_id(
        "reject-policy",
        SkillCommandMatcher {
            argv_prefix: Some(vec!["gh".to_string(), "pr".to_string()]),
            ..Default::default()
        },
    );
    reject_policy.action = SkillCommandPolicyAction::Reject;
    reject_policy.message = Some("This raw PR command family is blocked.".to_string());
    let runtime = runtime_from_skills(vec![
        skill("github", vec![preferred_policy], true),
        skill("policy", vec![reject_policy], true),
    ]);

    let guidance = runtime
        .check(&["gh".to_string(), "pr".to_string(), "merge".to_string()], false)
        .expect("match")
        .guidance("original_argv", "[\"gh\", \"pr\", \"merge\"]");

    assert!(guidance.contains("Command policy matched skill `github` (preferred-policy)"));
    assert!(guidance.contains("action: reject"));
    assert!(guidance.contains("warning: This raw PR command family is blocked."));
}

#[test]
fn overlap_deduplicates_preferred_actions() {
    let preferred = script_preferred("/tmp/github/scripts/gh-pr.py", "merge safely");
    let mut first_policy = policy_with_id(
        "first-policy",
        SkillCommandMatcher {
            argv_prefix: Some(vec!["gh".to_string(), "pr".to_string(), "merge".to_string()]),
            ..Default::default()
        },
    );
    first_policy.preferred = vec![preferred.clone()];
    let mut second_policy = policy_with_id(
        "second-policy",
        SkillCommandMatcher {
            shell_regex: Some("^gh\\s+pr\\s+merge\\b".to_string()),
            ..Default::default()
        },
    );
    second_policy.preferred = vec![preferred];
    let runtime = runtime_from_skills(vec![
        skill("github", vec![first_policy], true),
        skill("github-plan", vec![second_policy], true),
    ]);

    let guidance = runtime
        .check(
            &[
                "bash".to_string(),
                "-lc".to_string(),
                "gh pr merge 244".to_string(),
            ],
            false,
        )
        .expect("match")
        .guidance("original_script", "gh pr merge 244");

    assert_eq!(guidance.matches("- script;").count(), 1);
    assert!(guidance.contains("/tmp/github/scripts/gh-pr.py"));
    assert!(guidance.contains("skill `github-plan` (second-policy)"));
}

#[test]
fn manual_only_policy_participates_in_overlap_guidance() {
    let broad_policy = policy_with_id(
        "broad-policy",
        SkillCommandMatcher {
            argv_prefix: Some(vec!["gh".to_string()]),
            ..Default::default()
        },
    );
    let manual_policy = policy_with_id(
        "manual-policy",
        SkillCommandMatcher {
            argv_exact: Some(vec!["gh".to_string(), "issue".to_string(), "close".to_string()]),
            ..Default::default()
        },
    );
    let runtime = runtime_from_skills(vec![
        skill("github", vec![broad_policy], true),
        skill("manual-github", vec![manual_policy], false),
    ]);

    let matched = runtime
        .check(&["gh".to_string(), "issue".to_string(), "close".to_string()], false)
        .expect("match");

    assert_eq!(matched.policy.skill_name, "manual-github");
}

#[test]
fn guidance_includes_preferred_action() {
    let runtime = runtime(policy(SkillCommandMatcher {
        argv_prefix: Some(vec!["gh".to_string(), "pr".to_string(), "merge".to_string()]),
        ..Default::default()
    }));

    let guidance = runtime
        .check(&["gh".to_string(), "pr".to_string(), "merge".to_string()], false)
        .expect("match")
        .guidance("original_argv", "[\"gh\", \"pr\", \"merge\"]");

    assert!(guidance.contains("Command policy matched skill `github`"));
    assert!(guidance.contains("scripts/gh-pr.py"));
    assert!(guidance.contains("merge safely"));
}

#[test]
fn guidance_text_is_exact_for_single_match() {
    let runtime = runtime(policy(SkillCommandMatcher {
        argv_exact: Some(vec!["gh".to_string(), "pr".to_string()]),
        ..Default::default()
    }));
    let guidance = runtime
        .check(&["gh".to_string(), "pr".to_string()], false)
        .expect("match")
        .guidance("original_argv", "x");
    assert_eq!(
        guidance,
        "Command policy matched skill `github` (prefer-helper) at /tmp/github/SKILL.md.\n\
Selected by matcher specificity, matcher width, then stable skill load order.\n\
\n\
use the helper\n\
\n\
Preferred actions:\n\
- script; path: /tmp/github/scripts/gh-pr.py; example: scripts/gh-pr.py merge; purpose: merge safely\n\
\n\
matched_command: gh pr\n\
original_argv: x"
    );
}

#[test]
fn require_confirm_guidance_asks_to_resend() {
    let mut p = policy(SkillCommandMatcher {
        argv_prefix: Some(vec!["rm".to_string()]),
        ..Default::default()
    });
    p.action = SkillCommandPolicyAction::RequireConfirm;
    p.message = None;
    let runtime = runtime(p);
    let guidance = runtime
        .check(&["rm".to_string(), "-rf".to_string()], false)
        .expect("match")
        .guidance("original_argv", "rm -rf");
    assert!(guidance.contains("A loaded skill requires explicit confirmation before this raw command runs."));
    assert!(guidance.contains("Resend with `confirm:` only if the user explicitly asked for this raw command."));
}

#[test]
fn invalid_regex_never_matches() {
    let runtime = runtime(policy(SkillCommandMatcher {
        shell_regex: Some("(unclosed".to_string()),
        ..Default::default()
    }));
    assert!(runtime.check(&["(unclosed".to_string()], false).is_none());
}

#[test]
fn no_policies_match_nothing() {
    let runtime = runtime_from_skills(vec![]);
    assert!(runtime.check(&["gh".to_string()], false).is_none());
}

#[test]
fn unbalanced_script_is_matched_as_text_only() {
    let runtime = runtime(policy(SkillCommandMatcher {
        argv_prefix: Some(vec!["gh".to_string()]),
        ..Default::default()
    }));
    assert!(runtime
        .check(&["bash".to_string(), "-lc".to_string(), "gh \"pr".to_string()], false)
        .is_none());
    let runtime = runtime_from_skills(vec![skill(
        "github",
        vec![policy(SkillCommandMatcher {
            shell_regex: Some("^gh".to_string()),
            ..Default::default()
        })],
        true,
    )]);
    let matched = runtime
        .check(&["/bin/bash".to_string(), "-lc".to_string(), "gh \"pr".to_string()], false)
        .expect("match");
    assert_eq!(matched.matched_command, "gh \"pr");
}

#[test]
fn extract_shell_script_finds_script_after_flags() {
    let cmd = |v: &[&str]| v.iter().map(|s| s.to_string()).collect::<Vec<_>>();
    assert_eq!(extract_shell_script(&cmd(&["/usr/bin/zsh", "-x", "-c", "ls"])), Some(3));
    assert_eq!(extract_shell_script(&cmd(&["bash", "-lc"])), None);
    assert_eq!(extract_shell_script(&cmd(&["python", "-c", "print(1)"])), None);
    assert_eq!(extract_shell_script(&cmd(&["bash", "script.sh", "-c", "x"])), None);
    assert_eq!(extract_shell_script(&cmd(&["sh", "-e", "-c"])), None);
}

#[test]
fn describe_matcher_and_preferred_texts() {
    let m = SkillCommandMatcher { shell_regex: Some("^gh".to_string()), ..Default::default() };
    assert_eq!(describe_matcher(&m), "/^gh/");
    assert_eq!(describe_matcher(&SkillCommandMatcher::default()), "<invalid matcher>");
    let p = SkillCommandPolicyPreferred {
        kind: SkillCommandPolicyPreferredKind::Skill,
        path: None,
        name: Some("github".to_string()),
        example_argv: vec!["a".to_string(), "b".to_string()],
        purpose: None,
    };
    assert_eq!(format_preferred(&p), "- skill; name: github; example: a b");
    assert_eq!(preferred_key(&p), "skill\u{1f}\u{1f}github\u{1f}a\u{1f}b");
}
