use pr_title_generator::cli::ModelType;
use pr_title_generator::context::{ChangeType, CleanContext, ContextProcessor};
use pr_title_generator::error::Error;
use pr_title_generator::git::CommitInfo;
use pr_title_generator::ml::{template_index, TitleGenerator};
use pr_title_generator::text::normalize;
use pr_title_generator::GeneratorConfig;

#[test]
fn test_model_type_conversion() {
    assert_eq!(ModelType::TinyLlama.as_str(), "tiny-llama");
    assert_eq!(ModelType::Phi2.as_str(), "phi-2");
    assert_eq!(ModelType::Gemma2b.as_str(), "gemma-2b");
    assert_eq!(ModelType::Llama2_7b.as_str(), "llama-2-7b");
}

#[test]
fn test_extract_ticket_number() {
    let processor = ContextProcessor::new().unwrap();

    assert_eq!(
        processor.extract_ticket_number("feature/CRU-310-fix-bottle-stuck"),
        Some("CRU-310".to_string())
    );

    assert_eq!(
        processor.extract_ticket_number("fix/JIRA-123-update-auth"),
        Some("JIRA-123".to_string())
    );

    // Should not match random numbers
    assert_eq!(
        processor.extract_ticket_number("feature/123-some-feature"),
        None
    );
}

#[test]
fn test_infer_change_type() {
    let processor = ContextProcessor::new().unwrap();

    assert_eq!(
        processor.infer_change_type("fix/bottle-stuck-issue"),
        Some(ChangeType::Fix)
    );

    assert_eq!(
        processor.infer_change_type("feature/new-auth-system"),
        Some(ChangeType::Feature)
    );

    assert_eq!(
        processor.infer_change_type("hotfix/critical-security-patch"),
        Some(ChangeType::Hotfix)
    );
}

#[test]
fn test_clean_commit_message() {
    let processor = ContextProcessor::new().unwrap();

    assert_eq!(
        processor.clean_single_commit_message("fix: bottle stuck with remediation system"),
        Some("bottle stuck with remediation system".to_string())
    );

    assert_eq!(
        processor.clean_single_commit_message("feat: implement new authentication"),
        Some("implement new authentication".to_string())
    );

    // Should filter out merge messages
    assert_eq!(
        processor.clean_single_commit_message("Merge branch 'main' into feature"),
        None
    );
}

#[test]
fn test_title_generator_creation() {
    let config = GeneratorConfig::default();
    let generator = TitleGenerator::new(config).unwrap();
    assert!(generator.config.temperature_tenths > 0);
}

#[test]
fn test_invalid_temperature() {
    let config = GeneratorConfig::default().with_temperature(20);
    let result = TitleGenerator::new(config);
    assert!(matches!(result, Err(Error::InvalidTemperature { .. })));
}

#[test]
fn test_unsupported_model() {
    let config = GeneratorConfig::default().with_model("unknown-model");
    let result = TitleGenerator::new(config);
    assert!(matches!(result, Err(Error::UnsupportedModel { .. })));
}

#[test]
fn test_pattern_based_generation() {
    let config = GeneratorConfig::default();
    let generator = TitleGenerator::new(config).unwrap();

    let context = CleanContext {
        ticket: Some("CRU-310".to_string()),
        change_type: Some(ChangeType::Fix),
        description: Some("bottle stuck issue".to_string()),
        commits: vec!["fix bottle stuck with remediation".to_string()],
    };

    let title = generator.generate_title(&context).unwrap();
    assert!(!title.is_empty());
    assert!(title.len() <= 72);
}

#[test]
fn test_invalid_max_length() {
    let config = GeneratorConfig::default().with_max_length(0);
    let result = TitleGenerator::new(config);
    assert!(matches!(result, Err(Error::InvalidMaxLength { .. })));
}

#[test]
fn test_normalize_exact() {
    // A housekeeping word, a long digit run and a long hex run all vanish;
    // whitespace collapses and the ends are trimmed.
    assert_eq!(normalize("update bottle 12345 deadbeefcafe"), "bottle");
    assert_eq!(normalize("  hello   world  "), "hello world");
    // Short digit runs survive, and punctuation is kept.
    assert_eq!(normalize("v2: fix 310 bug"), "v2: fix 310 bug");
}

#[test]
fn test_normalize_idempotent_samples() {
    let samples = [
        "update bottle 12345 deadbeefcafe",
        "  spaces \t and\ntabs  ",
        "origin/cursor/main develop master",
        "CRU-310 fix-bottle_stuck/now",
        "",
        "update_ update- update",
    ];
    for s in samples.iter() {
        let once = normalize(s);
        let twice = normalize(&once);
        assert_eq!(once, twice);
    }
}

#[test]
fn test_remove_branch_prefixes() {
    let processor = ContextProcessor::new().unwrap();
    assert_eq!(
        processor.remove_branch_prefixes("refs/remotes/origin/feature/x"),
        "feature/x"
    );
    assert_eq!(processor.remove_branch_prefixes("cursor/fix-y"), "fix-y");
}

#[test]
fn test_fix_beats_feature() {
    let processor = ContextProcessor::new().unwrap();
    // Priority order: a name containing both keywords resolves to Fix.
    assert_eq!(
        processor.infer_change_type("feature/fix-the-parser"),
        Some(ChangeType::Fix)
    );
}

#[test]
fn test_unwhitelisted_prefix_rejected() {
    let processor = ContextProcessor::new().unwrap();
    // The shape matches but the prefix is not whitelisted.
    assert_eq!(processor.extract_ticket_number("feature/ABC-99-stuff"), None);
    // A later whitelisted token does not rescue it: the first match decides.
    assert_eq!(
        processor.extract_ticket_number("ABC-99-then-CRU-310"),
        None
    );
}

#[test]
fn test_extract_description() {
    let processor = ContextProcessor::new().unwrap();
    assert_eq!(
        processor.extract_description("feature/CRU-310-fix-bottle-stuck", true),
        Some("310 fix bottle stuck".to_string())
    );
    // Too few pieces.
    assert_eq!(processor.extract_description("feature/auth", true), None);
    // Short digit groups survive; the result keeps its spaces.
    assert_eq!(
        processor.extract_description("a/b/123", false),
        Some("b 123".to_string())
    );
    // Whatever remains after scrubbing must be longer than three characters.
    assert_eq!(processor.extract_description("x//310", false), None);
}

#[test]
fn test_branch_context_end_to_end() {
    let processor = ContextProcessor::new().unwrap();
    let ctx = processor.extract_branch_context("origin/feature/CRU-310-fix-bottle-stuck");
    assert_eq!(ctx.ticket, Some("CRU-310".to_string()));
    // `fix` outranks `feature` in the priority order.
    assert_eq!(ctx.change_type, Some(ChangeType::Fix));
    assert_eq!(ctx.description, Some("310 fix bottle stuck".to_string()));
}

#[test]
fn test_clean_commit_messages_order_and_drops() {
    let processor = ContextProcessor::new().unwrap();
    let commits = vec![
        CommitInfo {
            hash: "1".to_string(),
            message: "  feat: implement new authentication  ".to_string(),
            author: "a".to_string(),
            timestamp: 3,
        },
        CommitInfo {
            hash: "2".to_string(),
            message: "Revert \"bad change\"".to_string(),
            author: "b".to_string(),
            timestamp: 2,
        },
        CommitInfo {
            hash: "3".to_string(),
            message: "fix: bottle stuck with remediation system".to_string(),
            author: "c".to_string(),
            timestamp: 1,
        },
        CommitInfo {
            hash: "4".to_string(),
            message: "ci: ok".to_string(),
            author: "d".to_string(),
            timestamp: 0,
        },
    ];
    let cleaned = processor.clean_commit_messages(&commits);
    assert_eq!(
        cleaned,
        vec![
            "implement new authentication".to_string(),
            "bottle stuck with remediation system".to_string(),
        ]
    );
}

#[test]
fn test_commit_info_clean_message() {
    let c = CommitInfo {
        hash: "h".to_string(),
        message: "  fix: trailing spaces   ".to_string(),
        author: "a".to_string(),
        timestamp: 0,
    };
    assert_eq!(c.clean_message(), "fix: trailing spaces");
}

#[test]
fn test_filter_meaningful_commits() {
    let processor = ContextProcessor::new().unwrap();
    let commits = vec![
        "update fix add".to_string(),
        "too short".to_string(),
        "implement new authentication layer".to_string(),
    ];
    let kept = processor.filter_meaningful_commits(&commits);
    assert_eq!(kept, vec!["implement new authentication layer".to_string()]);
}

#[test]
fn test_template_index_clamped() {
    // At the maximum temperature the index stays in range.
    assert_eq!(template_index(10, 3), 2);
    assert_eq!(template_index(7, 3), 2);
    assert_eq!(template_index(4, 3), 1);
    assert_eq!(template_index(1, 3), 0);
}

#[test]
fn test_generated_title_exact() {
    // A change type without a template takes the fallback composition.
    let config = GeneratorConfig::default();
    let generator = TitleGenerator::new(config).unwrap();
    let context = CleanContext {
        ticket: Some("JIRA-1".to_string()),
        change_type: Some(ChangeType::Chore),
        description: None,
        commits: vec!["implement new database migrations layer".to_string()],
    };
    let title = generator.generate_title(&context).unwrap();
    assert_eq!(title, "JIRA-1: Chore implement new database migrations layer");
}

#[test]
fn test_generated_title_template_exact() {
    // Temperature 0.7 over three templates selects the third.
    let config = GeneratorConfig::default();
    let generator = TitleGenerator::new(config).unwrap();
    let context = CleanContext {
        ticket: None,
        change_type: Some(ChangeType::Fix),
        description: None,
        commits: vec!["bottle stuck with remediation".to_string()],
    };
    let title = generator.generate_title(&context).unwrap();
    assert_eq!(title, "Correct bottle bottle stuck with remediation");
}

#[test]
fn test_title_articles_stripped() {
    let config = GeneratorConfig::default();
    let generator = TitleGenerator::new(config).unwrap();
    let context = CleanContext {
        ticket: None,
        change_type: Some(ChangeType::Docs),
        description: None,
        commits: vec!["rewrite the guide for a new reader".to_string()],
    };
    let title = generator.generate_title(&context).unwrap();
    assert_eq!(title, "Docs rewrite guide for new reader");
}

#[test]
fn test_title_hard_cap() {
    // Even with a large configured maximum the hard cap holds.
    let config = GeneratorConfig::default().with_max_length(200);
    let generator = TitleGenerator::new(config).unwrap();
    let long = "implement extremely detailed authentication pipeline stages across every module boundary".to_string();
    let context = CleanContext {
        ticket: Some("CRU-310".to_string()),
        change_type: Some(ChangeType::Feature),
        description: None,
        commits: vec![long],
    };
    let title = generator.generate_title(&context).unwrap();
    assert_eq!(title.chars().count(), 72);
    assert!(title.ends_with("..."));
    assert!(title.starts_with("CRU-310: "));
}

#[test]
fn test_post_process_truncation_exact() {
    let config = GeneratorConfig::default();
    let generator = TitleGenerator::new(config).unwrap();
    let context = CleanContext {
        ticket: None,
        change_type: None,
        description: None,
        commits: vec![],
    };
    let raw: String = std::iter::repeat('x').take(100).collect();
    let processed = generator.post_process_title(raw, &context).unwrap();
    let expected: String =
        String::from("X") + &std::iter::repeat('x').take(46).collect::<String>() + "...";
    assert_eq!(processed, expected);
    assert_eq!(processed.chars().count(), 50);
}

#[test]
fn test_ticket_not_duplicated() {
    let config = GeneratorConfig::default();
    let generator = TitleGenerator::new(config).unwrap();
    let context = CleanContext {
        ticket: Some("CRU-310".to_string()),
        change_type: None,
        description: None,
        commits: vec![],
    };
    // The minimal fallback title is generic, so no ticket is prepended.
    let title = generator.generate_title(&context).unwrap();
    assert_eq!(title, "Changes");
}

#[test]
fn test_domain_table_order() {
    // Both auth and api keywords occur; the auth entry comes first.
    let config = GeneratorConfig::default();
    let generator = TitleGenerator::new(config).unwrap();
    let context = CleanContext {
        ticket: None,
        change_type: Some(ChangeType::Fix),
        description: None,
        commits: vec!["login endpoint broken".to_string()],
    };
    let title = generator.generate_title(&context).unwrap();
    assert_eq!(title, "Correct auth login endpoint broken");
}

#[test]
fn test_to_prompt_contents() {
    let context = CleanContext {
        ticket: Some("CRU-310".to_string()),
        change_type: Some(ChangeType::Fix),
        description: Some("bottle stuck".to_string()),
        commits: vec!["first change".to_string(), "second change".to_string()],
    };
    let prompt = context.to_prompt();
    assert!(prompt.contains("Ticket: CRU-310; Type: fix; Description: bottle stuck"));
    assert!(prompt.contains("Changes: first change; second change"));

    let empty = CleanContext {
        ticket: None,
        change_type: None,
        description: None,
        commits: vec![],
    };
    let prompt = empty.to_prompt();
    assert!(prompt.contains("Context: No specific context"));
    assert!(prompt.contains("Changes: No specific changes"));
}

#[test]
fn test_change_type_as_str() {
    assert_eq!(ChangeType::Fix.as_str(), "fix");
    assert_eq!(ChangeType::Feature.as_str(), "feature");
    assert_eq!(ChangeType::Refactor.as_str(), "refactor");
    assert_eq!(ChangeType::Hotfix.as_str(), "hotfix");
    assert_eq!(ChangeType::Chore.as_str(), "chore");
    assert_eq!(ChangeType::Docs.as_str(), "docs");
}

#[test]
fn test_config_builders() {
    let config = GeneratorConfig::default()
        .with_model("phi-2")
        .with_temperature(5)
        .with_max_length(60)
        .with_max_commits(30)
        .with_verbose(true);
    assert_eq!(config.model_name, "phi-2");
    assert_eq!(config.temperature_tenths, 5);
    assert_eq!(config.max_length, 60);
    assert_eq!(config.max_commits, 30);
    assert!(config.verbose);
}
