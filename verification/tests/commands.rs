use prompt_condensor::agent::{
    agent_capabilities, auth_methods, prompt_content, reply_chunks, PromptBlock, SessionCounter,
};
use prompt_condensor::commands::{CondenseSubcommand, UsageArgs, UsageSubcommand};
use prompt_condensor::usage::{bar_layout, day_index, tiny_marker_width};

#[test]
fn condense_subcommand_names() {
    assert_eq!(CondenseSubcommand::Enable.name(), "enable");
    assert_eq!(CondenseSubcommand::Disable.name(), "disable");
    assert!(CondenseSubcommand::Enable.enables_compression());
    assert!(!CondenseSubcommand::Disable.enables_compression());
}

#[test]
fn usage_subcommand_names() {
    assert_eq!(UsageArgs { command: Some(UsageSubcommand::Graph) }.subcommand_name(), Some("graph"));
    assert_eq!(
        UsageArgs { command: Some(UsageSubcommand::Summarize) }.subcommand_name(),
        Some("summarize")
    );
    assert_eq!(UsageArgs { command: None }.subcommand_name(), None);
}

#[test]
fn day_index_is_the_distance_in_days() {
    assert_eq!(day_index(0), 0);
    assert_eq!(day_index(20_000), 20_000);
    assert_eq!(day_index(-5), 5);
    assert_eq!(day_index((1i64 << 32) + 7), 7);
}

#[test]
fn context_bar_layout() {
    let l = bar_layout(120, 10, 5, 3, 2);
    assert_eq!((l.bar_width, l.left_over_width, l.is_overflow), (80, 60, false));
    let l = bar_layout(40, 30, 5, 3, 2);
    assert_eq!((l.bar_width, l.left_over_width, l.is_overflow), (40, 0, false));
    let l = bar_layout(40, 30, 5, 3, 3);
    assert_eq!((l.bar_width, l.left_over_width, l.is_overflow), (40, 0, true));
    assert_eq!(tiny_marker_width(0, 12), 1);
    assert_eq!(tiny_marker_width(0, 0), 0);
    assert_eq!(tiny_marker_width(3, 12), 0);
}

#[test]
fn agent_sessions_and_prompts() {
    let mut counter = SessionCounter::new();
    assert_eq!(counter.new_session(), "0");
    assert_eq!(counter.new_session(), "1");
    for _ in 0..8 {
        counter.new_session();
    }
    assert_eq!(counter.new_session(), "10");

    assert_eq!(prompt_content(&vec![]), None);
    assert_eq!(
        prompt_content(&vec![PromptBlock::Text("hi".to_string()), PromptBlock::Image]),
        Some("hi".to_string())
    );
    assert_eq!(prompt_content(&vec![PromptBlock::Image]), Some("image".to_string()));
    assert_eq!(prompt_content(&vec![PromptBlock::Audio]), Some("audio".to_string()));
    assert_eq!(prompt_content(&vec![PromptBlock::ResourceLink]), Some("resource link".to_string()));
    assert_eq!(prompt_content(&vec![PromptBlock::Resource]), Some("embedded resource".to_string()));

    assert_eq!(reply_chunks("ok".to_string()), vec!["Client sent: ".to_string(), "ok".to_string()]);
    assert_eq!(auth_methods(), vec![("BuilderId", "Builder ID"), ("IdentityCenter", "Identity Center")]);
    let caps = agent_capabilities();
    assert!(caps.load_session && caps.image && !caps.audio && !caps.embedded_context);
}

#[test]
fn session_ids_never_repeat() {
    let mut counter = SessionCounter::new();
    let mut seen = std::collections::HashSet::new();
    for _ in 0..1000 {
        assert!(seen.insert(counter.new_session()));
    }
    assert!(seen.contains("0") && seen.contains("10") && seen.contains("999"));
}
