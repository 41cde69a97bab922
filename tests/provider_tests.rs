use digrag::extract::telemetry::TelemetryCollector;
use digrag::tokenizer::{base_form, extract_english_tokens, merge_tokens};
use digrag::embedding::{next_step, truncate_text, NextStep, RequestOutcome, MAX_TEXT_CHARS};
use digrag::extract::summarizer::ProviderConfig;
use digrag::extract::telemetry::ErrorCategory;

#[test]
fn summarizer_test_provider_config_default() {
    let config = ProviderConfig::default();
    assert!(config.allow_fallbacks);
    assert!(config.order.is_none());
}

#[test]
fn extract_summarizer_test_test_provider_config_default() {
    let config = ProviderConfig::default();
    assert!(config.allow_fallbacks);
    assert!(config.order.is_none());
    assert!(config.only.is_none());
    assert!(config.ignore.is_none());
    assert!(config.sort.is_none());
    assert!(!config.require_parameters);
}

#[test]
fn test_provider_config_custom() {
    let config = ProviderConfig {
        order: Some(vec!["Cerebras".to_string(), "Together".to_string()]),
        allow_fallbacks: false,
        only: Some(vec!["Cerebras".to_string()]),
        ignore: Some(vec!["OpenAI".to_string()]),
        sort: Some("price".to_string()),
        require_parameters: true,
    };

    assert!(!config.allow_fallbacks);
    assert_eq!(config.order.as_ref().unwrap().len(), 2);
    assert!(config.require_parameters);
}

#[test]
fn test_error_category_display() {
    assert_eq!(ErrorCategory::Network.to_string(), "Network");
    assert_eq!(ErrorCategory::RateLimit.to_string(), "RateLimit");
}

#[test]
fn error_categories_retry_only_transient() {
    assert!(ErrorCategory::RateLimit.is_retryable());
    assert!(ErrorCategory::Timeout.is_retryable());
    assert!(!ErrorCategory::Authentication.is_retryable());
    assert!(!ErrorCategory::InvalidRequest.is_retryable());
}

#[test]
fn embedding_text_is_trimmed_and_cut() {
    assert_eq!(truncate_text("  hello \n"), "hello");
    assert_eq!(truncate_text("   "), "(empty)");
    let long = "あ".repeat(MAX_TEXT_CHARS + 1);
    let cut = truncate_text(&long);
    assert_eq!(cut.chars().count(), MAX_TEXT_CHARS);
    assert!(cut.ends_with("..."));
    let exact = "x".repeat(MAX_TEXT_CHARS);
    assert_eq!(truncate_text(&exact), exact);
}

#[test]
fn embedding_retry_steps() {
    assert_eq!(next_step(0, RequestOutcome::Delivered), NextStep::Deliver);
    assert_eq!(next_step(0, RequestOutcome::RateLimited), NextStep::Retry { attempt: 1, delay_ms: 2000 });
    assert_eq!(next_step(1, RequestOutcome::TransportError), NextStep::Retry { attempt: 2, delay_ms: 4000 });
    assert_eq!(next_step(2, RequestOutcome::RateLimited), NextStep::GiveUp);
    assert_eq!(next_step(0, RequestOutcome::HttpError), NextStep::Fail);
    assert_eq!(next_step(1, RequestOutcome::Unparsable), NextStep::Fail);
}

#[test]
fn english_tokens_and_merge() {
    assert_eq!(extract_english_tokens("MCPサーバーとmcp API連携 llm"), vec!["MCP", "API", "LLM"]);
    assert!(extract_english_tokens("日本語のみ").is_empty());
    let merged = merge_tokens(vec!["実装".to_string(), "MCP".to_string()], vec!["MCP".to_string(), "API".to_string()]);
    assert_eq!(merged, vec!["実装", "MCP", "API"]);
    let d = |v: &[&str]| v.iter().map(|s| s.to_string()).collect::<Vec<String>>();
    assert_eq!(base_form(&d(&["名詞", "一般", "*", "*", "*", "*", "実装"]), "実装"), Some("実装".to_string()));
    assert_eq!(base_form(&d(&["動詞", "自立", "*", "*", "*", "*", "する"]), "し"), Some("する".to_string()));
    assert_eq!(base_form(&d(&["名詞", "数"]), "1"), None);
    assert_eq!(base_form(&d(&["助詞"]), "の"), None);
    assert_eq!(base_form(&d(&["名詞", "固有名詞", "*", "*", "*", "*", "*"]), "Rust"), Some("Rust".to_string()));
    assert_eq!(base_form(&[], "x"), None);
}

#[test]
fn names_of_modes_and_strategies() {
    use_names();
}

fn use_names() {
    assert_eq!(digrag::config::SearchMode::from_name("semantic"), digrag::config::SearchMode::Semantic);
    assert_eq!(digrag::config::SearchMode::from_name("hybrid"), digrag::config::SearchMode::Hybrid);
    assert_eq!(digrag::config::SearchMode::from_name("other"), digrag::config::SearchMode::Bm25);
    assert_eq!(digrag::extract::ExtractionStrategy::for_mode("entry"), digrag::extract::ExtractionStrategy::ChangelogEntry);
    assert_eq!(digrag::extract::ExtractionStrategy::for_mode("full"), digrag::extract::ExtractionStrategy::Full);
    assert_eq!(digrag::extract::ExtractionStrategy::for_mode("snippet"), digrag::extract::ExtractionStrategy::Head(150));
}

#[test]
fn rule_based_summary_previews_and_counts() {
    use_summary();
}

fn use_summary() {
    let content = digrag::extract::ExtractedContent {
        text: "Hello, World!".to_string(),
        truncated: false,
        stats: digrag::extract::ContentStats { total_chars: 130, total_lines: 12, extracted_chars: 13 },
    };
    let s = digrag::extract::summarizer::rule_based_summary(&content, 5);
    assert_eq!(s.text, "Hello...\n[130 chars, 12 lines]");
    assert_eq!(s.method, "rule-based");
    let s = digrag::extract::summarizer::rule_based_summary(&content, 200);
    assert_eq!(s.text, "Hello, World!");
    assert!(s.usage.is_none());
}

#[test]
fn telemetry_counts_and_keeps_latest_errors() {
    let mut t = TelemetryCollector::new(2);
    t.record_success(10, 5, 100);
    t.record_success(10, 5, 300);
    t.record_failure(ErrorCategory::RateLimit, "a".to_string(), None);
    t.record_failure(ErrorCategory::Network, "b".to_string(), Some("m".to_string()));
    t.record_failure(ErrorCategory::RateLimit, "c".to_string(), None);
    let s = t.get_stats();
    assert_eq!(s.total_calls, 5);
    assert_eq!(s.successful_calls, 2);
    assert_eq!(s.failed_calls, 3);
    assert_eq!(s.total_tokens, 30);
    assert_eq!(s.min_latency_ms, 100);
    assert_eq!(s.max_latency_ms, 300);
    assert_eq!(s.latency_sum_ms, 400);
    assert_eq!(t.get_error_count(ErrorCategory::RateLimit), 2);
    assert_eq!(t.get_error_count(ErrorCategory::Timeout), 0);
    let recent = t.get_recent_errors(10);
    assert_eq!(recent.len(), 2);
    assert_eq!(recent[0].message, "c");
    assert_eq!(recent[1].message, "b");
    t.reset();
    assert_eq!(t.get_stats().total_calls, 0);
    assert!(t.get_recent_errors(10).is_empty());
}
