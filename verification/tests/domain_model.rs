use agy_byok::domain::checkpoint::ModelCompressionPolicy;
use agy_byok::domain::response::UsageInfo;

fn policy() -> ModelCompressionPolicy {
    ModelCompressionPolicy {
        token_threshold: 80_000,
        max_token_limit: 100_000,
        max_output_tokens: 20_000,
        ..ModelCompressionPolicy::default()
    }
}

#[test]
fn model_compression_policy_validation_accepts_complete_valid_policy() {
    assert!(policy().validate("policy").is_ok());
}

#[test]
fn model_compression_policy_validation_rejects_unsupported_worker_models() {
    let mut policy = policy();
    policy.checkpoint_model = "MODEL_PLACEHOLDER_M400".to_string();

    assert!(policy.validate("policy").is_err());
}

#[test]
fn model_compression_policy_validation_rejects_invalid_strategy_numbers() {
    for (max_overhead_ratio, moving_window_size) in [
        ("not-a-number", "1"),
        ("-0.1", "1"),
        ("0.3", "NaN"),
        ("0.3", "-1"),
    ] {
        let mut policy = policy();
        policy.max_overhead_ratio = max_overhead_ratio.to_string();
        policy.moving_window_size = moving_window_size.to_string();

        assert!(policy.validate("policy").is_err());
    }
}

#[test]
fn model_compression_policy_validation_rejects_invalid_token_limits() {
    for (threshold, limit, output) in [
        (0, 100, 10),
        (80, 0, 10),
        (80, 100, 0),
        (100, 100, 1),
        (1, 100, 100),
        (80, 100, 21),
    ] {
        let mut policy = policy();
        policy.token_threshold = threshold;
        policy.max_token_limit = limit;
        policy.max_output_tokens = output;

        assert!(policy.validate("policy").is_err());
    }
}

#[test]
fn aggregate_usage_is_split_into_disjoint_dimensions() {
    let usage = UsageInfo::from_aggregate_totals(12, 9, Some(21), Some(5), None, Some(4));

    assert_eq!(usage.input_tokens, 7);
    assert_eq!(usage.output_tokens, 5);
    assert_eq!(usage.cache_read_tokens, Some(5));
    assert_eq!(usage.reasoning_tokens, Some(4));
    assert_eq!(usage.prompt_tokens(), 12);
    assert_eq!(usage.completion_tokens(), 9);
    assert_eq!(usage.total_tokens, 21);
}

#[test]
fn invalid_detail_breakdowns_do_not_inflate_aggregate_totals() {
    let usage = UsageInfo::from_aggregate_totals(3, 2, Some(1), Some(4), Some(1), Some(3));

    assert_eq!(usage.input_tokens, 3);
    assert_eq!(usage.output_tokens, 2);
    assert_eq!(usage.cache_read_tokens, None);
    assert_eq!(usage.cache_write_tokens, None);
    assert_eq!(usage.reasoning_tokens, None);
    assert_eq!(usage.total_tokens, 5);
}

#[test]
fn validation_messages_name_scope_and_problem() {
    let mut p = policy();
    p.strategy = "   ".to_string();
    assert_eq!(p.validate("scope").unwrap_err(), "scope strategy cannot be empty");
    let mut p = policy();
    p.max_overhead_ratio = "abc".to_string();
    assert_eq!(p.validate("s").unwrap_err(), "s max_overhead_ratio must be numeric");
    let mut p = policy();
    p.moving_window_size = "inf".to_string();
    assert_eq!(p.validate("s").unwrap_err(), "s moving_window_size must be finite and non-negative");
    let mut p = policy();
    p.token_threshold = 90_000;
    assert_eq!(
        p.validate("s").unwrap_err(),
        "s token_threshold plus max_output_tokens must not exceed max_token_limit"
    );
}

#[test]
fn decimal_text_follows_float_parsing() {
    let mut p = policy();
    for ok in ["0", "-0", "+1.5", "1e3", ".5", "5.", "1E-400", "-1e-400", "1.7976931348623157e308"] {
        p.max_overhead_ratio = ok.to_string();
        assert!(p.validate("s").is_ok(), "{ok}");
    }
    for bad in ["", "+", ".", "e5", "1e", "1.2.3", " 1", "-1e-300", "1.7976931348623159e308", "1e309", "Infinity", "-nan"] {
        p.max_overhead_ratio = bad.to_string();
        assert!(p.validate("s").is_err(), "{bad}");
    }
    for ok in ["2.4703282292062327e-324"] {
        // below half the smallest subnormal: rounds to zero
        let neg = format!("-{ok}");
        p.max_overhead_ratio = neg.clone();
        assert_eq!(p.validate("s").is_ok(), neg.parse::<f64>().map(|v| v.is_finite() && v >= 0.0).unwrap_or(false), "{neg}");
    }
}

#[test]
fn checkpoint_models_outside_custom_slots_are_accepted() {
    let mut p = policy();
    for (model, ok) in [
        ("MODEL_PLACEHOLDER_M71", true),
        ("MODEL_PLACEHOLDER_M50", true),
        ("MODEL_PLACEHOLDER_M600", true),
        ("MODEL_PLACEHOLDER_M399", true),
        ("MODEL_PLACEHOLDER_M599", false),
        ("MODEL_PLACEHOLDER_M", false),
        ("MODEL_PLACEHOLDER_Mx", false),
        ("OTHER", false),
    ] {
        p.checkpoint_model = model.to_string();
        assert_eq!(p.validate("s").is_ok(), ok, "{model}");
    }
}

#[test]
fn resolving_a_policy_clamps_it_to_model_limits() {
    let p = ModelCompressionPolicy {
        token_threshold: 180_000,
        max_token_limit: 200_000,
        max_output_tokens: 10_000,
        ..ModelCompressionPolicy::default()
    };
    let r = p.resolve_effective(Some(250_000), Some(20_000)).unwrap();
    assert_eq!((r.token_threshold, r.max_token_limit, r.max_output_tokens), (180_000, 200_000, 10_000));
    let r = p.resolve_effective(Some(100_000), Some(5_000)).unwrap();
    assert_eq!((r.token_threshold, r.max_token_limit, r.max_output_tokens), (95_000, 100_000, 5_000));
    assert!(p.resolve_effective(Some(1), None).is_none());
    assert!(p.resolve_effective(None, Some(0)).is_none());
    let again = r.resolve_effective(Some(100_000), Some(5_000)).unwrap();
    assert_eq!((again.token_threshold, again.max_token_limit, again.max_output_tokens), (95_000, 100_000, 5_000));
}
