use polynostr::alerts::error::AlertError;
use polynostr::alerts::model::AlertRule;
use polynostr::alerts::parser::parse_add_args;

#[test]
fn parses_above_cents() {
    let (_, rule) = parse_add_args("btc above 52").expect("should parse");
    assert_eq!(rule, AlertRule::Above { threshold: 520_000_000 });
}

#[test]
fn parses_below_decimal() {
    let (_, rule) = parse_add_args("btc below 0.41").expect("should parse");
    assert_eq!(rule, AlertRule::Below { threshold: 410_000_000 });
}

#[test]
fn parses_percent_move() {
    let (_, rule) = parse_add_args("btc move 7.5").expect("should parse");
    assert_eq!(rule, AlertRule::PercentMove { percent: 7_500_000_000 });
}

#[test]
fn rejects_invalid_threshold_range() {
    let err = parse_add_args("btc above 500").expect_err("should fail");
    assert!(err.user_message().contains("Threshold must be between 0 and 1"));
}

#[test]
fn rejects_invalid_move_percent() {
    let err = parse_add_args("btc move 0").expect_err("should fail");
    assert!(err.user_message().contains("Move percent must be > 0"));
}

#[test]
fn rejects_invalid_rule() {
    let err = parse_add_args("btc weird 1").expect_err("should fail");
    assert!(err.to_string().contains("invalid rule"));
}

#[test]
fn parse_keeps_the_slug() {
    let (slug, rule) = parse_add_args("will-bitcoin-hit-150k below 0.3").expect("should parse");
    assert_eq!(slug, "will-bitcoin-hit-150k");
    assert_eq!(rule, AlertRule::Below { threshold: 300_000_000 });
}

#[test]
fn parse_threshold_one_and_hundred_cents() {
    let (_, a) = parse_add_args("m above 1").expect("one");
    assert_eq!(a, AlertRule::Above { threshold: 1_000_000_000 });
    let (_, b) = parse_add_args("m above 100").expect("hundred cents");
    assert_eq!(b, AlertRule::Above { threshold: 1_000_000_000 });
}

#[test]
fn parse_refuses_missing_words() {
    let err = parse_add_args("btc above").expect_err("should fail");
    assert!(matches!(err, AlertError::InvalidCommand(_)));
}

#[test]
fn parse_refuses_non_number() {
    let err = parse_add_args("btc above abc").expect_err("should fail");
    assert!(matches!(err, AlertError::InvalidRule(_)));
}

#[test]
fn move_below_one_billionth_percent_is_kept_positive() {
    let (_, tiny) = parse_add_args("btc move 0.0000000001").expect("tiny move");
    assert_eq!(tiny, AlertRule::PercentMove { percent: 1 });
    let (_, rule) = parse_add_args("btc move 0.000000001").expect("one billionth");
    assert_eq!(rule, AlertRule::PercentMove { percent: 1 });
    let err = parse_add_args("btc move 0.0000000000").expect_err("zero");
    assert_eq!(err.user_message(), "Move percent must be > 0 and <= 100.");
}

#[test]
fn exponent_forms_are_read() {
    let (_, a) = parse_add_args("btc move 5e1").expect("5e1");
    assert_eq!(a, AlertRule::PercentMove { percent: 50_000_000_000 });
    let (_, b) = parse_add_args("btc above 5.2E1").expect("5.2E1 cents");
    assert_eq!(b, AlertRule::Above { threshold: 520_000_000 });
    let (_, c) = parse_add_args("btc below 0.52e+0").expect("0.52e+0");
    assert_eq!(c, AlertRule::Below { threshold: 520_000_000 });
    let (_, d) = parse_add_args("btc below 1e-3").expect("1e-3");
    assert_eq!(d, AlertRule::Below { threshold: 1_000_000 });
    let (_, e) = parse_add_args("btc above 1e-400").expect("tiny");
    assert_eq!(e, AlertRule::Above { threshold: 0 });
    let (_, f) = parse_add_args("btc move 1e-9").expect("one billionth");
    assert_eq!(f, AlertRule::PercentMove { percent: 1 });
    let (_, g) = parse_add_args("btc above .5").expect(".5");
    assert_eq!(g, AlertRule::Above { threshold: 500_000_000 });
}

#[test]
fn exponent_forms_out_of_range_or_malformed() {
    let range = "Threshold must be between 0 and 1 (or 0 to 100 cents).";
    assert_eq!(parse_add_args("btc above 1e999999999999999999999999999").unwrap_err().user_message(), range);
    assert_eq!(parse_add_args("btc above inf").unwrap_err().user_message(), range);
    assert_eq!(parse_add_args("btc above -Infinity").unwrap_err().user_message(), range);
    assert_eq!(parse_add_args("btc above NaN").unwrap_err().user_message(), range);
    assert_eq!(parse_add_args("btc above 2e3").unwrap_err().user_message(), range);
    assert_eq!(
        parse_add_args("btc above 5e").unwrap_err().user_message(),
        "Threshold must be a number (e.g. 0.52 or 52)."
    );
    let (_, tiny) = parse_add_args("btc move 1e-10").expect("tiny move");
    assert_eq!(tiny, AlertRule::PercentMove { percent: 1 });
    assert_eq!(
        parse_add_args("btc move 0e5").unwrap_err().user_message(),
        "Move percent must be > 0 and <= 100."
    );
    assert_eq!(
        parse_add_args("btc move -2e0").unwrap_err().user_message(),
        "Move percent must be > 0 and <= 100."
    );
    assert_eq!(
        parse_add_args("btc move 1e2.5").unwrap_err().user_message(),
        "Move percent must be numeric (e.g. 5)."
    );
}
