use history_engine::domain::HistoryFilters;
use history_engine::filter::{
    build_order_clause, compile, compute_time_lower, compute_time_upper, SqlValue,
};
use history_engine::text::parse_i64;

fn filters(
    keyword: Option<&str>,
    time_range: Option<&str>,
    locale: Option<&str>,
    sort_by: Option<&str>,
    sort_order: Option<&str>,
) -> HistoryFilters {
    HistoryFilters {
        keyword: keyword.map(|s| s.to_string()),
        time_range: time_range.map(|s| s.to_string()),
        locale: locale.map(|s| s.to_string()),
        sort_by: sort_by.map(|s| s.to_string()),
        sort_order: sort_order.map(|s| s.to_string()),
    }
}

#[test]
fn custom_range_bounds_are_exact() {
    let tr = Some("100-200".to_string());
    assert_eq!(compute_time_lower(&tr, 1_000_000), Some(100));
    assert_eq!(compute_time_upper(&tr), Some(200));
}

#[test]
fn named_bucket_thirty_days() {
    let tr = Some("30d".to_string());
    assert_eq!(compute_time_lower(&tr, 10_000_000), Some(10_000_000 - 2_592_000));
    assert_eq!(compute_time_upper(&tr), None);
}

#[test]
fn named_buckets_seven_and_ninety_days() {
    assert_eq!(compute_time_lower(&Some("7d".to_string()), 10_000_000), Some(10_000_000 - 604_800));
    assert_eq!(
        compute_time_lower(&Some("90d".to_string()), 10_000_000),
        Some(10_000_000 - 7_776_000)
    );
}

#[test]
fn bogus_range_gives_no_bounds() {
    let tr = Some("bogus".to_string());
    assert_eq!(compute_time_lower(&tr, 1_000_000), None);
    assert_eq!(compute_time_upper(&tr), None);
}

#[test]
fn all_and_absent_give_no_bounds() {
    assert_eq!(compute_time_lower(&Some("all".to_string()), 1_000_000), None);
    assert_eq!(compute_time_lower(&None, 1_000_000), None);
    assert_eq!(compute_time_upper(&None), None);
}

#[test]
fn half_open_custom_ranges() {
    // a side that does not parse yields no bound on that side only
    let tr = Some("100-x".to_string());
    assert_eq!(compute_time_lower(&tr, 0), Some(100));
    assert_eq!(compute_time_upper(&tr), None);
    let tr2 = Some("x-200".to_string());
    assert_eq!(compute_time_lower(&tr2, 0), None);
    assert_eq!(compute_time_upper(&tr2), Some(200));
}

#[test]
fn order_clause_defaults() {
    assert_eq!(build_order_clause(&None, &None), "ORDER BY last_visited_time DESC");
}

#[test]
fn order_clause_unrecognized_tokens_fall_back() {
    assert_eq!(
        build_order_clause(&Some("evil; DROP".to_string()), &Some("upwards".to_string())),
        "ORDER BY last_visited_time DESC"
    );
}

#[test]
fn order_clause_whitelisted_fields() {
    assert_eq!(
        build_order_clause(&Some("title".to_string()), &Some("asc".to_string())),
        "ORDER BY title ASC"
    );
    assert_eq!(
        build_order_clause(&Some("num_visits".to_string()), &Some("desc".to_string())),
        "ORDER BY num_visits DESC"
    );
    assert_eq!(
        build_order_clause(&Some("last_visited_time".to_string()), &Some("asc".to_string())),
        "ORDER BY last_visited_time ASC"
    );
}

#[test]
fn full_plan_text_and_params() {
    let f = filters(Some("kw"), Some("100-200"), Some("en-us"), None, None);
    let plan = compile(&f, 0);
    assert_eq!(
        plan.where_sql(),
        "WHERE last_visited_time >= ?1 AND last_visited_time <= ?2 AND locale = ?3 AND (title LIKE ?4 OR url LIKE ?5)"
    );
    let params = plan.params();
    assert_eq!(params.len(), 5);
    assert!(matches!(&params[0], SqlValue::Int(v) if *v == 100));
    assert!(matches!(&params[1], SqlValue::Int(v) if *v == 200));
    assert!(matches!(&params[2], SqlValue::Text(s) if s == "en-us"));
    assert!(matches!(&params[3], SqlValue::Text(s) if s == "%kw%"));
    assert!(matches!(&params[4], SqlValue::Text(s) if s == "%kw%"));
}

#[test]
fn placeholder_count_always_matches_param_count() {
    let cases = vec![
        filters(None, None, None, None, None),
        filters(Some("kw"), None, None, None, None),
        filters(None, Some("7d"), None, None, None),
        filters(None, Some("100-200"), Some("en-us"), None, None),
        filters(Some("a"), Some("bogus"), Some("zh-cn"), Some("title"), Some("asc")),
        filters(Some(""), Some("all"), Some(""), None, None),
    ];
    for f in cases {
        let plan = compile(&f, 123_456);
        let text = plan.where_sql();
        let placeholders = text.chars().filter(|c| *c == '?').count();
        assert_eq!(placeholders, plan.params().len());
    }
}

#[test]
fn empty_keyword_and_locale_mean_no_filter() {
    let f = filters(Some(""), None, Some(""), None, None);
    let plan = compile(&f, 0);
    assert_eq!(plan.where_sql(), "");
    assert_eq!(plan.params().len(), 0);
}

#[test]
fn parse_i64_accepts_signs_and_rejects_junk() {
    assert_eq!(parse_i64("123"), Some(123));
    assert_eq!(parse_i64("-5"), Some(-5));
    assert_eq!(parse_i64("+7"), Some(7));
    assert_eq!(parse_i64("0"), Some(0));
    assert_eq!(parse_i64(""), None);
    assert_eq!(parse_i64("-"), None);
    assert_eq!(parse_i64("+"), None);
    assert_eq!(parse_i64("3x"), None);
    assert_eq!(parse_i64(" 3"), None);
}

#[test]
fn parse_i64_range_edges() {
    assert_eq!(parse_i64("9223372036854775807"), Some(i64::MAX));
    assert_eq!(parse_i64("9223372036854775808"), None);
    assert_eq!(parse_i64("-9223372036854775808"), Some(i64::MIN));
    assert_eq!(parse_i64("-9223372036854775809"), None);
}
