use history_engine::domain::{AppError, HistoryRow};
use history_engine::engine::overview_from_rows;
use history_engine::filter::compile_time_only;

fn row(url: &str, ts: i64, visits: i64) -> HistoryRow {
    HistoryRow {
        url: url.to_string(),
        title: None,
        last_visited_time: ts,
        num_visits: visits,
        locale: None,
    }
}

#[test]
fn totals_and_ranking_over_grouped_hosts() {
    let rows = vec![
        row("https://a.example/one", 10, 3),
        row("https://b.example/two", 11, 5),
        row("https://a.example/three", 12, 4),
        row("https://c.example/four", 13, 1),
    ];
    let plan = compile_time_only(&None, 0);
    let st = overview_from_rows(&rows, &plan, 6).unwrap();
    assert_eq!(st.total_visits, 13);
    assert_eq!(st.distinct_sites, 3);
    // a.example has 7, b.example 5, c.example 1
    assert_eq!(st.top_entities, vec!["a.example", "b.example", "c.example"]);
}

#[test]
fn top_n_truncates_but_distinct_does_not() {
    let rows = vec![
        row("https://a.example/", 1, 9),
        row("https://b.example/", 2, 8),
        row("https://c.example/", 3, 7),
        row("https://d.example/", 4, 6),
    ];
    let plan = compile_time_only(&None, 0);
    let st = overview_from_rows(&rows, &plan, 2).unwrap();
    assert_eq!(st.top_entities, vec!["a.example", "b.example"]);
    assert_eq!(st.distinct_sites, 4);
}

#[test]
fn empty_hosts_are_excluded_from_ranking_and_count() {
    let rows = vec![
        row("https://", 1, 50),
        row("https://real.example/", 2, 1),
    ];
    let plan = compile_time_only(&None, 0);
    let st = overview_from_rows(&rows, &plan, 6).unwrap();
    assert_eq!(st.distinct_sites, 1);
    assert_eq!(st.top_entities, vec!["real.example"]);
    // the row with an empty host still counts toward total visits
    assert_eq!(st.total_visits, 51);
}

#[test]
fn empty_filtered_set_gives_zero_totals() {
    let rows: Vec<HistoryRow> = Vec::new();
    let plan = compile_time_only(&None, 0);
    let st = overview_from_rows(&rows, &plan, 6).unwrap();
    assert_eq!(st.total_visits, 0);
    assert_eq!(st.distinct_sites, 0);
    assert!(st.top_entities.is_empty());
}

#[test]
fn time_bounds_restrict_the_aggregated_set() {
    let rows = vec![
        row("https://old.example/", 50, 10),
        row("https://mid.example/", 150, 20),
        row("https://new.example/", 250, 40),
    ];
    let plan = compile_time_only(&Some("100-200".to_string()), 0);
    let st = overview_from_rows(&rows, &plan, 6).unwrap();
    assert_eq!(st.total_visits, 20);
    assert_eq!(st.distinct_sites, 1);
    assert_eq!(st.top_entities, vec!["mid.example"]);
}

#[test]
fn ties_keep_first_appearance_order() {
    let rows = vec![
        row("https://first.example/", 1, 5),
        row("https://second.example/", 2, 5),
        row("https://third.example/", 3, 9),
    ];
    let plan = compile_time_only(&None, 0);
    let st = overview_from_rows(&rows, &plan, 6).unwrap();
    assert_eq!(st.top_entities, vec!["third.example", "first.example", "second.example"]);
}

#[test]
fn summation_overflow_is_a_database_error() {
    let rows = vec![
        row("https://a.example/x", 1, i64::MAX),
        row("https://a.example/y", 2, 1),
    ];
    let plan = compile_time_only(&None, 0);
    assert!(matches!(overview_from_rows(&rows, &plan, 6), Err(AppError::Db(_))));
}

#[test]
fn negative_visit_counts_are_summed_as_given() {
    let rows = vec![
        row("https://a.example/x", 1, -2),
        row("https://a.example/y", 2, 5),
    ];
    let plan = compile_time_only(&None, 0);
    let st = overview_from_rows(&rows, &plan, 6).unwrap();
    assert_eq!(st.total_visits, 3);
    assert_eq!(st.top_entities, vec!["a.example"]);
}
