use history_engine::domain::{AppError, HistoryFilters, HistoryRow};
use history_engine::engine::list_from_rows;
use history_engine::filter::compile;

fn row(url: &str, title: Option<&str>, ts: i64, visits: i64, locale: Option<&str>) -> HistoryRow {
    HistoryRow {
        url: url.to_string(),
        title: title.map(|s| s.to_string()),
        last_visited_time: ts,
        num_visits: visits,
        locale: locale.map(|s| s.to_string()),
    }
}

fn filters(
    keyword: Option<&str>,
    time_range: Option<&str>,
    locale: Option<&str>,
    sort_by: Option<&str>,
    sort_order: Option<&str>,
) -> HistoryFilters {
    HistoryFilters {
        keyword: keyword.map(|s| s.to_string()),
        time_range: time_range.map(|s| s.to_string()),
        locale: locale.map(|s| s.to_string()),
        sort_by: sort_by.map(|s| s.to_string()),
        sort_order: sort_order.map(|s| s.to_string()),
    }
}

fn sample_rows() -> Vec<HistoryRow> {
    (0..25)
        .map(|i| {
            row(
                &format!("https://site{}.example/p", i),
                Some(&format!("Page {:02}", i)),
                1000 + i as i64,
                (i % 5 + 1) as i64,
                Some(if i % 2 == 0 { "en-us" } else { "zh-cn" }),
            )
        })
        .collect()
}

#[test]
fn page_size_zero_is_invalid() {
    let rows = sample_rows();
    let plan = compile(&filters(None, None, None, None, None), 0);
    let r = list_from_rows(&rows, &plan, 1, 0);
    assert!(matches!(r, Err(AppError::Invalid(_))));
}

#[test]
fn page_size_over_limit_is_invalid() {
    let rows = sample_rows();
    let plan = compile(&filters(None, None, None, None, None), 0);
    assert!(matches!(list_from_rows(&rows, &plan, 1, 501), Err(AppError::Invalid(_))));
    assert!(list_from_rows(&rows, &plan, 1, 500).is_ok());
}

#[test]
fn items_never_exceed_page_size() {
    let rows = sample_rows();
    let plan = compile(&filters(None, None, None, None, None), 0);
    for (page, page_size) in [(1u32, 10u32), (2, 10), (3, 10), (1, 500), (7, 4)] {
        let r = list_from_rows(&rows, &plan, page, page_size).unwrap();
        assert!(r.items.len() <= page_size as usize);
        assert_eq!(r.total, 25);
    }
}

#[test]
fn page_past_the_end_is_empty_with_same_total() {
    let rows = sample_rows();
    let plan = compile(&filters(None, None, None, None, None), 0);
    let r = list_from_rows(&rows, &plan, 100, 10).unwrap();
    assert_eq!(r.items.len(), 0);
    assert_eq!(r.total, 25);
}

#[test]
fn page_below_one_is_clamped_to_one() {
    let rows = sample_rows();
    let plan = compile(&filters(None, None, None, None, None), 0);
    let a = list_from_rows(&rows, &plan, 0, 10).unwrap();
    let b = list_from_rows(&rows, &plan, 1, 10).unwrap();
    let urls_a: Vec<&str> = a.items.iter().map(|i| i.url.as_str()).collect();
    let urls_b: Vec<&str> = b.items.iter().map(|i| i.url.as_str()).collect();
    assert_eq!(urls_a, urls_b);
}

#[test]
fn default_order_is_visit_time_descending() {
    let rows = sample_rows();
    let plan = compile(&filters(None, None, None, None, None), 0);
    let r = list_from_rows(&rows, &plan, 1, 25).unwrap();
    for w in r.items.windows(2) {
        assert!(w[0].last_visited_time >= w[1].last_visited_time);
    }
    assert_eq!(r.items[0].last_visited_time, 1024);
}

#[test]
fn title_sort_puts_missing_titles_first_ascending() {
    let rows = vec![
        row("u1", Some("beta"), 1, 1, None),
        row("u2", None, 2, 1, None),
        row("u3", Some("Alpha"), 3, 1, None),
    ];
    let plan = compile(&filters(None, None, None, Some("title"), Some("asc")), 0);
    let r = list_from_rows(&rows, &plan, 1, 10).unwrap();
    let urls: Vec<&str> = r.items.iter().map(|i| i.url.as_str()).collect();
    // binary order: no title, then "Alpha" (upper case), then "beta"
    assert_eq!(urls, vec!["u2", "u3", "u1"]);
}

#[test]
fn time_range_filter_limits_total() {
    let rows = sample_rows();
    let plan = compile(&filters(None, Some("1005-1010"), None, None, None), 0);
    let r = list_from_rows(&rows, &plan, 1, 100).unwrap();
    assert_eq!(r.total, 6);
    for item in &r.items {
        assert!(item.last_visited_time >= 1005 && item.last_visited_time <= 1010);
    }
}

#[test]
fn locale_filter_is_exact() {
    let rows = sample_rows();
    let plan = compile(&filters(None, None, Some("en-us"), None, None), 0);
    let r = list_from_rows(&rows, &plan, 1, 100).unwrap();
    assert_eq!(r.total, 13);
}

#[test]
fn keyword_matches_title_or_url() {
    let rows = vec![
        row("https://alpha.example/", Some("nothing here"), 1, 1, None),
        row("https://other.example/", Some("about ALPHA stuff"), 2, 1, None),
        row("https://third.example/", Some("unrelated"), 3, 1, None),
        row("https://fourth.example/", None, 4, 1, None),
    ];
    let plan = compile(&filters(Some("alpha"), None, None, None, None), 0);
    let r = list_from_rows(&rows, &plan, 1, 10).unwrap();
    assert_eq!(r.total, 2);
}

#[test]
fn missing_title_still_matches_by_url() {
    let rows = vec![row("https://needle.example/", None, 1, 1, None)];
    let plan = compile(&filters(Some("needle"), None, None, None, None), 0);
    let r = list_from_rows(&rows, &plan, 1, 10).unwrap();
    assert_eq!(r.total, 1);
}

#[test]
fn total_reflects_filter_not_page() {
    let rows = sample_rows();
    let plan = compile(&filters(None, None, Some("zh-cn"), None, None), 0);
    let r1 = list_from_rows(&rows, &plan, 1, 3).unwrap();
    let r9 = list_from_rows(&rows, &plan, 9, 3).unwrap();
    assert_eq!(r1.total, 12);
    assert_eq!(r9.total, 12);
}
