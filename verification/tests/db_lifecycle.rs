use history_engine::config::AppConfig;
use history_engine::db::HistoryDb;
use history_engine::domain::{AppError, HistoryFilters};

fn no_filters() -> HistoryFilters {
    HistoryFilters {
        keyword: None,
        time_range: None,
        locale: None,
        sort_by: None,
        sort_order: None,
    }
}

fn by_visits_desc() -> HistoryFilters {
    HistoryFilters {
        keyword: None,
        time_range: None,
        locale: None,
        sort_by: Some("num_visits".to_string()),
        sort_order: Some("desc".to_string()),
    }
}

fn make_small_db(path: &str) {
    let conn = rusqlite::Connection::open(path).unwrap();
    conn.execute_batch(
        "DROP TABLE IF EXISTS navigation_history; \
         CREATE TABLE navigation_history (url TEXT PRIMARY KEY, id INTEGER, title TEXT, \
         metadata TEXT, last_visited_time INTEGER NOT NULL DEFAULT 0, \
         num_visits INTEGER NOT NULL DEFAULT 1, product_entity_id TEXT, locale TEXT, \
         titledata TEXT, urldata TEXT, page_profile TEXT);",
    )
    .unwrap();
    for (url, title, ts, visits) in [
        ("https://p4.example/a", "A", 100i64, 2i64),
        ("https://p4.example/b", "B", 200, 3),
        ("https://other.example/c", "C", 300, 4),
    ] {
        conn.execute(
            "INSERT INTO navigation_history(url, title, last_visited_time, num_visits, locale) \
             VALUES (?1, ?2, ?3, ?4, ?5)",
            (url, title, ts, visits, "en-us"),
        )
        .unwrap();
    }
}

#[test]
fn first_run_on_fallback_path_seeds_fifty_records() {
    let mut db = HistoryDb::new(None, "/tmp/he_seed_history_test.db".to_string());
    let r = db.list_history(1, 500, &no_filters()).unwrap();
    assert_eq!(r.total, 50);
    assert_eq!(r.items.len(), 50);
}

#[test]
fn page_one_by_visits_descending_has_the_ten_highest() {
    let mut db = HistoryDb::new(None, "/tmp/he_p7_history_test.db".to_string());
    let r = db.list_history(1, 10, &by_visits_desc()).unwrap();
    assert_eq!(r.total, 50);
    assert_eq!(r.items.len(), 10);
    let visits: Vec<i64> = r.items.iter().map(|i| i.num_visits).collect();
    // the seeded visit counts cycle 1..=7: seven records have 7, seven have 6
    assert_eq!(visits, vec![7, 7, 7, 7, 7, 7, 7, 6, 6, 6]);
    for w in r.items.windows(2) {
        assert!(w[0].num_visits >= w[1].num_visits);
    }
}

#[test]
fn stats_are_identical_when_nothing_changes() {
    let mut db = HistoryDb::new(None, "/tmp/he_p3_history_test.db".to_string());
    let st1 = db.stats_overview(&None).unwrap();
    let st2 = db.stats_overview(&None).unwrap();
    assert_eq!(st1.total_visits, st2.total_visits);
    assert_eq!(st1.distinct_sites, st2.distinct_sites);
    assert_eq!(st1.top_entities, st2.top_entities);
    // the seeded data sums to 7 full cycles of 1..=7 plus one final 1
    assert_eq!(st1.total_visits, 197);
    assert_eq!(st1.distinct_sites, 1);
    assert_eq!(st1.top_entities, vec!["example.com"]);
}

#[test]
fn set_db_path_round_trip_reads_the_new_file() {
    let other = "/tmp/he_p4_other.db";
    make_small_db(other);
    let mut db = HistoryDb::new(None, "/tmp/he_p4_main_history_test.db".to_string());
    let before = db.list_history(1, 500, &no_filters()).unwrap();
    assert_eq!(before.total, 50);

    let mut config = AppConfig::new_at(0);
    let header = b"SQLite format 3\0".to_vec();
    db.set_db_path(other.to_string(), &header, &mut config).unwrap();
    assert_eq!(config.get_db_path().as_deref(), Some(other));

    let after = db.list_history(1, 500, &no_filters()).unwrap();
    assert_eq!(after.total, 3);
    let st = db.stats_overview(&None).unwrap();
    assert_eq!(st.total_visits, 9);
    assert_eq!(st.distinct_sites, 2);
    assert_eq!(st.top_entities, vec!["p4.example", "other.example"]);
}

#[test]
fn set_db_path_rejects_non_sqlite_content() {
    let mut db = HistoryDb::new(None, "/tmp/he_badhdr_history_test.db".to_string());
    let mut config = AppConfig::new_at(0);
    let header = b"not a database!!".to_vec();
    let r = db.set_db_path("/tmp/he_whatever.db".to_string(), &header, &mut config);
    assert!(matches!(r, Err(AppError::Invalid(_))));
    assert!(config.get_db_path().is_none());
}

#[test]
fn failed_reset_recovers_on_next_query() {
    let mut db = HistoryDb::new(None, "/tmp/he_rec_history_test.db".to_string());
    assert_eq!(db.list_history(1, 500, &no_filters()).unwrap().total, 50);
    let r = db.reset_connection("/tmp/he_no_such_dir_xyz/q.db");
    assert!(matches!(r, Err(AppError::Db(_))));
    // the next call reopens the previously resolved path
    assert_eq!(db.list_history(1, 500, &no_filters()).unwrap().total, 50);
}

#[test]
fn keyword_and_locale_filters_against_seeded_data() {
    let mut db = HistoryDb::new(None, "/tmp/he_kw_history_test.db".to_string());
    let by_keyword = HistoryFilters {
        keyword: Some("page4".to_string()),
        time_range: None,
        locale: None,
        sort_by: None,
        sort_order: None,
    };
    // page4 itself plus page40 through page49
    assert_eq!(db.list_history(1, 500, &by_keyword).unwrap().total, 11);
    let by_locale = HistoryFilters {
        keyword: None,
        time_range: None,
        locale: Some("en-us".to_string()),
        sort_by: None,
        sort_order: None,
    };
    assert_eq!(db.list_history(1, 500, &by_locale).unwrap().total, 25);
}

#[test]
fn invalid_page_size_reported_before_touching_the_database() {
    let mut db = HistoryDb::new(None, "/tmp/he_val_history_test.db".to_string());
    assert!(matches!(db.list_history(1, 0, &no_filters()), Err(AppError::Invalid(_))));
    assert!(matches!(db.list_history(1, 501, &no_filters()), Err(AppError::Invalid(_))));
}
