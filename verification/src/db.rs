//! The connection manager: owns the single live SQLite handle, resolves
//! the active file path, lazily opens it, bootstraps the demo schema on
//! the fallback path, and swaps the handle when pointed at another file.
//! Every call into the storage engine goes through a trusted wrapper
//! declared here; everything around the calls is verified.

use vstd::prelude::*;
use vstd::string::StrSliceExecFns;
use vstd::string::StringExecFns;

use rusqlite::params_from_iter;
use rusqlite::types::Value;

use crate::config::AppConfig;
use crate::domain::AppError;
use crate::domain::HistoryFilters;
use crate::domain::HistoryListResponse;
use crate::domain::HistoryRow;
use crate::domain::OverviewStats;
use crate::filter::compile;
use crate::filter::compile_time_only;
use crate::filter::preds_view;
use crate::filter::SqlValue;

verus! {

#[verifier::external_type_specification]
#[verifier::external_body]
pub struct ExConnection(rusqlite::Connection);

#[verifier::external_type_specification]
#[verifier::external_body]
pub struct ExSqliteError(rusqlite::Error);

/// Relies on rusqlite::Connection::open: opens the SQLite database at
/// `path`, creating the file if it does not exist.
#[verifier::external_body]
fn open_connection(path: &str) -> Result<rusqlite::Connection, rusqlite::Error> {
    rusqlite::Connection::open(path)
}

/// Relies on rusqlite::Connection::pragma_update: applies write-ahead
/// journaling and relaxed synchronous commit. Failures are ignored; the
/// settings are performance hints, not correctness-critical.
#[verifier::external_body]
fn apply_pragmas(conn: &rusqlite::Connection) {
    let _ = conn.pragma_update(None, "journal_mode", "WAL");
    let _ = conn.pragma_update(None, "synchronous", "NORMAL");
}

/// Relies on rusqlite::Connection::execute_batch: runs the given SQL
/// statements, which take no parameters.
#[verifier::external_body]
fn execute_batch_sql(conn: &rusqlite::Connection, sql: &str) -> Result<(), rusqlite::Error> {
    conn.execute_batch(sql)
}

/// Relies on rusqlite::Connection::execute: runs one parameterized SQL
/// statement, binding the given values in order.
#[verifier::external_body]
fn execute_params(
    conn: &rusqlite::Connection,
    sql: &str,
    params: &Vec<SqlValue>,
) -> Result<usize, rusqlite::Error> {
    let vals: Vec<Value> = params.iter().map(|v| match v {
        SqlValue::Int(i) => Value::Integer(*i),
        SqlValue::Text(s) => Value::Text(s.clone()),
    }).collect();
    conn.execute(sql, params_from_iter(vals.iter()))
}

/// Relies on rusqlite::Connection::query_row: runs a query returning a
/// single signed 64-bit value.
#[verifier::external_body]
fn query_count(conn: &rusqlite::Connection, sql: &str) -> Result<i64, rusqlite::Error> {
    conn.query_row(sql, [], |r| r.get(0))
}

/// Relies on rusqlite::Statement::query: runs the row query with the
/// values bound in order and converts each returned row to plain values.
#[verifier::external_body]
fn query_rows(
    conn: &rusqlite::Connection,
    sql: &str,
    params: &Vec<SqlValue>,
) -> Result<Vec<HistoryRow>, rusqlite::Error> {
    let vals: Vec<Value> = params.iter().map(|v| match v {
        SqlValue::Int(i) => Value::Integer(*i),
        SqlValue::Text(s) => Value::Text(s.clone()),
    }).collect();
    let mut stmt = conn.prepare(sql)?;
    let mut rows = stmt.query(params_from_iter(vals.iter()))?;
    let mut acc = Vec::new();
    while let Some(row) = rows.next()? {
        acc.push(HistoryRow { url: row.get(0)?, title: row.get(1)?,
            last_visited_time: row.get(2)?, num_visits: row.get(3)?, locale: row.get(4)? });
    }
    Ok(acc)
}

/// Relies on rusqlite::Error's Display implementation for the message.
#[verifier::external_body]
fn sqlite_error_message(e: &rusqlite::Error) -> String {
    e.to_string()
}

/// Relies on chrono::Utc::now: the current time as epoch seconds. Nothing
/// is promised of the value; callers state what holds whatever it is.
#[verifier::external_body]
pub fn now_epoch_seconds() -> i64 {
    chrono::Utc::now().timestamp()
}

/// A storage-engine failure as the caller sees it.
fn db_err(e: &rusqlite::Error) -> (r: AppError)
    ensures
        r is Db,
{
    AppError::Db(sqlite_error_message(e))
}

/// The statements that create the demo table and its index, fixed as
/// text the way the query texts are.
fn create_schema_sql() -> (r: &'static str)
    ensures
        r@ == "CREATE TABLE IF NOT EXISTS navigation_history (url TEXT PRIMARY KEY, id INTEGER, title TEXT, metadata TEXT, last_visited_time INTEGER NOT NULL DEFAULT 0, num_visits INTEGER NOT NULL DEFAULT 1, product_entity_id TEXT, locale TEXT, titledata TEXT, urldata TEXT, page_profile TEXT); CREATE INDEX IF NOT EXISTS idx_nav_last_time ON navigation_history(last_visited_time DESC);"@,
{
    "CREATE TABLE IF NOT EXISTS navigation_history (url TEXT PRIMARY KEY, id INTEGER, title TEXT, metadata TEXT, last_visited_time INTEGER NOT NULL DEFAULT 0, num_visits INTEGER NOT NULL DEFAULT 1, product_entity_id TEXT, locale TEXT, titledata TEXT, urldata TEXT, page_profile TEXT); CREATE INDEX IF NOT EXISTS idx_nav_last_time ON navigation_history(last_visited_time DESC);"
}

/// The seed insert statement, with one placeholder per bound value.
fn insert_row_sql() -> (r: &'static str)
    ensures
        r@ == "INSERT OR REPLACE INTO navigation_history(url, id, title, last_visited_time, num_visits, locale) VALUES (?1, ?2, ?3, ?4, ?5, ?6)"@,
{
    "INSERT OR REPLACE INTO navigation_history(url, id, title, last_visited_time, num_visits, locale) VALUES (?1, ?2, ?3, ?4, ?5, ?6)"
}

/// The six bound values of seeded sample row `i`: a numbered page URL
/// and title, visit times spaced one hour apart counting back from
/// `now`, visit counts cycling 1..=7, and alternating locales.
pub open spec fn spec_seed_row(i: int, now: int) -> Seq<crate::filter::ValView> {
    seq![
        crate::filter::ValView::Text("https://example.com/page"@ + crate::text::spec_dec_str(i)),
        crate::filter::ValView::Int(i),
        crate::filter::ValView::Text("Sample page "@ + crate::text::spec_dec_str(i)),
        crate::filter::ValView::Int(crate::filter::spec_sat_sub(now, 3600 * i)),
        crate::filter::ValView::Int(i % 7 + 1),
        crate::filter::ValView::Text(
            if i % 2 == 0 {
                "en-us"@
            } else {
                "zh-cn"@
            },
        ),
    ]
}

/// The bound values of seeded row `i`, exactly as [`spec_seed_row`]
/// states them.
fn seed_row_params(i: usize, now: i64) -> (r: Vec<SqlValue>)
    requires
        i < 50,
    ensures
        crate::filter::vals_view(r@) == spec_seed_row(i as int, now as int),
{
    let mut url = String::from_str("https://example.com/page");
    let num = crate::text::usize_to_string(i);
    url.append(num.as_str());
    let mut title = String::from_str("Sample page ");
    title.append(num.as_str());
    let locale = if i % 2 == 0 {
        String::from_str("en-us")
    } else {
        String::from_str("zh-cn")
    };
    let ts = crate::filter::sat_sub_i64(now, (i as i64) * 3600);
    let visits = (i % 7 + 1) as i64;
    let mut r: Vec<SqlValue> = Vec::new();
    r.push(SqlValue::Text(url));
    r.push(SqlValue::Int(i as i64));
    r.push(SqlValue::Text(title));
    r.push(SqlValue::Int(ts));
    r.push(SqlValue::Int(visits));
    r.push(SqlValue::Text(locale));
    proof {
        assert(crate::filter::vals_view(r@) =~= spec_seed_row(i as int, now as int));
    }
    r
}

/// Creates the demo table and index, and seeds fifty sample records when
/// the table is empty, so a first run on the fallback path is not empty.
/// The schema text and every seeded row are fixed by the contracts of
/// [`create_schema_sql`], [`insert_row_sql`] and [`seed_row_params`].
fn init_schema(conn: &rusqlite::Connection, now: i64) -> (r: Result<(), AppError>)
    ensures
        r is Err ==> r->Err_0 is Db,
{
    match execute_batch_sql(conn, create_schema_sql()) {
        Ok(_) => {},
        Err(e) => {
            return Err(db_err(&e));
        },
    }
    let count = match query_count(conn, "SELECT COUNT(*) FROM navigation_history") {
        Ok(c) => c,
        Err(e) => {
            return Err(db_err(&e));
        },
    };
    if count != 0 {
        return Ok(());
    }
    let mut i: usize = 0;
    while i < 50
        invariant
            i <= 50,
        decreases 50 - i,
    {
        let params = seed_row_params(i, now);
        match execute_params(conn, insert_row_sql(), &params) {
            Ok(_) => {},
            Err(e) => {
                return Err(db_err(&e));
            },
        }
        i += 1;
    }
    Ok(())
}

/// The connection manager: exactly one handle is live at a time, opened
/// lazily, and replaced as a whole when the active path changes. The raw
/// handle never leaves this type.
pub struct HistoryDb {
    conn: Option<rusqlite::Connection>,
    active_path: Option<String>,
    config_db_path: Option<String>,
    fallback_path: String,
}

impl HistoryDb {
    /// Whether a handle is live.
    pub closed spec fn is_connected(&self) -> bool {
        self.conn is Some
    }

    /// The path the live handle was opened on.
    pub closed spec fn spec_active_path(&self) -> Option<Seq<char>> {
        match self.active_path {
            Option::Some(p) => Option::Some(p@),
            Option::None => Option::None,
        }
    }

    /// The path the next lazy open resolves to: the configured path when
    /// one is present, else the fallback path.
    pub closed spec fn spec_resolved_path(&self) -> Seq<char> {
        match self.config_db_path {
            Option::Some(p) => p@,
            Option::None => self.fallback_path@,
        }
    }

    /// A manager with no live handle, resolving paths as given.
    pub fn new(config_db_path: Option<String>, fallback_path: String) -> (db: HistoryDb)
        ensures
            !db.is_connected(),
            db.spec_active_path() is None,
            db.spec_resolved_path() == (match config_db_path {
                Option::Some(p) => p@,
                Option::None => fallback_path@,
            }),
    {
        HistoryDb { conn: None, active_path: None, config_db_path, fallback_path }
    }

    /// Ensures a live handle: opens the resolved path if none is live,
    /// applying the durability hints, and bootstraps the demo data when
    /// the fallback path had to be used. An open failure leaves the
    /// manager in the explicit no-connection state.
    pub fn acquire(&mut self) -> (r: Result<(), AppError>)
        ensures
            r is Ok <==> final(self).is_connected(),
            r is Err ==> r->Err_0 is Db && !final(self).is_connected(),
            old(self).is_connected() ==> r is Ok && *final(self) == *old(self),
            (r is Ok && !old(self).is_connected()) ==> final(self).spec_active_path() == Some(
                old(self).spec_resolved_path(),
            ),
            final(self).spec_resolved_path() == old(self).spec_resolved_path(),
    {
        match &self.conn {
            Some(_) => Ok(()),
            None => {
                let use_fallback = match &self.config_db_path {
                    Some(_) => false,
                    None => true,
                };
                let path: String = match &self.config_db_path {
                    Some(p) => p.clone(),
                    None => self.fallback_path.clone(),
                };
                match open_connection(path.as_str()) {
                    Ok(c) => {
                        apply_pragmas(&c);
                        if use_fallback {
                            match init_schema(&c, now_epoch_seconds()) {
                                Ok(_) => {},
                                Err(e) => {
                                    self.conn = None;
                                    self.active_path = None;
                                    return Err(e);
                                },
                            }
                        }
                        self.conn = Some(c);
                        self.active_path = Some(path);
                        Ok(())
                    },
                    Err(e) => {
                        self.conn = None;
                        self.active_path = None;
                        Err(db_err(&e))
                    },
                }
            },
        }
    }

    /// Swaps the singleton handle to `new_path`: the old handle is
    /// dropped and the new file opened with the same durability hints.
    /// On failure the manager is left in the explicit no-connection
    /// state, which the next `acquire` recovers from.
    pub fn reset_connection(&mut self, new_path: &str) -> (r: Result<(), AppError>)
        ensures
            r is Ok <==> final(self).is_connected(),
            r is Ok ==> final(self).spec_active_path() == Some(new_path@),
            r is Err ==> r->Err_0 is Db && !final(self).is_connected(),
            final(self).spec_resolved_path() == old(self).spec_resolved_path(),
    {
        self.conn = None;
        self.active_path = None;
        match open_connection(new_path) {
            Ok(c) => {
                apply_pragmas(&c);
                self.conn = Some(c);
                self.active_path = Some(new_path.to_owned());
                Ok(())
            },
            Err(e) => Err(db_err(&e)),
        }
    }
}

/// What a returned page means: for the rows `rv` the table held and the
/// clock value `now` the filters were compiled at, the items are the
/// requested page of the matching rows in the resolved order, and the
/// total counts every matching row.
pub open spec fn list_outcome(
    resp: HistoryListResponse,
    filters: &HistoryFilters,
    page: u32,
    page_size: u32,
    rv: Seq<crate::domain::RowView>,
    now: int,
) -> bool {
    let ps = crate::filter::spec_plan_preds(
        crate::filter::opt_str_view(filters.keyword),
        crate::filter::opt_str_view(filters.time_range),
        crate::filter::opt_str_view(filters.locale),
        now,
    );
    let fv = crate::engine::spec_filter(rv, ps);
    let sorted = crate::engine::spec_sort(
        fv,
        crate::filter::spec_sort_field(crate::filter::opt_str_view(filters.sort_by)),
        crate::filter::spec_sort_dir(crate::filter::opt_str_view(filters.sort_order)),
    );
    crate::domain::items_view(resp.items@) == crate::domain::items_of_rows(
        crate::engine::spec_page(sorted, page as int, page_size as int),
    ) && resp.total == fv.len()
}

/// What returned statistics mean: for the rows `rv` the table held and
/// the clock value `now`, the totals and ranking are those of the rows
/// inside the compiled time bounds.
pub open spec fn overview_outcome(
    st: OverviewStats,
    time_range: &Option<String>,
    rv: Seq<crate::domain::RowView>,
    now: int,
) -> bool {
    let ps = crate::filter::seg_time(crate::filter::opt_str_view(*time_range), now);
    let fv = crate::engine::spec_filter(rv, ps);
    st.total_visits == crate::engine::sum_visits(fv) && st.distinct_sites
        == crate::engine::spec_groups(fv).len() && crate::engine::hosts_view(st.top_entities@)
        == crate::engine::spec_top_hosts(
        crate::engine::spec_sort_g(crate::engine::spec_groups(fv)),
        6,
    )
}

impl HistoryDb {
    /// One page of history plus the total matching count. `page_size`
    /// outside 1..=500 is rejected before anything else happens; pages
    /// below one are clamped to one.
    pub fn list_history(
        &mut self,
        page: u32,
        page_size: u32,
        filters: &HistoryFilters,
    ) -> (r: Result<HistoryListResponse, AppError>)
        ensures
            (page_size == 0 || page_size > 500) ==> (r is Err && r->Err_0 is Invalid
                && *final(self) == *old(self)),
            (r is Err && r->Err_0 is Invalid) ==> (page_size == 0 || page_size > 500),
            r is Ok ==> r->Ok_0.items@.len() <= page_size && r->Ok_0.total >= 0,
            r is Ok ==> exists|rv: Seq<crate::domain::RowView>, now: int|
                list_outcome(r->Ok_0, filters, page, page_size, rv, now),
            r is Ok ==> final(self).is_connected(),
            old(self).is_connected() ==> final(self).spec_active_path() == old(
                self,
            ).spec_active_path(),
            final(self).spec_resolved_path() == old(self).spec_resolved_path(),
    {
        if page_size == 0 || page_size > 500 {
            return Err(AppError::Invalid(String::from_str("page_size out of range")));
        }
        match self.acquire() {
            Ok(_) => {},
            Err(e) => {
                return Err(e);
            },
        }
        let now = now_epoch_seconds();
        let plan = compile(filters, now);
        proof {
            assert(plan.predicates@.len() == preds_view(plan.predicates@).len());
            assert(preds_view(plan.predicates@).len() <= 4);
        }
        let sql = plan.select_sql();
        let params = plan.params();
        let rows = match &self.conn {
            Some(c) => {
                match query_rows(c, sql.as_str(), &params) {
                    Ok(rs) => rs,
                    Err(e) => {
                        return Err(db_err(&e));
                    },
                }
            },
            None => {
                return Err(AppError::Db(String::from_str("connection not initialized")));
            },
        };
        let r = crate::engine::list_from_rows(&rows, &plan, page, page_size);
        proof {
            if r is Ok {
                assert(list_outcome(
                    r->Ok_0,
                    filters,
                    page,
                    page_size,
                    crate::domain::rows_view(rows@),
                    now as int,
                ));
            }
        }
        r
    }

    /// The aggregate statistics for an optional time range: total visits,
    /// distinct sites, and the six most visited sites.
    pub fn stats_overview(&mut self, time_range: &Option<String>) -> (r: Result<
        OverviewStats,
        AppError,
    >)
        ensures
            r is Ok ==> r->Ok_0.top_entities@.len() <= 6,
            r is Ok ==> exists|rv: Seq<crate::domain::RowView>, now: int|
                overview_outcome(r->Ok_0, time_range, rv, now),
            r is Ok ==> final(self).is_connected(),
            r is Err ==> (r->Err_0 is Db || r->Err_0 is Internal),
            old(self).is_connected() ==> final(self).spec_active_path() == old(
                self,
            ).spec_active_path(),
            final(self).spec_resolved_path() == old(self).spec_resolved_path(),
    {
        match self.acquire() {
            Ok(_) => {},
            Err(e) => {
                return Err(e);
            },
        }
        let now = now_epoch_seconds();
        let plan = compile_time_only(time_range, now);
        proof {
            assert(plan.predicates@.len() == preds_view(plan.predicates@).len());
            assert(preds_view(plan.predicates@).len() <= 2);
        }
        let sql = plan.select_sql();
        let params = plan.params();
        let rows = match &self.conn {
            Some(c) => {
                match query_rows(c, sql.as_str(), &params) {
                    Ok(rs) => rs,
                    Err(e) => {
                        return Err(db_err(&e));
                    },
                }
            },
            None => {
                return Err(AppError::Db(String::from_str("connection not initialized")));
            },
        };
        let r = crate::engine::overview_from_rows(&rows, &plan, 6);
        proof {
            if r is Ok {
                let st = r->Ok_0;
                assert(crate::engine::hosts_view(st.top_entities@).len()
                    == st.top_entities@.len());
                assert(overview_outcome(st, time_range, crate::domain::rows_view(rows@), now as int));
            }
        }
        r
    }

    /// Makes `path` the active database: the file content must begin
    /// with the SQLite signature, the configuration records the path,
    /// and the handle is swapped. A failed swap leaves the recorded path
    /// in place and the manager in the no-connection state.
    pub fn set_db_path(&mut self, path: String, header: &Vec<u8>, config: &mut AppConfig) -> (r:
        Result<String, AppError>)
        ensures
            !crate::config::spec_valid_header(header@) ==> (r is Err && r->Err_0 is Invalid
                && *final(self) == *old(self) && *final(config) == *old(config)),
            (r is Err && r->Err_0 is Invalid) ==> !crate::config::spec_valid_header(header@),
            crate::config::spec_valid_header(header@) ==> (final(config).db_path is Some
                && final(config).db_path->0@ == path@
                && final(config).browser_db_path == old(config).browser_db_path
                && final(config).top_sites_count == old(config).top_sites_count),
            r is Ok ==> final(self).is_connected() && final(self).spec_active_path() == Some(
                path@,
            ),
            (r is Err && r->Err_0 is Db) ==> !final(self).is_connected(),
    {
        if !crate::config::validate_db_header(header) {
            return Err(AppError::Invalid(String::from_str("not a valid SQLite database file")));
        }
        let now = now_epoch_seconds();
        config.set_db_path(path.clone(), now);
        match self.reset_connection(path.as_str()) {
            Ok(_) => Ok(String::from_str("database path updated")),
            Err(e) => Err(e),
        }
    }
}

} // verus!
