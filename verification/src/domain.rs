//! Core data types of the history engine: records, query results,
//! raw filter input, and the error vocabulary.

use vstd::prelude::*;

verus! {

/// One row of the navigation-history table.
pub struct HistoryItem {
    pub url: String,
    pub title: Option<String>,
    /// Epoch seconds of the most recent visit.
    pub last_visited_time: i64,
    pub num_visits: i64,
}

/// Mathematical view of a [`HistoryItem`].
pub struct ItemView {
    pub url: Seq<char>,
    pub title: Option<Seq<char>>,
    pub last_visited_time: int,
    pub num_visits: int,
}

impl View for HistoryItem {
    type V = ItemView;

    open spec fn view(&self) -> ItemView {
        ItemView {
            url: self.url@,
            title: match self.title {
                Option::Some(t) => Option::Some(t@),
                Option::None => Option::None,
            },
            last_visited_time: self.last_visited_time as int,
            num_visits: self.num_visits as int,
        }
    }
}

/// A record as the engine reads it from the table: a history item plus
/// the locale column the filters match against.
pub struct HistoryRow {
    pub url: String,
    pub title: Option<String>,
    pub last_visited_time: i64,
    pub num_visits: i64,
    pub locale: Option<String>,
}

/// Mathematical view of a [`HistoryRow`].
pub struct RowView {
    pub url: Seq<char>,
    pub title: Option<Seq<char>>,
    pub last_visited_time: int,
    pub num_visits: int,
    pub locale: Option<Seq<char>>,
}

impl View for HistoryRow {
    type V = RowView;

    open spec fn view(&self) -> RowView {
        RowView {
            url: self.url@,
            title: match self.title {
                Option::Some(t) => Option::Some(t@),
                Option::None => Option::None,
            },
            last_visited_time: self.last_visited_time as int,
            num_visits: self.num_visits as int,
            locale: match self.locale {
                Option::Some(l) => Option::Some(l@),
                Option::None => Option::None,
            },
        }
    }
}

/// The views of a row list.
pub open spec fn rows_view(s: Seq<HistoryRow>) -> Seq<RowView> {
    s.map_values(|r: HistoryRow| r@)
}

/// The views of an item list.
pub open spec fn items_view(s: Seq<HistoryItem>) -> Seq<ItemView> {
    s.map_values(|r: HistoryItem| r@)
}

/// The history item carried by a row.
pub open spec fn row_to_item(r: RowView) -> ItemView {
    ItemView {
        url: r.url,
        title: r.title,
        last_visited_time: r.last_visited_time,
        num_visits: r.num_visits,
    }
}

/// A copy of a row, equal in view.
pub fn clone_row(r: &HistoryRow) -> (c: HistoryRow)
    ensures
        c@ == r@,
{
    HistoryRow {
        url: r.url.clone(),
        title: match &r.title {
            Some(t) => Some(t.clone()),
            None => None,
        },
        last_visited_time: r.last_visited_time,
        num_visits: r.num_visits,
        locale: match &r.locale {
            Some(l) => Some(l.clone()),
            None => None,
        },
    }
}

/// The items carried by a list of rows.
pub open spec fn items_of_rows(s: Seq<RowView>) -> Seq<ItemView> {
    s.map_values(|v: RowView| row_to_item(v))
}

/// The item a row yields in a page of results.
pub fn item_of_row(r: &HistoryRow) -> (c: HistoryItem)
    ensures
        c@ == row_to_item(r@),
{
    HistoryItem {
        url: r.url.clone(),
        title: match &r.title {
            Some(t) => Some(t.clone()),
            None => None,
        },
        last_visited_time: r.last_visited_time,
        num_visits: r.num_visits,
    }
}

/// One page of history items together with the total number of records
/// matching the same filter, ignoring pagination.
pub struct HistoryListResponse {
    pub items: Vec<HistoryItem>,
    pub total: i64,
}

/// Aggregate statistics over the filtered record set.
pub struct OverviewStats {
    pub total_visits: i64,
    pub distinct_sites: i64,
    pub top_entities: Vec<String>,
}

/// Raw, loosely-typed filter input as supplied by the caller.
pub struct HistoryFilters {
    pub keyword: Option<String>,
    /// `7d` / `30d` / `90d` / `all`, or a custom `start-end` literal.
    pub time_range: Option<String>,
    pub locale: Option<String>,
    /// `title`, `last_visited_time` or `num_visits`.
    pub sort_by: Option<String>,
    /// `asc` or `desc`.
    pub sort_order: Option<String>,
}

/// Errors surfaced to the caller as tagged values; nothing here aborts.
#[derive(Debug)]
pub enum AppError {
    /// Underlying storage engine failure.
    Db(String),
    /// Bad caller input.
    Invalid(String),
    /// Unexpected internal failure.
    Internal(String),
}

impl AppError {
    /// The message carried by the error, whatever its kind.
    pub fn message(&self) -> (r: &String)
        ensures
            *self is Db ==> r@ == self->Db_0@,
            *self is Invalid ==> r@ == self->Invalid_0@,
            *self is Internal ==> r@ == self->Internal_0@,
    {
        match self {
            AppError::Db(m) => m,
            AppError::Invalid(m) => m,
            AppError::Internal(m) => m,
        }
    }
}

} // verus!
