//! The query engine: evaluates a compiled plan over the record rows —
//! filtering, ordering, pagination and the matching total — and the
//! aggregate statistics over the same filtered set.

use vstd::prelude::*;
use vstd::string::StrSliceExecFns;

use crate::domain::rows_view;
use crate::domain::HistoryRow;
use crate::domain::RowView;
use crate::filter::preds_view;
use crate::filter::CompiledPlan;
use crate::filter::PredView;
use crate::filter::Predicate;
use crate::text::chars_of;
use crate::text::spec_like;
use crate::text::str_eq_str;

verus! {

/// Whether one predicate of a plan holds of a row. A missing locale never
/// matches a locale filter; a missing title leaves only the URL for the
/// keyword pattern to match.
pub open spec fn pred_holds(p: PredView, r: RowView) -> bool {
    match p {
        PredView::TimeLower(t) => r.last_visited_time >= t,
        PredView::TimeUpper(t) => r.last_visited_time <= t,
        PredView::LocaleEq(s) => r.locale is Some && r.locale->0 == s,
        PredView::KeywordLike(pat) => (r.title is Some && spec_like(pat, r.title->0)) || spec_like(
            pat,
            r.url,
        ),
    }
}

/// A row matches a plan when every predicate holds: the predicates are
/// conjoined.
pub open spec fn row_matches(ps: Seq<PredView>, r: RowView) -> bool {
    forall|k: int| 0 <= k < ps.len() ==> pred_holds(ps[k], r)
}

/// Exec counterpart of [`pred_holds`].
pub fn eval_pred(p: &Predicate, r: &HistoryRow) -> (b: bool)
    ensures
        b == pred_holds(p@, r@),
{
    match p {
        Predicate::TimeLower(t) => r.last_visited_time >= *t,
        Predicate::TimeUpper(t) => r.last_visited_time <= *t,
        Predicate::LocaleEq(s) => match &r.locale {
            Some(l) => str_eq_str(l.as_str(), s.as_str()),
            None => false,
        },
        Predicate::KeywordLike(pat) => {
            let pchars = chars_of(pat.as_str());
            let title_hit = match &r.title {
                Some(t) => {
                    let tchars = chars_of(t.as_str());
                    crate::text::like_match(&pchars, &tchars)
                },
                None => false,
            };
            if title_hit {
                true
            } else {
                let uchars = chars_of(r.url.as_str());
                crate::text::like_match(&pchars, &uchars)
            }
        },
    }
}

/// Exec counterpart of [`row_matches`].
pub fn row_matches_exec(plan: &CompiledPlan, r: &HistoryRow) -> (b: bool)
    ensures
        b == row_matches(preds_view(plan.predicates@), r@),
{
    let ghost pv = preds_view(plan.predicates@);
    let n = plan.predicates.len();
    let mut i: usize = 0;
    while i < n
        invariant
            n == plan.predicates@.len(),
            pv == preds_view(plan.predicates@),
            i <= n,
            forall|k: int| 0 <= k < i ==> pred_holds(pv[k], r@),
        decreases n - i,
    {
        if !eval_pred(&plan.predicates[i], r) {
            proof {
                assert(pv[i as int] == plan.predicates@[i as int]@);
            }
            return false;
        }
        i += 1;
    }
    true
}

/// The rows matching a plan, in their original order.
pub open spec fn spec_filter(s: Seq<RowView>, ps: Seq<PredView>) -> Seq<RowView>
    decreases s.len(),
{
    if s.len() == 0 {
        Seq::empty()
    } else {
        spec_filter(s.drop_last(), ps) + if row_matches(ps, s.last()) {
            seq![s.last()]
        } else {
            Seq::empty()
        }
    }
}

/// Exec counterpart of [`spec_filter`].
pub fn filter_rows(rows: &Vec<HistoryRow>, plan: &CompiledPlan) -> (r: Vec<HistoryRow>)
    ensures
        rows_view(r@) == spec_filter(rows_view(rows@), preds_view(plan.predicates@)),
{
    let ghost rv = rows_view(rows@);
    let ghost pv = preds_view(plan.predicates@);
    let n = rows.len();
    let mut out: Vec<HistoryRow> = Vec::new();
    let mut i: usize = 0;
    proof {
        assert(rv.take(0) =~= Seq::<RowView>::empty());
        assert(rows_view(out@) =~= spec_filter(rv.take(0), pv));
    }
    while i < n
        invariant
            n == rows@.len(),
            rv == rows_view(rows@),
            pv == preds_view(plan.predicates@),
            i <= n,
            rows_view(out@) == spec_filter(rv.take(i as int), pv),
        decreases n - i,
    {
        proof {
            assert(rv.take(i + 1).drop_last() =~= rv.take(i as int));
            assert(rv.take(i + 1).last() == rv[i as int]);
        }
        if row_matches_exec(plan, &rows[i]) {
            out.push(crate::domain::clone_row(&rows[i]));
        }
        proof {
            assert(rows_view(out@) =~= spec_filter(rv.take(i + 1), pv));
        }
        i += 1;
    }
    proof {
        assert(rv.take(n as int) =~= rv);
    }
    out
}

/// Order on optional titles: an absent title sorts before every present
/// one, as the storage engine sorts null text.
pub open spec fn opt_title_le(a: Option<Seq<char>>, b: Option<Seq<char>>) -> bool {
    match (a, b) {
        (Option::None, _) => true,
        (Option::Some(_), Option::None) => false,
        (Option::Some(x), Option::Some(y)) => crate::text::spec_str_le(x, y),
    }
}

/// Ascending comparison of two rows on a sort field.
pub open spec fn key_le(f: crate::filter::SortField, a: RowView, b: RowView) -> bool {
    match f {
        crate::filter::SortField::Title => opt_title_le(a.title, b.title),
        crate::filter::SortField::NumVisits => a.num_visits <= b.num_visits,
        crate::filter::SortField::LastVisitedTime => a.last_visited_time <= b.last_visited_time,
    }
}

/// The plan's row order: the sort field ascending or descending.
pub open spec fn row_le(
    f: crate::filter::SortField,
    d: crate::filter::SortDir,
    a: RowView,
    b: RowView,
) -> bool {
    match d {
        crate::filter::SortDir::Asc => key_le(f, a, b),
        crate::filter::SortDir::Desc => key_le(f, b, a),
    }
}

/// Exec counterpart of [`row_le`].
pub fn row_le_exec(
    f: crate::filter::SortField,
    d: crate::filter::SortDir,
    a: &HistoryRow,
    b: &HistoryRow,
) -> (r: bool)
    ensures
        r == row_le(f, d, a@, b@),
{
    let (x, y) = match d {
        crate::filter::SortDir::Asc => (a, b),
        crate::filter::SortDir::Desc => (b, a),
    };
    match f {
        crate::filter::SortField::Title => {
            match (&x.title, &y.title) {
                (None, _) => true,
                (Some(_), None) => false,
                (Some(t), Some(u)) => crate::text::str_le(t.as_str(), u.as_str()),
            }
        },
        crate::filter::SortField::NumVisits => x.num_visits <= y.num_visits,
        crate::filter::SortField::LastVisitedTime => x.last_visited_time <= y.last_visited_time,
    }
}

/// Insertion into a sorted sequence, after any equal keys: later input
/// stays behind earlier equal input, so the order is stable.
pub open spec fn spec_insert(
    x: RowView,
    s: Seq<RowView>,
    f: crate::filter::SortField,
    d: crate::filter::SortDir,
) -> Seq<RowView>
    decreases s.len(),
{
    if s.len() == 0 {
        seq![x]
    } else if row_le(f, d, s[0], x) {
        seq![s[0]] + spec_insert(x, s.skip(1), f, d)
    } else {
        seq![x] + s
    }
}

/// Insertion sort of the rows, taking them in input order.
pub open spec fn spec_sort(
    s: Seq<RowView>,
    f: crate::filter::SortField,
    d: crate::filter::SortDir,
) -> Seq<RowView>
    decreases s.len(),
{
    if s.len() == 0 {
        Seq::empty()
    } else {
        spec_insert(s.last(), spec_sort(s.drop_last(), f, d), f, d)
    }
}

/// Sorting keeps the length.
pub proof fn lemma_insert_len(
    x: RowView,
    s: Seq<RowView>,
    f: crate::filter::SortField,
    d: crate::filter::SortDir,
)
    ensures
        spec_insert(x, s, f, d).len() == s.len() + 1,
    decreases s.len(),
{
    if s.len() > 0 && row_le(f, d, s[0], x) {
        lemma_insert_len(x, s.skip(1), f, d);
    }
}

pub proof fn lemma_sort_len(
    s: Seq<RowView>,
    f: crate::filter::SortField,
    d: crate::filter::SortDir,
)
    ensures
        spec_sort(s, f, d).len() == s.len(),
    decreases s.len(),
{
    if s.len() > 0 {
        lemma_sort_len(s.drop_last(), f, d);
        lemma_insert_len(s.last(), spec_sort(s.drop_last(), f, d), f, d);
    }
}

/// Inserting at the first index whose element does not come before `x`
/// is what [`spec_insert`] does.
pub proof fn lemma_insert_at(
    x: RowView,
    s: Seq<RowView>,
    j: int,
    f: crate::filter::SortField,
    d: crate::filter::SortDir,
)
    requires
        0 <= j <= s.len(),
        forall|k: int| 0 <= k < j ==> row_le(f, d, s[k], x),
        j < s.len() ==> !row_le(f, d, s[j], x),
    ensures
        spec_insert(x, s, f, d) == s.take(j) + seq![x] + s.skip(j),
    decreases s.len(),
{
    if s.len() == 0 {
        assert(spec_insert(x, s, f, d) =~= s.take(0) + seq![x] + s.skip(0));
    } else if j == 0 {
        assert(!row_le(f, d, s[0], x));
        assert(spec_insert(x, s, f, d) =~= s.take(0) + seq![x] + s.skip(0));
    } else {
        assert(row_le(f, d, s[0], x));
        assert(forall|k: int| 0 <= k < j - 1 ==> s.skip(1)[k] == s[k + 1]);
        lemma_insert_at(x, s.skip(1), j - 1, f, d);
        assert(spec_insert(x, s, f, d) == seq![s[0]] + (s.skip(1).take(j - 1) + seq![x] + s.skip(
            1,
        ).skip(j - 1)));
        assert(spec_insert(x, s, f, d) =~= s.take(j) + seq![x] + s.skip(j));
    }
}

/// The row order is total.
pub proof fn lemma_row_le_total(
    f: crate::filter::SortField,
    d: crate::filter::SortDir,
    a: RowView,
    b: RowView,
)
    ensures
        row_le(f, d, a, b) || row_le(f, d, b, a),
{
    if f is Title {
        match (a.title, b.title) {
            (Option::Some(x), Option::Some(y)) => crate::text::lemma_str_le_total(x, y),
            _ => {},
        }
    }
}

/// The row order is transitive.
pub proof fn lemma_row_le_trans(
    f: crate::filter::SortField,
    d: crate::filter::SortDir,
    a: RowView,
    b: RowView,
    c: RowView,
)
    requires
        row_le(f, d, a, b),
        row_le(f, d, b, c),
    ensures
        row_le(f, d, a, c),
{
    if f is Title {
        match d {
            crate::filter::SortDir::Asc => {
                match (a.title, b.title, c.title) {
                    (Option::Some(x), Option::Some(y), Option::Some(z)) => {
                        crate::text::lemma_str_le_trans(x, y, z);
                    },
                    _ => {},
                }
            },
            crate::filter::SortDir::Desc => {
                match (a.title, b.title, c.title) {
                    (Option::Some(x), Option::Some(y), Option::Some(z)) => {
                        crate::text::lemma_str_le_trans(z, y, x);
                    },
                    _ => {},
                }
            },
        }
    }
}

/// Sorted: every earlier row comes no later in the order.
pub open spec fn sorted_by(
    s: Seq<RowView>,
    f: crate::filter::SortField,
    d: crate::filter::SortDir,
) -> bool {
    forall|i: int, j: int| 0 <= i < j < s.len() ==> row_le(f, d, s[i], s[j])
}

/// Every element of an insertion result is the inserted row or one of
/// the original rows.
pub proof fn lemma_insert_elems(
    x: RowView,
    s: Seq<RowView>,
    f: crate::filter::SortField,
    d: crate::filter::SortDir,
)
    ensures
        forall|m: int|
            0 <= m < spec_insert(x, s, f, d).len() ==> (spec_insert(x, s, f, d)[m] == x
                || exists|k: int| 0 <= k < s.len() && spec_insert(x, s, f, d)[m] == s[k]),
    decreases s.len(),
{
    let r = spec_insert(x, s, f, d);
    if s.len() == 0 {
    } else if row_le(f, d, s[0], x) {
        lemma_insert_elems(x, s.skip(1), f, d);
        let ri = spec_insert(x, s.skip(1), f, d);
        assert forall|m: int| 0 <= m < r.len() implies (r[m] == x || exists|k: int|
            0 <= k < s.len() && r[m] == s[k]) by {
            if m == 0 {
                assert(r[0] == s[0]);
            } else {
                assert(r[m] == ri[m - 1]);
                if ri[m - 1] == x {
                } else {
                    let k = choose|k: int| 0 <= k < s.skip(1).len() && ri[m - 1] == s.skip(1)[k];
                    assert(s.skip(1)[k] == s[k + 1]);
                }
            }
        }
    } else {
        assert forall|m: int| 0 <= m < r.len() implies (r[m] == x || exists|k: int|
            0 <= k < s.len() && r[m] == s[k]) by {
            if m > 0 {
                assert(r[m] == s[m - 1]);
            }
        }
    }
}

/// Insertion keeps the list sorted.
pub proof fn lemma_insert_sorted(
    x: RowView,
    s: Seq<RowView>,
    f: crate::filter::SortField,
    d: crate::filter::SortDir,
)
    requires
        sorted_by(s, f, d),
    ensures
        sorted_by(spec_insert(x, s, f, d), f, d),
    decreases s.len(),
{
    let r = spec_insert(x, s, f, d);
    if s.len() == 0 {
    } else if row_le(f, d, s[0], x) {
        assert(forall|k: int| 0 <= k < s.skip(1).len() ==> s.skip(1)[k] == s[k + 1]);
        assert(sorted_by(s.skip(1), f, d));
        lemma_insert_sorted(x, s.skip(1), f, d);
        lemma_insert_elems(x, s.skip(1), f, d);
        let ri = spec_insert(x, s.skip(1), f, d);
        assert forall|i: int, j: int| 0 <= i < j < r.len() implies row_le(f, d, r[i], r[j]) by {
            if i == 0 {
                assert(r[0] == s[0]);
                assert(r[j] == ri[j - 1]);
                if ri[j - 1] == x {
                } else {
                    let k = choose|k: int| 0 <= k < s.skip(1).len() && ri[j - 1] == s.skip(1)[k];
                    assert(row_le(f, d, s[0], s[k + 1]));
                }
            } else {
                assert(r[i] == ri[i - 1] && r[j] == ri[j - 1]);
            }
        }
    } else {
        lemma_row_le_total(f, d, s[0], x);
        assert(row_le(f, d, x, s[0]));
        assert forall|i: int, j: int| 0 <= i < j < r.len() implies row_le(f, d, r[i], r[j]) by {
            if i == 0 {
                assert(r[j] == s[j - 1]);
                if j - 1 > 0 {
                    lemma_row_le_trans(f, d, x, s[0], s[j - 1]);
                }
            } else {
                assert(r[i] == s[i - 1] && r[j] == s[j - 1]);
            }
        }
    }
}

/// What the sort promises: its result is sorted in the resolved order.
pub proof fn lemma_sort_sorted(
    s: Seq<RowView>,
    f: crate::filter::SortField,
    d: crate::filter::SortDir,
)
    ensures
        sorted_by(spec_sort(s, f, d), f, d),
    decreases s.len(),
{
    if s.len() > 0 {
        lemma_sort_sorted(s.drop_last(), f, d);
        lemma_insert_sorted(s.last(), spec_sort(s.drop_last(), f, d), f, d);
    }
}

/// The law of the page order: whatever rows the table held, the items of
/// a returned page are sorted by the plan's field and direction.
pub proof fn lemma_page_sorted(
    rows: Seq<RowView>,
    ps: Seq<PredView>,
    f: crate::filter::SortField,
    d: crate::filter::SortDir,
    page: int,
    page_size: int,
)
    requires
        1 <= page_size,
    ensures
        sorted_by(spec_page(spec_sort(spec_filter(rows, ps), f, d), page, page_size), f, d),
{
    let sorted = spec_sort(spec_filter(rows, ps), f, d);
    lemma_sort_sorted(spec_filter(rows, ps), f, d);
    let pg = spec_page(sorted, page, page_size);
    let p = if page < 1 {
        1
    } else {
        page
    };
    let offset = (p - 1) * page_size;
    crate::filter::lemma_mul_nonneg(p - 1, page_size);
    assert forall|i: int, j: int| 0 <= i < j < pg.len() implies row_le(f, d, pg[i], pg[j]) by {
        if offset >= sorted.len() {
        } else if offset + page_size > sorted.len() {
            assert(pg == sorted.skip(offset));
            assert(pg[i] == sorted[offset + i] && pg[j] == sorted[offset + j]);
        } else {
            assert(pg == sorted.subrange(offset, offset + page_size));
            assert(pg[i] == sorted[offset + i] && pg[j] == sorted[offset + j]);
        }
    }
}

/// Exec counterpart of [`spec_sort`].
pub fn sort_rows(
    rows: &Vec<HistoryRow>,
    f: crate::filter::SortField,
    d: crate::filter::SortDir,
) -> (r: Vec<HistoryRow>)
    ensures
        rows_view(r@) == spec_sort(rows_view(rows@), f, d),
{
    let ghost rv = rows_view(rows@);
    let n = rows.len();
    let mut out: Vec<HistoryRow> = Vec::new();
    let mut i: usize = 0;
    proof {
        assert(rv.take(0) =~= Seq::<RowView>::empty());
        assert(rows_view(out@) =~= spec_sort(rv.take(0), f, d));
    }
    while i < n
        invariant
            n == rows@.len(),
            rv == rows_view(rows@),
            i <= n,
            rows_view(out@) == spec_sort(rv.take(i as int), f, d),
        decreases n - i,
    {
        let x = crate::domain::clone_row(&rows[i]);
        let ghost xv = x@;
        let m = out.len();
        let ghost sv = rows_view(out@);
        let mut j: usize = 0;
        while j < m && row_le_exec(f, d, &out[j], &x)
            invariant
                m == out@.len(),
                sv == rows_view(out@),
                j <= m,
                xv == x@,
                forall|k: int| 0 <= k < j ==> row_le(f, d, sv[k], xv),
            decreases m - j,
        {
            proof {
                assert(sv[j as int] == out@[j as int]@);
            }
            j += 1;
        }
        proof {
            if j < m {
                assert(sv[j as int] == out@[j as int]@);
                assert(!row_le(f, d, sv[j as int], xv));
            }
            lemma_insert_at(xv, sv, j as int, f, d);
        }
        out.insert(j, x);
        proof {
            assert(rows_view(out@) =~= sv.take(j as int) + seq![xv] + sv.skip(j as int));
            assert(rows_view(out@) == spec_insert(xv, sv, f, d));
            assert(rv.take(i + 1).drop_last() =~= rv.take(i as int));
            assert(rv.take(i + 1).last() == rv[i as int]);
        }
        i += 1;
    }
    proof {
        assert(rv.take(n as int) =~= rv);
    }
    out
}

/// The requested page of a sorted row list: page numbers below one are
/// clamped to one, the offset is `(page - 1) * page_size`, and the page
/// holds at most `page_size` rows.
pub open spec fn spec_page(sorted: Seq<RowView>, page: int, page_size: int) -> Seq<RowView> {
    let p = if page < 1 {
        1
    } else {
        page
    };
    let offset = (p - 1) * page_size;
    if offset >= sorted.len() {
        Seq::empty()
    } else if offset + page_size > sorted.len() {
        sorted.skip(offset)
    } else {
        sorted.subrange(offset, offset + page_size)
    }
}

proof fn lemma_mul_le(a: int, b: int, c: int, e: int)
    by (nonlinear_arith)
    requires
        0 <= a <= c,
        0 <= b <= e,
    ensures
        a * b <= c * e,
{
}

/// The page and total for a row list under a compiled plan. The items are
/// the requested page of the matching rows in the plan's order; the total
/// counts every matching row, whatever the page. A `page_size` outside
/// 1..=500 is rejected.
pub fn list_from_rows(
    rows: &Vec<HistoryRow>,
    plan: &CompiledPlan,
    page: u32,
    page_size: u32,
) -> (r: Result<crate::domain::HistoryListResponse, crate::domain::AppError>)
    ensures
        ((page_size == 0 || page_size > 500) <==> (r is Err && r->Err_0 is Invalid)),
        r is Err ==> (r->Err_0 is Invalid || r->Err_0 is Internal),
        ((r is Err && r->Err_0 is Internal) <==> (1 <= page_size <= 500 && spec_filter(
            rows_view(rows@),
            preds_view(plan.predicates@),
        ).len() > i64::MAX)),
        r is Ok ==> ({
            let fv = spec_filter(rows_view(rows@), preds_view(plan.predicates@));
            let sorted = spec_sort(fv, plan.sort_field, plan.sort_dir);
            crate::domain::items_view(r->Ok_0.items@) == crate::domain::items_of_rows(spec_page(
                sorted,
                page as int,
                page_size as int,
            )) && r->Ok_0.total == fv.len()
                && r->Ok_0.items@.len() <= page_size
        }),
{
    if page_size == 0 || page_size > 500 {
        return Err(
            crate::domain::AppError::Invalid(String::from_str("page_size out of range")),
        );
    }
    let ghost fv = spec_filter(rows_view(rows@), preds_view(plan.predicates@));
    let filtered = filter_rows(rows, plan);
    let total_u = filtered.len();
    proof {
        assert(total_u == fv.len());
    }
    if total_u as u64 > i64::MAX as u64 {
        return Err(
            crate::domain::AppError::Internal(String::from_str("matching row count out of range")),
        );
    }
    let total: i64 = total_u as i64;
    let sorted = sort_rows(&filtered, plan.sort_field, plan.sort_dir);
    let ghost sv = spec_sort(fv, plan.sort_field, plan.sort_dir);
    proof {
        assert(rows_view(sorted@) == sv);
        lemma_sort_len(fv, plan.sort_field, plan.sort_dir);
    }
    let p: u32 = if page < 1 {
        1
    } else {
        page
    };
    proof {
        lemma_mul_le(p as int - 1, page_size as int, 0xffffffff, 500);
    }
    let offset_i: i64 = (p as i64 - 1) * (page_size as i64);
    let len = sorted.len();
    let start: usize = if offset_i as u64 >= len as u64 {
        len
    } else {
        offset_i as usize
    };
    let remaining = len - start;
    let count: usize = if (page_size as usize) < remaining {
        page_size as usize
    } else {
        remaining
    };
    let mut items: Vec<crate::domain::HistoryItem> = Vec::new();
    let mut k: usize = 0;
    proof {
        assert(crate::domain::items_view(items@) =~= crate::domain::items_of_rows(sv.subrange(
            start as int,
            start as int,
        )));
    }
    while k < count
        invariant
            k <= count,
            start + count <= len,
            len == sorted@.len(),
            rows_view(sorted@) == sv,
            crate::domain::items_view(items@) == crate::domain::items_of_rows(
                sv.subrange(start as int, start + k),
            ),
        decreases count - k,
    {
        let it = crate::domain::item_of_row(&sorted[start + k]);
        proof {
            assert(rows_view(sorted@)[start + k] == sorted@[start + k as int]@);
            assert(it@ == crate::domain::row_to_item(sv[start + k]));
        }
        let ghost prev_items = items@;
        items.push(it);
        proof {
            assert(items@ == prev_items.push(it));
            assert(crate::domain::items_view(items@) =~= crate::domain::items_view(
                prev_items,
            ).push(it@));
            assert(sv.subrange(start as int, start + k + 1) =~= sv.subrange(
                start as int,
                start + k,
            ).push(sv[start + k]));
            assert(crate::domain::items_of_rows(sv.subrange(start as int, start + k + 1)) =~=
                crate::domain::items_of_rows(sv.subrange(start as int, start + k)).push(
                crate::domain::row_to_item(sv[start + k]),
            ));
        }
        k += 1;
    }
    proof {
        let pg = spec_page(sv, page as int, page_size as int);
        assert(pg =~= sv.subrange(start as int, start + count));
        assert(crate::domain::items_view(items@) == crate::domain::items_of_rows(pg));
        assert(items@.len() <= page_size);
    }
    Ok(crate::domain::HistoryListResponse { items, total })
}

/// A site with its summed visit count.
pub struct SiteGroup {
    pub host: String,
    pub visits: i64,
}

impl View for SiteGroup {
    type V = (Seq<char>, int);

    open spec fn view(&self) -> (Seq<char>, int) {
        (self.host@, self.visits as int)
    }
}

/// The views of a group list.
pub open spec fn groups_view(s: Seq<SiteGroup>) -> Seq<(Seq<char>, int)> {
    s.map_values(|g: SiteGroup| g@)
}

/// The views of a host list.
pub open spec fn hosts_view(s: Seq<String>) -> Seq<Seq<char>> {
    s.map_values(|x: String| x@)
}

/// Index of the first group with the given host, if any.
pub open spec fn find_group(gs: Seq<(Seq<char>, int)>, h: Seq<char>) -> Option<int>
    decreases gs.len(),
{
    if gs.len() == 0 {
        Option::None
    } else if gs[0].0 == h {
        Option::Some(0int)
    } else {
        match find_group(gs.skip(1), h) {
            Option::Some(i) => Option::Some(i + 1),
            Option::None => Option::None,
        }
    }
}

/// The found index carries the host and nothing before it does; `None`
/// means no group has it.
pub proof fn lemma_find_group(gs: Seq<(Seq<char>, int)>, h: Seq<char>)
    ensures
        match find_group(gs, h) {
            Option::Some(i) => 0 <= i < gs.len() && gs[i].0 == h && forall|k: int|
                0 <= k < i ==> gs[k].0 != h,
            Option::None => forall|k: int| 0 <= k < gs.len() ==> gs[k].0 != h,
        },
    decreases gs.len(),
{
    if gs.len() == 0 {
    } else if gs[0].0 == h {
    } else {
        lemma_find_group(gs.skip(1), h);
        match find_group(gs.skip(1), h) {
            Option::Some(i) => {
                assert(forall|k: int| 1 <= k < i + 1 ==> gs[k] == gs.skip(1)[k - 1]);
            },
            Option::None => {
                assert(forall|k: int| 1 <= k < gs.len() ==> gs[k] == gs.skip(1)[k - 1]);
            },
        }
    }
}

/// One row's visits folded into the group list: added to its host's
/// group, or opening a new group at the end.
pub open spec fn add_visit(gs: Seq<(Seq<char>, int)>, h: Seq<char>, v: int) -> Seq<
    (Seq<char>, int),
> {
    match find_group(gs, h) {
        Option::Some(i) => gs.update(i, (h, gs[i].1 + v)),
        Option::None => gs.push((h, v)),
    }
}

/// Rows grouped by extracted host in order of first appearance, each group
/// carrying its summed visits. Rows with an empty host are left out.
pub open spec fn spec_groups(rows: Seq<RowView>) -> Seq<(Seq<char>, int)>
    decreases rows.len(),
{
    if rows.len() == 0 {
        Seq::empty()
    } else {
        let g = spec_groups(rows.drop_last());
        let h = crate::text::spec_extract_host(rows.last().url);
        if h.len() == 0 {
            g
        } else {
            add_visit(g, h, rows.last().num_visits)
        }
    }
}

/// Whether every intermediate per-group sum stays in the signed 64-bit
/// range, as the storage engine requires of its summation.
pub open spec fn groups_ok(rows: Seq<RowView>) -> bool
    decreases rows.len(),
{
    if rows.len() == 0 {
        true
    } else {
        let g = spec_groups(rows.drop_last());
        let h = crate::text::spec_extract_host(rows.last().url);
        groups_ok(rows.drop_last()) && (h.len() == 0 || match find_group(g, h) {
            Option::Some(i) => i64::MIN <= g[i].1 + rows.last().num_visits <= i64::MAX,
            Option::None => i64::MIN <= rows.last().num_visits <= i64::MAX,
        })
    }
}

pub proof fn lemma_groups_ok_prefix(rows: Seq<RowView>, n: int)
    requires
        groups_ok(rows),
        0 <= n <= rows.len(),
    ensures
        groups_ok(rows.take(n)),
    decreases rows.len(),
{
    if n == rows.len() {
        assert(rows.take(n) =~= rows);
    } else {
        assert(rows.drop_last() =~= rows.take(rows.len() - 1));
        lemma_groups_ok_prefix(rows.take(rows.len() - 1), n);
        assert(rows.take(rows.len() - 1).take(n) =~= rows.take(n));
    }
}

/// The total visits of a row list.
pub open spec fn sum_visits(rows: Seq<RowView>) -> int
    decreases rows.len(),
{
    if rows.len() == 0 {
        0
    } else {
        sum_visits(rows.drop_last()) + rows.last().num_visits
    }
}

/// Whether every prefix sum stays in the signed 64-bit range.
pub open spec fn sum_ok(rows: Seq<RowView>) -> bool
    decreases rows.len(),
{
    if rows.len() == 0 {
        true
    } else {
        sum_ok(rows.drop_last()) && i64::MIN <= sum_visits(rows) <= i64::MAX
    }
}

pub proof fn lemma_sum_ok_prefix(rows: Seq<RowView>, n: int)
    requires
        sum_ok(rows),
        0 <= n <= rows.len(),
    ensures
        sum_ok(rows.take(n)),
    decreases rows.len(),
{
    if n == rows.len() {
        assert(rows.take(n) =~= rows);
    } else {
        assert(rows.drop_last() =~= rows.take(rows.len() - 1));
        lemma_sum_ok_prefix(rows.take(rows.len() - 1), n);
        assert(rows.take(rows.len() - 1).take(n) =~= rows.take(n));
    }
}

/// Sums `num_visits` over the rows, exactly as the storage engine's
/// summation would: an intermediate overflow is an error.
pub fn sum_rows(rows: &Vec<HistoryRow>) -> (r: Result<i64, crate::domain::AppError>)
    ensures
        (r is Ok <==> sum_ok(rows_view(rows@))),
        r is Ok ==> r->Ok_0 == sum_visits(rows_view(rows@)),
        r is Err ==> r->Err_0 is Db,
{
    let ghost rv = rows_view(rows@);
    let n = rows.len();
    let mut acc: i64 = 0;
    let mut i: usize = 0;
    proof {
        assert(rv.take(0) =~= Seq::<RowView>::empty());
    }
    while i < n
        invariant
            n == rows@.len(),
            rv == rows_view(rows@),
            i <= n,
            sum_ok(rv.take(i as int)),
            acc as int == sum_visits(rv.take(i as int)),
        decreases n - i,
    {
        proof {
            assert(rv.take(i + 1).drop_last() =~= rv.take(i as int));
            assert(rv.take(i + 1).last() == rv[i as int]);
        }
        let v = rows[i].num_visits;
        let wide: i128 = acc as i128 + v as i128;
        if wide < i64::MIN as i128 || wide > i64::MAX as i128 {
            proof {
                assert(!sum_ok(rv.take(i + 1)));
                if sum_ok(rv) {
                    lemma_sum_ok_prefix(rv, i + 1);
                }
            }
            return Err(crate::domain::AppError::Db(String::from_str("integer overflow")));
        }
        acc = wide as i64;
        i += 1;
    }
    proof {
        assert(rv.take(n as int) =~= rv);
    }
    Ok(acc)
}

/// Exec counterpart of [`find_group`].
fn find_group_exec(gs: &Vec<SiteGroup>, h: &String) -> (r: Option<usize>)
    ensures
        match r {
            Some(i) => find_group(groups_view(gs@), h@) == Option::Some(i as int),
            None => find_group(groups_view(gs@), h@) is None,
        },
{
    let ghost gv = groups_view(gs@);
    let n = gs.len();
    let mut i: usize = 0;
    while i < n
        invariant
            n == gs@.len(),
            gv == groups_view(gs@),
            i <= n,
            forall|k: int| 0 <= k < i ==> gv[k].0 != h@,
        decreases n - i,
    {
        if str_eq_str(gs[i].host.as_str(), h.as_str()) {
            proof {
                assert(gv[i as int] == gs@[i as int]@);
                lemma_find_group(gv, h@);
            }
            return Some(i);
        }
        proof {
            assert(gv[i as int] == gs@[i as int]@);
        }
        i += 1;
    }
    proof {
        lemma_find_group(gv, h@);
    }
    None
}

/// Groups the rows by extracted host with summed visits, in order of
/// first appearance. An intermediate overflow of a group's sum is an
/// error, as it is for the storage engine.
pub fn group_rows(rows: &Vec<HistoryRow>) -> (r: Result<Vec<SiteGroup>, crate::domain::AppError>)
    ensures
        (r is Ok <==> groups_ok(rows_view(rows@))),
        r is Ok ==> groups_view(r->Ok_0@) == spec_groups(rows_view(rows@)),
        r is Err ==> r->Err_0 is Db,
{
    let ghost rv = rows_view(rows@);
    let n = rows.len();
    let mut gs: Vec<SiteGroup> = Vec::new();
    let mut i: usize = 0;
    proof {
        assert(rv.take(0) =~= Seq::<RowView>::empty());
        assert(groups_view(gs@) =~= spec_groups(rv.take(0)));
    }
    while i < n
        invariant
            n == rows@.len(),
            rv == rows_view(rows@),
            i <= n,
            groups_ok(rv.take(i as int)),
            groups_view(gs@) == spec_groups(rv.take(i as int)),
        decreases n - i,
    {
        proof {
            assert(rv.take(i + 1).drop_last() =~= rv.take(i as int));
            assert(rv.take(i + 1).last() == rv[i as int]);
            assert(rows_view(rows@)[i as int] == rows@[i as int]@);
        }
        let host = crate::text::extract_host(rows[i].url.as_str());
        let v = rows[i].num_visits;
        if !host.as_str().is_empty() {
            let ghost gv = groups_view(gs@);
            match find_group_exec(&gs, &host) {
                Some(j) => {
                    proof {
                        lemma_find_group(gv, host@);
                    }
                    let g = gs.remove(j);
                    let wide: i128 = g.visits as i128 + v as i128;
                    if wide < i64::MIN as i128 || wide > i64::MAX as i128 {
                        proof {
                            assert(!groups_ok(rv.take(i + 1)));
                            if groups_ok(rv) {
                                lemma_groups_ok_prefix(rv, i + 1);
                            }
                        }
                        return Err(
                            crate::domain::AppError::Db(String::from_str("integer overflow")),
                        );
                    }
                    let updated = SiteGroup { host: g.host, visits: wide as i64 };
                    proof {
                        assert(updated@.0 == gv[j as int].0);
                    }
                    gs.insert(j, updated);
                    proof {
                        assert(updated@.0 =~= host@);
                        assert(groups_view(gs@) =~= gv.update(
                            j as int,
                            (host@, gv[j as int].1 + v as int),
                        ));
                        assert(groups_view(gs@) =~= spec_groups(rv.take(i + 1)));
                    }
                },
                None => {
                    let ghost hv = host@;
                    gs.push(SiteGroup { host, visits: v });
                    proof {
                        assert(groups_view(gs@) =~= gv.push((hv, v as int)));
                    }
                },
            }
        }
        proof {
            assert(groups_view(gs@) =~= spec_groups(rv.take(i + 1)));
        }
        i += 1;
    }
    proof {
        assert(rv.take(n as int) =~= rv);
    }
    Ok(gs)
}

/// Ranking order of site groups: more summed visits first.
pub open spec fn group_ge(a: (Seq<char>, int), b: (Seq<char>, int)) -> bool {
    a.1 >= b.1
}

/// Insertion into a ranked group list, after any equal counts, so groups
/// tied on visits keep their first-appearance order.
pub open spec fn spec_insert_g(x: (Seq<char>, int), s: Seq<(Seq<char>, int)>) -> Seq<
    (Seq<char>, int),
>
    decreases s.len(),
{
    if s.len() == 0 {
        seq![x]
    } else if group_ge(s[0], x) {
        seq![s[0]] + spec_insert_g(x, s.skip(1))
    } else {
        seq![x] + s
    }
}

/// Insertion sort of the groups by summed visits, descending.
pub open spec fn spec_sort_g(s: Seq<(Seq<char>, int)>) -> Seq<(Seq<char>, int)>
    decreases s.len(),
{
    if s.len() == 0 {
        Seq::empty()
    } else {
        spec_insert_g(s.last(), spec_sort_g(s.drop_last()))
    }
}

pub proof fn lemma_insert_g_len(x: (Seq<char>, int), s: Seq<(Seq<char>, int)>)
    ensures
        spec_insert_g(x, s).len() == s.len() + 1,
    decreases s.len(),
{
    if s.len() > 0 && group_ge(s[0], x) {
        lemma_insert_g_len(x, s.skip(1));
    }
}

pub proof fn lemma_sort_g_len(s: Seq<(Seq<char>, int)>)
    ensures
        spec_sort_g(s).len() == s.len(),
    decreases s.len(),
{
    if s.len() > 0 {
        lemma_sort_g_len(s.drop_last());
        lemma_insert_g_len(s.last(), spec_sort_g(s.drop_last()));
    }
}

pub proof fn lemma_insert_g_at(x: (Seq<char>, int), s: Seq<(Seq<char>, int)>, j: int)
    requires
        0 <= j <= s.len(),
        forall|k: int| 0 <= k < j ==> group_ge(s[k], x),
        j < s.len() ==> !group_ge(s[j], x),
    ensures
        spec_insert_g(x, s) == s.take(j) + seq![x] + s.skip(j),
    decreases s.len(),
{
    if s.len() == 0 {
        assert(spec_insert_g(x, s) =~= s.take(0) + seq![x] + s.skip(0));
    } else if j == 0 {
        assert(spec_insert_g(x, s) =~= s.take(0) + seq![x] + s.skip(0));
    } else {
        assert(forall|k: int| 0 <= k < j - 1 ==> s.skip(1)[k] == s[k + 1]);
        lemma_insert_g_at(x, s.skip(1), j - 1);
        assert(spec_insert_g(x, s) =~= s.take(j) + seq![x] + s.skip(j));
    }
}

/// Exec counterpart of [`spec_sort_g`].
pub fn sort_groups(gs: Vec<SiteGroup>) -> (r: Vec<SiteGroup>)
    ensures
        groups_view(r@) == spec_sort_g(groups_view(gs@)),
{
    let ghost gv = groups_view(gs@);
    let n = gs.len();
    let mut out: Vec<SiteGroup> = Vec::new();
    let mut i: usize = 0;
    proof {
        assert(gv.take(0) =~= Seq::<(Seq<char>, int)>::empty());
        assert(groups_view(out@) =~= spec_sort_g(gv.take(0)));
    }
    while i < n
        invariant
            n == gs@.len(),
            gv == groups_view(gs@),
            i <= n,
            groups_view(out@) == spec_sort_g(gv.take(i as int)),
        decreases n - i,
    {
        proof {
            assert(gv[i as int] == gs@[i as int]@);
        }
        let x = SiteGroup { host: gs[i].host.clone(), visits: gs[i].visits };
        let ghost xv = x@;
        let m = out.len();
        let ghost sv = groups_view(out@);
        let mut j: usize = 0;
        while j < m && out[j].visits >= x.visits
            invariant
                m == out@.len(),
                sv == groups_view(out@),
                j <= m,
                xv == x@,
                forall|k: int| 0 <= k < j ==> group_ge(sv[k], xv),
            decreases m - j,
        {
            proof {
                assert(sv[j as int] == out@[j as int]@);
            }
            j += 1;
        }
        proof {
            if j < m {
                assert(sv[j as int] == out@[j as int]@);
            }
            lemma_insert_g_at(xv, sv, j as int);
        }
        out.insert(j, x);
        proof {
            assert(groups_view(out@) =~= sv.take(j as int) + seq![xv] + sv.skip(j as int));
            assert(groups_view(out@) == spec_insert_g(xv, sv));
            assert(gv.take(i + 1).drop_last() =~= gv.take(i as int));
            assert(gv.take(i + 1).last() == gv[i as int]);
        }
        i += 1;
    }
    proof {
        assert(gv.take(n as int) =~= gv);
    }
    out
}

/// The top hosts of a ranked group list: the first `n` hosts, or all of
/// them when there are fewer.
pub open spec fn spec_top_hosts(ranked: Seq<(Seq<char>, int)>, n: int) -> Seq<Seq<char>> {
    let c = if n <= ranked.len() {
        n
    } else {
        ranked.len() as int
    };
    ranked.take(c).map_values(|g: (Seq<char>, int)| g.0)
}

/// Statistics are a function of their inputs: two computations over the
/// same rows, the same predicates and the same count agree in every
/// part, so repeating a query with no intervening writes repeats its
/// answer.
pub proof fn lemma_overview_deterministic(
    rows1: Seq<RowView>,
    rows2: Seq<RowView>,
    ps1: Seq<PredView>,
    ps2: Seq<PredView>,
    n1: int,
    n2: int,
)
    requires
        rows1 == rows2,
        ps1 == ps2,
        n1 == n2,
    ensures
        sum_visits(spec_filter(rows1, ps1)) == sum_visits(spec_filter(rows2, ps2)),
        spec_groups(spec_filter(rows1, ps1)) == spec_groups(spec_filter(rows2, ps2)),
        spec_top_hosts(spec_sort_g(spec_groups(spec_filter(rows1, ps1))), n1) == spec_top_hosts(
            spec_sort_g(spec_groups(spec_filter(rows2, ps2))),
            n2,
        ),
{
}

/// The aggregate statistics of the rows matching a plan: total visits,
/// the number of distinct non-empty sites, and the `top_n` sites ranked
/// by summed visits descending, ties kept in first-appearance order. A
/// summation overflow is an error, as it is for the storage engine.
pub fn overview_from_rows(
    rows: &Vec<HistoryRow>,
    plan: &CompiledPlan,
    top_n: usize,
) -> (r: Result<crate::domain::OverviewStats, crate::domain::AppError>)
    ensures
        ({
            let fv = spec_filter(rows_view(rows@), preds_view(plan.predicates@));
            &&& (r is Ok <==> (sum_ok(fv) && groups_ok(fv) && spec_groups(fv).len() <= i64::MAX))
            &&& (r is Ok ==> r->Ok_0.total_visits == sum_visits(fv))
            &&& (r is Ok ==> r->Ok_0.distinct_sites == spec_groups(fv).len())
            &&& (r is Ok ==> hosts_view(r->Ok_0.top_entities@) == spec_top_hosts(
                spec_sort_g(spec_groups(fv)),
                top_n as int,
            ))
            &&& (r is Err ==> (r->Err_0 is Db || r->Err_0 is Internal))
        }),
{
    let ghost fv = spec_filter(rows_view(rows@), preds_view(plan.predicates@));
    let filtered = filter_rows(rows, plan);
    let total_visits = match sum_rows(&filtered) {
        Ok(v) => v,
        Err(e) => {
            return Err(e);
        },
    };
    let gs = match group_rows(&filtered) {
        Ok(g) => g,
        Err(e) => {
            return Err(e);
        },
    };
    let distinct_u = gs.len();
    if distinct_u as u64 > i64::MAX as u64 {
        return Err(
            crate::domain::AppError::Internal(String::from_str("site count out of range")),
        );
    }
    let distinct_sites: i64 = distinct_u as i64;
    let ranked = sort_groups(gs);
    let ghost rkv = spec_sort_g(spec_groups(fv));
    proof {
        assert(groups_view(ranked@) == rkv);
        lemma_sort_g_len(spec_groups(fv));
    }
    let count: usize = if top_n < ranked.len() {
        top_n
    } else {
        ranked.len()
    };
    let mut top_entities: Vec<String> = Vec::new();
    let mut k: usize = 0;
    proof {
        assert(hosts_view(top_entities@) =~= rkv.take(0).map_values(|g: (Seq<char>, int)| g.0));
    }
    while k < count
        invariant
            count <= ranked@.len(),
            groups_view(ranked@) == rkv,
            k <= count,
            hosts_view(top_entities@) == rkv.take(k as int).map_values(
                |g: (Seq<char>, int)| g.0,
            ),
        decreases count - k,
    {
        proof {
            assert(rkv[k as int] == ranked@[k as int]@);
        }
        let ghost prev = top_entities@;
        top_entities.push(ranked[k].host.clone());
        proof {
            assert(hosts_view(top_entities@) =~= hosts_view(prev).push(rkv[k as int].0));
            assert(rkv.take(k + 1).map_values(|g: (Seq<char>, int)| g.0) =~= rkv.take(
                k as int,
            ).map_values(|g: (Seq<char>, int)| g.0).push(rkv[k as int].0));
        }
        k += 1;
    }
    proof {
        assert(hosts_view(top_entities@) == spec_top_hosts(rkv, top_n as int)) by {
            assert(rkv.take(count as int).map_values(|g: (Seq<char>, int)| g.0) =~= spec_top_hosts(
                rkv,
                top_n as int,
            ));
        }
    }
    Ok(
        crate::domain::OverviewStats {
            total_visits,
            distinct_sites,
            top_entities,
        },
    )
}

} // verus!
