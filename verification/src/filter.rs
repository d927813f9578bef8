//! The filter compiler: turns raw filter input (keyword, time range,
//! locale, sort field, sort direction) into an ordered list of predicate
//! fragments with their bound values and a resolved order clause. Pure and
//! total: unrecognized enum-like input degrades to the documented default.

use vstd::prelude::*;
use vstd::string::StrSliceExecFns;
use vstd::string::StringExecFns;

use crate::domain::HistoryFilters;
use crate::text::find_char;
use crate::text::lemma_find_char;
use crate::text::opt_is;
use crate::text::parse_i64;
use crate::text::spec_find_char;
use crate::text::spec_parse_i64;

verus! {

/// Subtraction clamped into the signed 64-bit range.
pub open spec fn spec_sat_sub(a: int, b: int) -> int {
    if a - b < i64::MIN {
        i64::MIN as int
    } else if a - b > i64::MAX {
        i64::MAX as int
    } else {
        a - b
    }
}

/// Exec counterpart of [`spec_sat_sub`].
pub fn sat_sub_i64(a: i64, b: i64) -> (r: i64)
    ensures
        r as int == spec_sat_sub(a as int, b as int),
{
    let wide: i128 = a as i128 - b as i128;
    if wide < i64::MIN as i128 {
        i64::MIN
    } else if wide > i64::MAX as i128 {
        i64::MAX
    } else {
        wide as i64
    }
}

/// The view of an optional string.
pub open spec fn opt_str_view(s: Option<String>) -> Option<Seq<char>> {
    match s {
        Option::Some(v) => Option::Some(v@),
        Option::None => Option::None,
    }
}

/// Whitelisted sort fields.
#[derive(Clone, Copy, PartialEq, Eq, Structural, Debug)]
pub enum SortField {
    Title,
    NumVisits,
    LastVisitedTime,
}

/// Sort directions.
#[derive(Clone, Copy, PartialEq, Eq, Structural, Debug)]
pub enum SortDir {
    Asc,
    Desc,
}

/// One parameterized predicate of a compiled plan. The keyword variant
/// holds the already-wildcarded match pattern.
pub enum Predicate {
    TimeLower(i64),
    TimeUpper(i64),
    LocaleEq(String),
    KeywordLike(String),
}

/// Mathematical view of a [`Predicate`].
pub enum PredView {
    TimeLower(int),
    TimeUpper(int),
    LocaleEq(Seq<char>),
    KeywordLike(Seq<char>),
}

impl View for Predicate {
    type V = PredView;

    open spec fn view(&self) -> PredView {
        match self {
            Predicate::TimeLower(t) => PredView::TimeLower(*t as int),
            Predicate::TimeUpper(t) => PredView::TimeUpper(*t as int),
            Predicate::LocaleEq(s) => PredView::LocaleEq(s@),
            Predicate::KeywordLike(p) => PredView::KeywordLike(p@),
        }
    }
}

/// The views of a predicate list.
pub open spec fn preds_view(ps: Seq<Predicate>) -> Seq<PredView> {
    ps.map_values(|p: Predicate| p@)
}

/// A value bound to a placeholder of the plan.
pub enum SqlValue {
    Int(i64),
    Text(String),
}

/// Mathematical view of a [`SqlValue`].
pub enum ValView {
    Int(int),
    Text(Seq<char>),
}

impl View for SqlValue {
    type V = ValView;

    open spec fn view(&self) -> ValView {
        match self {
            SqlValue::Int(v) => ValView::Int(*v as int),
            SqlValue::Text(s) => ValView::Text(s@),
        }
    }
}

/// The views of a bound-value list.
pub open spec fn vals_view(vs: Seq<SqlValue>) -> Seq<ValView> {
    vs.map_values(|v: SqlValue| v@)
}

/// A compiled filter plan: predicates in emission order plus the resolved
/// order clause, selected from a fixed enumeration.
pub struct CompiledPlan {
    pub predicates: Vec<Predicate>,
    pub sort_field: SortField,
    pub sort_dir: SortDir,
}

/// The lower time bound of a raw time-range string: named buckets give
/// `now` minus the bucket width; otherwise the text before the first `-`
/// is read as a number, and anything else gives no bound.
pub open spec fn spec_time_lower(tr: Option<Seq<char>>, now: int) -> Option<int> {
    match tr {
        Option::None => Option::None,
        Option::Some(s) => {
            if s == "7d"@ {
                Option::Some(spec_sat_sub(now, 604800))
            } else if s == "30d"@ {
                Option::Some(spec_sat_sub(now, 2592000))
            } else if s == "90d"@ {
                Option::Some(spec_sat_sub(now, 7776000))
            } else if s == "all"@ {
                Option::None
            } else {
                match spec_find_char(s, '-') {
                    Option::Some(d) => spec_parse_i64(s.take(d)),
                    Option::None => Option::None,
                }
            }
        },
    }
}

/// The upper time bound: the text after the first `-`, if it is a number.
pub open spec fn spec_time_upper(tr: Option<Seq<char>>) -> Option<int> {
    match tr {
        Option::None => Option::None,
        Option::Some(s) => {
            match spec_find_char(s, '-') {
                Option::Some(d) => spec_parse_i64(s.skip(d + 1)),
                Option::None => Option::None,
            }
        },
    }
}

/// Exec counterpart of [`spec_time_lower`].
pub fn compute_time_lower(bound: &Option<String>, now: i64) -> (r: Option<i64>)
    ensures
        match r {
            Some(v) => spec_time_lower(opt_str_view(*bound), now as int) == Some(v as int),
            None => spec_time_lower(opt_str_view(*bound), now as int) is None,
        },
{
    match bound {
        None => None,
        Some(s) => {
            if opt_is(bound, "7d") {
                Some(sat_sub_i64(now, 604800))
            } else if opt_is(bound, "30d") {
                Some(sat_sub_i64(now, 2592000))
            } else if opt_is(bound, "90d") {
                Some(sat_sub_i64(now, 7776000))
            } else if opt_is(bound, "all") {
                None
            } else {
                match find_char(s.as_str(), '-') {
                    Some(d) => {
                        proof {
                            lemma_find_char(s@, '-');
                        }
                        let prefix = s.as_str().substring_char(0, d);
                        proof {
                            assert(prefix@ =~= s@.take(d as int));
                        }
                        parse_i64(prefix)
                    },
                    None => None,
                }
            }
        },
    }
}

/// Exec counterpart of [`spec_time_upper`].
pub fn compute_time_upper(bound: &Option<String>) -> (r: Option<i64>)
    ensures
        match r {
            Some(v) => spec_time_upper(opt_str_view(*bound)) == Some(v as int),
            None => spec_time_upper(opt_str_view(*bound)) is None,
        },
{
    match bound {
        None => None,
        Some(s) => {
            let len = s.as_str().unicode_len();
            match find_char(s.as_str(), '-') {
                Some(d) => {
                    proof {
                        lemma_find_char(s@, '-');
                    }
                    let suffix = s.as_str().substring_char(d + 1, len);
                    proof {
                        assert(suffix@ =~= s@.skip(d as int + 1));
                    }
                    parse_i64(suffix)
                },
                None => None,
            }
        },
    }
}

/// Sort-field resolution: unrecognized tokens fall back to the default.
pub open spec fn spec_sort_field(sb: Option<Seq<char>>) -> SortField {
    match sb {
        Option::Some(s) => {
            if s == "title"@ {
                SortField::Title
            } else if s == "num_visits"@ {
                SortField::NumVisits
            } else {
                SortField::LastVisitedTime
            }
        },
        Option::None => SortField::LastVisitedTime,
    }
}

/// Sort-direction resolution: only `asc` is ascending.
pub open spec fn spec_sort_dir(so: Option<Seq<char>>) -> SortDir {
    match so {
        Option::Some(s) => {
            if s == "asc"@ {
                SortDir::Asc
            } else {
                SortDir::Desc
            }
        },
        Option::None => SortDir::Desc,
    }
}

/// Exec counterpart of [`spec_sort_field`].
pub fn resolve_sort_field(sort_by: &Option<String>) -> (r: SortField)
    ensures
        r == spec_sort_field(opt_str_view(*sort_by)),
{
    if opt_is(sort_by, "title") {
        SortField::Title
    } else if opt_is(sort_by, "num_visits") {
        SortField::NumVisits
    } else {
        SortField::LastVisitedTime
    }
}

/// Exec counterpart of [`spec_sort_dir`].
pub fn resolve_sort_dir(sort_order: &Option<String>) -> (r: SortDir)
    ensures
        r == spec_sort_dir(opt_str_view(*sort_order)),
{
    if opt_is(sort_order, "asc") {
        SortDir::Asc
    } else {
        SortDir::Desc
    }
}

/// The resolved order clause, selected from a fixed enumeration.
pub open spec fn spec_order_clause(f: SortField, d: SortDir) -> Seq<char> {
    match (f, d) {
        (SortField::Title, SortDir::Asc) => "ORDER BY title ASC"@,
        (SortField::Title, SortDir::Desc) => "ORDER BY title DESC"@,
        (SortField::NumVisits, SortDir::Asc) => "ORDER BY num_visits ASC"@,
        (SortField::NumVisits, SortDir::Desc) => "ORDER BY num_visits DESC"@,
        (SortField::LastVisitedTime, SortDir::Asc) => "ORDER BY last_visited_time ASC"@,
        (SortField::LastVisitedTime, SortDir::Desc) => "ORDER BY last_visited_time DESC"@,
    }
}

/// Renders the order clause for raw sort input; never built from user text.
pub fn build_order_clause(sort_by: &Option<String>, sort_order: &Option<String>) -> (r: String)
    ensures
        r@ == spec_order_clause(
            spec_sort_field(opt_str_view(*sort_by)),
            spec_sort_dir(opt_str_view(*sort_order)),
        ),
{
    let f = resolve_sort_field(sort_by);
    let d = resolve_sort_dir(sort_order);
    match (f, d) {
        (SortField::Title, SortDir::Asc) => String::from_str("ORDER BY title ASC"),
        (SortField::Title, SortDir::Desc) => String::from_str("ORDER BY title DESC"),
        (SortField::NumVisits, SortDir::Asc) => String::from_str("ORDER BY num_visits ASC"),
        (SortField::NumVisits, SortDir::Desc) => String::from_str("ORDER BY num_visits DESC"),
        (SortField::LastVisitedTime, SortDir::Asc) => String::from_str(
            "ORDER BY last_visited_time ASC",
        ),
        (SortField::LastVisitedTime, SortDir::Desc) => String::from_str(
            "ORDER BY last_visited_time DESC",
        ),
    }
}

/// The wildcarded match pattern for a keyword.
pub open spec fn spec_like_pattern(kw: Seq<char>) -> Seq<char> {
    "%"@ + kw + "%"@
}

/// Predicates contributed by the time bounds.
pub open spec fn seg_time(tr: Option<Seq<char>>, now: int) -> Seq<PredView> {
    (match spec_time_lower(tr, now) {
        Option::Some(t) => seq![PredView::TimeLower(t)],
        Option::None => Seq::empty(),
    }) + (match spec_time_upper(tr) {
        Option::Some(t) => seq![PredView::TimeUpper(t)],
        Option::None => Seq::empty(),
    })
}

/// Predicate contributed by a present, non-empty locale.
pub open spec fn seg_locale(loc: Option<Seq<char>>) -> Seq<PredView> {
    match loc {
        Option::Some(l) => if l.len() > 0 {
            seq![PredView::LocaleEq(l)]
        } else {
            Seq::empty()
        },
        Option::None => Seq::empty(),
    }
}

/// Predicate contributed by a present, non-empty keyword.
pub open spec fn seg_keyword(kw: Option<Seq<char>>) -> Seq<PredView> {
    match kw {
        Option::Some(k) => if k.len() > 0 {
            seq![PredView::KeywordLike(spec_like_pattern(k))]
        } else {
            Seq::empty()
        },
        Option::None => Seq::empty(),
    }
}

/// All predicates of a compiled plan, in emission order: lower time bound,
/// upper time bound, locale equality, keyword pattern.
pub open spec fn spec_plan_preds(
    kw: Option<Seq<char>>,
    tr: Option<Seq<char>>,
    loc: Option<Seq<char>>,
    now: int,
) -> Seq<PredView> {
    seg_time(tr, now) + seg_locale(loc) + seg_keyword(kw)
}

/// Compiles raw filter input into a plan. Total: no input is rejected.
pub fn compile(filters: &HistoryFilters, now: i64) -> (plan: CompiledPlan)
    ensures
        preds_view(plan.predicates@) == spec_plan_preds(
            opt_str_view(filters.keyword),
            opt_str_view(filters.time_range),
            opt_str_view(filters.locale),
            now as int,
        ),
        plan.sort_field == spec_sort_field(opt_str_view(filters.sort_by)),
        plan.sort_dir == spec_sort_dir(opt_str_view(filters.sort_order)),
{
    let ghost tr = opt_str_view(filters.time_range);
    let ghost loc = opt_str_view(filters.locale);
    let ghost kw = opt_str_view(filters.keyword);
    let mut preds: Vec<Predicate> = Vec::new();
    match compute_time_lower(&filters.time_range, now) {
        Some(t) => preds.push(Predicate::TimeLower(t)),
        None => {},
    }
    match compute_time_upper(&filters.time_range) {
        Some(t) => preds.push(Predicate::TimeUpper(t)),
        None => {},
    }
    proof {
        assert(preds_view(preds@) =~= seg_time(tr, now as int));
    }
    match &filters.locale {
        Some(l) => {
            if !l.as_str().is_empty() {
                preds.push(Predicate::LocaleEq(l.clone()));
            }
        },
        None => {},
    }
    proof {
        assert(preds_view(preds@) =~= seg_time(tr, now as int) + seg_locale(loc));
    }
    match &filters.keyword {
        Some(k) => {
            if !k.as_str().is_empty() {
                let mut pat = String::from_str("%");
                pat.append(k.as_str());
                pat.append("%");
                preds.push(Predicate::KeywordLike(pat));
            }
        },
        None => {},
    }
    proof {
        assert(preds_view(preds@) =~= seg_time(tr, now as int) + seg_locale(loc) + seg_keyword(
            kw,
        ));
    }
    CompiledPlan {
        predicates: preds,
        sort_field: resolve_sort_field(&filters.sort_by),
        sort_dir: resolve_sort_dir(&filters.sort_order),
    }
}

/// A product of nonnegative factors is nonnegative.
pub proof fn lemma_mul_nonneg(a: int, b: int)
    by (nonlinear_arith)
    requires
        0 <= a,
        0 <= b,
    ensures
        0 <= a * b,
{
}

/// How many placeholders a predicate emits: the keyword pattern is bound
/// once for the title and once for the URL, everything else once.
pub open spec fn pred_arity(p: PredView) -> int {
    match p {
        PredView::KeywordLike(_) => 2,
        _ => 1,
    }
}

/// Total number of placeholders of a predicate list.
pub open spec fn spec_arity_sum(ps: Seq<PredView>) -> int
    decreases ps.len(),
{
    if ps.len() == 0 {
        0
    } else {
        pred_arity(ps[0]) + spec_arity_sum(ps.skip(1))
    }
}

pub proof fn lemma_arity_sum_snoc(ps: Seq<PredView>, p: PredView)
    ensures
        spec_arity_sum(ps.push(p)) == spec_arity_sum(ps) + pred_arity(p),
    decreases ps.len(),
{
    if ps.len() == 0 {
        assert(ps.push(p)[0] == p);
        assert(ps.push(p).skip(1) =~= Seq::<PredView>::empty());
        assert(spec_arity_sum(Seq::<PredView>::empty()) == 0);
    } else {
        assert(ps.push(p)[0] == ps[0]);
        assert(ps.push(p).skip(1) =~= ps.skip(1).push(p));
        lemma_arity_sum_snoc(ps.skip(1), p);
    }
}

/// The values bound by one predicate, in placeholder order.
pub open spec fn pred_params(p: PredView) -> Seq<ValView> {
    match p {
        PredView::TimeLower(t) => seq![ValView::Int(t)],
        PredView::TimeUpper(t) => seq![ValView::Int(t)],
        PredView::LocaleEq(s) => seq![ValView::Text(s)],
        PredView::KeywordLike(pat) => seq![ValView::Text(pat), ValView::Text(pat)],
    }
}

/// All bound values of a plan, in emission order.
pub open spec fn spec_params(ps: Seq<PredView>) -> Seq<ValView>
    decreases ps.len(),
{
    if ps.len() == 0 {
        Seq::empty()
    } else {
        pred_params(ps[0]) + spec_params(ps.skip(1))
    }
}

pub proof fn lemma_params_snoc(ps: Seq<PredView>, p: PredView)
    ensures
        spec_params(ps.push(p)) == spec_params(ps) + pred_params(p),
    decreases ps.len(),
{
    let sp = ps.push(p);
    if ps.len() == 0 {
        assert(sp[0] == p);
        assert(sp.skip(1) =~= Seq::<PredView>::empty());
        assert(spec_params(Seq::<PredView>::empty()) =~= Seq::<ValView>::empty());
        assert(spec_params(sp) =~= spec_params(ps) + pred_params(p));
    } else {
        assert(sp[0] == ps[0]);
        assert(sp.skip(1) =~= ps.skip(1).push(p));
        lemma_params_snoc(ps.skip(1), p);
        assert(spec_params(sp) == pred_params(ps[0]) + spec_params(sp.skip(1)));
        assert(spec_params(sp.skip(1)) == spec_params(ps.skip(1)) + pred_params(p));
        assert(spec_params(ps) == pred_params(ps[0]) + spec_params(ps.skip(1)));
        assert(spec_params(sp) =~= spec_params(ps) + pred_params(p));
    }
}

/// The parameter list of a plan is exactly as long as its total arity.
pub proof fn lemma_params_len(ps: Seq<PredView>)
    ensures
        spec_params(ps).len() == spec_arity_sum(ps),
    decreases ps.len(),
{
    if ps.len() > 0 {
        lemma_params_len(ps.skip(1));
    }
}

/// The SQL text of one predicate, with numbered placeholders starting at
/// `idx`. Values never appear in the text; only placeholders do.
pub open spec fn pred_fragment(p: PredView, idx: int) -> Seq<char> {
    match p {
        PredView::TimeLower(_) => "last_visited_time >= ?"@ + crate::text::spec_dec_str(idx),
        PredView::TimeUpper(_) => "last_visited_time <= ?"@ + crate::text::spec_dec_str(idx),
        PredView::LocaleEq(_) => "locale = ?"@ + crate::text::spec_dec_str(idx),
        PredView::KeywordLike(_) => "(title LIKE ?"@ + crate::text::spec_dec_str(idx)
            + " OR url LIKE ?"@ + crate::text::spec_dec_str(idx + 1) + ")"@,
    }
}

/// The predicate fragments joined with `AND`, placeholders numbered from
/// `idx` in emission order.
pub open spec fn spec_where_sql(ps: Seq<PredView>, idx: int) -> Seq<char>
    decreases ps.len(),
{
    if ps.len() == 0 {
        Seq::empty()
    } else if ps.len() == 1 {
        pred_fragment(ps[0], idx)
    } else {
        pred_fragment(ps[0], idx) + " AND "@ + spec_where_sql(ps.skip(1), idx + pred_arity(ps[0]))
    }
}

/// The full `WHERE` clause: empty when there are no predicates.
pub open spec fn spec_full_where(ps: Seq<PredView>) -> Seq<char> {
    if ps.len() == 0 {
        Seq::empty()
    } else {
        "WHERE "@ + spec_where_sql(ps, 1)
    }
}

pub proof fn lemma_where_snoc(ps: Seq<PredView>, p: PredView, idx: int)
    ensures
        ps.len() == 0 ==> spec_where_sql(ps.push(p), idx) == pred_fragment(p, idx),
        ps.len() > 0 ==> spec_where_sql(ps.push(p), idx) == spec_where_sql(ps, idx) + " AND "@
            + pred_fragment(p, idx + spec_arity_sum(ps)),
    decreases ps.len(),
{
    let sp = ps.push(p);
    if ps.len() == 0 {
        assert(sp[0] == p);
    } else {
        assert(sp[0] == ps[0]);
        assert(sp.skip(1) =~= ps.skip(1).push(p));
        lemma_where_snoc(ps.skip(1), p, idx + pred_arity(ps[0]));
        if ps.len() == 1 {
            assert(ps.skip(1).len() == 0);
            assert(spec_where_sql(sp, idx) == pred_fragment(ps[0], idx) + " AND "@
                + pred_fragment(p, idx + pred_arity(ps[0])));
            assert(spec_arity_sum(ps) == pred_arity(ps[0]) + spec_arity_sum(ps.skip(1)));
        } else {
            assert(spec_where_sql(sp, idx) =~= spec_where_sql(ps, idx) + " AND "@
                + pred_fragment(p, idx + spec_arity_sum(ps)));
        }
    }
}

/// Compiles a bare time range into a plan with only its time predicates,
/// ordered by visit time descending: the statistics view's filter.
pub fn compile_time_only(time_range: &Option<String>, now: i64) -> (plan: CompiledPlan)
    ensures
        preds_view(plan.predicates@) == seg_time(opt_str_view(*time_range), now as int),
        plan.sort_field == SortField::LastVisitedTime,
        plan.sort_dir == SortDir::Desc,
{
    let ghost tr = opt_str_view(*time_range);
    let mut preds: Vec<Predicate> = Vec::new();
    match compute_time_lower(time_range, now) {
        Some(t) => preds.push(Predicate::TimeLower(t)),
        None => {},
    }
    match compute_time_upper(time_range) {
        Some(t) => preds.push(Predicate::TimeUpper(t)),
        None => {},
    }
    proof {
        assert(preds_view(preds@) =~= seg_time(tr, now as int));
    }
    CompiledPlan {
        predicates: preds,
        sort_field: SortField::LastVisitedTime,
        sort_dir: SortDir::Desc,
    }
}

pub proof fn lemma_count_dec_str(n: int)
    ensures
        crate::text::count_char(crate::text::spec_dec_str(n), '?') == 0,
    decreases n,
{
    let s = crate::text::spec_dec_str(n);
    if n < 10 {
        assert(s.len() == 1);
        assert(s.drop_last() =~= Seq::<char>::empty());
        assert(crate::text::count_char(Seq::<char>::empty(), '?') == 0);
        assert(s.last() != '?');
    } else {
        lemma_count_dec_str(n / 10);
        assert(s.drop_last() =~= crate::text::spec_dec_str(n / 10));
        assert(s.last() != '?');
    }
}

pub proof fn lemma_count_fragment(p: PredView, idx: int)
    ensures
        crate::text::count_char(pred_fragment(p, idx), '?') == pred_arity(p),
{
    reveal_strlit("last_visited_time >= ?");
    reveal_strlit("last_visited_time <= ?");
    reveal_strlit("locale = ?");
    reveal_strlit("(title LIKE ?");
    reveal_strlit(" OR url LIKE ?");
    reveal_strlit(")");
    assert(crate::text::count_char("last_visited_time >= ?"@, '?') == 1) by {
        reveal_with_fuel(crate::text::count_char, 25);
    }
    assert(crate::text::count_char("last_visited_time <= ?"@, '?') == 1) by {
        reveal_with_fuel(crate::text::count_char, 25);
    }
    assert(crate::text::count_char("locale = ?"@, '?') == 1) by {
        reveal_with_fuel(crate::text::count_char, 12);
    }
    assert(crate::text::count_char("(title LIKE ?"@, '?') == 1) by {
        reveal_with_fuel(crate::text::count_char, 15);
    }
    assert(crate::text::count_char(" OR url LIKE ?"@, '?') == 1) by {
        reveal_with_fuel(crate::text::count_char, 16);
    }
    assert(crate::text::count_char(")"@, '?') == 0) by {
        reveal_with_fuel(crate::text::count_char, 3);
    }
    lemma_count_dec_str(idx);
    lemma_count_dec_str(idx + 1);
    match p {
        PredView::TimeLower(_) => {
            crate::text::lemma_count_char_concat(
                "last_visited_time >= ?"@,
                crate::text::spec_dec_str(idx),
                '?',
            );
        },
        PredView::TimeUpper(_) => {
            crate::text::lemma_count_char_concat(
                "last_visited_time <= ?"@,
                crate::text::spec_dec_str(idx),
                '?',
            );
        },
        PredView::LocaleEq(_) => {
            crate::text::lemma_count_char_concat(
                "locale = ?"@,
                crate::text::spec_dec_str(idx),
                '?',
            );
        },
        PredView::KeywordLike(_) => {
            let a = "(title LIKE ?"@;
            let b = crate::text::spec_dec_str(idx);
            let c = " OR url LIKE ?"@;
            let d = crate::text::spec_dec_str(idx + 1);
            let e = ")"@;
            crate::text::lemma_count_char_concat(a, b, '?');
            crate::text::lemma_count_char_concat(a + b, c, '?');
            crate::text::lemma_count_char_concat(a + b + c, d, '?');
            crate::text::lemma_count_char_concat(a + b + c + d, e, '?');
        },
    }
}

pub proof fn lemma_where_placeholders(ps: Seq<PredView>, idx: int)
    ensures
        crate::text::count_char(spec_where_sql(ps, idx), '?') == spec_arity_sum(ps),
    decreases ps.len(),
{
    reveal_strlit(" AND ");
    assert(crate::text::count_char(" AND "@, '?') == 0) by {
        reveal_with_fuel(crate::text::count_char, 7);
    }
    if ps.len() == 0 {
        assert(crate::text::count_char(Seq::<char>::empty(), '?') == 0);
    } else if ps.len() == 1 {
        lemma_count_fragment(ps[0], idx);
        assert(spec_arity_sum(ps.skip(1)) == 0);
    } else {
        lemma_count_fragment(ps[0], idx);
        lemma_where_placeholders(ps.skip(1), idx + pred_arity(ps[0]));
        crate::text::lemma_count_char_concat(pred_fragment(ps[0], idx), " AND "@, '?');
        crate::text::lemma_count_char_concat(
            pred_fragment(ps[0], idx) + " AND "@,
            spec_where_sql(ps.skip(1), idx + pred_arity(ps[0])),
            '?',
        );
    }
}

/// The law of the compiled plan: its `WHERE` text holds exactly one
/// placeholder for every bound value, in emission order, so every value
/// reaches the query as a parameter and never as text.
pub proof fn lemma_placeholders_match_params(ps: Seq<PredView>)
    ensures
        crate::text::count_char(spec_full_where(ps), '?') == spec_params(ps).len(),
{
    reveal_strlit("WHERE ");
    assert(crate::text::count_char("WHERE "@, '?') == 0) by {
        reveal_with_fuel(crate::text::count_char, 8);
    }
    lemma_params_len(ps);
    if ps.len() == 0 {
        assert(crate::text::count_char(Seq::<char>::empty(), '?') == 0);
        assert(spec_params(ps).len() == 0);
    } else {
        lemma_where_placeholders(ps, 1);
        crate::text::lemma_count_char_concat("WHERE "@, spec_where_sql(ps, 1), '?');
    }
}

impl CompiledPlan {
    /// The bound values of this plan, in emission order.
    pub fn params(&self) -> (r: Vec<SqlValue>)
        ensures
            vals_view(r@) == spec_params(preds_view(self.predicates@)),
    {
        let ghost pv = preds_view(self.predicates@);
        let n = self.predicates.len();
        let mut r: Vec<SqlValue> = Vec::new();
        let mut i: usize = 0;
        proof {
            assert(pv.take(0) =~= Seq::<PredView>::empty());
            assert(vals_view(r@) =~= spec_params(pv.take(0)));
        }
        while i < n
            invariant
                n == self.predicates@.len(),
                pv == preds_view(self.predicates@),
                i <= n,
                vals_view(r@) == spec_params(pv.take(i as int)),
            decreases n - i,
        {
            match &self.predicates[i] {
                Predicate::TimeLower(t) => r.push(SqlValue::Int(*t)),
                Predicate::TimeUpper(t) => r.push(SqlValue::Int(*t)),
                Predicate::LocaleEq(s) => r.push(SqlValue::Text(s.clone())),
                Predicate::KeywordLike(p) => {
                    r.push(SqlValue::Text(p.clone()));
                    r.push(SqlValue::Text(p.clone()));
                },
            }
            proof {
                assert(pv.take(i + 1) =~= pv.take(i as int).push(pv[i as int]));
                lemma_params_snoc(pv.take(i as int), pv[i as int]);
                assert(vals_view(r@) =~= spec_params(pv.take(i + 1)));
            }
            i += 1;
        }
        proof {
            assert(pv.take(n as int) =~= pv);
        }
        r
    }

    /// The `WHERE` clause of this plan. Predicate text comes from a fixed
    /// set of templates; user values only ever reach the bound-value list.
    pub fn where_sql(&self) -> (r: String)
        requires
            self.predicates@.len() < 1000000,
        ensures
            r@ == spec_full_where(preds_view(self.predicates@)),
    {
        let ghost pv = preds_view(self.predicates@);
        let n = self.predicates.len();
        if n == 0 {
            return String::new();
        }
        let mut out = String::from_str("WHERE ");
        let mut idx: usize = 1;
        let mut i: usize = 0;
        proof {
            assert(pv.take(0) =~= Seq::<PredView>::empty());
            assert(out@ =~= "WHERE "@ + spec_where_sql(pv.take(0), 1));
        }
        while i < n
            invariant
                n == self.predicates@.len(),
                n < 1000000,
                pv == preds_view(self.predicates@),
                0 < n,
                i <= n,
                idx <= 1 + 2 * i,
                idx as int == 1 + spec_arity_sum(pv.take(i as int)),
                out@ == "WHERE "@ + spec_where_sql(pv.take(i as int), 1),
            decreases n - i,
        {
            if i > 0 {
                out.append(" AND ");
            }
            let ghost frag_idx = idx as int;
            match &self.predicates[i] {
                Predicate::TimeLower(_) => {
                    out.append("last_visited_time >= ?");
                    let num = crate::text::usize_to_string(idx);
                    out.append(num.as_str());
                    idx += 1;
                },
                Predicate::TimeUpper(_) => {
                    out.append("last_visited_time <= ?");
                    let num = crate::text::usize_to_string(idx);
                    out.append(num.as_str());
                    idx += 1;
                },
                Predicate::LocaleEq(_) => {
                    out.append("locale = ?");
                    let num = crate::text::usize_to_string(idx);
                    out.append(num.as_str());
                    idx += 1;
                },
                Predicate::KeywordLike(_) => {
                    out.append("(title LIKE ?");
                    let num = crate::text::usize_to_string(idx);
                    out.append(num.as_str());
                    out.append(" OR url LIKE ?");
                    let num2 = crate::text::usize_to_string(idx + 1);
                    out.append(num2.as_str());
                    out.append(")");
                    idx += 2;
                },
            }
            proof {
                assert(pv.take(i + 1) =~= pv.take(i as int).push(pv[i as int]));
                lemma_where_snoc(pv.take(i as int), pv[i as int], 1);
                lemma_arity_sum_snoc(pv.take(i as int), pv[i as int]);
                assert(out@ =~= "WHERE "@ + spec_where_sql(pv.take(i + 1), 1));
            }
            i += 1;
        }
        proof {
            assert(pv.take(n as int) =~= pv);
        }
        out
    }

    /// The full row query of this plan: a fixed projection of the record
    /// table followed by the plan's `WHERE` clause.
    pub fn select_sql(&self) -> (r: String)
        requires
            self.predicates@.len() < 1000000,
        ensures
            r@ == "SELECT url, title, last_visited_time, num_visits, locale FROM navigation_history "@
                + spec_full_where(preds_view(self.predicates@)),
    {
        let mut out = String::from_str(
            "SELECT url, title, last_visited_time, num_visits, locale FROM navigation_history ",
        );
        let w = self.where_sql();
        out.append(w.as_str());
        out
    }
}

} // verus!
