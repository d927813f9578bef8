//! Verified string utilities: ASCII case folding, equality, search,
//! signed-integer parsing and decimal rendering.

use vstd::prelude::*;
use vstd::string::StrSliceExecFns;
use vstd::string::StringExecFns;

verus! {

/// ASCII-only lower-casing of a single character, as the storage engine's
/// substring operator folds case.
pub open spec fn fold_char(c: char) -> char {
    if 'A' <= c && c <= 'Z' {
        ((c as u8) + 32) as char
    } else {
        c
    }
}

/// Exec counterpart of [`fold_char`].
pub fn fold_char_exec(c: char) -> (r: char)
    ensures
        r == fold_char(c),
{
    if 'A' <= c && c <= 'Z' {
        ((c as u8) + 32) as char
    } else {
        c
    }
}

/// Character-for-character string equality.
pub fn str_eq_str(a: &str, b: &str) -> (r: bool)
    ensures
        r == (a@ == b@),
{
    let alen = a.unicode_len();
    let blen = b.unicode_len();
    if alen != blen {
        proof {
            assert(a@ != b@) by {
                assert(a@.len() != b@.len());
            }
        }
        return false;
    }
    let mut i: usize = 0;
    while i < alen
        invariant
            alen == a@.len(),
            alen == b@.len(),
            i <= alen,
            forall|k: int| 0 <= k < i ==> a@[k] == b@[k],
        decreases alen - i,
    {
        if a.get_char(i) != b.get_char(i) {
            return false;
        }
        i += 1;
    }
    proof {
        assert(a@ =~= b@);
    }
    true
}

/// Whether the option holds a string equal to `lit`.
pub fn opt_is(s: &Option<String>, lit: &str) -> (r: bool)
    ensures
        r == (s is Some && s->0@ == lit@),
{
    match s {
        Some(v) => str_eq_str(v.as_str(), lit),
        None => false,
    }
}

/// Index of the first occurrence of `c` in `s`, if any.
pub open spec fn spec_find_char(s: Seq<char>, c: char) -> Option<int>
    decreases s.len(),
{
    if s.len() == 0 {
        None
    } else if s[0] == c {
        Some(0int)
    } else {
        match spec_find_char(s.skip(1), c) {
            Some(i) => Some(i + 1),
            None => None,
        }
    }
}

/// The found index points at `c` and nothing before it is `c`; `None`
/// means `c` does not occur at all.
pub proof fn lemma_find_char(s: Seq<char>, c: char)
    ensures
        match spec_find_char(s, c) {
            Some(i) => 0 <= i < s.len() && s[i] == c && forall|k: int| 0 <= k < i ==> s[k] != c,
            None => forall|k: int| 0 <= k < s.len() ==> s[k] != c,
        },
    decreases s.len(),
{
    if s.len() == 0 {
    } else if s[0] == c {
    } else {
        lemma_find_char(s.skip(1), c);
        match spec_find_char(s.skip(1), c) {
            Some(i) => {
                assert(forall|k: int| 0 <= k < i ==> s.skip(1)[k] != c);
                assert(forall|k: int| 1 <= k < i + 1 ==> s[k] == s.skip(1)[k - 1]);
            },
            None => {
                assert(forall|k: int| 1 <= k < s.len() ==> s[k] == s.skip(1)[k - 1]);
            },
        }
    }
}

/// Exec counterpart of [`spec_find_char`].
pub fn find_char(s: &str, c: char) -> (r: Option<usize>)
    ensures
        match r {
            Some(i) => spec_find_char(s@, c) == Some(i as int),
            None => spec_find_char(s@, c) is None,
        },
{
    let len = s.unicode_len();
    let mut i: usize = 0;
    while i < len
        invariant
            len == s@.len(),
            i <= len,
            forall|k: int| 0 <= k < i ==> s@[k] != c,
        decreases len - i,
    {
        if s.get_char(i) == c {
            proof {
                lemma_find_char(s@, c);
                match spec_find_char(s@, c) {
                    Some(j) => {
                        assert(j == i) by {
                            assert(s@[j] == c);
                            assert(forall|k: int| 0 <= k < j ==> s@[k] != c);
                        }
                    },
                    None => {
                        assert(s@[i as int] == c);
                    },
                }
            }
            return Some(i);
        }
        i += 1;
    }
    proof {
        lemma_find_char(s@, c);
    }
    None
}

/// ASCII decimal digit.
pub open spec fn is_digit(c: char) -> bool {
    '0' <= c && c <= '9'
}

/// Numeric value of a digit character.
pub open spec fn digit_val(c: char) -> int {
    c as int - 48
}

/// Every character of `s` is a decimal digit.
pub open spec fn all_digits(s: Seq<char>) -> bool {
    forall|k: int| 0 <= k < s.len() ==> is_digit(s[k])
}

/// Value of a digit string read most-significant first.
pub open spec fn digits_val(s: Seq<char>) -> int
    decreases s.len(),
{
    if s.len() == 0 {
        0
    } else {
        digits_val(s.drop_last()) * 10 + digit_val(s.last())
    }
}

/// What `str::parse::<i64>` accepts and returns: an optional sign followed
/// by at least one digit, with the value inside the signed 64-bit range.
pub open spec fn spec_parse_i64(s: Seq<char>) -> Option<int> {
    let sign: int = if s.len() > 0 && s[0] == '-' {
        -1
    } else {
        1
    };
    let rest: Seq<char> = if s.len() > 0 && (s[0] == '-' || s[0] == '+') {
        s.skip(1)
    } else {
        s
    };
    if rest.len() > 0 && all_digits(rest) {
        let v = sign * digits_val(rest);
        if i64::MIN <= v <= i64::MAX {
            Some(v)
        } else {
            None
        }
    } else {
        None
    }
}

pub proof fn lemma_digits_val_nonneg(s: Seq<char>)
    requires
        all_digits(s),
    ensures
        digits_val(s) >= 0,
    decreases s.len(),
{
    if s.len() > 0 {
        assert(all_digits(s.drop_last())) by {
            assert(forall|k: int| 0 <= k < s.len() - 1 ==> s.drop_last()[k] == s[k]);
        }
        lemma_digits_val_nonneg(s.drop_last());
    }
}

/// A digit string is worth at least any of its prefixes.
pub proof fn lemma_digits_val_prefix(s: Seq<char>, n: int)
    requires
        all_digits(s),
        0 <= n <= s.len(),
    ensures
        digits_val(s.subrange(0, n)) <= digits_val(s),
    decreases s.len() - n,
{
    if n == s.len() {
        assert(s.subrange(0, n) =~= s);
    } else {
        let a = s.subrange(0, n);
        let b = s.subrange(0, n + 1);
        assert(b.drop_last() =~= a);
        assert(all_digits(a)) by {
            assert(forall|k: int| 0 <= k < n ==> a[k] == s[k]);
        }
        lemma_digits_val_nonneg(a);
        assert(digits_val(b) == digits_val(a) * 10 + digit_val(b.last()));
        assert(is_digit(s[n]));
        assert(digits_val(a) <= digits_val(b));
        lemma_digits_val_prefix(s, n + 1);
    }
}

/// Exec counterpart of [`spec_parse_i64`].
pub fn parse_i64(s: &str) -> (r: Option<i64>)
    ensures
        match r {
            Some(v) => spec_parse_i64(s@) == Some(v as int),
            None => spec_parse_i64(s@) is None,
        },
{
    let len = s.unicode_len();
    if len == 0 {
        return None;
    }
    let c0 = s.get_char(0);
    let neg: bool = c0 == '-';
    let start: usize = if c0 == '-' || c0 == '+' {
        1
    } else {
        0
    };
    let ghost rest: Seq<char> = s@.skip(start as int);
    if start >= len {
        // a sign with no digits after it
        assert(rest.len() == 0);
        return None;
    }
    // acc stays equal to the negated value of the digits read so far
    let mut acc: i64 = 0;
    let mut i: usize = start;
    while i < len
        invariant
            len == s@.len(),
            start <= i <= len,
            start <= 1,
            start < len,
            len > 0,
            neg == (s@[0] == '-'),
            (start == 1) == (s@[0] == '-' || s@[0] == '+'),
            rest == s@.skip(start as int),
            acc <= 0,
            all_digits(s@.subrange(start as int, i as int)),
            acc as int == -digits_val(s@.subrange(start as int, i as int)),
        decreases len - i,
    {
        let c = s.get_char(i);
        if !('0' <= c && c <= '9') {
            proof {
                if start == 0 {
                    assert(rest =~= s@);
                }
                assert(!all_digits(rest)) by {
                    assert(rest[i as int - start as int] == s@[i as int]);
                }
                assert(spec_parse_i64(s@) is None);
            }
            return None;
        }
        let d: i64 = (c as u32 - 48) as i64;
        let ghost pre = s@.subrange(start as int, i as int);
        let ghost cur = s@.subrange(start as int, i + 1 as int);
        proof {
            assert(cur.drop_last() =~= pre);
            assert(cur.last() == s@[i as int]);
            assert(digits_val(cur) == digits_val(pre) * 10 + digit_val(s@[i as int]));
        }
        let wide: i128 = acc as i128 * 10 - d as i128;
        if wide < i64::MIN as i128 {
            // the digits read so far already exceed the representable range
            proof {
                if start == 0 {
                    assert(rest =~= s@);
                }
                assert(digits_val(cur) == -(wide as int));
                assert(digits_val(cur) > i64::MAX as int + 1);
                if all_digits(rest) {
                    assert(cur =~= rest.subrange(0, i as int + 1 - start as int));
                    lemma_digits_val_prefix(rest, i as int + 1 - start as int);
                    assert(digits_val(rest) > i64::MAX as int + 1);
                    assert(-digits_val(rest) < i64::MIN as int);
                    assert((-1) * digits_val(rest) == -digits_val(rest)) by (nonlinear_arith);
                    assert(1 * digits_val(rest) == digits_val(rest)) by (nonlinear_arith);
                }
                assert(spec_parse_i64(s@) is None);
            }
            return None;
        }
        acc = wide as i64;
        i += 1;
    }
    proof {
        assert(s@.subrange(start as int, len as int) =~= rest);
        assert(acc as int == -digits_val(rest));
        lemma_digits_val_nonneg(rest);
        assert(rest.len() > 0);
        if start == 0 {
            assert(rest =~= s@);
        }
        assert((-1) * digits_val(rest) == -digits_val(rest));
        assert(1 * digits_val(rest) == digits_val(rest));
    }
    if neg {
        proof {
            assert(s@[0] == '-');
            assert(spec_parse_i64(s@) == Some(acc as int));
        }
        Some(acc)
    } else {
        if acc == i64::MIN {
            // the unsigned value is one past the largest representable one
            proof {
                assert(digits_val(rest) == i64::MAX as int + 1);
            }
            return None;
        }
        Some(-acc)
    }
}

/// Number of occurrences of `c` in `s`.
pub open spec fn count_char(s: Seq<char>, c: char) -> int
    decreases s.len(),
{
    if s.len() == 0 {
        0
    } else {
        count_char(s.drop_last(), c) + if s.last() == c {
            1int
        } else {
            0int
        }
    }
}

/// Counting distributes over concatenation.
pub proof fn lemma_count_char_concat(a: Seq<char>, b: Seq<char>, c: char)
    ensures
        count_char(a + b, c) == count_char(a, c) + count_char(b, c),
    decreases b.len(),
{
    if b.len() == 0 {
        assert(a + b =~= a);
    } else {
        lemma_count_char_concat(a, b.drop_last(), c);
        assert((a + b).drop_last() =~= a + b.drop_last());
        assert((a + b).last() == b.last());
    }
}

/// Digit character for a value in 0..=9.
pub open spec fn digit_char(d: int) -> char {
    ((48 + d) as u8) as char
}

/// Decimal rendering of a natural number, most significant digit first.
pub open spec fn spec_dec_str(n: int) -> Seq<char>
    decreases n,
{
    if n < 10 {
        seq![digit_char(if n < 0 { 0 } else { n })]
    } else {
        spec_dec_str(n / 10).push(digit_char(n % 10))
    }
}

fn digit_lit(d: usize) -> (r: &'static str)
    requires
        d < 10,
    ensures
        r@ =~= seq![digit_char(d as int)],
{
    proof {
        reveal_strlit("0");
        reveal_strlit("1");
        reveal_strlit("2");
        reveal_strlit("3");
        reveal_strlit("4");
        reveal_strlit("5");
        reveal_strlit("6");
        reveal_strlit("7");
        reveal_strlit("8");
        reveal_strlit("9");
    }
    match d {
        0 => "0",
        1 => "1",
        2 => "2",
        3 => "3",
        4 => "4",
        5 => "5",
        6 => "6",
        7 => "7",
        8 => "8",
        _ => "9",
    }
}

/// Exec counterpart of [`spec_dec_str`].
pub fn usize_to_string(n: usize) -> (r: String)
    ensures
        r@ == spec_dec_str(n as int),
    decreases n,
{
    if n < 10 {
        let r = String::from_str(digit_lit(n));
        proof {
            assert(r@ =~= spec_dec_str(n as int));
        }
        r
    } else {
        let mut r = usize_to_string(n / 10);
        r.append(digit_lit(n % 10));
        proof {
            assert(r@ =~= spec_dec_str(n as int));
        }
        r
    }
}

/// The scheme prefix `http://`.
pub open spec fn http_prefix() -> Seq<char> {
    seq!['h', 't', 't', 'p', ':', '/', '/']
}

/// The scheme prefix `https://`.
pub open spec fn https_prefix() -> Seq<char> {
    seq!['h', 't', 't', 'p', 's', ':', '/', '/']
}

/// Whether `u` begins with `scheme`, compared with ASCII case folding
/// as the storage engine's substring operator would.
pub open spec fn has_scheme(u: Seq<char>, scheme: Seq<char>) -> bool {
    u.len() >= scheme.len() && forall|k: int|
        0 <= k < scheme.len() ==> fold_char(u[k]) == scheme[k]
}

/// Everything before the first `/`, or the whole string if there is none.
pub open spec fn spec_cut_at_slash(rest: Seq<char>) -> Seq<char> {
    match spec_find_char(rest, '/') {
        Some(d) => rest.take(d),
        None => rest,
    }
}

/// The site name derived from a URL: a leading `http://` or `https://`
/// scheme is stripped and the remainder is cut at the first `/`; with no
/// recognized scheme the whole string is the host, verbatim.
pub open spec fn spec_extract_host(u: Seq<char>) -> Seq<char> {
    if has_scheme(u, http_prefix()) {
        spec_cut_at_slash(u.skip(7))
    } else if has_scheme(u, https_prefix()) {
        spec_cut_at_slash(u.skip(8))
    } else {
        u
    }
}

fn scheme_char_at(s: &str, i: usize, expect: char) -> (r: bool)
    requires
        i < s@.len(),
    ensures
        r == (fold_char(s@[i as int]) == expect),
{
    fold_char_exec(s.get_char(i)) == expect
}

fn has_http_prefix(s: &str) -> (r: bool)
    ensures
        r == has_scheme(s@, http_prefix()),
{
    let len = s.unicode_len();
    if len < 7 {
        return false;
    }
    let r = scheme_char_at(s, 0, 'h') && scheme_char_at(s, 1, 't') && scheme_char_at(s, 2, 't')
        && scheme_char_at(s, 3, 'p') && scheme_char_at(s, 4, ':') && scheme_char_at(s, 5, '/')
        && scheme_char_at(s, 6, '/');
    proof {
        if r {
            assert(has_scheme(s@, http_prefix())) by {
                assert(forall|k: int| 0 <= k < 7 ==> fold_char(s@[k]) == #[trigger] http_prefix()[k]);
            }
        }
    }
    r
}

fn has_https_prefix(s: &str) -> (r: bool)
    ensures
        r == has_scheme(s@, https_prefix()),
{
    let len = s.unicode_len();
    if len < 8 {
        return false;
    }
    let r = scheme_char_at(s, 0, 'h') && scheme_char_at(s, 1, 't') && scheme_char_at(s, 2, 't')
        && scheme_char_at(s, 3, 'p') && scheme_char_at(s, 4, 's') && scheme_char_at(s, 5, ':')
        && scheme_char_at(s, 6, '/') && scheme_char_at(s, 7, '/');
    proof {
        if r {
            assert(has_scheme(s@, https_prefix())) by {
                assert(forall|k: int|
                    0 <= k < 8 ==> fold_char(s@[k]) == #[trigger] https_prefix()[k]);
            }
        }
    }
    r
}

/// Exec counterpart of [`spec_extract_host`].
pub fn extract_host(url: &str) -> (r: String)
    ensures
        r@ == spec_extract_host(url@),
{
    let len = url.unicode_len();
    let skip_n: usize = if has_http_prefix(url) {
        7
    } else if has_https_prefix(url) {
        8
    } else {
        return url.to_owned();
    };
    let rest = url.substring_char(skip_n, len);
    proof {
        assert(rest@ =~= url@.skip(skip_n as int));
    }
    match find_char(rest, '/') {
        Some(d) => {
            proof {
                lemma_find_char(rest@, '/');
            }
            let host = rest.substring_char(0, d);
            proof {
                assert(host@ =~= rest@.take(d as int));
            }
            host.to_owned()
        },
        None => rest.to_owned(),
    }
}

/// Binary lexicographic "less than or equal" on character sequences, the
/// order the storage engine uses for text columns.
pub open spec fn spec_str_le(a: Seq<char>, b: Seq<char>) -> bool
    decreases a.len(),
{
    if a.len() == 0 {
        true
    } else if b.len() == 0 {
        false
    } else if (a[0] as int) < (b[0] as int) {
        true
    } else if (a[0] as int) > (b[0] as int) {
        false
    } else {
        spec_str_le(a.skip(1), b.skip(1))
    }
}

/// The lexicographic order is total.
pub proof fn lemma_str_le_total(a: Seq<char>, b: Seq<char>)
    ensures
        spec_str_le(a, b) || spec_str_le(b, a),
    decreases a.len(),
{
    if a.len() > 0 && b.len() > 0 && a[0] == b[0] {
        lemma_str_le_total(a.skip(1), b.skip(1));
    }
}

/// The lexicographic order is transitive.
pub proof fn lemma_str_le_trans(a: Seq<char>, b: Seq<char>, c: Seq<char>)
    requires
        spec_str_le(a, b),
        spec_str_le(b, c),
    ensures
        spec_str_le(a, c),
    decreases a.len(),
{
    if a.len() > 0 && b.len() > 0 && c.len() > 0 && a[0] == b[0] && b[0] == c[0] {
        lemma_str_le_trans(a.skip(1), b.skip(1), c.skip(1));
    }
}

/// Exec counterpart of [`spec_str_le`].
pub fn str_le(a: &str, b: &str) -> (r: bool)
    ensures
        r == spec_str_le(a@, b@),
{
    let alen = a.unicode_len();
    let blen = b.unicode_len();
    let mut i: usize = 0;
    proof {
        assert(a@.skip(0) =~= a@);
        assert(b@.skip(0) =~= b@);
    }
    while i < alen && i < blen
        invariant
            alen == a@.len(),
            blen == b@.len(),
            i <= alen,
            i <= blen,
            spec_str_le(a@, b@) == spec_str_le(a@.skip(i as int), b@.skip(i as int)),
        decreases alen - i,
    {
        let ca = a.get_char(i);
        let cb = b.get_char(i);
        proof {
            assert(a@.skip(i as int)[0] == a@[i as int]);
            assert(b@.skip(i as int)[0] == b@[i as int]);
            assert(a@.skip(i as int).skip(1) =~= a@.skip(i as int + 1));
            assert(b@.skip(i as int).skip(1) =~= b@.skip(i as int + 1));
        }
        if (ca as u32) < (cb as u32) {
            return true;
        }
        if (ca as u32) > (cb as u32) {
            return false;
        }
        i += 1;
    }
    proof {
        assert(a@.skip(i as int).len() == alen - i);
        assert(b@.skip(i as int).len() == blen - i);
    }
    alen <= blen
}

/// The storage engine's `LIKE` match: `%` matches any run of characters,
/// `_` matches exactly one, and anything else matches a single character
/// up to ASCII case folding.
pub open spec fn spec_like(p: Seq<char>, t: Seq<char>) -> bool
    decreases p.len() + t.len(),
{
    if p.len() == 0 {
        t.len() == 0
    } else if p[0] == '%' {
        spec_like(p.skip(1), t) || (t.len() > 0 && spec_like(p, t.skip(1)))
    } else if p[0] == '_' {
        t.len() > 0 && spec_like(p.skip(1), t.skip(1))
    } else {
        t.len() > 0 && fold_char(p[0]) == fold_char(t[0]) && spec_like(p.skip(1), t.skip(1))
    }
}

/// One dynamic-programming cell: whether the pattern suffix `pi` matches
/// the text suffix of length `k2`, given the answers for the next pattern
/// position (`next`, suffix-first) and for the text suffix one shorter
/// at this pattern position (`right`).
fn like_cell(
    c: char,
    Ghost(pi): Ghost<Seq<char>>,
    t: &Vec<char>,
    next: &Vec<bool>,
    right: bool,
    k2: usize,
) -> (cell: bool)
    requires
        pi.len() > 0,
        pi[0] == c,
        k2 <= t@.len(),
        next@.len() == t@.len() + 1,
        forall|m: int|
            0 <= m <= t@.len() ==> next@[m] == spec_like(pi.skip(1), t@.skip(t@.len() - m)),
        k2 > 0 ==> right == spec_like(pi, t@.skip(t@.len() - k2 + 1)),
    ensures
        cell == spec_like(pi, t@.skip(t@.len() - k2)),
{
    let tlen = t.len();
    let ghost j = tlen - k2;
    let ghost tj = t@.skip(j as int);
    proof {
        assert(tj.len() == k2);
        if k2 > 0 {
            assert(tj[0] == t@[j as int]);
            assert(tj.skip(1) =~= t@.skip(j + 1));
        }
    }
    let cell: bool = if c == '%' {
        // skip the wildcard, or let it consume one text character
        let a = next[k2];
        let b = k2 > 0 && right;
        a || b
    } else if c == '_' {
        k2 > 0 && next[k2 - 1]
    } else {
        if k2 > 0 {
            let tc = t[tlen - k2];
            fold_char_exec(c) == fold_char_exec(tc) && next[k2 - 1]
        } else {
            false
        }
    };
    proof {
        assert(cell == spec_like(pi, tj));
    }
    cell
}

/// Exec counterpart of [`spec_like`], by dynamic programming over pattern
/// and text suffixes. Rows are stored suffix-first: entry `k` of a row for
/// pattern position `i` holds the answer for text position `tlen - k`.
pub fn like_match(p: &Vec<char>, t: &Vec<char>) -> (r: bool)
    ensures
        r == spec_like(p@, t@),
{
    let plen = p.len();
    let tlen = t.len();
    // row for pattern position plen: only the empty text suffix matches
    let mut next: Vec<bool> = Vec::new();
    next.push(true);
    let mut k: usize = 0;
    while k < tlen
        invariant
            k <= tlen,
            next@.len() == k + 1,
            next@[0] == true,
            forall|m: int| 0 < m <= k ==> next@[m] == false,
        decreases tlen - k,
    {
        next.push(false);
        k += 1;
    }
    proof {
        assert(p@.skip(plen as int).len() == 0);
        assert(forall|m: int|
            0 <= m <= tlen ==> next@[m] == spec_like(p@.skip(plen as int), t@.skip(tlen - m)))
            by {
            assert(forall|m: int| 0 <= m <= tlen ==> (#[trigger] t@.skip(tlen - m)).len() == m);
        }
    }
    let mut ii: usize = 0;
    while ii < plen
        invariant
            ii <= plen,
            plen == p@.len(),
            tlen == t@.len(),
            next@.len() == tlen + 1,
            forall|m: int|
                0 <= m <= tlen ==> next@[m] == spec_like(p@.skip(plen - ii), t@.skip(tlen - m)),
        decreases plen - ii,
    {
        let i = plen - ii - 1;
        let c = p[i];
        let ghost pi = p@.skip(i as int);
        proof {
            assert(pi[0] == p@[i as int]);
            assert(pi.skip(1) =~= p@.skip(i as int + 1));
        }
        let mut curr: Vec<bool> = Vec::new();
        let mut right: bool = false;
        let mut k2: usize = 0;
        while k2 < tlen
            invariant
                k2 <= tlen,
                plen == p@.len(),
                tlen == t@.len(),
                ii < plen,
                i == plen - ii - 1,
                c == p@[i as int],
                pi == p@.skip(i as int),
                pi[0] == c,
                pi.len() == plen - i,
                next@.len() == tlen + 1,
                forall|m: int|
                    0 <= m <= tlen ==> next@[m] == spec_like(pi.skip(1), t@.skip(tlen - m)),
                curr@.len() == k2,
                forall|m: int| 0 <= m < k2 ==> curr@[m] == spec_like(pi, t@.skip(tlen - m)),
                k2 > 0 ==> right == spec_like(pi, t@.skip(tlen - k2 + 1)),
            decreases tlen - k2,
        {
            let cell = like_cell(c, Ghost(pi), t, &next, right, k2);
            curr.push(cell);
            right = cell;
            k2 += 1;
        }
        let cell = like_cell(c, Ghost(pi), t, &next, right, tlen);
        curr.push(cell);
        proof {
            assert(pi.skip(1) =~= p@.skip(plen - ii - 1 + 1));
        }
        next = curr;
        ii += 1;
    }
    let r = next[tlen];
    proof {
        assert(p@.skip(0) =~= p@);
        assert(t@.skip(0) =~= t@);
    }
    r
}

/// The characters of `s` as a vector.
pub fn chars_of(s: &str) -> (r: Vec<char>)
    ensures
        r@ == s@,
{
    let len = s.unicode_len();
    let mut r: Vec<char> = Vec::new();
    let mut i: usize = 0;
    while i < len
        invariant
            len == s@.len(),
            i <= len,
            r@ =~= s@.take(i as int),
        decreases len - i,
    {
        r.push(s.get_char(i));
        proof {
            assert(r@ =~= s@.take(i as int + 1));
        }
        i += 1;
    }
    proof {
        assert(r@ =~= s@);
    }
    r
}

} // verus!
