//! Signal follow-up: which trading day a signal is anchored to, and which
//! stored return column a window reads.
use vstd::prelude::*;
use vstd::string::StringSliceAdditionalSpecFns;
use vstd::utf8::{encode_utf8, is_char_boundary};

use crate::text::{chars_eq, chars_of, lex_lt, owned, str_ge, trim, trimmed};

verus! {

broadcast use vstd::string::group_string_axioms;

/// Forward windows, in trading days, after which a signal's return is read.
pub open spec fn windows() -> Seq<i64> {
    seq![1, 3, 5, 10, 20]
}

/// The forward windows: 1, 3, 5, 10 and 20 trading days.
pub fn default_windows() -> (w: Vec<i64>)
    ensures
        w@ == windows(),
{
    let w = vec![1, 3, 5, 10, 20];
    assert(w@ =~= windows());
    w
}

/// Stored column of the return over `days`; unknown windows read the 5-day
/// column.
pub open spec fn perf_column_of(days: i64) -> Seq<char> {
    if days == 1 {
        "ret_1d"@
    } else if days == 3 {
        "ret_3d"@
    } else if days == 10 {
        "ret_10d"@
    } else if days == 20 {
        "ret_20d"@
    } else {
        "ret_5d"@
    }
}

/// Column aggregated for a window.
pub fn perf_column(days: i64) -> (c: &'static str)
    ensures
        c@ == perf_column_of(days),
{
    if days == 1 {
        "ret_1d"
    } else if days == 3 {
        "ret_3d"
    } else if days == 10 {
        "ret_10d"
    } else if days == 20 {
        "ret_20d"
    } else {
        "ret_5d"
    }
}

// ───────────── dates ─────────────

/// The UTC calendar date (`%Y-%m-%d`) of an RFC 3339 timestamp, as chrono
/// reads and prints it; `None` when chrono does not accept the text.
pub uninterp spec fn rfc3339_utc_date(s: Seq<char>) -> Option<Seq<char>>;

/// Whether chrono reads the text as a `%Y-%m-%d` calendar date.
pub uninterp spec fn is_ymd_date(s: Seq<char>) -> bool;

/// chrono's `DateTime::parse_from_rfc3339`, the instant taken to UTC and its
/// date printed as `%Y-%m-%d`. The result is named, not described: it is
/// whatever chrono gives for the text.
#[verifier::external_body]
fn utc_date_of_rfc3339(s: &str) -> (r: Option<String>)
    ensures
        match r {
            Some(d) => rfc3339_utc_date(s@) == Some(d@),
            None => rfc3339_utc_date(s@) is None,
        },
{
    chrono::DateTime::parse_from_rfc3339(s).ok().map(
        |dt| dt.with_timezone(&chrono::Utc).date_naive().format("%Y-%m-%d").to_string(),
    )
}

/// chrono's `NaiveDate::parse_from_str(s, "%Y-%m-%d").is_ok()`; the answer is
/// named, not described.
#[verifier::external_body]
fn parses_as_ymd(s: &str) -> (b: bool)
    ensures
        b == is_ymd_date(s@),
{
    chrono::NaiveDate::parse_from_str(s, "%Y-%m-%d").is_ok()
}

/// The fallback of [`parse_fire_date`] (the first ten bytes) is only taken at
/// a character boundary: a text that neither chrono reading accepts and whose
/// byte 10 falls inside a character is left out.
pub open spec fn fire_date_fallback_ok(s: Seq<char>) -> bool {
    let b = encode_utf8(s);
    (rfc3339_utc_date(s) is None && !is_ymd_date(trim(s)) && b.len() >= 10) ==> is_char_boundary(
        b,
        10,
    )
}

/// What [`parse_fire_date`] returns for `s`.
pub open spec fn fire_date_result(s: Seq<char>, r: Option<Seq<char>>) -> bool {
    match rfc3339_utc_date(s) {
        Some(d) => r == Some(d),
        None => if is_ymd_date(trim(s)) {
            r == Some(trim(s))
        } else if encode_utf8(s).len() >= 10 {
            r is Some && encode_utf8(r->0) == encode_utf8(s).subrange(0, 10)
        } else {
            r is None
        },
    }
}

/// View of an optional string.
pub open spec fn opt_view(r: Option<String>) -> Option<Seq<char>> {
    match r {
        Some(s) => Some(s@),
        None => None,
    }
}

/// The calendar date of a signal's `fired_at`: the UTC date of an RFC 3339
/// timestamp; else the trimmed text when it already is a `yyyy-mm-dd` date;
/// else its first ten bytes; else nothing.
pub fn parse_fire_date(s: &str) -> (r: Option<String>)
    requires
        fire_date_fallback_ok(s@),
    ensures
        fire_date_result(s@, opt_view(r)),
{
    proof {
        vstd::utf8::encode_utf8_valid_utf8(s@);
    }
    match utc_date_of_rfc3339(s) {
        Some(d) => return Some(d),
        None => {},
    }
    let t = trimmed(s);
    if parses_as_ymd(t.as_str()) {
        return Some(t);
    }
    let bytes = s.as_bytes();
    if bytes.len() >= 10 {
        let (head, _) = s.split_at(10);
        assert(head.spec_bytes() == encode_utf8(head@));
        return Some(owned(head));
    }
    None
}

/// [`parse_fire_date`] for any text: `None` exactly on the texts it leaves
/// out (there slicing the first ten bytes would cut a character).
pub fn parse_fire_date_checked(s: &str) -> (r: Option<Option<String>>)
    ensures
        r is None <==> !fire_date_fallback_ok(s@),
        r matches Some(d) ==> fire_date_result(s@, opt_view(d)),
{
    proof {
        vstd::utf8::encode_utf8_valid_utf8(s@);
    }
    let rfc_ok = utc_date_of_rfc3339(s).is_some();
    let t = trimmed(s);
    let ymd_ok = parses_as_ymd(t.as_str());
    let bytes = s.as_bytes();
    if !rfc_ok && !ymd_ok && bytes.len() >= 10 && !s.is_char_boundary(10) {
        return None;
    }
    Some(parse_fire_date(s))
}

/// First index whose date equals `d`.
pub open spec fn first_equal(dates: Seq<Seq<char>>, d: Seq<char>) -> Option<int>
    decreases dates.len(),
{
    if dates.len() == 0 {
        None
    } else {
        match first_equal(dates.drop_last(), d) {
            Some(i) => Some(i),
            None => if dates.last() == d {
                Some(dates.len() - 1)
            } else {
                None
            },
        }
    }
}

/// First index whose date is not before `d`.
pub open spec fn first_not_before(dates: Seq<Seq<char>>, d: Seq<char>) -> Option<int>
    decreases dates.len(),
{
    if dates.len() == 0 {
        None
    } else {
        match first_not_before(dates.drop_last(), d) {
            Some(i) => Some(i),
            None => if !lex_lt(dates.last(), d) {
                Some(dates.len() - 1)
            } else {
                None
            },
        }
    }
}

/// The anchor bar of a signal: the bar of its date, or, when no bar has that
/// date, the first bar on or after it.
pub open spec fn anchor_of(dates: Seq<Seq<char>>, d: Seq<char>) -> Option<int> {
    match first_equal(dates, d) {
        Some(i) => Some(i),
        None => first_not_before(dates, d),
    }
}

/// Index of the bar that a signal fired on `fired_date` is measured from;
/// `dates` are the bars' dates in order.
pub fn locate_anchor(dates: &[String], fired_date: &str) -> (r: Option<usize>)
    ensures
        match r {
            Some(i) => anchor_of(crate::text::views(dates@), fired_date@) == Some(i as int),
            None => anchor_of(crate::text::views(dates@), fired_date@) is None,
        },
{
    let ghost ds = crate::text::views(dates@);
    let d = chars_of(fired_date);
    let mut idx_after: Option<usize> = None;
    let mut i: usize = 0;
    while i < dates.len()
        invariant
            i <= dates@.len(),
            ds == crate::text::views(dates@),
            d@ == fired_date@,
            first_equal(ds.take(i as int), d@) is None,
            match idx_after {
                Some(k) => first_not_before(ds.take(i as int), d@) == Some(k as int),
                None => first_not_before(ds.take(i as int), d@) is None,
            },
        decreases dates@.len() - i,
    {
        assert(ds.take(i + 1).drop_last() =~= ds.take(i as int));
        assert(ds.take(i + 1).last() == dates@[i as int]@);
        let b = chars_of(dates[i].as_str());
        if chars_eq(&b, &d) {
            proof {
                assert(first_equal(ds.take(i + 1), d@) == Some(i as int));
                lemma_first_equal_prefix(ds, d@, i + 1);
            }
            return Some(i);
        }
        if idx_after.is_none() && str_ge(&b, &d) {
            idx_after = Some(i);
        }
        i = i + 1;
    }
    assert(ds.take(ds.len() as int) =~= ds);
    idx_after
}

/// A match found in a prefix is the first match of the whole list.
proof fn lemma_first_equal_prefix(ds: Seq<Seq<char>>, d: Seq<char>, n: int)
    requires
        0 <= n <= ds.len(),
        first_equal(ds.take(n), d) is Some,
    ensures
        first_equal(ds, d) == first_equal(ds.take(n), d),
    decreases ds.len() - n,
{
    if n < ds.len() {
        assert(ds.take(n + 1).drop_last() =~= ds.take(n));
        lemma_first_equal_prefix(ds, d, n + 1);
    } else {
        assert(ds.take(n) =~= ds);
    }
}

proof fn lemma_first_equal(ds: Seq<Seq<char>>, d: Seq<char>)
    ensures
        match first_equal(ds, d) {
            Some(i) => 0 <= i < ds.len() && ds[i] == d && forall|k: int| 0 <= k < i ==> ds[k] != d,
            None => forall|k: int| 0 <= k < ds.len() ==> ds[k] != d,
        },
    decreases ds.len(),
{
    if ds.len() > 0 {
        lemma_first_equal(ds.drop_last(), d);
        assert forall|k: int| 0 <= k < ds.len() - 1 implies ds[k] == ds.drop_last()[k] by {}
    }
}

proof fn lemma_first_not_before(ds: Seq<Seq<char>>, d: Seq<char>)
    ensures
        match first_not_before(ds, d) {
            Some(i) => 0 <= i < ds.len() && !lex_lt(ds[i], d) && forall|k: int|
                0 <= k < i ==> lex_lt(ds[k], d),
            None => forall|k: int| 0 <= k < ds.len() ==> lex_lt(ds[k], d),
        },
    decreases ds.len(),
{
    if ds.len() > 0 {
        lemma_first_not_before(ds.drop_last(), d);
        assert forall|k: int| 0 <= k < ds.len() - 1 implies ds[k] == ds.drop_last()[k] by {}
    }
}

/// The anchor bar of a signal is never dated before the signal; it is a bar
/// of the signal's own date whenever there is one; and there is no anchor
/// only when every bar is dated before the signal.
pub proof fn law_anchor(ds: Seq<Seq<char>>, d: Seq<char>)
    ensures
        match anchor_of(ds, d) {
            Some(i) => {
                &&& 0 <= i < ds.len()
                &&& !lex_lt(ds[i], d)
                &&& (exists|k: int| 0 <= k < ds.len() && ds[k] == d) ==> ds[i] == d
            },
            None => forall|k: int| 0 <= k < ds.len() ==> lex_lt(ds[k], d),
        },
{
    lemma_first_equal(ds, d);
    lemma_first_not_before(ds, d);
    crate::text::lemma_lex_irreflexive(d);
}

} // verus!
