//! Signal levels.
use vstd::prelude::*;

verus! {

/// Grade of a technical signal.
#[derive(Debug, Clone, Copy, PartialEq, Eq, Structural)]
pub enum Level {
    /// A hint.
    Tip,
    /// A confirmed signal.
    Confirm,
    /// A strong signal.
    Strong,
    /// A risk warning.
    Risk,
}

/// Lower-case name under which a level is stored and shown.
pub open spec fn level_name_of(l: Level) -> Seq<char> {
    match l {
        Level::Tip => "tip"@,
        Level::Confirm => "confirm"@,
        Level::Strong => "strong"@,
        Level::Risk => "risk"@,
    }
}

/// Lower-case name of a level (its `Debug` name in lower case).
pub fn level_name(l: Level) -> (s: &'static str)
    ensures
        s@ == level_name_of(l),
{
    match l {
        Level::Tip => "tip",
        Level::Confirm => "confirm",
        Level::Strong => "strong",
        Level::Risk => "risk",
    }
}

/// Levels on which the day-by-day replay opens a trade: confirmed and strong.
pub open spec fn is_tradable(l: Level) -> bool {
    l == Level::Confirm || l == Level::Strong
}

/// Whether the replay trades on a signal of this level.
pub fn tradable(l: Level) -> (b: bool)
    ensures
        b == is_tradable(l),
{
    match l {
        Level::Confirm | Level::Strong => true,
        _ => false,
    }
}

/// Codes scanned when a scan request names none.
pub open spec fn default_scan_codes() -> Seq<Seq<char>> {
    seq!["sz300623"@, "sh600519"@, "sz000001"@, "sz399006"@]
}

/// The codes a scan evaluates: those requested, or the default sample
/// when the request names none.
pub fn scan_codes(codes: Vec<String>) -> (r: Vec<String>)
    ensures
        codes@.len() > 0 ==> r@ == codes@,
        codes@.len() == 0 ==> crate::text::views(r@) == default_scan_codes(),
{
    if codes.len() > 0 {
        return codes;
    }
    let r = vec![
        crate::text::owned("sz300623"),
        crate::text::owned("sh600519"),
        crate::text::owned("sz000001"),
        crate::text::owned("sz399006"),
    ];
    assert(crate::text::views(r@) =~= default_scan_codes());
    r
}

// ───────────── the day-by-day replay ─────────────

/// The trades of a replay that looks at bar `i` onward over `n` bars,
/// holding each trade `h` bars: at a bar where a trade may open
/// (`e[i]`), it enters on the next bar, exits `h` bars after the signal bar
/// and looks again at that exit bar; elsewhere it moves on one bar. It
/// stops once the exit would lie past the last bar.
pub open spec fn schedule_from(i: int, n: int, h: int, e: Seq<bool>) -> Seq<(int, int)>
    decreases n - i,
{
    if h < 1 || i < 0 || i + h >= n {
        Seq::empty()
    } else if e[i] {
        seq![(i + 1, i + h)] + schedule_from(i + h, n, h, e)
    } else {
        schedule_from(i + 1, n, h, e)
    }
}

/// Number of bars the replay looks at from bar `i` onward.
pub open spec fn scanned_from(i: int, n: int, h: int, e: Seq<bool>) -> nat
    decreases n - i,
{
    if h < 1 || i < 0 || i + h >= n {
        0
    } else if e[i] {
        1 + scanned_from(i + h, n, h, e)
    } else {
        1 + scanned_from(i + 1, n, h, e)
    }
}

/// The first bar the replay looks at: the thirtieth, the first with enough
/// history for the indicators.
pub open spec fn replay_start() -> int {
    29
}

/// Entry and exit bars as integers.
pub open spec fn bar_pairs(v: Seq<(usize, usize)>) -> Seq<(int, int)> {
    v.map_values(|p: (usize, usize)| (p.0 as int, p.1 as int))
}

/// Trades of a replay never look past its data and never overlap: each
/// enters after the bar it was decided on, is held `h` bars, exits on or
/// before the last bar, and the next one enters after it exited.
pub proof fn lemma_schedule_shape(i: int, n: int, h: int, e: Seq<bool>)
    requires
        h >= 1,
    ensures
        forall|k: int|
            0 <= k < schedule_from(i, n, h, e).len() ==> {
                let t = #[trigger] schedule_from(i, n, h, e)[k];
                &&& i + 1 <= t.0
                &&& t.1 == t.0 + h - 1
                &&& t.1 < n
            },
        forall|k: int|
            0 <= k && k + 1 < schedule_from(i, n, h, e).len() ==> schedule_from(i, n, h, e)[k].1
                < #[trigger] schedule_from(i, n, h, e)[k + 1].0,
    decreases n - i,
{
    let s = schedule_from(i, n, h, e);
    if i < 0 || i + h >= n {
        assert(s.len() == 0);
    } else if e[i] {
        lemma_schedule_shape(i + h, n, h, e);
        let t = schedule_from(i + h, n, h, e);
        assert(s == seq![(i + 1, i + h)] + t);
        assert forall|k: int| 0 <= k < s.len() implies {
            let p = #[trigger] s[k];
            &&& i + 1 <= p.0
            &&& p.1 == p.0 + h - 1
            &&& p.1 < n
        } by {
            if k > 0 {
                assert(s[k] == t[k - 1]);
            }
        }
        assert forall|k: int| 0 <= k && k + 1 < s.len() implies s[k].1 < #[trigger] s[k + 1].0 by {
            assert(s[k + 1] == t[k]);
            if k > 0 {
                let j = k - 1;
                assert(s[k] == t[j]);
                assert(t[j].1 < t[j + 1].0);
            } else {
                assert(i + h + 1 <= t[0].0);
            }
        }
    } else {
        lemma_schedule_shape(i + 1, n, h, e);
        let t = schedule_from(i + 1, n, h, e);
        assert(s == t);
        assert forall|k: int| 0 <= k < s.len() implies {
            let p = #[trigger] s[k];
            &&& i + 1 <= p.0
            &&& p.1 == p.0 + h - 1
            &&& p.1 < n
        } by {
            assert(s[k] == t[k]);
        }
    }
}

/// The trades, as (entry bar, exit bar), and the number of bars looked at, of
/// a replay over `n_bars` bars holding `holding_days` bars, where
/// `eligible[i]` tells whether a trade may open on the signal of bar `i`;
/// see [`schedule_from`].
pub fn replay_schedule(n_bars: usize, holding_days: usize, eligible: &[bool]) -> (r: (
    Vec<(usize, usize)>,
    usize,
))
    requires
        holding_days >= 1,
        eligible@.len() == n_bars,
    ensures
        bar_pairs(r.0@) == schedule_from(replay_start(), n_bars as int, holding_days as int, eligible@),
        r.1 == scanned_from(replay_start(), n_bars as int, holding_days as int, eligible@),
        forall|k: int|
            0 <= k < r.0@.len() ==> {
                let t = #[trigger] r.0@[k];
                &&& replay_start() < t.0
                &&& t.1 == t.0 + holding_days - 1
                &&& t.1 < n_bars
            },
        forall|k: int| 0 <= k && k + 1 < r.0@.len() ==> r.0@[k].1 < #[trigger] r.0@[k + 1].0,
{
    let ghost n = n_bars as int;
    let ghost h = holding_days as int;
    let ghost e = eligible@;
    let mut out: Vec<(usize, usize)> = Vec::new();
    let mut scanned: usize = 0;
    let mut index: usize = 29;
    proof {
        lemma_schedule_shape(29, n, h, e);
    }
    if n_bars <= 29 {
        assert(bar_pairs(out@) =~= schedule_from(29, n, h, e));
        return (out, scanned);
    }
    while index < n_bars && holding_days < n_bars - index
        invariant
            29 <= index <= n_bars,
            scanned <= index,
            h == holding_days >= 1,
            e == eligible@,
            e.len() == n,
            n == n_bars,
            bar_pairs(out@) + schedule_from(index as int, n, h, e) == schedule_from(29, n, h, e),
            scanned + scanned_from(index as int, n, h, e) == scanned_from(29, n, h, e),
        decreases n_bars - index,
    {
        let ghost before = bar_pairs(out@);
        scanned = scanned + 1;
        if eligible[index] {
            out.push((index + 1, index + holding_days));
            assert(bar_pairs(out@) =~= before.push((index + 1, index + h)));
            assert(before.push((index + 1, index + h)) + schedule_from(index + h, n, h, e)
                =~= before + (seq![(index + 1, index + h)] + schedule_from(index + h, n, h, e)));
            index = index + holding_days;
        } else {
            index = index + 1;
        }
    }
    assert(schedule_from(index as int, n, h, e) =~= Seq::<(int, int)>::empty());
    assert(bar_pairs(out@) =~= schedule_from(29, n, h, e));
    proof {
        let s = schedule_from(29, n, h, e);
        assert forall|k: int| 0 <= k < out@.len() implies {
            let t = #[trigger] out@[k];
            &&& replay_start() < t.0
            &&& t.1 == t.0 + holding_days - 1
            &&& t.1 < n_bars
        } by {
            assert(bar_pairs(out@)[k] == s[k]);
        }
        assert forall|k: int| 0 <= k && k + 1 < out@.len() implies out@[k].1 < #[trigger] out@[
            k + 1
        ].0 by {
            assert(bar_pairs(out@)[k] == s[k]);
            assert(bar_pairs(out@)[k + 1] == s[k + 1]);
        }
    }
    (out, scanned)
}

} // verus!
