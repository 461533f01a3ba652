//! Paper-trading rules that need no prices: order sides, board price-limit
//! bands, lot sizes and the tally of position risk states.
use vstd::prelude::*;

use crate::text::{chars_of, has_prefix, starts_with, str_eq};

verus! {

broadcast use vstd::string::group_string_axioms;

/// Direction of an order.
#[derive(Debug, Clone, Copy, PartialEq, Eq, Structural)]
pub enum Side {
    Buy,
    Sell,
}

/// The side named `buy` or `sell`; any other text is no side.
pub open spec fn side_named(s: Seq<char>) -> Option<Side> {
    if s == "buy"@ {
        Some(Side::Buy)
    } else if s == "sell"@ {
        Some(Side::Sell)
    } else {
        None
    }
}

/// Parses an order side; orders with another side are refused.
pub fn parse_side(s: &str) -> (r: Option<Side>)
    ensures
        r == side_named(s@),
{
    if str_eq(s, "buy") {
        Some(Side::Buy)
    } else if str_eq(s, "sell") {
        Some(Side::Sell)
    } else {
        None
    }
}

/// Daily price-limit band of a code, in percent: 20 for the STAR market
/// (`sh688`) and ChiNext (`sz300`), 30 for Beijing (`bj`), 10 otherwise.
pub open spec fn price_limit_pct_of(code: Seq<char>) -> u32 {
    if starts_with(code, "sh688"@) || starts_with(code, "sz300"@) {
        20
    } else if starts_with(code, "bj"@) {
        30
    } else {
        10
    }
}

/// Price-limit bands by board: 20% for the STAR market (`sh688...`) and
/// ChiNext (`sz300...`), 30% for every Beijing code (`bj...`), 10% for every
/// other code.
pub proof fn law_price_limit_bands(code: Seq<char>)
    ensures
        starts_with(code, "sh688"@) ==> price_limit_pct_of(code) == 20,
        starts_with(code, "sz300"@) ==> price_limit_pct_of(code) == 20,
        starts_with(code, "bj"@) ==> price_limit_pct_of(code) == 30,
        !starts_with(code, "sh688"@) && !starts_with(code, "sz300"@) && !starts_with(code, "bj"@)
            ==> price_limit_pct_of(code) == 10,
{
    reveal_strlit("sh688");
    reveal_strlit("sz300");
    reveal_strlit("bj");
    if starts_with(code, "bj"@) {
        assert(code[0] == 'b') by {
            assert(code.take(2)[0] == "bj"@[0]);
        }
        if starts_with(code, "sh688"@) {
            assert(code.take(5)[0] == 's');
        }
        if starts_with(code, "sz300"@) {
            assert(code.take(5)[0] == 's');
        }
    }
}

/// Daily price-limit band of a code, in percent of the previous close.
pub fn price_limit_pct(code: &str) -> (pct: u32)
    ensures
        pct == price_limit_pct_of(code@),
{
    let v = chars_of(code);
    if has_prefix(&v, &chars_of("sh688")) || has_prefix(&v, &chars_of("sz300")) {
        20
    } else if has_prefix(&v, &chars_of("bj")) {
        30
    } else {
        10
    }
}

/// A whole number of shares is a valid order size when it is positive and,
/// for a buy, a whole number of 100-share lots.
pub open spec fn valid_shares(is_buy: bool, shares: nat) -> bool {
    shares > 0 && (!is_buy || (shares >= 100 && shares % 100 == 0))
}

/// Whether a whole number of shares is a valid order size; `is_buy` tells a
/// buy from any other side.
pub fn valid_share_count(is_buy: bool, shares: u64) -> (b: bool)
    ensures
        b == valid_shares(is_buy, shares as nat),
{
    shares > 0 && (!is_buy || (shares >= 100 && shares % 100 == 0))
}

/// Status of a paper order.
#[derive(Debug, Clone, Copy, PartialEq, Eq, Structural)]
pub enum OrderStatus {
    /// Accepted, funds or shares frozen, not yet settled.
    Pending,
    /// Executed.
    Filled,
    /// Withdrawn by the user.
    Cancelled,
    /// Refused at submission.
    Rejected,
}

/// What can happen to an order.
#[derive(Debug, Clone, Copy, PartialEq, Eq, Structural)]
pub enum OrderEvent {
    Fill,
    Cancel,
}

/// Wire name of an order status.
pub open spec fn order_status_name_of(s: OrderStatus) -> Seq<char> {
    match s {
        OrderStatus::Pending => "pending"@,
        OrderStatus::Filled => "filled"@,
        OrderStatus::Cancelled => "cancelled"@,
        OrderStatus::Rejected => "rejected"@,
    }
}

/// Wire name of an order status.
pub fn order_status_name(s: OrderStatus) -> (r: &'static str)
    ensures
        r@ == order_status_name_of(s),
{
    match s {
        OrderStatus::Pending => "pending",
        OrderStatus::Filled => "filled",
        OrderStatus::Cancelled => "cancelled",
        OrderStatus::Rejected => "rejected",
    }
}

/// The status an order takes after an event: only a pending order can be
/// filled or cancelled; any other status refuses the event.
pub open spec fn next_status_of(s: OrderStatus, e: OrderEvent) -> Option<OrderStatus> {
    if s == OrderStatus::Pending {
        Some(
            match e {
                OrderEvent::Fill => OrderStatus::Filled,
                OrderEvent::Cancel => OrderStatus::Cancelled,
            },
        )
    } else {
        None
    }
}

/// Applies an event to an order whose stored status text is `status`: the
/// new status, or `None` when the order is not pending (the text is then
/// reported back as `order not pending: {status}`).
pub fn next_status(status: &str, e: OrderEvent) -> (r: Option<OrderStatus>)
    ensures
        status@ == "pending"@ ==> r == next_status_of(OrderStatus::Pending, e),
        status@ != "pending"@ ==> r is None,
{
    if str_eq(status, "pending") {
        match e {
            OrderEvent::Fill => Some(OrderStatus::Filled),
            OrderEvent::Cancel => Some(OrderStatus::Cancelled),
        }
    } else {
        None
    }
}

/// Settled orders stay settled: a filled, cancelled or rejected order takes
/// no further event, and every event on a pending order settles it.
pub proof fn law_orders_settle_once(s: OrderStatus, e: OrderEvent, f: OrderEvent)
    ensures
        s != OrderStatus::Pending ==> next_status_of(s, e) is None,
        next_status_of(s, e) matches Some(n) ==> next_status_of(n, f) is None,
{
}

/// State of a held position against its risk plan.
#[derive(Debug, Clone, Copy, PartialEq, Eq, Structural)]
pub enum RiskStatus {
    /// No price, stop or target known.
    Unplanned,
    /// At or below the stop price.
    StopTriggered,
    /// At or above the take-profit price.
    TargetReached,
    /// Within 2% above the stop price.
    NearStop,
    /// Between stop and target.
    Normal,
}

/// Wire name of a risk state.
pub open spec fn risk_status_name_of(s: RiskStatus) -> Seq<char> {
    match s {
        RiskStatus::Unplanned => "unplanned"@,
        RiskStatus::StopTriggered => "stop_triggered"@,
        RiskStatus::TargetReached => "target_reached"@,
        RiskStatus::NearStop => "near_stop"@,
        RiskStatus::Normal => "normal"@,
    }
}

/// Wire name of a risk state.
pub fn risk_status_name(s: RiskStatus) -> (r: &'static str)
    ensures
        r@ == risk_status_name_of(s),
{
    match s {
        RiskStatus::Unplanned => "unplanned",
        RiskStatus::StopTriggered => "stop_triggered",
        RiskStatus::TargetReached => "target_reached",
        RiskStatus::NearStop => "near_stop",
        RiskStatus::Normal => "normal",
    }
}

/// Totals of a risk overview.
#[derive(Debug, Clone, Copy, PartialEq, Eq)]
pub struct RiskCounts {
    /// Positions checked.
    pub total: usize,
    /// Positions whose stop or target was reached.
    pub triggered: usize,
    /// Positions near their stop.
    pub near_stop: usize,
    /// Positions without a complete plan or price.
    pub unplanned: usize,
}

/// Number of occurrences of the state `x` in `ss`.
pub open spec fn count_status(ss: Seq<RiskStatus>, x: RiskStatus) -> nat
    decreases ss.len(),
{
    if ss.len() == 0 {
        0
    } else {
        count_status(ss.drop_last(), x) + if ss.last() == x {
            1nat
        } else {
            0nat
        }
    }
}

/// The counts of distinct states add up to at most the number of states:
/// no position is counted twice in a risk overview.
pub proof fn law_counts_disjoint(ss: Seq<RiskStatus>)
    ensures
        count_status(ss, RiskStatus::StopTriggered) + count_status(ss, RiskStatus::TargetReached)
            + count_status(ss, RiskStatus::NearStop) + count_status(ss, RiskStatus::Unplanned)
            <= ss.len(),
    decreases ss.len(),
{
    if ss.len() > 0 {
        law_counts_disjoint(ss.drop_last());
    }
}

/// Tallies the states of the positions of a risk overview: reached stop or
/// target, near the stop, and without a plan.
pub fn risk_counts(statuses: &[RiskStatus]) -> (c: RiskCounts)
    ensures
        c.total == statuses@.len(),
        c.triggered == count_status(statuses@, RiskStatus::StopTriggered) + count_status(
            statuses@,
            RiskStatus::TargetReached,
        ),
        c.near_stop == count_status(statuses@, RiskStatus::NearStop),
        c.unplanned == count_status(statuses@, RiskStatus::Unplanned),
{
    let mut c = RiskCounts { total: statuses.len(), triggered: 0, near_stop: 0, unplanned: 0 };
    let mut i: usize = 0;
    while i < statuses.len()
        invariant
            i <= statuses@.len(),
            c.total == statuses@.len(),
            c.triggered == count_status(statuses@.take(i as int), RiskStatus::StopTriggered)
                + count_status(statuses@.take(i as int), RiskStatus::TargetReached),
            c.near_stop == count_status(statuses@.take(i as int), RiskStatus::NearStop),
            c.unplanned == count_status(statuses@.take(i as int), RiskStatus::Unplanned),
        decreases statuses@.len() - i,
    {
        proof {
            assert(statuses@.take(i + 1).drop_last() =~= statuses@.take(i as int));
            assert(statuses@.take(i + 1).last() == statuses@[i as int]);
            law_counts_disjoint(statuses@.take(i as int));
        }
        let st = statuses[i];
        if st == RiskStatus::StopTriggered || st == RiskStatus::TargetReached {
            c.triggered = c.triggered + 1;
        } else if st == RiskStatus::NearStop {
            c.near_stop = c.near_stop + 1;
        } else if st == RiskStatus::Unplanned {
            c.unplanned = c.unplanned + 1;
        }
        i = i + 1;
    }
    assert(statuses@.take(statuses@.len() as int) =~= statuses@);
    c
}

// ───────────── the Beijing trading day ─────────────

/// The UTC instant (milliseconds since the epoch) at which the Beijing
/// calendar day holding `utc_ms` begins: shares bought before it became
/// sellable at it (T+1 by Beijing day).
pub open spec fn beijing_day_start_of(utc_ms: int) -> int {
    ((utc_ms + 28_800_000) / 86_400_000) * 86_400_000 - 28_800_000
}

/// Start, in UTC milliseconds, of the Beijing day holding `utc_ms`; see
/// [`beijing_day_start_of`].
pub fn beijing_day_start(utc_ms: u64) -> (r: i64)
    requires
        utc_ms + 28_800_000 <= i64::MAX,
    ensures
        r == beijing_day_start_of(utc_ms as int),
        r <= utc_ms < r + 86_400_000,
{
    let shifted: u64 = utc_ms + 28_800_000;
    let day: u64 = shifted / 86_400_000;
    assert(day * 86_400_000 <= shifted < day * 86_400_000 + 86_400_000) by (nonlinear_arith)
        requires
            day == shifted / 86_400_000,
    ;
    let start: u64 = day * 86_400_000;
    (start as i64) - 28_800_000
}

/// chrono's RFC 3339 text (`to_rfc3339`) of the UTC instant `utc_ms`
/// milliseconds after the epoch; `None` where chrono has no such instant.
pub uninterp spec fn rfc3339_of_ms(utc_ms: i64) -> Option<Seq<char>>;

/// chrono's `%Y-%m-%d` date of the UTC instant `utc_ms` milliseconds after
/// the epoch; `None` where chrono has no such instant.
pub uninterp spec fn ymd_of_ms(utc_ms: i64) -> Option<Seq<char>>;

/// `DateTime::<Utc>::from_timestamp_millis`, printed with `to_rfc3339`;
/// named [`rfc3339_of_ms`].
#[verifier::external_body]
fn rfc3339_at(utc_ms: i64) -> (r: Option<String>)
    ensures
        crate::perf::opt_view(r) == rfc3339_of_ms(utc_ms),
{
    chrono::DateTime::<chrono::Utc>::from_timestamp_millis(utc_ms).map(|t| t.to_rfc3339())
}

/// `DateTime::<Utc>::from_timestamp_millis`, printed with
/// `format("%Y-%m-%d")`; named [`ymd_of_ms`].
#[verifier::external_body]
fn ymd_at(utc_ms: i64) -> (r: Option<String>)
    ensures
        crate::perf::opt_view(r) == ymd_of_ms(utc_ms),
{
    chrono::DateTime::<chrono::Utc>::from_timestamp_millis(utc_ms).map(
        |t| t.format("%Y-%m-%d").to_string(),
    )
}

/// The RFC 3339 UTC time at which the Beijing day holding `utc_ms` began:
/// the cut-off of the T+1 rule.
pub fn trading_day_start(utc_ms: u64) -> (r: Option<String>)
    requires
        utc_ms + 28_800_000 <= i64::MAX,
    ensures
        crate::perf::opt_view(r) == rfc3339_of_ms(beijing_day_start_of(utc_ms as int) as i64),
{
    rfc3339_at(beijing_day_start(utc_ms))
}

/// The Beijing calendar date (`%Y-%m-%d`) of the UTC instant `utc_ms`: the
/// UTC date eight hours later.
pub fn beijing_date(utc_ms: u64) -> (r: Option<String>)
    requires
        utc_ms + 28_800_000 <= i64::MAX,
    ensures
        crate::perf::opt_view(r) == ymd_of_ms((utc_ms + 28_800_000) as i64),
{
    ymd_at((utc_ms + 28_800_000) as i64)
}

} // verus!
