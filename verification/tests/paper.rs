use mj_server::paper::{
    beijing_date, beijing_day_start, trading_day_start,
    next_status, order_status_name, OrderEvent, OrderStatus,
    parse_side, price_limit_pct, risk_counts, risk_status_name, valid_share_count, RiskStatus,
    Side,
};

#[test]
fn sides_are_buy_or_sell() {
    assert_eq!(parse_side("buy"), Some(Side::Buy));
    assert_eq!(parse_side("sell"), Some(Side::Sell));
    assert_eq!(parse_side("BUY"), None);
    assert_eq!(parse_side(""), None);
}

#[test]
fn price_limit_bands_follow_the_board() {
    assert_eq!(price_limit_pct("sh688981"), 20);
    assert_eq!(price_limit_pct("sz300623"), 20);
    assert_eq!(price_limit_pct("bj899050"), 30);
    assert_eq!(price_limit_pct("sz000001"), 10);
    assert_eq!(price_limit_pct("sh600519"), 10);
    assert_eq!(price_limit_pct("sz30"), 10);
}

#[test]
fn buy_lots_and_sell_shares_are_whole_counts() {
    assert!(valid_share_count(true, 100));
    assert!(valid_share_count(true, 200));
    assert!(!valid_share_count(true, 101));
    assert!(!valid_share_count(true, 0));
    assert!(!valid_share_count(true, 50));
    assert!(valid_share_count(false, 1));
    assert!(!valid_share_count(false, 0));
}

#[test]
fn risk_overview_counts_each_state_once() {
    let statuses = [
        RiskStatus::StopTriggered,
        RiskStatus::NearStop,
        RiskStatus::TargetReached,
        RiskStatus::Normal,
        RiskStatus::Unplanned,
        RiskStatus::Unplanned,
    ];
    let c = risk_counts(&statuses);
    assert_eq!(c.total, 6);
    assert_eq!(c.triggered, 2);
    assert_eq!(c.near_stop, 1);
    assert_eq!(c.unplanned, 2);
    assert_eq!(risk_counts(&[]).total, 0);
}

#[test]
fn risk_states_have_their_wire_names() {
    assert_eq!(risk_status_name(RiskStatus::StopTriggered), "stop_triggered");
    assert_eq!(risk_status_name(RiskStatus::NearStop), "near_stop");
    assert_eq!(risk_status_name(RiskStatus::TargetReached), "target_reached");
    assert_eq!(risk_status_name(RiskStatus::Normal), "normal");
    assert_eq!(risk_status_name(RiskStatus::Unplanned), "unplanned");
}

#[test]
fn only_pending_orders_fill_or_cancel() {
    assert_eq!(next_status("pending", OrderEvent::Fill), Some(OrderStatus::Filled));
    assert_eq!(next_status("pending", OrderEvent::Cancel), Some(OrderStatus::Cancelled));
    assert_eq!(next_status("filled", OrderEvent::Cancel), None);
    assert_eq!(next_status("cancelled", OrderEvent::Fill), None);
    assert_eq!(next_status("rejected", OrderEvent::Fill), None);
    assert_eq!(next_status("Pending", OrderEvent::Fill), None);
    assert_eq!(order_status_name(OrderStatus::Pending), "pending");
    assert_eq!(order_status_name(OrderStatus::Filled), "filled");
    assert_eq!(order_status_name(OrderStatus::Cancelled), "cancelled");
    assert_eq!(order_status_name(OrderStatus::Rejected), "rejected");
}

#[test]
fn t_plus_one_switches_at_beijing_midnight() {
    // 2026-09-18 09:00 in Beijing.
    assert_eq!(beijing_day_start(1_789_693_200_000), 1_789_660_800_000);
    assert_eq!(
        trading_day_start(1_789_693_200_000).as_deref(),
        Some("2026-09-17T16:00:00+00:00")
    );
    // 2026-09-18 01:00 in Beijing: same day.
    assert_eq!(beijing_day_start(1_789_664_400_000), 1_789_660_800_000);
    // One millisecond before Beijing midnight: the previous day.
    assert_eq!(
        trading_day_start(1_789_660_799_999).as_deref(),
        Some("2026-09-16T16:00:00+00:00")
    );
    assert_eq!(beijing_day_start(1_789_660_800_000), 1_789_660_800_000);
    assert_eq!(beijing_day_start(0), -28_800_000);
    assert_eq!(beijing_date(1_789_660_800_000).as_deref(), Some("2026-09-18"));
    assert_eq!(beijing_date(1_789_660_799_999).as_deref(), Some("2026-09-17"));
}
