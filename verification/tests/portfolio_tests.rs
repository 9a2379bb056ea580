use portfolio_tracker::asset::Asset;
use portfolio_tracker::portfolio::Portfolio;

fn held(ticker: &str, buy: u32, current: u32, qty: u32) -> Asset {
    Asset {
        ticker: ticker.to_string(),
        buy_price_cents: buy,
        current_price_cents: current,
        sell_price_cents: None,
        quantity: qty,
    }
}

#[test]
fn empty_portfolio_summary() {
    let p = Portfolio::new();
    let s = p.summary().unwrap();
    assert_eq!(s.net_buy_cents, 0);
    assert_eq!(s.market_value_cents, 0);
    assert_eq!(s.unrealized_gain_loss_cents, 0);
}

#[test]
fn summary_sums_held_assets() {
    let mut p = Portfolio::new();
    p.push_asset(held("A", 100, 90, 2));
    p.push_asset(held("B", 50, 60, 1));
    let s = p.summary().unwrap();
    assert_eq!(s.net_buy_cents, 250);
    assert_eq!(s.market_value_cents, 240);
    assert_eq!(s.unrealized_gain_loss_cents, 10);
}

#[test]
fn summary_gain_is_negative_not_wrapped() {
    // a gain: market value above net buy price must show as a negative
    // difference, not wrap around
    let mut p = Portfolio::new();
    p.push_asset(held("A", 100, 300, 1));
    let s = p.summary().unwrap();
    assert_eq!(s.unrealized_gain_loss_cents, -200);
}

#[test]
fn summary_skips_sold_assets() {
    let mut p = Portfolio::new();
    p.push_asset(held("A", 100, 90, 2));
    p.push_asset(Asset {
        ticker: "B".to_string(),
        buy_price_cents: 1000,
        current_price_cents: 777777,
        sell_price_cents: Some(1), // sold: neither price counts
        quantity: 5,
    });
    let s = p.summary().unwrap();
    assert_eq!(s.net_buy_cents, 200);
    assert_eq!(s.market_value_cents, 180);
    assert_eq!(s.unrealized_gain_loss_cents, 20);
}

#[test]
fn marking_sold_excludes_from_summary() {
    // the same position, once marked sold, no longer contributes, whatever
    // its current price says
    let mut p = Portfolio::new();
    p.push_asset(held("A", 100, 90, 2));
    p.push_asset(held("B", 50, 60, 1));
    let before = p.summary().unwrap();
    assert_eq!(before.net_buy_cents, 250);
    p.assets[1].sell_price_cents = Some(55);
    p.assets[1].current_price_cents = 123456;
    let after = p.summary().unwrap();
    assert_eq!(after.net_buy_cents, 200);
    assert_eq!(after.market_value_cents, 180);
    assert_eq!(after.unrealized_gain_loss_cents, 20);
}

#[test]
fn summary_overflow_reported() {
    let mut p = Portfolio::new();
    // one maximal position is already beyond what the signed fields hold
    p.push_asset(held("BIG", u32::MAX, u32::MAX, u32::MAX));
    assert!(p.summary().is_err());
}

#[test]
fn refresh_updates_and_reports_failures() {
    // one of three lookups failing still updates the other two and reports
    // exactly that one failure
    let mut p = Portfolio::new();
    p.push_asset(held("A", 100, 1, 1));
    p.push_asset(held("B", 100, 2, 1));
    p.push_asset(held("C", 100, 3, 1));
    let prices = vec![Some(11u32), None, Some(33u32)];
    let failed = p.apply_refresh(&prices);
    assert_eq!(failed, vec!["B".to_string()]);
    assert_eq!(p.assets[0].current_price_cents, 11);
    assert_eq!(p.assets[1].current_price_cents, 2);
    assert_eq!(p.assets[2].current_price_cents, 33);
    assert_eq!(p.assets.len(), 3);
}

#[test]
fn refresh_all_failing_changes_nothing() {
    let mut p = Portfolio::new();
    p.push_asset(held("A", 100, 1, 1));
    p.push_asset(held("B", 100, 2, 1));
    let failed = p.apply_refresh(&vec![None, None]);
    assert_eq!(failed, vec!["A".to_string(), "B".to_string()]);
    assert_eq!(p.assets[0].current_price_cents, 1);
    assert_eq!(p.assets[1].current_price_cents, 2);
}

#[test]
fn push_keeps_insertion_order() {
    let mut p = Portfolio::new();
    p.push_asset(held("A", 1, 1, 1));
    p.push_asset(held("B", 2, 2, 2));
    assert_eq!(p.len(), 2);
    assert_eq!(p.assets[0].ticker, "A");
    assert_eq!(p.assets[1].ticker, "B");
}
