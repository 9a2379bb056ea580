use portfolio_tracker::asset::Asset;
use portfolio_tracker::portfolio::Summary;
use portfolio_tracker::report::{
    asset_row, format_money, format_money_signed, format_percent, percent_change_hundredths,
    summary_row,
};

#[test]
fn money_zero() {
    assert_eq!(format_money(0), "$0.00");
}

#[test]
fn money_plain() {
    assert_eq!(format_money(12345), "$123.45");
}

#[test]
fn money_small() {
    assert_eq!(format_money(5), "$0.05");
    assert_eq!(format_money(99), "$0.99");
    assert_eq!(format_money(100), "$1.00");
}

#[test]
fn money_large() {
    assert_eq!(format_money(u32::MAX), "$42949672.95");
}

#[test]
fn money_signed_negative() {
    assert_eq!(format_money_signed(-100), "-$1.00");
    assert_eq!(format_money_signed(-5), "-$0.05");
    assert_eq!(format_money_signed(0), "$0.00");
    assert_eq!(format_money_signed(250050), "$2500.50");
}

#[test]
fn percent_up_fifty() {
    // 50.00 percent, in hundredths of a percent
    let v = percent_change_hundredths(100, 150).unwrap();
    assert_eq!(v, 5000);
    assert_eq!(v as f32 / 100.0, 50.0);
}

#[test]
fn percent_down_fifty() {
    let v = percent_change_hundredths(100, 50).unwrap();
    assert_eq!(v, -5000);
    assert_eq!(v as f32 / 100.0, -50.0);
}

#[test]
fn percent_zero_base_undefined() {
    assert_eq!(percent_change_hundredths(0, 150), None);
}

#[test]
fn percent_rounding() {
    // from 300 to 400: 33.333...% rounds to 33.33%
    assert_eq!(percent_change_hundredths(300, 400), Some(3333));
    // from 300 to 200: -33.333...% rounds to -33.33%
    assert_eq!(percent_change_hundredths(300, 200), Some(-3333));
    // from 3 to 4: 33.333...%
    assert_eq!(format_percent(percent_change_hundredths(3, 4).unwrap()), "33.33%");
}

#[test]
fn percent_formatting() {
    assert_eq!(format_percent(5000), "50.00%");
    assert_eq!(format_percent(-5000), "-50.00%");
    assert_eq!(format_percent(7), "0.07%");
    assert_eq!(format_percent(-7), "-0.07%");
}

#[test]
fn held_asset_row() {
    let a = Asset {
        ticker: "AAPL".to_string(),
        buy_price_cents: 10000,
        current_price_cents: 15000,
        sell_price_cents: None,
        quantity: 3,
    };
    let row = asset_row(&a);
    assert_eq!(
        row,
        vec!["AAPL", "$100.00", "$150.00", "50.00%", "N/A (currently held)", "3"]
    );
}

#[test]
fn sold_asset_row() {
    // the percent change of a sold asset is measured against its sell price
    let a = Asset {
        ticker: "MSFT".to_string(),
        buy_price_cents: 10000,
        current_price_cents: 99999,
        sell_price_cents: Some(5000),
        quantity: 2,
    };
    let row = asset_row(&a);
    assert_eq!(row, vec!["MSFT", "$100.00", "N/A (sold)", "-50.00%", "$50.00", "2"]);
}

#[test]
fn zero_buy_price_row_shows_na() {
    let a = Asset {
        ticker: "X".to_string(),
        buy_price_cents: 0,
        current_price_cents: 100,
        sell_price_cents: None,
        quantity: 1,
    };
    let row = asset_row(&a);
    assert_eq!(row[3], "N/A");
}

#[test]
fn summary_row_cells() {
    let s = Summary {
        net_buy_cents: 10000,
        market_value_cents: 15000,
        unrealized_gain_loss_cents: -5000,
    };
    assert_eq!(summary_row(&s), vec!["$100.00", "$150.00", "-$50.00"]);
}
