use portfolio_tracker::asset::Asset;
use portfolio_tracker::commands::{
    apply_load, help_text, parse_command, parse_new_asset_input, parse_sell_price, Command,
    InputParseError, LoadError,
};
use portfolio_tracker::portfolio::Portfolio;

#[test]
fn known_commands_are_recognized() {
    assert_eq!(parse_command("assets"), Command::Assets);
    assert_eq!(parse_command("summary"), Command::Summary);
    assert_eq!(parse_command("new"), Command::New);
    assert_eq!(parse_command("help"), Command::Help);
    assert_eq!(parse_command("load"), Command::Load);
    assert_eq!(parse_command("dump"), Command::Dump);
    assert_eq!(parse_command("refresh"), Command::Refresh);
    assert_eq!(parse_command("exit"), Command::Exit);
}

#[test]
fn unknown_command_and_blank_line() {
    assert_eq!(parse_command("foo"), Command::Unknown);
    assert_eq!(parse_command("Assets"), Command::Unknown);
    assert_eq!(parse_command("assets "), Command::Unknown);
    assert_eq!(parse_command(""), Command::Blank);
}

#[test]
fn sell_price_held_means_unsold() {
    assert_eq!(parse_sell_price("held"), Ok(None));
}

#[test]
fn sell_price_number_is_taken() {
    assert_eq!(parse_sell_price("4000"), Ok(Some(4000)));
    assert_eq!(parse_sell_price("0"), Ok(Some(0)));
}

#[test]
fn sell_price_rejects_other_text() {
    assert_eq!(parse_sell_price("abc"), Err(InputParseError::InvalidSellPrice));
    assert_eq!(parse_sell_price(""), Err(InputParseError::InvalidSellPrice));
    assert_eq!(parse_sell_price("Held"), Err(InputParseError::InvalidSellPrice));
    assert_eq!(parse_sell_price("-5"), Err(InputParseError::InvalidSellPrice));
}

#[test]
fn new_asset_inputs_validated() {
    let inp = parse_new_asset_input("AAPL", "10000", "held", "3").unwrap();
    assert_eq!(inp.ticker, "AAPL");
    assert_eq!(inp.buy_price_cents, 10000);
    assert_eq!(inp.sell_price_cents, None);
    assert_eq!(inp.quantity, 3);
    let a: Asset = inp.into_asset(15000);
    assert_eq!(a.ticker, "AAPL");
    assert_eq!(a.current_price_cents, 15000);
    assert_eq!(a.sell_price_cents, None);
}

#[test]
fn new_asset_sold_input() {
    let inp = parse_new_asset_input("GE", "100", "4000", "1").unwrap();
    assert_eq!(inp.sell_price_cents, Some(4000));
}

#[test]
fn new_asset_bad_inputs_each_reported() {
    assert!(matches!(
        parse_new_asset_input("", "100", "held", "1"),
        Err(InputParseError::EmptyTicker)
    ));
    assert!(matches!(
        parse_new_asset_input("A", "ten", "held", "1"),
        Err(InputParseError::InvalidBuyPrice)
    ));
    assert!(matches!(
        parse_new_asset_input("A", "100", "abc", "1"),
        Err(InputParseError::InvalidSellPrice)
    ));
    assert!(matches!(
        parse_new_asset_input("A", "100", "held", "x"),
        Err(InputParseError::InvalidQuantity)
    ));
    assert!(matches!(
        parse_new_asset_input("A", "100", "held", "0"),
        Err(InputParseError::InvalidQuantity)
    ));
}

fn one_asset() -> Portfolio {
    Portfolio {
        assets: vec![Asset {
            ticker: "KEEP".to_string(),
            buy_price_cents: 1,
            current_price_cents: 2,
            sell_price_cents: None,
            quantity: 1,
        }],
    }
}

#[test]
fn load_unreadable_file_leaves_portfolio_unchanged() {
    let mut p = one_asset();
    let r = apply_load(&mut p, None);
    assert_eq!(r, Err(LoadError::Unreadable));
    assert_eq!(p.assets.len(), 1);
    assert_eq!(p.assets[0].ticker, "KEEP");
    assert_eq!(p.assets[0].buy_price_cents, 1);
}

#[test]
fn load_malformed_contents_leave_portfolio_unchanged() {
    let mut p = one_asset();
    let r = apply_load(&mut p, Some("not a portfolio"));
    assert_eq!(r, Err(LoadError::Malformed));
    assert_eq!(p.assets.len(), 1);
    assert_eq!(p.assets[0].ticker, "KEEP");
}

#[test]
fn load_replaces_portfolio_wholesale() {
    let mut p = one_asset();
    let doc = "{\"assets\":[{\"ticker\":\"NEW\",\"buy_price_cents\":5,\
               \"current_price_cents\":6,\"sell_price_cents\":null,\"quantity\":2}]}";
    assert_eq!(apply_load(&mut p, Some(doc)), Ok(()));
    assert_eq!(p.assets.len(), 1);
    assert_eq!(p.assets[0].ticker, "NEW");
    assert_eq!(p.assets[0].quantity, 2);
}

#[test]
fn help_lists_every_command() {
    let h = help_text();
    for cmd in ["assets", "summary", "new", "help", "load", "dump", "refresh", "exit"] {
        assert!(h.lines().any(|l| l.starts_with(cmd)));
    }
}
