use portfolio_tracker::asset::Asset;
use portfolio_tracker::codec::{dump_portfolio, parse_portfolio};
use portfolio_tracker::portfolio::Portfolio;

fn sample() -> Portfolio {
    Portfolio {
        assets: vec![
            Asset {
                ticker: "AAPL".to_string(),
                buy_price_cents: 10000,
                current_price_cents: 15000,
                sell_price_cents: None,
                quantity: 3,
            },
            Asset {
                ticker: "MSFT".to_string(),
                buy_price_cents: 2000,
                current_price_cents: 1,
                sell_price_cents: Some(2500),
                quantity: 1,
            },
        ],
    }
}

fn assets_equal(a: &Asset, b: &Asset) {
    assert_eq!(a.ticker, b.ticker);
    assert_eq!(a.buy_price_cents, b.buy_price_cents);
    assert_eq!(a.current_price_cents, b.current_price_cents);
    assert_eq!(a.sell_price_cents, b.sell_price_cents);
    assert_eq!(a.quantity, b.quantity);
}

#[test]
fn dump_exact_document() {
    let doc = dump_portfolio(&sample());
    assert_eq!(
        doc,
        "{\"assets\":[\
         {\"ticker\":\"AAPL\",\"buy_price_cents\":10000,\
         \"current_price_cents\":15000,\"sell_price_cents\":null,\"quantity\":3},\
         {\"ticker\":\"MSFT\",\"buy_price_cents\":2000,\
         \"current_price_cents\":1,\"sell_price_cents\":2500,\"quantity\":1}\
         ]}"
    );
}

#[test]
fn dump_empty_document() {
    let doc = dump_portfolio(&Portfolio::new());
    assert_eq!(doc, "{\"assets\":[]}");
}

#[test]
fn round_trip_returns_same_portfolio() {
    let p = sample();
    let doc = dump_portfolio(&p);
    let q = parse_portfolio(&doc).unwrap();
    assert_eq!(q.assets.len(), p.assets.len());
    for (a, b) in p.assets.iter().zip(q.assets.iter()) {
        assets_equal(a, b);
    }
}

#[test]
fn round_trip_empty() {
    let doc = dump_portfolio(&Portfolio::new());
    let q = parse_portfolio(&doc).unwrap();
    assert_eq!(q.assets.len(), 0);
}

#[test]
fn round_trip_escaped_ticker() {
    let p = Portfolio {
        assets: vec![Asset {
            ticker: "A\"B\\C".to_string(),
            buy_price_cents: 1,
            current_price_cents: 2,
            sell_price_cents: None,
            quantity: 1,
        }],
    };
    let doc = dump_portfolio(&p);
    let q = parse_portfolio(&doc).unwrap();
    assert_eq!(q.assets[0].ticker, "A\"B\\C");
}

#[test]
fn parse_tolerates_whitespace() {
    let doc = " { \"assets\" : [ { \"ticker\" : \"A\" , \"buy_price_cents\" : 5 ,\n\
                \"current_price_cents\" : 6 , \"sell_price_cents\" : null , \"quantity\" : 2 } ] } ";
    let q = parse_portfolio(doc).unwrap();
    assert_eq!(q.assets[0].ticker, "A");
    assert_eq!(q.assets[0].buy_price_cents, 5);
    assert_eq!(q.assets[0].current_price_cents, 6);
    assert_eq!(q.assets[0].sell_price_cents, None);
    assert_eq!(q.assets[0].quantity, 2);
}

#[test]
fn parse_defaults_for_older_documents() {
    // a document written before the quantity field existed loads with
    // quantity one; one without a sell price field loads as held
    let doc = "{\"assets\":[{\"ticker\":\"A\",\"buy_price_cents\":5,\
               \"current_price_cents\":6,\"sell_price_cents\":7}]}";
    let q = parse_portfolio(doc).unwrap();
    assert_eq!(q.assets[0].sell_price_cents, Some(7));
    assert_eq!(q.assets[0].quantity, 1);

    let doc2 = "{\"assets\":[{\"ticker\":\"A\",\"buy_price_cents\":5,\
                \"current_price_cents\":6}]}";
    let q2 = parse_portfolio(doc2).unwrap();
    assert_eq!(q2.assets[0].sell_price_cents, None);
    assert_eq!(q2.assets[0].quantity, 1);
}

#[test]
fn parse_rejects_malformed_documents() {
    // not an object at all
    assert!(parse_portfolio("").is_none());
    assert!(parse_portfolio("hello").is_none());
    // missing required fields
    assert!(parse_portfolio("{\"assets\":[{\"ticker\":\"A\"}]}").is_none());
    // wrong type for a price
    assert!(parse_portfolio(
        "{\"assets\":[{\"ticker\":\"A\",\"buy_price_cents\":\"x\",\
         \"current_price_cents\":6}]}"
    )
    .is_none());
    // trailing garbage after the document
    assert!(parse_portfolio("{\"assets\":[]} extra").is_none());
    // unterminated asset list
    assert!(parse_portfolio("{\"assets\":[").is_none());
}

#[test]
fn parse_rejects_invalid_assets() {
    // an empty ticker
    assert!(parse_portfolio(
        "{\"assets\":[{\"ticker\":\"\",\"buy_price_cents\":5,\
         \"current_price_cents\":6}]}"
    )
    .is_none());
    // a zero quantity
    assert!(parse_portfolio(
        "{\"assets\":[{\"ticker\":\"A\",\"buy_price_cents\":5,\
         \"current_price_cents\":6,\"sell_price_cents\":null,\"quantity\":0}]}"
    )
    .is_none());
    // a price beyond the field's range
    assert!(parse_portfolio(
        "{\"assets\":[{\"ticker\":\"A\",\"buy_price_cents\":4294967296,\
         \"current_price_cents\":6}]}"
    )
    .is_none());
    // an escape the format does not define
    assert!(parse_portfolio(
        "{\"assets\":[{\"ticker\":\"A\\n\",\"buy_price_cents\":5,\
         \"current_price_cents\":6}]}"
    )
    .is_none());
}

#[test]
fn dump_is_valid_json_for_serde() {
    let doc = dump_portfolio(&sample());
    let v: serde_json::Value = serde_json::from_str(&doc).unwrap();
    let assets = v.get("assets").unwrap().as_array().unwrap();
    assert_eq!(assets.len(), 2);
    assert_eq!(assets[0].get("ticker").unwrap().as_str().unwrap(), "AAPL");
    assert_eq!(assets[0].get("buy_price_cents").unwrap().as_u64().unwrap(), 10000);
    assert_eq!(assets[0].get("current_price_cents").unwrap().as_u64().unwrap(), 15000);
    assert!(assets[0].get("sell_price_cents").unwrap().is_null());
    assert_eq!(assets[0].get("quantity").unwrap().as_u64().unwrap(), 3);
    assert_eq!(assets[1].get("sell_price_cents").unwrap().as_u64().unwrap(), 2500);
}

#[test]
fn reparsed_document_dumps_identically() {
    // parsing a document and dumping the result reproduces the compact form
    let doc = dump_portfolio(&sample());
    let q = parse_portfolio(&doc).unwrap();
    assert_eq!(dump_portfolio(&q), doc);
}
