use stock_analysis::sectors::{
    exchange_currency, exchange_fmp_code, exchange_label, is_valid_exchange, slug_to_fmp_sector,
    tickers_for_sector,
};

#[test]
fn tickers_for_known_sector_and_alias() {
    let t = tickers_for_sector("technology").unwrap();
    assert_eq!(t.len(), 10);
    assert_eq!(t[0], "AAPL");
    assert_eq!(tickers_for_sector("Tech").unwrap()[0], "AAPL");
    assert_eq!(tickers_for_sector("Real Estate").unwrap()[0], "PLD");
    assert!(tickers_for_sector("made-up-sector").is_none());
}

#[test]
fn fmp_sector_names() {
    assert_eq!(slug_to_fmp_sector("financials"), Some("Financial Services"));
    assert_eq!(slug_to_fmp_sector("consumer staples"), Some("Consumer Defensive"));
    assert_eq!(slug_to_fmp_sector("nope"), None);
}

#[test]
fn exchanges() {
    assert!(is_valid_exchange("us"));
    assert!(is_valid_exchange("lse"));
    assert!(!is_valid_exchange("LSE"));
    assert_eq!(exchange_currency("lse"), "GBP");
    assert_eq!(exchange_currency("us"), "USD");
    assert_eq!(exchange_fmp_code("lse"), Some("LSE"));
    assert_eq!(exchange_fmp_code("us"), None);
    assert_eq!(exchange_label("lse"), "London Stock Exchange (LSE)");
    assert_eq!(exchange_label("anything"), "US (NYSE/NASDAQ)");
}
