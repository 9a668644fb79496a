use stock_analysis::cik::{to_title_case, CikDirectory};
use stock_analysis::error::AppError;
use stock_analysis::fmp::{
    employees_from_text, keep_tradable, list_or_empty, merge_search_results, non_empty_list,
    FmpProfile, ScreenerCandidate, SearchResult,
};
use stock_analysis::models::{
    CompanyNewsResponse, CompanyProfileResponse, FeedbackFilter, HealthResponse, PiotroskiResponse,
    RssNewsItem, StockSearchResponse,
};

#[test]
fn title_case_words() {
    assert_eq!(to_title_case("APPLE INC."), "Apple Inc.");
    assert_eq!(to_title_case("  berkshire   hathaway inc "), "Berkshire Hathaway Inc");
    assert_eq!(to_title_case(""), "");
    assert_eq!(to_title_case("éCOLE"), "École");
}

fn directory() -> CikDirectory {
    CikDirectory::from_records(&vec![
        (320193, "aapl".to_string(), "APPLE INC".to_string()),
        (789019, "MSFT".to_string(), "MICROSOFT CORP".to_string()),
        (1, "AAPLX".to_string(), "APPLE FUND".to_string()),
        (2, "MS".to_string(), "MORGAN STANLEY".to_string()),
        (320194, "AAPL".to_string(), "APPLE INC NEW".to_string()),
    ])
}

#[test]
fn cik_directory_lookups() {
    let d = directory();
    assert_eq!(d.len(), 4);
    assert!(d.has_cik("aapl"));
    assert!(!d.has_cik("GOOG"));
    // A later record for the same ticker replaces the earlier one.
    assert_eq!(d.cik_of("AAPL").as_deref(), Some("0000320194"));
    assert_eq!(d.cik_of("msft").as_deref(), Some("0000789019"));
    assert_eq!(d.cik_of("nope"), None);
    assert_eq!(CikDirectory::new_empty().len(), 0);
    assert!(!CikDirectory::new_empty().has_cik("AAPL"));
}

#[test]
fn local_search_ranking() {
    let d = directory();
    let r = d.search_local(" ms ", 10);
    let symbols: Vec<&str> = r.iter().map(|x| x.symbol.as_str()).collect();
    assert_eq!(symbols, vec!["MS", "MSFT"]);
    let r = d.search_local("apple", 10);
    let symbols: Vec<&str> = r.iter().map(|x| x.symbol.as_str()).collect();
    assert_eq!(symbols, vec!["AAPL", "AAPLX"]);
    assert_eq!(r[0].name, "Apple Inc New");
    assert!(r[0].stock_exchange.is_none());
    let r = d.search_local("aapl", 1);
    assert_eq!(r.len(), 1);
    assert_eq!(r[0].symbol, "AAPL");
    assert!(d.search_local("   ", 10).is_empty());
}

fn sr(symbol: &str, name: &str) -> SearchResult {
    SearchResult { symbol: symbol.into(), name: name.into(), stock_exchange: None, exchange_short_name: None }
}

#[test]
fn search_merge() {
    let by_symbol = vec![sr("APP", "AppLovin"), sr("AAPL", "Apple")];
    let by_name = vec![sr("AAPL", "Apple Inc."), sr("APLE", "Apple Hospitality")];
    let m = merge_search_results(&by_symbol, &by_name, 10);
    let symbols: Vec<&str> = m.iter().map(|x| x.symbol.as_str()).collect();
    assert_eq!(symbols, vec!["APP", "AAPL", "APLE"]);
    assert_eq!(m[1].name, "Apple");
    assert_eq!(merge_search_results(&by_symbol, &by_name, 2).len(), 2);
}

#[test]
fn tradable_filter() {
    let mk = |s: &str, etf: bool, fund: bool, active: bool| ScreenerCandidate {
        symbol: s.to_string(),
        company_name: s.to_string(),
        market_cap: 1u64,
        sector: None,
        industry: None,
        exchange_short_name: None,
        price: None,
        is_etf: etf,
        is_fund: fund,
        is_actively_trading: active,
    };
    let cs = vec![mk("A", false, false, true), mk("E", true, false, true), mk("F", false, true, true), mk("X", false, false, false)];
    let kept: Vec<String> = keep_tradable(&cs).into_iter().map(|c| c.symbol).collect();
    assert_eq!(kept, vec!["A"]);
}

#[test]
fn employee_counts() {
    assert_eq!(employees_from_text("150,000"), Some(150000));
    assert_eq!(employees_from_text("42"), Some(42));
    assert_eq!(employees_from_text("n/a"), None);
    assert_eq!(employees_from_text(""), None);
    assert_eq!(employees_from_text("+7"), Some(7));
    assert_eq!(employees_from_text("-3"), Some(-3));
    assert_eq!(employees_from_text(" 5"), None);
    assert_eq!(employees_from_text("-"), None);
    assert_eq!(employees_from_text("9,223,372,036,854,775,807"), Some(i64::MAX));
    assert_eq!(employees_from_text("9223372036854775808"), None);
}

#[test]
fn supplementary_lists() {
    assert!(matches!(list_or_empty::<u8>(Err(AppError::NotFound)), Ok(v) if v.is_empty()));
    assert!(matches!(list_or_empty::<u8>(Err(AppError::Unauthorized)), Err(AppError::Unauthorized)));
    assert_eq!(list_or_empty(Ok(vec![1u8])).unwrap(), vec![1]);
    assert!(matches!(non_empty_list::<u8>(vec![]), Err(AppError::NotFound)));
    assert_eq!(non_empty_list(vec![3u8]).unwrap(), vec![3]);
}

#[test]
fn model_constructors() {
    let h = HealthResponse::healthy("1.2.3");
    assert_eq!(h.status, "ok");
    assert_eq!(h.version, "1.2.3");

    let p = PiotroskiResponse::from_signals("AAPL", [true, true, true, true, true, true, true, false, false]);
    assert_eq!(p.score, 7);
    assert!(p.interpretation.starts_with("Strong"));
    assert!(!p.f8_gross_margin_improving);
    let p = PiotroskiResponse::from_signals("X", [true, false, true, false, true, false, false, false, true]);
    assert_eq!(p.score, 4);
    assert!(p.interpretation.starts_with("Moderate"));
    let p = PiotroskiResponse::from_signals("X", [true, true, true, false, false, false, false, false, false]);
    assert_eq!(p.score, 3);
    assert!(p.interpretation.starts_with("Moderate"));
    let p = PiotroskiResponse::from_signals("X", [true, true, false, false, false, false, false, false, false]);
    assert_eq!(p.score, 2);
    assert!(p.interpretation.starts_with("Weak"));
    let p = PiotroskiResponse::from_signals("X", [false; 9]);
    assert_eq!(p.score, 0);
    assert!(p.interpretation.starts_with("Weak"));

    let s = StockSearchResponse::from_results(&vec![sr("AAPL", "Apple")]);
    assert_eq!(s.results.len(), 1);
    assert_eq!(s.results[0].symbol, "AAPL");

    let profile = FmpProfile {
        description: None,
        sector: Some("Technology".into()),
        industry: None,
        website: Some("https://apple.com".into()),
        full_time_employees: Some(5),
    };
    let c = CompanyProfileResponse::from_profile("AAPL", &profile);
    assert_eq!(c.description, "");
    assert_eq!(c.sector.as_deref(), Some("Technology"));
    assert_eq!(c.employees, Some(5));

    let items = vec![RssNewsItem { title: "t".into(), url: "u".into(), published: None, source: None, summary: Some("s".into()) }];
    let n = CompanyNewsResponse::from_items("AAPL", &items);
    assert_eq!(n.ticker, "AAPL");
    assert_eq!(n.items[0].summary.as_deref(), Some("s"));

    assert!(FeedbackFilter { unread_only: Some(true) }.unread_only());
    assert!(!FeedbackFilter { unread_only: None }.unread_only());
}
