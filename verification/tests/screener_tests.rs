use stock_analysis::discovery::{
    discovery_params, is_listed, market_cap_buckets, merge_bucket_candidates, missing_data_fields,
    SMALL_MID_CAP_CEILING, SMALL_MID_CAP_FLOOR,
};
use stock_analysis::error::AppError;
use stock_analysis::fundamentals::latest_pe;
use stock_analysis::fmp::ScreenerCandidate;
use stock_analysis::models::DiscoveryQuery;
use stock_analysis::screener::{
    cache_key, fmp_sector_for, resolve_exchange, sector_model, top_by_market_cap, us_candidates,
    SectorModel,
};
use stock_analysis::sp500::Sp500;
use stock_analysis::statements::{IncomeStatement, KeyMetrics, Ratio};

fn strings(v: &[&str]) -> Vec<String> {
    v.iter().map(|s| s.to_string()).collect()
}

#[test]
fn sector_models_by_slug() {
    assert!(matches!(sector_model("financials"), SectorModel::Financials));
    assert!(matches!(sector_model("real-estate"), SectorModel::RealEstate));
    assert!(matches!(sector_model("energy"), SectorModel::Energy));
    assert!(matches!(sector_model("utilities"), SectorModel::Dividend));
    assert!(matches!(sector_model("consumer-staples"), SectorModel::Dividend));
    assert!(matches!(sector_model("technology"), SectorModel::Standard));
    assert!(matches!(sector_model("finance"), SectorModel::Financials));
    assert!(matches!(sector_model("realestate"), SectorModel::RealEstate));
    assert!(matches!(sector_model("staples"), SectorModel::Dividend));
    assert!(matches!(sector_model("Real Estate"), SectorModel::RealEstate));
    assert!(matches!(sector_model("unknown"), SectorModel::Standard));
    assert!(matches!(sector_model("Financials"), SectorModel::Financials));
}

#[test]
fn sector_model_labels_and_weights() {
    let m = sector_model("financials");
    assert_eq!(m.name(), "Financials");
    assert_eq!(
        m.labels(),
        strings(&["Return on Equity", "Price-to-Book Value", "Momentum vs SPY", "Debt Safety"])
    );
    assert_eq!(m.weights(), strings(&["35%", "25%", "25%", "15%"]));
    let e = sector_model("energy");
    assert_eq!(e.name(), "Energy");
    assert_eq!(e.weights(), strings(&["25%", "30%", "30%", "15%"]));
    assert_eq!(sector_model("real-estate").name(), "Real Estate");
}

#[test]
fn exchange_parameter_resolution() {
    assert_eq!(resolve_exchange(None).unwrap(), "us");
    assert_eq!(resolve_exchange(Some("LSE")).unwrap(), "lse");
    match resolve_exchange(Some("NYSE")) {
        Err(AppError::Unprocessable(m)) => assert_eq!(m, "Unknown exchange 'nyse'. Supported: us, lse"),
        _ => panic!("expected 422"),
    }
}

#[test]
fn us_candidates_fall_back_to_curated_lists() {
    let store = Sp500::empty();
    let t = us_candidates(&store, "technology").unwrap();
    assert_eq!(t.len(), 10);
    assert_eq!(t[0], "AAPL");
    match us_candidates(&store, "widgets") {
        Err(AppError::Unprocessable(m)) => assert!(m.starts_with("Unknown sector 'widgets'. Supported: ")),
        _ => panic!("expected 422"),
    }
}

#[test]
fn us_candidates_prefer_loaded_store() {
    let mut store = Sp500::empty();
    store.insert_ranked("technology", vec![("MSFT".to_string(), 3), ("NVDA".to_string(), 9)]);
    assert!(store.is_loaded());
    assert_eq!(us_candidates(&store, "technology").unwrap(), strings(&["NVDA", "MSFT"]));
    // A slug the store lacks still falls back to the curated list.
    assert_eq!(us_candidates(&store, "energy").unwrap()[0], "XOM");
}

#[test]
fn fmp_sector_for_known_and_unknown() {
    assert_eq!(fmp_sector_for("technology").unwrap(), "Technology");
    assert!(matches!(fmp_sector_for("nope"), Err(AppError::Unprocessable(_))));
}

#[test]
fn cache_keys() {
    assert_eq!(cache_key("us", "technology"), "technology");
    assert_eq!(cache_key("lse", "technology"), "lse:technology");
    assert_ne!(cache_key("us", "energy"), cache_key("lse", "energy"));
}

#[test]
fn top_by_market_cap_orders_and_cuts() {
    let tickers = strings(&["A", "B", "C"]);
    let caps = vec![("A".to_string(), 10u64), ("B".to_string(), 30), ("C".to_string(), 20)];
    assert_eq!(top_by_market_cap(&tickers, &caps), strings(&["B", "C", "A"]));
    // No caps known: the first tickers, in order.
    assert_eq!(top_by_market_cap(&tickers, &[]), tickers);
    // Unknown caps count as zero and keep their order.
    let caps = vec![("C".to_string(), 5u64)];
    assert_eq!(top_by_market_cap(&tickers, &caps), strings(&["C", "A", "B"]));
    let many: Vec<String> = (0..30).map(|i| format!("T{i}")).collect();
    assert_eq!(top_by_market_cap(&many, &[]).len(), 20);
}

fn query(sector: Option<&str>, exchange: Option<&str>) -> DiscoveryQuery {
    DiscoveryQuery { sector: sector.map(str::to_string), exchange: exchange.map(str::to_string) }
}

#[test]
fn discovery_parameters() {
    let p = discovery_params(&query(Some("technology"), None)).unwrap();
    assert_eq!(p.sector, "technology");
    assert_eq!(p.fmp_sector, "Technology");
    assert_eq!(p.exchange, "us");
    assert_eq!(p.fmp_exchange, None);
    let p = discovery_params(&query(Some("energy"), Some("LSE"))).unwrap();
    assert_eq!(p.exchange, "lse");
    assert_eq!(p.fmp_exchange, Some("LSE"));
    match discovery_params(&query(None, None)) {
        Err(e @ AppError::BadRequest(_)) => {
            assert_eq!(e.status_code(), 400);
            assert_eq!(e.message(), "Invalid input: sector query parameter is required");
        }
        _ => panic!("expected 400"),
    }
    match discovery_params(&query(Some("widgets"), Some("nyse"))) {
        Err(e @ AppError::Unprocessable(_)) => {
            assert_eq!(e.status_code(), 422);
            assert!(e.message().starts_with("Unknown sector 'widgets'"));
        }
        _ => panic!("expected 422"),
    }
    assert!(matches!(discovery_params(&query(Some("energy"), Some("nyse"))), Err(AppError::Unprocessable(_))));
}

#[test]
fn buckets_tile_the_band() {
    let b = market_cap_buckets();
    assert_eq!(b.len(), 8);
    assert_eq!(b[0], (300_000_000, 887_500_000));
    assert_eq!(b[0].0, SMALL_MID_CAP_FLOOR);
    assert_eq!(b[7].1, SMALL_MID_CAP_CEILING);
    for i in 0..7 {
        assert_eq!(b[i].1, b[i + 1].0);
    }
}

fn cand(symbol: &str, cap: f64) -> ScreenerCandidate<f64> {
    ScreenerCandidate {
        symbol: symbol.to_string(),
        company_name: format!("{symbol} Inc"),
        market_cap: cap,
        sector: None,
        industry: None,
        exchange_short_name: None,
        price: Some(1.0),
        is_etf: false,
        is_fund: false,
        is_actively_trading: true,
    }
}

#[test]
fn bucket_merge_keeps_latest_per_symbol() {
    let buckets = vec![vec![cand("A", 1.0), cand("B", 2.0)], vec![], vec![cand("A", 3.0), cand("C", 4.0)]];
    let merged = merge_bucket_candidates(&buckets);
    let symbols: Vec<&str> = merged.iter().map(|c| c.symbol.as_str()).collect();
    assert_eq!(symbols, vec!["A", "B", "C"]);
    assert_eq!(merged[0].market_cap, 3.0);
    assert!(merge_bucket_candidates::<f64>(&vec![]).is_empty());
}

fn income(gross: Option<f64>) -> IncomeStatement<f64> {
    IncomeStatement {
        date: "2024-12-31".to_string(),
        revenue: Some(1.0),
        gross_profit: gross,
        net_income: Some(1.0),
        eps: Some(1.0),
        weighted_average_shs_out: None,
    }
}

fn ratio(de: Option<f64>) -> Ratio<f64> {
    Ratio {
        date: "2024-12-31".to_string(),
        book_value_per_share: None,
        free_cash_flow_per_share: None,
        price_to_earnings_ratio: None,
        dividend_yield_percentage: None,
        dividend_payout_ratio: None,
        dividend_per_share: None,
        debt_to_equity_ratio: de,
    }
}

fn metrics(roe: Option<f64>) -> KeyMetrics<f64> {
    KeyMetrics { date: "2024-12-31".to_string(), return_on_invested_capital: None, return_on_equity: roe }
}

#[test]
fn missing_quality_fields() {
    assert!(missing_data_fields(&[income(Some(1.0))], &[ratio(Some(0.5))], &[metrics(Some(0.1))]).is_empty());
    assert_eq!(
        missing_data_fields::<f64>(&[], &[], &[]),
        strings(&["debt_to_equity", "gross_margin", "return_on_equity"])
    );
    assert_eq!(
        missing_data_fields(&[income(None)], &[ratio(Some(0.5))], &[metrics(Some(0.1))]),
        strings(&["gross_margin"])
    );
}

#[test]
fn listing_rule() {
    let none: Vec<String> = vec![];
    let some = strings(&["gross_margin"]);
    assert!(is_listed(true, true, &none));
    assert!(!is_listed(true, false, &none));
    assert!(is_listed(true, false, &some));
    assert!(!is_listed(false, true, &some));
}

#[test]
fn latest_pe_is_the_newest_row() {
    let with_pe = |pe: Option<f64>| {
        let mut r = ratio(None);
        r.price_to_earnings_ratio = pe;
        r
    };
    assert_eq!(latest_pe(&vec![with_pe(Some(21.5)), with_pe(Some(18.0))]), Some(21.5));
    assert_eq!(latest_pe(&vec![with_pe(None), with_pe(Some(18.0))]), None);
    assert_eq!(latest_pe::<f64>(&vec![]), None);
}
