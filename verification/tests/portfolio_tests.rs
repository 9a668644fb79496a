use chrono::{Datelike, NaiveDate};
use stock_analysis::import::{
    find_column, parse_csv_bytes, price_source, require_data_rows, sheet_rows, split_rows, Amount,
    ImportRow, PriceSource, RowParse, SheetCell,
};
use stock_analysis::error::AppError;
use stock_analysis::portfolio::{
    community_entries, import_summary, is_spreadsheet_upload, owner_label, require_owner, require_past_day,
    unique_tickers, RowOutcome,
};

fn day(y: i32, m: u32, d: u32) -> i32 {
    NaiveDate::from_ymd_opt(y, m, d).unwrap().num_days_from_ce()
}

#[test]
fn owner_labels() {
    assert_eq!(owner_label("jane@example.com", None), "jane");
    assert_eq!(owner_label("jane@example.com", Some("Jane D".to_string())), "Jane D");
    assert_eq!(owner_label("no-at-sign", None), "no-at-sign");
}

#[test]
fn spreadsheet_detection() {
    assert!(is_spreadsheet_upload(
        Some("application/vnd.openxmlformats-officedocument.spreadsheetml.sheet"),
        None
    ));
    assert!(is_spreadsheet_upload(Some("application/vnd.ms-excel"), Some("h.csv")));
    assert!(is_spreadsheet_upload(Some("application/octet-stream"), Some("holdings.xlsx")));
    assert!(is_spreadsheet_upload(None, Some("old.xls")));
    assert!(!is_spreadsheet_upload(Some("text/csv"), Some("holdings.csv")));
    assert!(!is_spreadsheet_upload(None, None));
}

#[test]
fn import_summary_counts_and_sorts() {
    let valid = vec![(4usize, "MSFT".to_string()), (2, "AAPL".to_string()), (5, "XYZ".to_string())];
    let outcomes = vec![
        RowOutcome::Stored(310.5f64),
        RowOutcome::PriceFailed("Could not fetch price for AAPL".to_string()),
        RowOutcome::StoreFailed("duplicate key".to_string()),
    ];
    let errors = vec![(3usize, String::new(), "Empty ticker".to_string())];
    let r = import_summary(&valid, &outcomes, &errors);
    assert_eq!(r.imported, 1);
    assert_eq!(r.failed, 3);
    let rows: Vec<usize> = r.rows.iter().map(|x| x.row).collect();
    assert_eq!(rows, vec![2, 3, 4, 5]);
    assert!(!r.rows[0].ok);
    assert_eq!(r.rows[0].error.as_deref(), Some("Could not fetch price for AAPL"));
    assert_eq!(r.rows[1].error.as_deref(), Some("Empty ticker"));
    assert!(r.rows[2].ok);
    assert_eq!(r.rows[2].price_used, Some(310.5));
    assert_eq!(r.rows[3].error.as_deref(), Some("DB error: duplicate key"));
}

#[test]
fn unique_tickers_keep_first_seen_order() {
    let t: Vec<String> = ["B", "A", "B", "C", "A"].iter().map(|s| s.to_string()).collect();
    assert_eq!(unique_tickers(&t), vec!["B", "A", "C"]);
}

#[test]
fn community_view_groups_and_skips_idle_portfolios() {
    let ids = vec![1u128, 2, 3];
    let holdings = vec![(1u128, "AAPL".to_string(), 10u8), (3, "NOPRICE".to_string(), 1), (1, "MSFT".to_string(), 5)];
    let realized = vec![(3u128, "TSLA".to_string(), 7u8)];
    let prices = vec![("AAPL".to_string(), 200u32), ("MSFT".to_string(), 400)];
    let entries = community_entries(&ids, &holdings, &realized, &prices);
    assert_eq!(entries.len(), 2);
    assert_eq!(entries[0].index, 0);
    assert_eq!(entries[0].holdings, vec![("AAPL".to_string(), 10, 200), ("MSFT".to_string(), 5, 400)]);
    assert!(entries[0].realized.is_empty());
    assert_eq!(entries[1].index, 2);
    assert!(entries[1].holdings.is_empty());
    assert_eq!(entries[1].realized, vec![("TSLA".to_string(), 7)]);

    // Realized gains alone do not list a portfolio: it needs a holding.
    let ids = vec![4u128, 5];
    let holdings = vec![(5u128, "AAPL".to_string(), 1u8)];
    let realized = vec![(4u128, "TSLA".to_string(), 7u8), (5, "MSFT".to_string(), 2)];
    let entries = community_entries(&ids, &holdings, &realized, &prices);
    assert_eq!(entries.len(), 1);
    assert_eq!(entries[0].index, 1);
    assert_eq!(entries[0].holdings, vec![("AAPL".to_string(), 1, 200)]);
    assert_eq!(entries[0].realized, vec![("MSFT".to_string(), 2)]);
}

#[test]
fn column_lookup_ignores_ascii_case() {
    let headers = vec![Some("Date".to_string()), None, Some("TICKER".to_string())];
    assert_eq!(find_column(&headers, "ticker"), Some(2));
    assert_eq!(find_column(&headers, "date"), Some(0));
    assert_eq!(find_column(&headers, "price"), None);
}

#[test]
fn csv_upload_rows() {
    let today = day(2030, 1, 1);
    let csv = b"ticker,date,shares,price\n aapl ,2024-03-01,10,150.5\n,2024-01-01,1,1\nmsft,2099-01-01,1,1\ngoog,03/15/2023,,\n";
    let rows: Vec<RowParse<f64>> = parse_csv_bytes(csv, today).unwrap().unwrap();
    assert_eq!(rows.len(), 4);
    match &rows[0] {
        RowParse::Valid(r) => {
            assert_eq!(r.row_num, 2);
            assert_eq!(r.ticker, "AAPL");
            assert_eq!(r.date, Some(day(2024, 3, 1)));
            assert!(matches!(&r.shares, Some(Amount::Text(s)) if s == "10"));
            assert!(matches!(&r.price_override, Some(Amount::Text(s)) if s == "150.5"));
        }
        _ => panic!("row 2 should be valid"),
    }
    assert!(matches!(&rows[1], RowParse::Invalid(3, t, m) if t.is_empty() && m == "Empty ticker"));
    assert!(matches!(&rows[2], RowParse::Invalid(4, t, m) if t == "MSFT" && m == "Date must be in the past"));
    match &rows[3] {
        RowParse::Valid(r) => {
            assert_eq!(r.date, Some(day(2023, 3, 15)));
            assert!(r.shares.is_none());
            assert!(r.price_override.is_none());
        }
        _ => panic!("row 5 should be valid"),
    }
    let (valid, errors) = split_rows(rows);
    assert_eq!(valid.len(), 2);
    assert_eq!(errors.len(), 2);
    assert_eq!(errors[0].0, 3);
}

#[test]
fn csv_without_ticker_column_is_refused() {
    match parse_csv_bytes::<f64>(b"symbol,shares\nAAPL,1\n", 0).unwrap() {
        Err(AppError::BadRequest(m)) => assert_eq!(m, "CSV must have a 'ticker' column"),
        _ => panic!("expected 400"),
    }
}

#[test]
fn spreadsheet_rows() {
    let today = day(2030, 1, 1);
    let rows: Vec<Vec<SheetCell<f64>>> = vec![
        vec![SheetCell::Text("Ticker".into()), SheetCell::Text("Shares".into()), SheetCell::Text("Date".into())],
        vec![SheetCell::Text(" nvda ".into()), SheetCell::Number(3.0), SheetCell::DateTime(Some(day(2024, 5, 1)))],
        vec![SheetCell::Empty, SheetCell::Empty, SheetCell::Empty],
        vec![SheetCell::Number(1.0), SheetCell::Number(2.0), SheetCell::Empty],
        vec![SheetCell::Text("amd".into()), SheetCell::Text(" 4 ".into()), SheetCell::DateTimeIso("2023-02-03T00:00:00".into())],
    ];
    let out = sheet_rows(&rows, today).unwrap();
    assert_eq!(out.len(), 4);
    match &out[0] {
        RowParse::Valid(r) => {
            assert_eq!(r.row_num, 2);
            assert_eq!(r.ticker, "NVDA");
            assert!(matches!(r.shares, Some(Amount::Number(n)) if n == 3.0));
            assert_eq!(r.date, Some(day(2024, 5, 1)));
        }
        _ => panic!("row 2 should be valid"),
    }
    assert!(matches!(out[1], RowParse::Skipped));
    assert!(matches!(&out[2], RowParse::Invalid(4, _, m) if m == "Empty ticker"));
    match &out[3] {
        RowParse::Valid(r) => {
            assert_eq!(r.date, Some(day(2023, 2, 3)));
            assert!(matches!(&r.shares, Some(Amount::Text(s)) if s == "4"));
        }
        _ => panic!("row 5 should be valid"),
    }
    assert!(matches!(sheet_rows::<f64>(&vec![], today), Err(AppError::BadRequest(m)) if m == "Spreadsheet is empty"));
    let no_ticker = vec![vec![SheetCell::<f64>::Text("Symbol".into())]];
    assert!(matches!(sheet_rows(&no_ticker, today), Err(AppError::BadRequest(m)) if m == "Spreadsheet must have a 'ticker' column"));
}

#[test]
fn price_sources() {
    let mut row = ImportRow::<f64> { row_num: 2, ticker: "A".into(), date: Some(5), shares: None, price_override: None };
    assert!(matches!(price_source(&row), PriceSource::OnDay(5)));
    row.date = None;
    assert!(matches!(price_source(&row), PriceSource::Latest));
    row.price_override = Some(Amount::Number(9.5));
    assert!(matches!(price_source(&row), PriceSource::Given(Amount::Number(p)) if p == 9.5));
}

#[test]
fn uploads_need_rows() {
    assert!(matches!(require_data_rows(0, 0), Err(AppError::BadRequest(m)) if m == "File has no data rows"));
    assert!(require_data_rows(0, 1).is_ok());
    assert!(require_data_rows(2, 0).is_ok());
}

#[test]
fn ownership_and_past_dates() {
    assert!(require_owner(7, 7).is_ok());
    assert!(matches!(require_owner(7, 8), Err(AppError::Forbidden)));
    assert!(require_past_day(10, 11, "Date must be in the past").is_ok());
    assert!(matches!(require_past_day(11, 11, "Date must be in the past"), Err(AppError::BadRequest(m)) if m == "Date must be in the past"));
    assert!(matches!(require_past_day(12, 11, "date must be in the past"), Err(AppError::BadRequest(m)) if m == "date must be in the past"));
}
