use stock_analysis::error::AppError;
use stock_analysis::fundamentals::{align_fundamentals, fiscal_year, leading};
use stock_analysis::statements::{
    backfill_from_fmp, balance_sheet_has_gap, balance_sheets_from_rows, cash_flow_has_gap,
    income_statement_has_gap, income_statements_from_rows, key_metrics_has_gap, needs_backfill,
    ratio_has_gap, BalanceSheet, CashFlowStatement, IncomeStatement, KeyMetrics, Ratio,
};
use stock_analysis::xbrl::{
    collect_annual_entries, extract_annual_units, extract_annual_usd, parse_company_facts, GaapConcept,
    XbrlEntry,
};

fn entry(form: &str, fp: &str, end: &str, filed: &str, val: i64) -> XbrlEntry<i64> {
    XbrlEntry {
        form: Some(form.into()),
        fp: Some(fp.into()),
        end: Some(end.into()),
        filed: Some(filed.into()),
        val: Some(val),
    }
}

#[test]
fn annual_entries_latest_filing_wins_newest_first() {
    let entries = vec![
        entry("10-K", "FY", "2022-12-31", "2023-02-01", 100),
        entry("10-Q", "Q3", "2023-09-30", "2023-11-01", 7),
        entry("10-K", "FY", "2023-12-31", "2024-02-01", 200),
        entry("10-K/A", "FY", "2022-12-31", "2023-06-01", 110),
        entry("10-K", "FY", "2021-12-31", "2022-02-01", 90),
        XbrlEntry { form: Some("10-K".into()), fp: Some("FY".into()), end: None, filed: None, val: Some(5) },
    ];
    let r = collect_annual_entries(&entries);
    assert_eq!(
        r,
        vec![("2023-12-31".to_string(), 200), ("2022-12-31".to_string(), 110), ("2021-12-31".to_string(), 90)]
    );
    assert!(collect_annual_entries::<i64>(&[]).is_empty());
}

fn concept(name: &str, unit: &str, entries: Vec<XbrlEntry<i64>>) -> GaapConcept<i64> {
    GaapConcept { name: name.into(), units: vec![(unit.into(), Some(entries))] }
}

#[test]
fn first_concept_with_annual_data() {
    let gaap = vec![
        concept("Revenues", "USD", vec![entry("10-Q", "Q1", "2023-03-31", "2023-05-01", 1)]),
        concept("SalesRevenueNet", "USD", vec![entry("10-K", "FY", "2023-12-31", "2024-02-01", 500)]),
        concept("EarningsPerShareDiluted", "USD/shares", vec![entry("10-K", "FY", "2023-12-31", "2024-02-01", 3)]),
    ];
    let rev = extract_annual_usd(&gaap, &["Revenues", "SalesRevenueNet"]);
    assert_eq!(rev, vec![("2023-12-31".to_string(), 500)]);
    assert!(extract_annual_usd(&gaap, &["Missing"]).is_empty());
    let eps = extract_annual_units(&gaap, "USD/shares", &["EarningsPerShareDiluted"]);
    assert_eq!(eps, vec![("2023-12-31".to_string(), 3)]);
    assert!(extract_annual_units(&gaap, "USD", &["EarningsPerShareDiluted"]).is_empty());
}

#[test]
fn company_facts_align_on_the_longest_anchor() {
    let gaap = vec![
        concept(
            "Assets",
            "USD",
            vec![entry("10-K", "FY", "2023-12-31", "2024-02-01", 1000), entry("10-K", "FY", "2022-12-31", "2023-02-01", 900)],
        ),
        concept("NetIncomeLoss", "USD", vec![entry("10-K", "FY", "2023-12-31", "2024-02-01", 50)]),
        concept("EarningsPerShareDiluted", "USD/shares", vec![entry("10-K", "FY", "2022-12-31", "2023-02-01", 2)]),
    ];
    let rows = parse_company_facts(&gaap);
    assert_eq!(rows.len(), 2);
    assert_eq!(rows[0].end_date, "2023-12-31");
    assert_eq!(rows[0].total_assets, Some(1000));
    assert_eq!(rows[0].net_income, Some(50));
    assert_eq!(rows[0].eps_diluted, None);
    assert_eq!(rows[1].end_date, "2022-12-31");
    assert_eq!(rows[1].net_income, None);
    assert_eq!(rows[1].eps_diluted, Some(2));
    assert!(parse_company_facts::<i64>(&vec![]).is_empty());

    let inc = income_statements_from_rows(&rows, 1).unwrap();
    assert_eq!(inc.len(), 1);
    assert_eq!(inc[0].date, "2023-12-31");
    assert_eq!(inc[0].net_income, Some(50));
    let bs = balance_sheets_from_rows(&rows, 5).unwrap();
    assert_eq!(bs.len(), 2);
    assert_eq!(bs[1].total_assets, Some(900));
    assert!(matches!(income_statements_from_rows(&rows, 0), Err(AppError::NotFound)));
    assert!(matches!(balance_sheets_from_rows::<i64>(&vec![], 5), Err(AppError::NotFound)));
}

fn inc(date: &str, revenue: Option<i64>, gross: Option<i64>) -> IncomeStatement<i64> {
    IncomeStatement {
        date: date.into(),
        revenue,
        gross_profit: gross,
        net_income: Some(1),
        eps: Some(1),
        weighted_average_shs_out: Some(1),
    }
}

#[test]
fn backfill_fills_only_missing_fields() {
    let edgar = vec![inc("2023-12-31", Some(10), None), inc("2022-12-31", None, Some(3))];
    assert!(needs_backfill(&edgar));
    let fmp = vec![inc("2023-12-31", Some(99), Some(7)), inc("2021-12-31", Some(5), Some(5))];
    let out = backfill_from_fmp(edgar, &fmp);
    assert_eq!(out.len(), 2);
    assert_eq!(out[0].revenue, Some(10));
    assert_eq!(out[0].gross_profit, Some(7));
    // No secondary row of that date: the row is unchanged.
    assert_eq!(out[1].revenue, None);
    assert_eq!(out[1].gross_profit, Some(3));
    assert!(!needs_backfill(&vec![inc("2023-12-31", Some(1), Some(1))]));
}

#[test]
fn gap_detection() {
    assert!(income_statement_has_gap(&inc("d", None, Some(1))));
    assert!(!income_statement_has_gap(&inc("d", Some(1), Some(1))));
    let full_bs = BalanceSheet::<i64> {
        date: "d".into(),
        total_assets: Some(1),
        total_current_assets: Some(1),
        total_current_liabilities: Some(1),
        long_term_debt: Some(1),
        total_equity: Some(1),
        total_debt: Some(1),
    };
    assert!(!balance_sheet_has_gap(&full_bs));
    assert!(balance_sheet_has_gap(&BalanceSheet { total_equity: None, ..full_bs }));
    let cf = CashFlowStatement::<i64> { date: "d".into(), operating_cash_flow: None, free_cash_flow: Some(1), common_stock_issuance: None };
    assert!(cash_flow_has_gap(&cf));
    let km = KeyMetrics::<i64> { date: "d".into(), return_on_invested_capital: Some(1), return_on_equity: None };
    assert!(key_metrics_has_gap(&km));
    let r = Ratio::<i64> {
        date: "d".into(),
        book_value_per_share: Some(1),
        free_cash_flow_per_share: Some(1),
        price_to_earnings_ratio: Some(1),
        dividend_yield_percentage: Some(1),
        dividend_payout_ratio: Some(1),
        dividend_per_share: Some(1),
        debt_to_equity_ratio: Some(1),
    };
    assert!(!ratio_has_gap(&r));
}

#[test]
fn fiscal_years_and_prefixes() {
    assert_eq!(fiscal_year("2024-09-28"), "2024");
    assert_eq!(fiscal_year("99"), "99");
    assert_eq!(leading("2024-09-28", 4).as_deref(), Some("2024"));
    assert_eq!(leading("ab", 4), None);
    // A cut inside a multi-byte character is refused.
    assert_eq!(leading("é", 1), None);
    assert_eq!(leading("é", 2).as_deref(), Some("é"));
}

#[test]
fn fundamentals_align_oldest_first() {
    let income = vec![inc("2023-12-31", Some(20), Some(1)), inc("2022-12-31", Some(10), Some(1))];
    let ratios = vec![Ratio::<i64> {
        date: "2022-12-31".into(),
        book_value_per_share: Some(4),
        free_cash_flow_per_share: None,
        price_to_earnings_ratio: None,
        dividend_yield_percentage: None,
        dividend_payout_ratio: None,
        dividend_per_share: None,
        debt_to_equity_ratio: None,
    }];
    let km = vec![KeyMetrics::<i64> { date: "2023-12-31".into(), return_on_invested_capital: Some(15), return_on_equity: None }];
    let years = align_fundamentals(&income, &ratios, &km);
    assert_eq!(years.len(), 2);
    assert_eq!(years[0].fiscal_year, "2022");
    assert_eq!(years[0].revenue, Some(10));
    assert_eq!(years[0].book_value_per_share, Some(4));
    assert_eq!(years[0].roic, None);
    assert_eq!(years[1].fiscal_year, "2023");
    assert_eq!(years[1].roic, Some(15));
    assert_eq!(years[1].book_value_per_share, None);
}
