use stock_analysis::ai_portfolio::{
    apply_veto, company_key_of, current_cycle, next_review_date, plan_rebalance, select_candidates,
    Candidate, CandidateWithSentiment, MAX_HOLDINGS, MAX_PER_SECTOR,
};

fn c(ticker: &str, sector: &str, rank: u64) -> Candidate<u8> {
    Candidate { ticker: ticker.to_string(), sector: sector.to_string(), rank, scores: 0 }
}

fn tickers(v: &[Candidate<u8>]) -> Vec<&str> {
    v.iter().map(|c| c.ticker.as_str()).collect()
}

#[test]
fn company_keys() {
    assert_eq!(company_key_of("BRK-B"), "BRK");
    assert_eq!(company_key_of("BF.A"), "BF");
    assert_eq!(company_key_of("AAPL"), "AAPL");
    assert_eq!(company_key_of(""), "");
}

#[test]
fn selection_takes_each_sector_best_then_fills_by_rank() {
    let lists = vec![
        vec![c("AAPL", "technology", 90), c("MSFT", "technology", 80), c("NVDA", "technology", 85)],
        vec![],
        vec![c("JPM", "financials", 70), c("BAC", "financials", 95)],
    ];
    let picked = select_candidates(&lists);
    // Picked: AAPL and JPM (sector bests), then BAC, NVDA, MSFT; handed back best first.
    assert_eq!(tickers(&picked), vec!["BAC", "AAPL", "NVDA", "MSFT", "JPM"]);
}

#[test]
fn selection_skips_second_share_class_and_caps_sector() {
    let lists = vec![
        vec![
            c("BRK-A", "financials", 99),
            c("BRK-B", "financials", 98),
            c("A1", "financials", 97),
            c("A2", "financials", 96),
            c("A3", "financials", 95),
        ],
        vec![c("BRK-B", "insurance", 50)],
    ];
    let picked = select_candidates(&lists);
    // BRK-B is the same company as BRK-A; the financials sector stops at three.
    assert_eq!(tickers(&picked), vec!["BRK-A", "A1", "A2"]);
    assert!(picked.iter().filter(|p| p.sector == "financials").count() <= MAX_PER_SECTOR);
}

#[test]
fn selection_stops_at_max_holdings() {
    let lists: Vec<Vec<Candidate<u8>>> = (0..30)
        .map(|i| vec![c(&format!("T{i}"), &format!("s{i}"), i as u64)])
        .collect();
    let picked = select_candidates(&lists);
    // Step 1 keeps every sector's best; the cap applies to the fill step only.
    assert_eq!(picked.len(), 30);
    let lists = vec![(0..40).map(|i| c(&format!("T{i}"), &format!("s{i}"), i as u64)).collect::<Vec<_>>()];
    assert_eq!(select_candidates(&lists).len(), MAX_HOLDINGS);
}

fn rv(ticker: &str, sentiment: Option<&str>, below_veto: bool, below_replace: bool) -> CandidateWithSentiment<u8> {
    CandidateWithSentiment {
        candidate: c(ticker, "technology", 1),
        sentiment: sentiment.map(str::to_string),
        below_veto_threshold: below_veto,
        below_replacement_threshold: below_replace,
    }
}

#[test]
fn veto_drops_negative_low_scores_only() {
    let rs = vec![
        rv("A", Some("negative"), true, false),
        rv("B", Some("negative"), false, false),
        rv("C", Some("positive"), true, false),
        rv("D", None, true, true),
    ];
    let kept: Vec<String> = apply_veto(&rs).into_iter().map(|r| r.candidate.ticker).collect();
    assert_eq!(kept, vec!["B", "C", "D"]);
}

#[test]
fn rebalance_plan_sells_replaced_and_fills_slots() {
    let assessed = vec![
        rv("OLD1", Some("negative"), true, true),
        rv("NEW1", Some("neutral"), false, false),
        rv("OLD2", Some("positive"), false, true),
        rv("NEW2", None, false, false),
    ];
    let existing = vec!["OLD2".to_string(), "OLD1".to_string(), "KEEP".to_string(), "OLD2".to_string()];
    let plan = plan_rebalance(&assessed, &existing);
    assert_eq!(plan.to_remove, vec!["OLD1"]);
    assert_eq!(plan.held, vec!["KEEP", "OLD2"]);
    let picks: Vec<&str> = plan.new_picks.iter().map(|r| r.candidate.ticker.as_str()).collect();
    // OLD1 is sold; vetoed, it is not bought back either.
    assert_eq!(picks, vec!["NEW1", "NEW2"]);
}

#[test]
fn vetoed_holding_is_still_sold() {
    // Score 30 (below both thresholds) with negative news: vetoed as a pick,
    // and replaced as a holding.
    let assessed = vec![rv("XYZ", Some("negative"), true, true)];
    let existing = vec!["XYZ".to_string()];
    let plan = plan_rebalance(&assessed, &existing);
    assert_eq!(plan.to_remove, vec!["XYZ"]);
    assert!(plan.held.is_empty());
    assert!(plan.new_picks.is_empty());
}

#[test]
fn rebalance_plan_without_free_slots_buys_nothing() {
    let existing: Vec<String> = (0..20).map(|i| format!("H{i}")).collect();
    let assessed = vec![rv("NEW", None, false, false)];
    let plan = plan_rebalance(&assessed, &existing);
    assert!(plan.to_remove.is_empty());
    assert_eq!(plan.held.len(), 20);
    assert!(plan.new_picks.is_empty());
}

#[test]
fn rebalance_cycle_labels() {
    assert_eq!(current_cycle(2025, 0), "2025-Q1");
    assert_eq!(current_cycle(2025, 6), "2025-Q3");
    assert_eq!(current_cycle(2025, 11), "2025-Q4");
    assert_eq!(next_review_date(2025, 0), "2025-04-01");
    assert_eq!(next_review_date(2025, 7), "2025-10-01");
    assert_eq!(next_review_date(2025, 11), "2026-01-01");
}
