//! Sector slugs, their aliases, the fallback large-cap universes and the
//! supported exchanges.
//!
//! A sector name is normalised (Unicode lowercase, spaces turned into `-`)
//! and then looked up among the aliases of the eleven sectors.

use vstd::prelude::*;
use crate::text::{
    all_ascii, ascii_lower, ascii_lower_char, is_ascii_upper, lowercase, replace_char,
    replace_char_exec, str_eq, to_lowercase,
};

verus! {

/// The eleven sectors the screener knows.
#[derive(Clone, Copy, Debug, PartialEq, Eq, Structural)]
pub enum Sector {
    Technology,
    Healthcare,
    Financials,
    Energy,
    ConsumerStaples,
    ConsumerDiscretionary,
    Industrials,
    Materials,
    RealEstate,
    Communication,
    Utilities,
}

/// How a user-supplied sector name is normalised before lookup:
/// `to_lowercase()` then every `' '` replaced by `'-'`.
pub open spec fn normalize_slug(s: Seq<char>) -> Seq<char> {
    replace_char(lowercase(s), ' ', '-')
}

/// The sector that a normalised slug names, through the alias table.
pub open spec fn sector_of_slug(n: Seq<char>) -> Option<Sector> {
    if n == "technology"@ || n == "tech"@ {
        Some(Sector::Technology)
    } else if n == "healthcare"@ || n == "health"@ {
        Some(Sector::Healthcare)
    } else if n == "financials"@ || n == "finance"@ || n == "financial-services"@ {
        Some(Sector::Financials)
    } else if n == "energy"@ {
        Some(Sector::Energy)
    } else if n == "consumer-staples"@ || n == "staples"@ || n == "consumer-defensive"@ {
        Some(Sector::ConsumerStaples)
    } else if n == "consumer-discretionary"@ || n == "discretionary"@ || n
        == "consumer-cyclical"@ {
        Some(Sector::ConsumerDiscretionary)
    } else if n == "industrials"@ {
        Some(Sector::Industrials)
    } else if n == "materials"@ || n == "basic-materials"@ {
        Some(Sector::Materials)
    } else if n == "real-estate"@ || n == "realestate"@ {
        Some(Sector::RealEstate)
    } else if n == "communication"@ || n == "communication-services"@ || n == "telecom"@ {
        Some(Sector::Communication)
    } else if n == "utilities"@ {
        Some(Sector::Utilities)
    } else {
        None
    }
}

/// The sector a user-supplied name resolves to, if any.
pub open spec fn resolve_sector(name: Seq<char>) -> Option<Sector> {
    sector_of_slug(normalize_slug(name))
}

/// The curated fallback universe of each sector.
pub open spec fn sector_tickers(sec: Sector) -> Seq<&'static str> {
    match sec {
        Sector::Technology => seq![
            "AAPL", "MSFT", "NVDA", "GOOGL", "AVGO", "ORCL", "ADBE", "CRM", "AMD", "QCOM",
        ],
        Sector::Healthcare => seq![
            "JNJ", "UNH", "LLY", "ABT", "MRK", "TMO", "ABBV", "DHR", "BMY", "AMGN",
        ],
        Sector::Financials => seq![
            "JPM", "V", "MA", "BAC", "WFC", "GS", "MS", "AXP", "BLK", "SCHW",
        ],
        Sector::Energy => seq![
            "XOM", "CVX", "SLB", "COP", "EOG", "MPC", "VLO", "PSX", "OXY", "BKR",
        ],
        Sector::ConsumerStaples => seq![
            "PG", "KO", "PEP", "WMT", "COST", "PM", "MO", "MDLZ", "CL", "GIS",
        ],
        Sector::ConsumerDiscretionary => seq![
            "AMZN", "TSLA", "HD", "MCD", "NKE", "SBUX", "LOW", "TJX", "BKNG", "CMG",
        ],
        Sector::Industrials => seq![
            "RTX", "HON", "UPS", "CAT", "DE", "LMT", "GE", "BA", "MMM", "EMR",
        ],
        Sector::Materials => seq![
            "LIN", "APD", "ECL", "SHW", "FCX", "NEM", "DD", "PPG", "ALB", "CF",
        ],
        Sector::RealEstate => seq![
            "PLD", "AMT", "EQIX", "CCI", "PSA", "WELL", "DLR", "O", "SPG", "AVB",
        ],
        Sector::Communication => seq![
            "NFLX", "DIS", "CMCSA", "VZ", "T", "TMUS", "WBD", "EA", "OMC", "IPG",
        ],
        Sector::Utilities => seq![
            "NEE", "DUK", "SO", "D", "AEP", "EXC", "SRE", "XEL", "ED", "WEC",
        ],
    }
}

/// The sector's name in FMP's company-screener taxonomy.
pub open spec fn fmp_sector_name(sec: Sector) -> &'static str {
    match sec {
        Sector::Technology => "Technology",
        Sector::Healthcare => "Healthcare",
        Sector::Financials => "Financial Services",
        Sector::Energy => "Energy",
        Sector::ConsumerStaples => "Consumer Defensive",
        Sector::ConsumerDiscretionary => "Consumer Cyclical",
        Sector::Industrials => "Industrials",
        Sector::Materials => "Basic Materials",
        Sector::RealEstate => "Real Estate",
        Sector::Communication => "Communication Services",
        Sector::Utilities => "Utilities",
    }
}

/// The sector named by an already-normalised slug.
pub fn sector_from_normalized(n: &str) -> (r: Option<Sector>)
    ensures
        r == sector_of_slug(n@),
{
    if str_eq(n, "technology") || str_eq(n, "tech") {
        Some(Sector::Technology)
    } else if str_eq(n, "healthcare") || str_eq(n, "health") {
        Some(Sector::Healthcare)
    } else if str_eq(n, "financials") || str_eq(n, "finance") || str_eq(n, "financial-services") {
        Some(Sector::Financials)
    } else if str_eq(n, "energy") {
        Some(Sector::Energy)
    } else if str_eq(n, "consumer-staples") || str_eq(n, "staples") || str_eq(
        n,
        "consumer-defensive",
    ) {
        Some(Sector::ConsumerStaples)
    } else if str_eq(n, "consumer-discretionary") || str_eq(n, "discretionary") || str_eq(
        n,
        "consumer-cyclical",
    ) {
        Some(Sector::ConsumerDiscretionary)
    } else if str_eq(n, "industrials") {
        Some(Sector::Industrials)
    } else if str_eq(n, "materials") || str_eq(n, "basic-materials") {
        Some(Sector::Materials)
    } else if str_eq(n, "real-estate") || str_eq(n, "realestate") {
        Some(Sector::RealEstate)
    } else if str_eq(n, "communication") || str_eq(n, "communication-services") || str_eq(
        n,
        "telecom",
    ) {
        Some(Sector::Communication)
    } else if str_eq(n, "utilities") {
        Some(Sector::Utilities)
    } else {
        None
    }
}

/// Resolves a user-supplied sector name: lowercase, spaces to dashes, then
/// the alias table.
pub fn resolve(name: &str) -> (r: Option<Sector>)
    ensures
        r == resolve_sector(name@),
{
    let lower = to_lowercase(name);
    let n = replace_char_exec(lower.as_str(), ' ', '-');
    sector_from_normalized(n.as_str())
}

/// The curated fallback universe of a sector.
pub fn tickers_of(sec: Sector) -> (r: &'static [&'static str])
    ensures
        r@ == sector_tickers(sec),
{
    match sec {
        Sector::Technology => &[
            "AAPL", "MSFT", "NVDA", "GOOGL", "AVGO", "ORCL", "ADBE", "CRM", "AMD", "QCOM",
        ],
        Sector::Healthcare => &[
            "JNJ", "UNH", "LLY", "ABT", "MRK", "TMO", "ABBV", "DHR", "BMY", "AMGN",
        ],
        Sector::Financials => &["JPM", "V", "MA", "BAC", "WFC", "GS", "MS", "AXP", "BLK", "SCHW"],
        Sector::Energy => &["XOM", "CVX", "SLB", "COP", "EOG", "MPC", "VLO", "PSX", "OXY", "BKR"],
        Sector::ConsumerStaples => &[
            "PG", "KO", "PEP", "WMT", "COST", "PM", "MO", "MDLZ", "CL", "GIS",
        ],
        Sector::ConsumerDiscretionary => &[
            "AMZN", "TSLA", "HD", "MCD", "NKE", "SBUX", "LOW", "TJX", "BKNG", "CMG",
        ],
        Sector::Industrials => &["RTX", "HON", "UPS", "CAT", "DE", "LMT", "GE", "BA", "MMM", "EMR"],
        Sector::Materials => &["LIN", "APD", "ECL", "SHW", "FCX", "NEM", "DD", "PPG", "ALB", "CF"],
        Sector::RealEstate => &[
            "PLD", "AMT", "EQIX", "CCI", "PSA", "WELL", "DLR", "O", "SPG", "AVB",
        ],
        Sector::Communication => &[
            "NFLX", "DIS", "CMCSA", "VZ", "T", "TMUS", "WBD", "EA", "OMC", "IPG",
        ],
        Sector::Utilities => &["NEE", "DUK", "SO", "D", "AEP", "EXC", "SRE", "XEL", "ED", "WEC"],
    }
}

/// Returns the curated list of large-cap ticker symbols for a given sector.
/// Accepts common aliases (e.g. "tech", "health", "finance").
pub fn tickers_for_sector(sector: &str) -> (r: Option<&'static [&'static str]>)
    ensures
        r matches Some(t) ==> resolve_sector(sector@) matches Some(sec) && t@ == sector_tickers(sec),
        r is None <==> resolve_sector(sector@) is None,
{
    match resolve(sector) {
        Some(sec) => Some(tickers_of(sec)),
        None => None,
    }
}

/// All supported sector slugs for documentation.
pub const SUPPORTED_SECTORS: &'static str =
    "technology, healthcare, financials, energy, consumer-staples, consumer-discretionary, industrials, materials, real-estate, communication, utilities";

/// Maps a sector slug to FMP's own company-screener sector taxonomy (the inverse of
/// that taxonomy, normalised to our slugs).
pub fn slug_to_fmp_sector(slug: &str) -> (r: Option<&'static str>)
    ensures
        r == (match resolve_sector(slug@) {
            Some(sec) => Some(fmp_sector_name(sec)),
            None => None,
        }),
{
    match resolve(slug) {
        Some(Sector::Technology) => Some("Technology"),
        Some(Sector::Healthcare) => Some("Healthcare"),
        Some(Sector::Financials) => Some("Financial Services"),
        Some(Sector::Energy) => Some("Energy"),
        Some(Sector::ConsumerStaples) => Some("Consumer Defensive"),
        Some(Sector::ConsumerDiscretionary) => Some("Consumer Cyclical"),
        Some(Sector::Industrials) => Some("Industrials"),
        Some(Sector::Materials) => Some("Basic Materials"),
        Some(Sector::RealEstate) => Some("Real Estate"),
        Some(Sector::Communication) => Some("Communication Services"),
        Some(Sector::Utilities) => Some("Utilities"),
        None => None,
    }
}

/// The eleven canonical sector slugs.
pub open spec fn canonical_slugs() -> Seq<&'static str> {
    seq![
        "technology", "healthcare", "financials", "energy", "consumer-staples",
        "consumer-discretionary", "industrials", "materials", "real-estate", "communication",
        "utilities",
    ]
}

/// All eleven sector slugs in canonical form, for iterating over every sector.
pub fn all_sector_slugs() -> (r: &'static [&'static str])
    ensures
        r@ == canonical_slugs(),
{
    &[
        "technology", "healthcare", "financials", "energy", "consumer-staples",
        "consumer-discretionary", "industrials", "materials", "real-estate", "communication",
        "utilities",
    ]
}

/// Supported exchange slugs. "us" is the default (NYSE/NASDAQ via country=US filter).
pub const SUPPORTED_EXCHANGES: &'static str = "us, lse";

/// All exchange slugs, for iterating over every exchange.
pub fn all_exchange_slugs() -> (r: &'static [&'static str])
    ensures
        r@ == seq!["us", "lse"],
{
    &["us", "lse"]
}

/// Whether an exchange slug is one of the supported ones (exact match).
pub open spec fn valid_exchange(e: Seq<char>) -> bool {
    e == "us"@ || e == "lse"@
}

/// Returns `true` if the exchange slug is supported.
pub fn is_valid_exchange(exchange: &str) -> (r: bool)
    ensures
        r == valid_exchange(exchange@),
{
    str_eq(exchange, "us") || str_eq(exchange, "lse")
}

/// Returns the ISO 4217 currency code for prices on a given exchange.
pub fn exchange_currency(exchange: &str) -> (r: &'static str)
    ensures
        r == (if exchange@ == "lse"@ { "GBP" } else { "USD" }),
{
    if str_eq(exchange, "lse") {
        "GBP"
    } else {
        "USD"
    }
}

/// Returns the FMP `exchange=` parameter value for non-US exchanges, or `None` for
/// US (which uses `country=US` instead of an exchange filter).
pub fn exchange_fmp_code(exchange: &str) -> (r: Option<&'static str>)
    ensures
        r == (if exchange@ == "lse"@ { Some("LSE") } else { None::<&'static str> }),
{
    if str_eq(exchange, "lse") {
        Some("LSE")
    } else {
        None
    }
}

/// Human-readable exchange label for display and logging.
pub fn exchange_label(exchange: &str) -> (r: &'static str)
    ensures
        r == (if exchange@ == "lse"@ { "London Stock Exchange (LSE)" } else { "US (NYSE/NASDAQ)" }),
{
    if str_eq(exchange, "lse") {
        "London Stock Exchange (LSE)"
    } else {
        "US (NYSE/NASDAQ)"
    }
}

// ── Laws ────────────────────────────────────────────────────────────────────

/// A name has a fallback ticker list exactly when it has an FMP sector.
pub proof fn law_tickers_iff_fmp_sector(name: Seq<char>)
    ensures
        resolve_sector(name) is Some <==> (match resolve_sector(name) {
            Some(sec) => Some(fmp_sector_name(sec)),
            None => None::<&'static str>,
        }) is Some,
{
}

/// Every fallback universe holds ten tickers.
pub proof fn law_fallback_universe_size(sec: Sector)
    ensures
        sector_tickers(sec).len() == 10,
{
}

/// No two strings of the list have the same characters.
pub open spec fn views_distinct(s: Seq<&'static str>) -> bool {
    forall|i: int, j: int| 0 <= i < j < s.len() ==> #[trigger] s[i]@ != #[trigger] s[j]@
}

proof fn lemma_tickers_distinct_technology()
    ensures
        views_distinct(sector_tickers(Sector::Technology)),
{
    reveal_strlit("AAPL");
    reveal_strlit("MSFT");
    reveal_strlit("NVDA");
    reveal_strlit("GOOGL");
    reveal_strlit("AVGO");
    reveal_strlit("ORCL");
    reveal_strlit("ADBE");
    reveal_strlit("CRM");
    reveal_strlit("AMD");
    reveal_strlit("QCOM");
    let t = sector_tickers(Sector::Technology);
    assert(t[0]@[0] != t[1]@[0]);
    assert(t[0]@[0] != t[2]@[0]);
    assert(t[0]@.len() != t[3]@.len());
    assert(t[0]@[1] != t[4]@[1]);
    assert(t[0]@[0] != t[5]@[0]);
    assert(t[0]@[1] != t[6]@[1]);
    assert(t[0]@.len() != t[7]@.len());
    assert(t[0]@.len() != t[8]@.len());
    assert(t[0]@[0] != t[9]@[0]);
    assert(t[1]@[0] != t[2]@[0]);
    assert(t[1]@.len() != t[3]@.len());
    assert(t[1]@[0] != t[4]@[0]);
    assert(t[1]@[0] != t[5]@[0]);
    assert(t[1]@[0] != t[6]@[0]);
    assert(t[1]@.len() != t[7]@.len());
    assert(t[1]@.len() != t[8]@.len());
    assert(t[1]@[0] != t[9]@[0]);
    assert(t[2]@.len() != t[3]@.len());
    assert(t[2]@[0] != t[4]@[0]);
    assert(t[2]@[0] != t[5]@[0]);
    assert(t[2]@[0] != t[6]@[0]);
    assert(t[2]@.len() != t[7]@.len());
    assert(t[2]@.len() != t[8]@.len());
    assert(t[2]@[0] != t[9]@[0]);
    assert(t[3]@.len() != t[4]@.len());
    assert(t[3]@.len() != t[5]@.len());
    assert(t[3]@.len() != t[6]@.len());
    assert(t[3]@.len() != t[7]@.len());
    assert(t[3]@.len() != t[8]@.len());
    assert(t[3]@.len() != t[9]@.len());
    assert(t[4]@[0] != t[5]@[0]);
    assert(t[4]@[1] != t[6]@[1]);
    assert(t[4]@.len() != t[7]@.len());
    assert(t[4]@.len() != t[8]@.len());
    assert(t[4]@[0] != t[9]@[0]);
    assert(t[5]@[0] != t[6]@[0]);
    assert(t[5]@.len() != t[7]@.len());
    assert(t[5]@.len() != t[8]@.len());
    assert(t[5]@[0] != t[9]@[0]);
    assert(t[6]@.len() != t[7]@.len());
    assert(t[6]@.len() != t[8]@.len());
    assert(t[6]@[0] != t[9]@[0]);
    assert(t[7]@[0] != t[8]@[0]);
    assert(t[7]@.len() != t[9]@.len());
    assert(t[8]@.len() != t[9]@.len());
    assert forall|i: int, j: int| 0 <= i < j < t.len() implies #[trigger] t[i]@ != #[trigger] t[j]@ by {
        assert(i == 0 || i == 1 || i == 2 || i == 3 || i == 4 || i == 5 || i == 6 || i == 7 || i == 8 || i == 9);
        assert(j == 0 || j == 1 || j == 2 || j == 3 || j == 4 || j == 5 || j == 6 || j == 7 || j == 8 || j == 9);
    }
}

proof fn lemma_tickers_distinct_healthcare()
    ensures
        views_distinct(sector_tickers(Sector::Healthcare)),
{
    reveal_strlit("JNJ");
    reveal_strlit("UNH");
    reveal_strlit("LLY");
    reveal_strlit("ABT");
    reveal_strlit("MRK");
    reveal_strlit("TMO");
    reveal_strlit("ABBV");
    reveal_strlit("DHR");
    reveal_strlit("BMY");
    reveal_strlit("AMGN");
    let t = sector_tickers(Sector::Healthcare);
    assert(t[0]@[0] != t[1]@[0]);
    assert(t[0]@[0] != t[2]@[0]);
    assert(t[0]@[0] != t[3]@[0]);
    assert(t[0]@[0] != t[4]@[0]);
    assert(t[0]@[0] != t[5]@[0]);
    assert(t[0]@.len() != t[6]@.len());
    assert(t[0]@[0] != t[7]@[0]);
    assert(t[0]@[0] != t[8]@[0]);
    assert(t[0]@.len() != t[9]@.len());
    assert(t[1]@[0] != t[2]@[0]);
    assert(t[1]@[0] != t[3]@[0]);
    assert(t[1]@[0] != t[4]@[0]);
    assert(t[1]@[0] != t[5]@[0]);
    assert(t[1]@.len() != t[6]@.len());
    assert(t[1]@[0] != t[7]@[0]);
    assert(t[1]@[0] != t[8]@[0]);
    assert(t[1]@.len() != t[9]@.len());
    assert(t[2]@[0] != t[3]@[0]);
    assert(t[2]@[0] != t[4]@[0]);
    assert(t[2]@[0] != t[5]@[0]);
    assert(t[2]@.len() != t[6]@.len());
    assert(t[2]@[0] != t[7]@[0]);
    assert(t[2]@[0] != t[8]@[0]);
    assert(t[2]@.len() != t[9]@.len());
    assert(t[3]@[0] != t[4]@[0]);
    assert(t[3]@[0] != t[5]@[0]);
    assert(t[3]@.len() != t[6]@.len());
    assert(t[3]@[0] != t[7]@[0]);
    assert(t[3]@[0] != t[8]@[0]);
    assert(t[3]@.len() != t[9]@.len());
    assert(t[4]@[0] != t[5]@[0]);
    assert(t[4]@.len() != t[6]@.len());
    assert(t[4]@[0] != t[7]@[0]);
    assert(t[4]@[0] != t[8]@[0]);
    assert(t[4]@.len() != t[9]@.len());
    assert(t[5]@.len() != t[6]@.len());
    assert(t[5]@[0] != t[7]@[0]);
    assert(t[5]@[0] != t[8]@[0]);
    assert(t[5]@.len() != t[9]@.len());
    assert(t[6]@.len() != t[7]@.len());
    assert(t[6]@.len() != t[8]@.len());
    assert(t[6]@[1] != t[9]@[1]);
    assert(t[7]@[0] != t[8]@[0]);
    assert(t[7]@.len() != t[9]@.len());
    assert(t[8]@.len() != t[9]@.len());
    assert forall|i: int, j: int| 0 <= i < j < t.len() implies #[trigger] t[i]@ != #[trigger] t[j]@ by {
        assert(i == 0 || i == 1 || i == 2 || i == 3 || i == 4 || i == 5 || i == 6 || i == 7 || i == 8 || i == 9);
        assert(j == 0 || j == 1 || j == 2 || j == 3 || j == 4 || j == 5 || j == 6 || j == 7 || j == 8 || j == 9);
    }
}

proof fn lemma_tickers_distinct_financials()
    ensures
        views_distinct(sector_tickers(Sector::Financials)),
{
    reveal_strlit("JPM");
    reveal_strlit("V");
    reveal_strlit("MA");
    reveal_strlit("BAC");
    reveal_strlit("WFC");
    reveal_strlit("GS");
    reveal_strlit("MS");
    reveal_strlit("AXP");
    reveal_strlit("BLK");
    reveal_strlit("SCHW");
    let t = sector_tickers(Sector::Financials);
    assert(t[0]@.len() != t[1]@.len());
    assert(t[0]@.len() != t[2]@.len());
    assert(t[0]@[0] != t[3]@[0]);
    assert(t[0]@[0] != t[4]@[0]);
    assert(t[0]@.len() != t[5]@.len());
    assert(t[0]@.len() != t[6]@.len());
    assert(t[0]@[0] != t[7]@[0]);
    assert(t[0]@[0] != t[8]@[0]);
    assert(t[0]@.len() != t[9]@.len());
    assert(t[1]@.len() != t[2]@.len());
    assert(t[1]@.len() != t[3]@.len());
    assert(t[1]@.len() != t[4]@.len());
    assert(t[1]@.len() != t[5]@.len());
    assert(t[1]@.len() != t[6]@.len());
    assert(t[1]@.len() != t[7]@.len());
    assert(t[1]@.len() != t[8]@.len());
    assert(t[1]@.len() != t[9]@.len());
    assert(t[2]@.len() != t[3]@.len());
    assert(t[2]@.len() != t[4]@.len());
    assert(t[2]@[0] != t[5]@[0]);
    assert(t[2]@[1] != t[6]@[1]);
    assert(t[2]@.len() != t[7]@.len());
    assert(t[2]@.len() != t[8]@.len());
    assert(t[2]@.len() != t[9]@.len());
    assert(t[3]@[0] != t[4]@[0]);
    assert(t[3]@.len() != t[5]@.len());
    assert(t[3]@.len() != t[6]@.len());
    assert(t[3]@[0] != t[7]@[0]);
    assert(t[3]@[1] != t[8]@[1]);
    assert(t[3]@.len() != t[9]@.len());
    assert(t[4]@.len() != t[5]@.len());
    assert(t[4]@.len() != t[6]@.len());
    assert(t[4]@[0] != t[7]@[0]);
    assert(t[4]@[0] != t[8]@[0]);
    assert(t[4]@.len() != t[9]@.len());
    assert(t[5]@[0] != t[6]@[0]);
    assert(t[5]@.len() != t[7]@.len());
    assert(t[5]@.len() != t[8]@.len());
    assert(t[5]@.len() != t[9]@.len());
    assert(t[6]@.len() != t[7]@.len());
    assert(t[6]@.len() != t[8]@.len());
    assert(t[6]@.len() != t[9]@.len());
    assert(t[7]@[0] != t[8]@[0]);
    assert(t[7]@.len() != t[9]@.len());
    assert(t[8]@.len() != t[9]@.len());
    assert forall|i: int, j: int| 0 <= i < j < t.len() implies #[trigger] t[i]@ != #[trigger] t[j]@ by {
        assert(i == 0 || i == 1 || i == 2 || i == 3 || i == 4 || i == 5 || i == 6 || i == 7 || i == 8 || i == 9);
        assert(j == 0 || j == 1 || j == 2 || j == 3 || j == 4 || j == 5 || j == 6 || j == 7 || j == 8 || j == 9);
    }
}

proof fn lemma_tickers_distinct_energy()
    ensures
        views_distinct(sector_tickers(Sector::Energy)),
{
    reveal_strlit("XOM");
    reveal_strlit("CVX");
    reveal_strlit("SLB");
    reveal_strlit("COP");
    reveal_strlit("EOG");
    reveal_strlit("MPC");
    reveal_strlit("VLO");
    reveal_strlit("PSX");
    reveal_strlit("OXY");
    reveal_strlit("BKR");
    let t = sector_tickers(Sector::Energy);
    assert(t[0]@[0] != t[1]@[0]);
    assert(t[0]@[0] != t[2]@[0]);
    assert(t[0]@[0] != t[3]@[0]);
    assert(t[0]@[0] != t[4]@[0]);
    assert(t[0]@[0] != t[5]@[0]);
    assert(t[0]@[0] != t[6]@[0]);
    assert(t[0]@[0] != t[7]@[0]);
    assert(t[0]@[0] != t[8]@[0]);
    assert(t[0]@[0] != t[9]@[0]);
    assert(t[1]@[0] != t[2]@[0]);
    assert(t[1]@[1] != t[3]@[1]);
    assert(t[1]@[0] != t[4]@[0]);
    assert(t[1]@[0] != t[5]@[0]);
    assert(t[1]@[0] != t[6]@[0]);
    assert(t[1]@[0] != t[7]@[0]);
    assert(t[1]@[0] != t[8]@[0]);
    assert(t[1]@[0] != t[9]@[0]);
    assert(t[2]@[0] != t[3]@[0]);
    assert(t[2]@[0] != t[4]@[0]);
    assert(t[2]@[0] != t[5]@[0]);
    assert(t[2]@[0] != t[6]@[0]);
    assert(t[2]@[0] != t[7]@[0]);
    assert(t[2]@[0] != t[8]@[0]);
    assert(t[2]@[0] != t[9]@[0]);
    assert(t[3]@[0] != t[4]@[0]);
    assert(t[3]@[0] != t[5]@[0]);
    assert(t[3]@[0] != t[6]@[0]);
    assert(t[3]@[0] != t[7]@[0]);
    assert(t[3]@[0] != t[8]@[0]);
    assert(t[3]@[0] != t[9]@[0]);
    assert(t[4]@[0] != t[5]@[0]);
    assert(t[4]@[0] != t[6]@[0]);
    assert(t[4]@[0] != t[7]@[0]);
    assert(t[4]@[0] != t[8]@[0]);
    assert(t[4]@[0] != t[9]@[0]);
    assert(t[5]@[0] != t[6]@[0]);
    assert(t[5]@[0] != t[7]@[0]);
    assert(t[5]@[0] != t[8]@[0]);
    assert(t[5]@[0] != t[9]@[0]);
    assert(t[6]@[0] != t[7]@[0]);
    assert(t[6]@[0] != t[8]@[0]);
    assert(t[6]@[0] != t[9]@[0]);
    assert(t[7]@[0] != t[8]@[0]);
    assert(t[7]@[0] != t[9]@[0]);
    assert(t[8]@[0] != t[9]@[0]);
    assert forall|i: int, j: int| 0 <= i < j < t.len() implies #[trigger] t[i]@ != #[trigger] t[j]@ by {
        assert(i == 0 || i == 1 || i == 2 || i == 3 || i == 4 || i == 5 || i == 6 || i == 7 || i == 8 || i == 9);
        assert(j == 0 || j == 1 || j == 2 || j == 3 || j == 4 || j == 5 || j == 6 || j == 7 || j == 8 || j == 9);
    }
}

proof fn lemma_tickers_distinct_consumerstaples()
    ensures
        views_distinct(sector_tickers(Sector::ConsumerStaples)),
{
    reveal_strlit("PG");
    reveal_strlit("KO");
    reveal_strlit("PEP");
    reveal_strlit("WMT");
    reveal_strlit("COST");
    reveal_strlit("PM");
    reveal_strlit("MO");
    reveal_strlit("MDLZ");
    reveal_strlit("CL");
    reveal_strlit("GIS");
    let t = sector_tickers(Sector::ConsumerStaples);
    assert(t[0]@[0] != t[1]@[0]);
    assert(t[0]@.len() != t[2]@.len());
    assert(t[0]@.len() != t[3]@.len());
    assert(t[0]@.len() != t[4]@.len());
    assert(t[0]@[1] != t[5]@[1]);
    assert(t[0]@[0] != t[6]@[0]);
    assert(t[0]@.len() != t[7]@.len());
    assert(t[0]@[0] != t[8]@[0]);
    assert(t[0]@.len() != t[9]@.len());
    assert(t[1]@.len() != t[2]@.len());
    assert(t[1]@.len() != t[3]@.len());
    assert(t[1]@.len() != t[4]@.len());
    assert(t[1]@[0] != t[5]@[0]);
    assert(t[1]@[0] != t[6]@[0]);
    assert(t[1]@.len() != t[7]@.len());
    assert(t[1]@[0] != t[8]@[0]);
    assert(t[1]@.len() != t[9]@.len());
    assert(t[2]@[0] != t[3]@[0]);
    assert(t[2]@.len() != t[4]@.len());
    assert(t[2]@.len() != t[5]@.len());
    assert(t[2]@.len() != t[6]@.len());
    assert(t[2]@.len() != t[7]@.len());
    assert(t[2]@.len() != t[8]@.len());
    assert(t[2]@[0] != t[9]@[0]);
    assert(t[3]@.len() != t[4]@.len());
    assert(t[3]@.len() != t[5]@.len());
    assert(t[3]@.len() != t[6]@.len());
    assert(t[3]@.len() != t[7]@.len());
    assert(t[3]@.len() != t[8]@.len());
    assert(t[3]@[0] != t[9]@[0]);
    assert(t[4]@.len() != t[5]@.len());
    assert(t[4]@.len() != t[6]@.len());
    assert(t[4]@[0] != t[7]@[0]);
    assert(t[4]@.len() != t[8]@.len());
    assert(t[4]@.len() != t[9]@.len());
    assert(t[5]@[0] != t[6]@[0]);
    assert(t[5]@.len() != t[7]@.len());
    assert(t[5]@[0] != t[8]@[0]);
    assert(t[5]@.len() != t[9]@.len());
    assert(t[6]@.len() != t[7]@.len());
    assert(t[6]@[0] != t[8]@[0]);
    assert(t[6]@.len() != t[9]@.len());
    assert(t[7]@.len() != t[8]@.len());
    assert(t[7]@.len() != t[9]@.len());
    assert(t[8]@.len() != t[9]@.len());
    assert forall|i: int, j: int| 0 <= i < j < t.len() implies #[trigger] t[i]@ != #[trigger] t[j]@ by {
        assert(i == 0 || i == 1 || i == 2 || i == 3 || i == 4 || i == 5 || i == 6 || i == 7 || i == 8 || i == 9);
        assert(j == 0 || j == 1 || j == 2 || j == 3 || j == 4 || j == 5 || j == 6 || j == 7 || j == 8 || j == 9);
    }
}

proof fn lemma_tickers_distinct_consumerdiscretionary()
    ensures
        views_distinct(sector_tickers(Sector::ConsumerDiscretionary)),
{
    reveal_strlit("AMZN");
    reveal_strlit("TSLA");
    reveal_strlit("HD");
    reveal_strlit("MCD");
    reveal_strlit("NKE");
    reveal_strlit("SBUX");
    reveal_strlit("LOW");
    reveal_strlit("TJX");
    reveal_strlit("BKNG");
    reveal_strlit("CMG");
    let t = sector_tickers(Sector::ConsumerDiscretionary);
    assert(t[0]@[0] != t[1]@[0]);
    assert(t[0]@.len() != t[2]@.len());
    assert(t[0]@.len() != t[3]@.len());
    assert(t[0]@.len() != t[4]@.len());
    assert(t[0]@[0] != t[5]@[0]);
    assert(t[0]@.len() != t[6]@.len());
    assert(t[0]@.len() != t[7]@.len());
    assert(t[0]@[0] != t[8]@[0]);
    assert(t[0]@.len() != t[9]@.len());
    assert(t[1]@.len() != t[2]@.len());
    assert(t[1]@.len() != t[3]@.len());
    assert(t[1]@.len() != t[4]@.len());
    assert(t[1]@[0] != t[5]@[0]);
    assert(t[1]@.len() != t[6]@.len());
    assert(t[1]@.len() != t[7]@.len());
    assert(t[1]@[0] != t[8]@[0]);
    assert(t[1]@.len() != t[9]@.len());
    assert(t[2]@.len() != t[3]@.len());
    assert(t[2]@.len() != t[4]@.len());
    assert(t[2]@.len() != t[5]@.len());
    assert(t[2]@.len() != t[6]@.len());
    assert(t[2]@.len() != t[7]@.len());
    assert(t[2]@.len() != t[8]@.len());
    assert(t[2]@.len() != t[9]@.len());
    assert(t[3]@[0] != t[4]@[0]);
    assert(t[3]@.len() != t[5]@.len());
    assert(t[3]@[0] != t[6]@[0]);
    assert(t[3]@[0] != t[7]@[0]);
    assert(t[3]@.len() != t[8]@.len());
    assert(t[3]@[0] != t[9]@[0]);
    assert(t[4]@.len() != t[5]@.len());
    assert(t[4]@[0] != t[6]@[0]);
    assert(t[4]@[0] != t[7]@[0]);
    assert(t[4]@.len() != t[8]@.len());
    assert(t[4]@[0] != t[9]@[0]);
    assert(t[5]@.len() != t[6]@.len());
    assert(t[5]@.len() != t[7]@.len());
    assert(t[5]@[0] != t[8]@[0]);
    assert(t[5]@.len() != t[9]@.len());
    assert(t[6]@[0] != t[7]@[0]);
    assert(t[6]@.len() != t[8]@.len());
    assert(t[6]@[0] != t[9]@[0]);
    assert(t[7]@.len() != t[8]@.len());
    assert(t[7]@[0] != t[9]@[0]);
    assert(t[8]@.len() != t[9]@.len());
    assert forall|i: int, j: int| 0 <= i < j < t.len() implies #[trigger] t[i]@ != #[trigger] t[j]@ by {
        assert(i == 0 || i == 1 || i == 2 || i == 3 || i == 4 || i == 5 || i == 6 || i == 7 || i == 8 || i == 9);
        assert(j == 0 || j == 1 || j == 2 || j == 3 || j == 4 || j == 5 || j == 6 || j == 7 || j == 8 || j == 9);
    }
}

proof fn lemma_tickers_distinct_industrials()
    ensures
        views_distinct(sector_tickers(Sector::Industrials)),
{
    reveal_strlit("RTX");
    reveal_strlit("HON");
    reveal_strlit("UPS");
    reveal_strlit("CAT");
    reveal_strlit("DE");
    reveal_strlit("LMT");
    reveal_strlit("GE");
    reveal_strlit("BA");
    reveal_strlit("MMM");
    reveal_strlit("EMR");
    let t = sector_tickers(Sector::Industrials);
    assert(t[0]@[0] != t[1]@[0]);
    assert(t[0]@[0] != t[2]@[0]);
    assert(t[0]@[0] != t[3]@[0]);
    assert(t[0]@.len() != t[4]@.len());
    assert(t[0]@[0] != t[5]@[0]);
    assert(t[0]@.len() != t[6]@.len());
    assert(t[0]@.len() != t[7]@.len());
    assert(t[0]@[0] != t[8]@[0]);
    assert(t[0]@[0] != t[9]@[0]);
    assert(t[1]@[0] != t[2]@[0]);
    assert(t[1]@[0] != t[3]@[0]);
    assert(t[1]@.len() != t[4]@.len());
    assert(t[1]@[0] != t[5]@[0]);
    assert(t[1]@.len() != t[6]@.len());
    assert(t[1]@.len() != t[7]@.len());
    assert(t[1]@[0] != t[8]@[0]);
    assert(t[1]@[0] != t[9]@[0]);
    assert(t[2]@[0] != t[3]@[0]);
    assert(t[2]@.len() != t[4]@.len());
    assert(t[2]@[0] != t[5]@[0]);
    assert(t[2]@.len() != t[6]@.len());
    assert(t[2]@.len() != t[7]@.len());
    assert(t[2]@[0] != t[8]@[0]);
    assert(t[2]@[0] != t[9]@[0]);
    assert(t[3]@.len() != t[4]@.len());
    assert(t[3]@[0] != t[5]@[0]);
    assert(t[3]@.len() != t[6]@.len());
    assert(t[3]@.len() != t[7]@.len());
    assert(t[3]@[0] != t[8]@[0]);
    assert(t[3]@[0] != t[9]@[0]);
    assert(t[4]@.len() != t[5]@.len());
    assert(t[4]@[0] != t[6]@[0]);
    assert(t[4]@[0] != t[7]@[0]);
    assert(t[4]@.len() != t[8]@.len());
    assert(t[4]@.len() != t[9]@.len());
    assert(t[5]@.len() != t[6]@.len());
    assert(t[5]@.len() != t[7]@.len());
    assert(t[5]@[0] != t[8]@[0]);
    assert(t[5]@[0] != t[9]@[0]);
    assert(t[6]@[0] != t[7]@[0]);
    assert(t[6]@.len() != t[8]@.len());
    assert(t[6]@.len() != t[9]@.len());
    assert(t[7]@.len() != t[8]@.len());
    assert(t[7]@.len() != t[9]@.len());
    assert(t[8]@[0] != t[9]@[0]);
    assert forall|i: int, j: int| 0 <= i < j < t.len() implies #[trigger] t[i]@ != #[trigger] t[j]@ by {
        assert(i == 0 || i == 1 || i == 2 || i == 3 || i == 4 || i == 5 || i == 6 || i == 7 || i == 8 || i == 9);
        assert(j == 0 || j == 1 || j == 2 || j == 3 || j == 4 || j == 5 || j == 6 || j == 7 || j == 8 || j == 9);
    }
}

proof fn lemma_tickers_distinct_materials()
    ensures
        views_distinct(sector_tickers(Sector::Materials)),
{
    reveal_strlit("LIN");
    reveal_strlit("APD");
    reveal_strlit("ECL");
    reveal_strlit("SHW");
    reveal_strlit("FCX");
    reveal_strlit("NEM");
    reveal_strlit("DD");
    reveal_strlit("PPG");
    reveal_strlit("ALB");
    reveal_strlit("CF");
    let t = sector_tickers(Sector::Materials);
    assert(t[0]@[0] != t[1]@[0]);
    assert(t[0]@[0] != t[2]@[0]);
    assert(t[0]@[0] != t[3]@[0]);
    assert(t[0]@[0] != t[4]@[0]);
    assert(t[0]@[0] != t[5]@[0]);
    assert(t[0]@.len() != t[6]@.len());
    assert(t[0]@[0] != t[7]@[0]);
    assert(t[0]@[0] != t[8]@[0]);
    assert(t[0]@.len() != t[9]@.len());
    assert(t[1]@[0] != t[2]@[0]);
    assert(t[1]@[0] != t[3]@[0]);
    assert(t[1]@[0] != t[4]@[0]);
    assert(t[1]@[0] != t[5]@[0]);
    assert(t[1]@.len() != t[6]@.len());
    assert(t[1]@[0] != t[7]@[0]);
    assert(t[1]@[1] != t[8]@[1]);
    assert(t[1]@.len() != t[9]@.len());
    assert(t[2]@[0] != t[3]@[0]);
    assert(t[2]@[0] != t[4]@[0]);
    assert(t[2]@[0] != t[5]@[0]);
    assert(t[2]@.len() != t[6]@.len());
    assert(t[2]@[0] != t[7]@[0]);
    assert(t[2]@[0] != t[8]@[0]);
    assert(t[2]@.len() != t[9]@.len());
    assert(t[3]@[0] != t[4]@[0]);
    assert(t[3]@[0] != t[5]@[0]);
    assert(t[3]@.len() != t[6]@.len());
    assert(t[3]@[0] != t[7]@[0]);
    assert(t[3]@[0] != t[8]@[0]);
    assert(t[3]@.len() != t[9]@.len());
    assert(t[4]@[0] != t[5]@[0]);
    assert(t[4]@.len() != t[6]@.len());
    assert(t[4]@[0] != t[7]@[0]);
    assert(t[4]@[0] != t[8]@[0]);
    assert(t[4]@.len() != t[9]@.len());
    assert(t[5]@.len() != t[6]@.len());
    assert(t[5]@[0] != t[7]@[0]);
    assert(t[5]@[0] != t[8]@[0]);
    assert(t[5]@.len() != t[9]@.len());
    assert(t[6]@.len() != t[7]@.len());
    assert(t[6]@.len() != t[8]@.len());
    assert(t[6]@[0] != t[9]@[0]);
    assert(t[7]@[0] != t[8]@[0]);
    assert(t[7]@.len() != t[9]@.len());
    assert(t[8]@.len() != t[9]@.len());
    assert forall|i: int, j: int| 0 <= i < j < t.len() implies #[trigger] t[i]@ != #[trigger] t[j]@ by {
        assert(i == 0 || i == 1 || i == 2 || i == 3 || i == 4 || i == 5 || i == 6 || i == 7 || i == 8 || i == 9);
        assert(j == 0 || j == 1 || j == 2 || j == 3 || j == 4 || j == 5 || j == 6 || j == 7 || j == 8 || j == 9);
    }
}

proof fn lemma_tickers_distinct_realestate()
    ensures
        views_distinct(sector_tickers(Sector::RealEstate)),
{
    reveal_strlit("PLD");
    reveal_strlit("AMT");
    reveal_strlit("EQIX");
    reveal_strlit("CCI");
    reveal_strlit("PSA");
    reveal_strlit("WELL");
    reveal_strlit("DLR");
    reveal_strlit("O");
    reveal_strlit("SPG");
    reveal_strlit("AVB");
    let t = sector_tickers(Sector::RealEstate);
    assert(t[0]@[0] != t[1]@[0]);
    assert(t[0]@.len() != t[2]@.len());
    assert(t[0]@[0] != t[3]@[0]);
    assert(t[0]@[1] != t[4]@[1]);
    assert(t[0]@.len() != t[5]@.len());
    assert(t[0]@[0] != t[6]@[0]);
    assert(t[0]@.len() != t[7]@.len());
    assert(t[0]@[0] != t[8]@[0]);
    assert(t[0]@[0] != t[9]@[0]);
    assert(t[1]@.len() != t[2]@.len());
    assert(t[1]@[0] != t[3]@[0]);
    assert(t[1]@[0] != t[4]@[0]);
    assert(t[1]@.len() != t[5]@.len());
    assert(t[1]@[0] != t[6]@[0]);
    assert(t[1]@.len() != t[7]@.len());
    assert(t[1]@[0] != t[8]@[0]);
    assert(t[1]@[1] != t[9]@[1]);
    assert(t[2]@.len() != t[3]@.len());
    assert(t[2]@.len() != t[4]@.len());
    assert(t[2]@[0] != t[5]@[0]);
    assert(t[2]@.len() != t[6]@.len());
    assert(t[2]@.len() != t[7]@.len());
    assert(t[2]@.len() != t[8]@.len());
    assert(t[2]@.len() != t[9]@.len());
    assert(t[3]@[0] != t[4]@[0]);
    assert(t[3]@.len() != t[5]@.len());
    assert(t[3]@[0] != t[6]@[0]);
    assert(t[3]@.len() != t[7]@.len());
    assert(t[3]@[0] != t[8]@[0]);
    assert(t[3]@[0] != t[9]@[0]);
    assert(t[4]@.len() != t[5]@.len());
    assert(t[4]@[0] != t[6]@[0]);
    assert(t[4]@.len() != t[7]@.len());
    assert(t[4]@[0] != t[8]@[0]);
    assert(t[4]@[0] != t[9]@[0]);
    assert(t[5]@.len() != t[6]@.len());
    assert(t[5]@.len() != t[7]@.len());
    assert(t[5]@.len() != t[8]@.len());
    assert(t[5]@.len() != t[9]@.len());
    assert(t[6]@.len() != t[7]@.len());
    assert(t[6]@[0] != t[8]@[0]);
    assert(t[6]@[0] != t[9]@[0]);
    assert(t[7]@.len() != t[8]@.len());
    assert(t[7]@.len() != t[9]@.len());
    assert(t[8]@[0] != t[9]@[0]);
    assert forall|i: int, j: int| 0 <= i < j < t.len() implies #[trigger] t[i]@ != #[trigger] t[j]@ by {
        assert(i == 0 || i == 1 || i == 2 || i == 3 || i == 4 || i == 5 || i == 6 || i == 7 || i == 8 || i == 9);
        assert(j == 0 || j == 1 || j == 2 || j == 3 || j == 4 || j == 5 || j == 6 || j == 7 || j == 8 || j == 9);
    }
}

proof fn lemma_tickers_distinct_communication()
    ensures
        views_distinct(sector_tickers(Sector::Communication)),
{
    reveal_strlit("NFLX");
    reveal_strlit("DIS");
    reveal_strlit("CMCSA");
    reveal_strlit("VZ");
    reveal_strlit("T");
    reveal_strlit("TMUS");
    reveal_strlit("WBD");
    reveal_strlit("EA");
    reveal_strlit("OMC");
    reveal_strlit("IPG");
    let t = sector_tickers(Sector::Communication);
    assert(t[0]@.len() != t[1]@.len());
    assert(t[0]@.len() != t[2]@.len());
    assert(t[0]@.len() != t[3]@.len());
    assert(t[0]@.len() != t[4]@.len());
    assert(t[0]@[0] != t[5]@[0]);
    assert(t[0]@.len() != t[6]@.len());
    assert(t[0]@.len() != t[7]@.len());
    assert(t[0]@.len() != t[8]@.len());
    assert(t[0]@.len() != t[9]@.len());
    assert(t[1]@.len() != t[2]@.len());
    assert(t[1]@.len() != t[3]@.len());
    assert(t[1]@.len() != t[4]@.len());
    assert(t[1]@.len() != t[5]@.len());
    assert(t[1]@[0] != t[6]@[0]);
    assert(t[1]@.len() != t[7]@.len());
    assert(t[1]@[0] != t[8]@[0]);
    assert(t[1]@[0] != t[9]@[0]);
    assert(t[2]@.len() != t[3]@.len());
    assert(t[2]@.len() != t[4]@.len());
    assert(t[2]@.len() != t[5]@.len());
    assert(t[2]@.len() != t[6]@.len());
    assert(t[2]@.len() != t[7]@.len());
    assert(t[2]@.len() != t[8]@.len());
    assert(t[2]@.len() != t[9]@.len());
    assert(t[3]@.len() != t[4]@.len());
    assert(t[3]@.len() != t[5]@.len());
    assert(t[3]@.len() != t[6]@.len());
    assert(t[3]@[0] != t[7]@[0]);
    assert(t[3]@.len() != t[8]@.len());
    assert(t[3]@.len() != t[9]@.len());
    assert(t[4]@.len() != t[5]@.len());
    assert(t[4]@.len() != t[6]@.len());
    assert(t[4]@.len() != t[7]@.len());
    assert(t[4]@.len() != t[8]@.len());
    assert(t[4]@.len() != t[9]@.len());
    assert(t[5]@.len() != t[6]@.len());
    assert(t[5]@.len() != t[7]@.len());
    assert(t[5]@.len() != t[8]@.len());
    assert(t[5]@.len() != t[9]@.len());
    assert(t[6]@.len() != t[7]@.len());
    assert(t[6]@[0] != t[8]@[0]);
    assert(t[6]@[0] != t[9]@[0]);
    assert(t[7]@.len() != t[8]@.len());
    assert(t[7]@.len() != t[9]@.len());
    assert(t[8]@[0] != t[9]@[0]);
    assert forall|i: int, j: int| 0 <= i < j < t.len() implies #[trigger] t[i]@ != #[trigger] t[j]@ by {
        assert(i == 0 || i == 1 || i == 2 || i == 3 || i == 4 || i == 5 || i == 6 || i == 7 || i == 8 || i == 9);
        assert(j == 0 || j == 1 || j == 2 || j == 3 || j == 4 || j == 5 || j == 6 || j == 7 || j == 8 || j == 9);
    }
}

proof fn lemma_tickers_distinct_utilities()
    ensures
        views_distinct(sector_tickers(Sector::Utilities)),
{
    reveal_strlit("NEE");
    reveal_strlit("DUK");
    reveal_strlit("SO");
    reveal_strlit("D");
    reveal_strlit("AEP");
    reveal_strlit("EXC");
    reveal_strlit("SRE");
    reveal_strlit("XEL");
    reveal_strlit("ED");
    reveal_strlit("WEC");
    let t = sector_tickers(Sector::Utilities);
    assert(t[0]@[0] != t[1]@[0]);
    assert(t[0]@.len() != t[2]@.len());
    assert(t[0]@.len() != t[3]@.len());
    assert(t[0]@[0] != t[4]@[0]);
    assert(t[0]@[0] != t[5]@[0]);
    assert(t[0]@[0] != t[6]@[0]);
    assert(t[0]@[0] != t[7]@[0]);
    assert(t[0]@.len() != t[8]@.len());
    assert(t[0]@[0] != t[9]@[0]);
    assert(t[1]@.len() != t[2]@.len());
    assert(t[1]@.len() != t[3]@.len());
    assert(t[1]@[0] != t[4]@[0]);
    assert(t[1]@[0] != t[5]@[0]);
    assert(t[1]@[0] != t[6]@[0]);
    assert(t[1]@[0] != t[7]@[0]);
    assert(t[1]@.len() != t[8]@.len());
    assert(t[1]@[0] != t[9]@[0]);
    assert(t[2]@.len() != t[3]@.len());
    assert(t[2]@.len() != t[4]@.len());
    assert(t[2]@.len() != t[5]@.len());
    assert(t[2]@.len() != t[6]@.len());
    assert(t[2]@.len() != t[7]@.len());
    assert(t[2]@[0] != t[8]@[0]);
    assert(t[2]@.len() != t[9]@.len());
    assert(t[3]@.len() != t[4]@.len());
    assert(t[3]@.len() != t[5]@.len());
    assert(t[3]@.len() != t[6]@.len());
    assert(t[3]@.len() != t[7]@.len());
    assert(t[3]@.len() != t[8]@.len());
    assert(t[3]@.len() != t[9]@.len());
    assert(t[4]@[0] != t[5]@[0]);
    assert(t[4]@[0] != t[6]@[0]);
    assert(t[4]@[0] != t[7]@[0]);
    assert(t[4]@.len() != t[8]@.len());
    assert(t[4]@[0] != t[9]@[0]);
    assert(t[5]@[0] != t[6]@[0]);
    assert(t[5]@[0] != t[7]@[0]);
    assert(t[5]@.len() != t[8]@.len());
    assert(t[5]@[0] != t[9]@[0]);
    assert(t[6]@[0] != t[7]@[0]);
    assert(t[6]@.len() != t[8]@.len());
    assert(t[6]@[0] != t[9]@[0]);
    assert(t[7]@.len() != t[8]@.len());
    assert(t[7]@[0] != t[9]@[0]);
    assert(t[8]@.len() != t[9]@.len());
    assert forall|i: int, j: int| 0 <= i < j < t.len() implies #[trigger] t[i]@ != #[trigger] t[j]@ by {
        assert(i == 0 || i == 1 || i == 2 || i == 3 || i == 4 || i == 5 || i == 6 || i == 7 || i == 8 || i == 9);
        assert(j == 0 || j == 1 || j == 2 || j == 3 || j == 4 || j == 5 || j == 6 || j == 7 || j == 8 || j == 9);
    }
}

/// No fallback universe lists a ticker twice.
pub proof fn law_fallback_tickers_distinct(sec: Sector)
    ensures
        views_distinct(sector_tickers(sec)),
{
    match sec {
        Sector::Technology => lemma_tickers_distinct_technology(),
        Sector::Healthcare => lemma_tickers_distinct_healthcare(),
        Sector::Financials => lemma_tickers_distinct_financials(),
        Sector::Energy => lemma_tickers_distinct_energy(),
        Sector::ConsumerStaples => lemma_tickers_distinct_consumerstaples(),
        Sector::ConsumerDiscretionary => lemma_tickers_distinct_consumerdiscretionary(),
        Sector::Industrials => lemma_tickers_distinct_industrials(),
        Sector::Materials => lemma_tickers_distinct_materials(),
        Sector::RealEstate => lemma_tickers_distinct_realestate(),
        Sector::Communication => lemma_tickers_distinct_communication(),
        Sector::Utilities => lemma_tickers_distinct_utilities(),
    }
}

/// A slug made of lowercase ASCII letters and dashes is its own normal form.
pub proof fn lemma_plain_slug_normal(s: Seq<char>)
    requires
        forall|i: int| 0 <= i < s.len() ==> ('a' <= #[trigger] s[i] <= 'z' || s[i] == '-'),
    ensures
        normalize_slug(s) == s,
{
    assert(all_ascii(s));
    assert(ascii_lower(s) =~= s);
    assert(replace_char(s, ' ', '-') =~= s);
}

proof fn lemma_resolves_technology()
    ensures
        resolve_sector("technology"@) == Some(Sector::Technology),
{
    reveal_strlit("technology");
    lemma_plain_slug_normal("technology"@);
}

proof fn lemma_resolves_healthcare()
    ensures
        resolve_sector("healthcare"@) == Some(Sector::Healthcare),
{
    reveal_strlit("healthcare");
    reveal_strlit("technology");
    assert("healthcare"@[0] != "technology"@[0]);
    reveal_strlit("tech");
    lemma_plain_slug_normal("healthcare"@);
}

proof fn lemma_resolves_financials()
    ensures
        resolve_sector("financials"@) == Some(Sector::Financials),
{
    reveal_strlit("financials");
    reveal_strlit("technology");
    assert("financials"@[0] != "technology"@[0]);
    reveal_strlit("tech");
    reveal_strlit("healthcare");
    assert("financials"@[0] != "healthcare"@[0]);
    reveal_strlit("health");
    lemma_plain_slug_normal("financials"@);
}

proof fn lemma_resolves_energy()
    ensures
        resolve_sector("energy"@) == Some(Sector::Energy),
{
    reveal_strlit("energy");
    reveal_strlit("technology");
    reveal_strlit("tech");
    reveal_strlit("healthcare");
    reveal_strlit("health");
    assert("energy"@[0] != "health"@[0]);
    reveal_strlit("financials");
    reveal_strlit("finance");
    reveal_strlit("financial-services");
    lemma_plain_slug_normal("energy"@);
}

proof fn lemma_resolves_consumerstaples()
    ensures
        resolve_sector("consumer-staples"@) == Some(Sector::ConsumerStaples),
{
    reveal_strlit("consumer-staples");
    reveal_strlit("technology");
    reveal_strlit("tech");
    reveal_strlit("healthcare");
    reveal_strlit("health");
    reveal_strlit("financials");
    reveal_strlit("finance");
    reveal_strlit("financial-services");
    reveal_strlit("energy");
    lemma_plain_slug_normal("consumer-staples"@);
}

proof fn lemma_resolves_consumerdiscretionary()
    ensures
        resolve_sector("consumer-discretionary"@) == Some(Sector::ConsumerDiscretionary),
{
    reveal_strlit("consumer-discretionary");
    reveal_strlit("technology");
    reveal_strlit("tech");
    reveal_strlit("healthcare");
    reveal_strlit("health");
    reveal_strlit("financials");
    reveal_strlit("finance");
    reveal_strlit("financial-services");
    reveal_strlit("energy");
    reveal_strlit("consumer-staples");
    reveal_strlit("staples");
    reveal_strlit("consumer-defensive");
    lemma_plain_slug_normal("consumer-discretionary"@);
}

proof fn lemma_resolves_industrials()
    ensures
        resolve_sector("industrials"@) == Some(Sector::Industrials),
{
    reveal_strlit("industrials");
    reveal_strlit("technology");
    reveal_strlit("tech");
    reveal_strlit("healthcare");
    reveal_strlit("health");
    reveal_strlit("financials");
    reveal_strlit("finance");
    reveal_strlit("financial-services");
    reveal_strlit("energy");
    reveal_strlit("consumer-staples");
    reveal_strlit("staples");
    reveal_strlit("consumer-defensive");
    reveal_strlit("consumer-discretionary");
    reveal_strlit("discretionary");
    reveal_strlit("consumer-cyclical");
    lemma_plain_slug_normal("industrials"@);
}

proof fn lemma_resolves_materials()
    ensures
        resolve_sector("materials"@) == Some(Sector::Materials),
{
    reveal_strlit("materials");
    reveal_strlit("technology");
    reveal_strlit("tech");
    reveal_strlit("healthcare");
    reveal_strlit("health");
    reveal_strlit("financials");
    reveal_strlit("finance");
    reveal_strlit("financial-services");
    reveal_strlit("energy");
    reveal_strlit("consumer-staples");
    reveal_strlit("staples");
    reveal_strlit("consumer-defensive");
    reveal_strlit("consumer-discretionary");
    reveal_strlit("discretionary");
    reveal_strlit("consumer-cyclical");
    reveal_strlit("industrials");
    lemma_plain_slug_normal("materials"@);
}

proof fn lemma_resolves_realestate()
    ensures
        resolve_sector("real-estate"@) == Some(Sector::RealEstate),
{
    reveal_strlit("real-estate");
    reveal_strlit("technology");
    reveal_strlit("tech");
    reveal_strlit("healthcare");
    reveal_strlit("health");
    reveal_strlit("financials");
    reveal_strlit("finance");
    reveal_strlit("financial-services");
    reveal_strlit("energy");
    reveal_strlit("consumer-staples");
    reveal_strlit("staples");
    reveal_strlit("consumer-defensive");
    reveal_strlit("consumer-discretionary");
    reveal_strlit("discretionary");
    reveal_strlit("consumer-cyclical");
    reveal_strlit("industrials");
    assert("real-estate"@[0] != "industrials"@[0]);
    reveal_strlit("materials");
    reveal_strlit("basic-materials");
    lemma_plain_slug_normal("real-estate"@);
}

proof fn lemma_resolves_communication()
    ensures
        resolve_sector("communication"@) == Some(Sector::Communication),
{
    reveal_strlit("communication");
    reveal_strlit("technology");
    reveal_strlit("tech");
    reveal_strlit("healthcare");
    reveal_strlit("health");
    reveal_strlit("financials");
    reveal_strlit("finance");
    reveal_strlit("financial-services");
    reveal_strlit("energy");
    reveal_strlit("consumer-staples");
    reveal_strlit("staples");
    reveal_strlit("consumer-defensive");
    reveal_strlit("consumer-discretionary");
    reveal_strlit("discretionary");
    assert("communication"@[0] != "discretionary"@[0]);
    reveal_strlit("consumer-cyclical");
    reveal_strlit("industrials");
    reveal_strlit("materials");
    reveal_strlit("basic-materials");
    reveal_strlit("real-estate");
    reveal_strlit("realestate");
    lemma_plain_slug_normal("communication"@);
}

proof fn lemma_resolves_utilities()
    ensures
        resolve_sector("utilities"@) == Some(Sector::Utilities),
{
    reveal_strlit("utilities");
    reveal_strlit("technology");
    reveal_strlit("tech");
    reveal_strlit("healthcare");
    reveal_strlit("health");
    reveal_strlit("financials");
    reveal_strlit("finance");
    reveal_strlit("financial-services");
    reveal_strlit("energy");
    reveal_strlit("consumer-staples");
    reveal_strlit("staples");
    reveal_strlit("consumer-defensive");
    reveal_strlit("consumer-discretionary");
    reveal_strlit("discretionary");
    reveal_strlit("consumer-cyclical");
    reveal_strlit("industrials");
    reveal_strlit("materials");
    assert("utilities"@[0] != "materials"@[0]);
    reveal_strlit("basic-materials");
    reveal_strlit("real-estate");
    reveal_strlit("realestate");
    reveal_strlit("communication");
    reveal_strlit("communication-services");
    reveal_strlit("telecom");
    lemma_plain_slug_normal("utilities"@);
}

/// Every canonical slug resolves, each to a different sector.
pub proof fn law_canonical_slugs_resolve()
    ensures
        resolve_sector("technology"@) == Some(Sector::Technology),
        resolve_sector("healthcare"@) == Some(Sector::Healthcare),
        resolve_sector("financials"@) == Some(Sector::Financials),
        resolve_sector("energy"@) == Some(Sector::Energy),
        resolve_sector("consumer-staples"@) == Some(Sector::ConsumerStaples),
        resolve_sector("consumer-discretionary"@) == Some(Sector::ConsumerDiscretionary),
        resolve_sector("industrials"@) == Some(Sector::Industrials),
        resolve_sector("materials"@) == Some(Sector::Materials),
        resolve_sector("real-estate"@) == Some(Sector::RealEstate),
        resolve_sector("communication"@) == Some(Sector::Communication),
        resolve_sector("utilities"@) == Some(Sector::Utilities),
{
    lemma_resolves_technology();
    lemma_resolves_healthcare();
    lemma_resolves_financials();
    lemma_resolves_energy();
    lemma_resolves_consumerstaples();
    lemma_resolves_consumerdiscretionary();
    lemma_resolves_industrials();
    lemma_resolves_materials();
    lemma_resolves_realestate();
    lemma_resolves_communication();
    lemma_resolves_utilities();
}

} // verus!
