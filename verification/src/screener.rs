//! The sector screener's rules: which scoring model a sector uses, how the
//! candidate universe is chosen, and how it is cut down to the largest names.

use vstd::prelude::*;
use crate::error::AppError;
use crate::sectors::{
    resolve, resolve_sector, Sector, sector_tickers, slug_to_fmp_sector, tickers_for_sector, valid_exchange,
    is_valid_exchange, fmp_sector_name, SUPPORTED_EXCHANGES, SUPPORTED_SECTORS,
};
use crate::sorting::{stable_sort_by_key, stable_sorted};
use crate::sp500::{string_views, Sp500};
use crate::text::{concat, lowercase, owned, str_eq, to_lowercase};

verus! {

/// Maximum number of tickers to score per sector after market-cap pre-filtering.
pub const SCORE_TOP_N: usize = 20;

/// Shared educational disclaimer, also used by the discovery screener.
pub const DISCLAIMER: &'static str = "Scores are calculated from publicly available financial data for educational purposes only. They do not constitute investment advice, a recommendation to buy or sell any security, or a guarantee of future performance. Always conduct your own research and consult a licensed financial advisor before making investment decisions.";

/// How a sector's stocks are scored.
#[derive(Clone, Copy, Debug, PartialEq, Eq, Structural)]
pub enum SectorModel {
    /// Piotroski 30% + Quality 25% + DCF Value 25% + Momentum 20%
    Standard,
    /// ROE Quality 35% + P/B Value 25% + Momentum 25% + Debt Safety 15%
    Financials,
    /// Dividend Quality 35% + P/B Value 25% + Momentum 25% + Debt Safety 15%
    RealEstate,
    /// Piotroski 25% + FCF Yield 30% + Momentum 30% + Quality 15%
    Energy,
    /// Dividend Quality 30% + Quality 25% + DCF Value 25% + Momentum 20%
    Dividend,
}

pub open spec fn model_name(m: SectorModel) -> &'static str {
    match m {
        SectorModel::Standard => "Standard",
        SectorModel::Financials => "Financials",
        SectorModel::RealEstate => "Real Estate",
        SectorModel::Energy => "Energy",
        SectorModel::Dividend => "Dividend",
    }
}

pub open spec fn model_labels(m: SectorModel) -> Seq<&'static str> {
    match m {
        SectorModel::Standard => seq![
            "Piotroski F-Score", "Business Quality", "DCF Value", "Momentum vs SPY",
        ],
        SectorModel::Financials => seq![
            "Return on Equity", "Price-to-Book Value", "Momentum vs SPY", "Debt Safety",
        ],
        SectorModel::RealEstate => seq![
            "Dividend Quality", "Price-to-Book Value", "Momentum vs SPY", "Debt Safety",
        ],
        SectorModel::Energy => seq![
            "Piotroski F-Score", "FCF Yield", "Momentum vs SPY", "Business Quality",
        ],
        SectorModel::Dividend => seq![
            "Dividend Quality", "Business Quality", "DCF Value", "Momentum vs SPY",
        ],
    }
}

pub open spec fn model_weights(m: SectorModel) -> Seq<&'static str> {
    match m {
        SectorModel::Standard => seq!["30%", "25%", "25%", "20%"],
        SectorModel::Financials => seq!["35%", "25%", "25%", "15%"],
        SectorModel::RealEstate => seq!["35%", "25%", "25%", "15%"],
        SectorModel::Energy => seq!["25%", "30%", "30%", "15%"],
        SectorModel::Dividend => seq!["30%", "25%", "25%", "20%"],
    }
}

/// The owned copies of a list of string slices.
pub open spec fn str_views(s: Seq<&'static str>) -> Seq<Seq<char>> {
    s.map_values(|x: &'static str| x@)
}

fn to_strings(s: &[&'static str]) -> (r: Vec<String>)
    ensures
        string_views(r@) == str_views(s@),
{
    let mut out: Vec<String> = Vec::new();
    let mut i: usize = 0;
    while i < s.len()
        invariant
            i <= s@.len(),
            out@.len() == i,
            string_views(out@) == str_views(s@.take(i as int)),
        decreases s@.len() - i,
    {
        let ghost before = out@;
        out.push(owned(s[i]));
        proof {
            let next = s@.take(i + 1);
            assert forall|j: int| 0 <= j < i + 1 implies #[trigger] string_views(out@)[j]
                == str_views(next)[j] by {
                if j < i {
                    assert(string_views(before)[j] == str_views(s@.take(i as int))[j]);
                }
            }
            assert(string_views(out@) =~= str_views(next));
        }
        i = i + 1;
    }
    assert(s@.take(s@.len() as int) =~= s@);
    out
}

impl SectorModel {
    /// The model's display name.
    pub fn name(&self) -> (r: &'static str)
        ensures
            r == model_name(*self),
    {
        match self {
            SectorModel::Standard => "Standard",
            SectorModel::Financials => "Financials",
            SectorModel::RealEstate => "Real Estate",
            SectorModel::Energy => "Energy",
            SectorModel::Dividend => "Dividend",
        }
    }

    fn label_strs(&self) -> (r: &'static [&'static str])
        ensures
            r@ == model_labels(*self),
    {
        match self {
            SectorModel::Standard => &[
                "Piotroski F-Score",
                "Business Quality",
                "DCF Value",
                "Momentum vs SPY",
            ],
            SectorModel::Financials => &[
                "Return on Equity",
                "Price-to-Book Value",
                "Momentum vs SPY",
                "Debt Safety",
            ],
            SectorModel::RealEstate => &[
                "Dividend Quality",
                "Price-to-Book Value",
                "Momentum vs SPY",
                "Debt Safety",
            ],
            SectorModel::Energy => &[
                "Piotroski F-Score",
                "FCF Yield",
                "Momentum vs SPY",
                "Business Quality",
            ],
            SectorModel::Dividend => &[
                "Dividend Quality",
                "Business Quality",
                "DCF Value",
                "Momentum vs SPY",
            ],
        }
    }

    fn weight_strs(&self) -> (r: &'static [&'static str])
        ensures
            r@ == model_weights(*self),
    {
        match self {
            SectorModel::Standard => &["30%", "25%", "25%", "20%"],
            SectorModel::Financials => &["35%", "25%", "25%", "15%"],
            SectorModel::RealEstate => &["35%", "25%", "25%", "15%"],
            SectorModel::Energy => &["25%", "30%", "30%", "15%"],
            SectorModel::Dividend => &["30%", "25%", "25%", "20%"],
        }
    }

    /// The labels of the four score slots, in slot order.
    pub fn labels(&self) -> (r: Vec<String>)
        ensures
            string_views(r@) == str_views(model_labels(*self)),
    {
        to_strings(self.label_strs())
    }

    /// The weights of the four score slots, in slot order.
    pub fn weights(&self) -> (r: Vec<String>)
        ensures
            string_views(r@) == str_views(model_weights(*self)),
    {
        to_strings(self.weight_strs())
    }
}

/// The model a sector name is scored with: that of the sector it resolves to
/// (Standard for any other sector, and for a name that resolves to none).
pub open spec fn model_of(sector: Seq<char>) -> SectorModel {
    match resolve_sector(sector) {
        Some(Sector::Financials) => SectorModel::Financials,
        Some(Sector::RealEstate) => SectorModel::RealEstate,
        Some(Sector::Energy) => SectorModel::Energy,
        Some(Sector::ConsumerStaples) => SectorModel::Dividend,
        Some(Sector::Utilities) => SectorModel::Dividend,
        _ => SectorModel::Standard,
    }
}

/// Picks the scoring model for a sector name: the name is resolved as the
/// screener resolves it (aliases included), and the sector decides the model.
pub fn sector_model(sector: &str) -> (r: SectorModel)
    ensures
        r == model_of(sector@),
{
    match resolve(sector) {
        Some(Sector::Financials) => SectorModel::Financials,
        Some(Sector::RealEstate) => SectorModel::RealEstate,
        Some(Sector::Energy) => SectorModel::Energy,
        Some(Sector::ConsumerStaples) => SectorModel::Dividend,
        Some(Sector::Utilities) => SectorModel::Dividend,
        _ => SectorModel::Standard,
    }
}

/// Two names that resolve to the same sector (a slug and its alias) are
/// scored with the same model.
pub proof fn law_alias_same_model(a: Seq<char>, b: Seq<char>)
    requires
        resolve_sector(a) == resolve_sector(b),
    ensures
        model_of(a) == model_of(b),
{
}

// ── Exchange and sector validation ──────────────────────────────────────────

/// The characters of an optional string slice.
pub open spec fn opt_str_view(p: Option<&str>) -> Option<Seq<char>> {
    match p {
        Some(s) => Some(s@),
        None => None,
    }
}

/// The exchange slug a query names: lowercased, "us" when absent.
pub open spec fn exchange_slug(param: Option<Seq<char>>) -> Seq<char> {
    match param {
        Some(p) => lowercase(p),
        None => "us"@,
    }
}

/// The message for an unsupported exchange.
pub open spec fn unknown_exchange_message(e: Seq<char>) -> Seq<char> {
    "Unknown exchange '"@ + e + "'. Supported: "@ + SUPPORTED_EXCHANGES@
}

/// The message for an unknown sector.
pub open spec fn unknown_sector_message(s: Seq<char>) -> Seq<char> {
    "Unknown sector '"@ + s + "'. Supported: "@ + SUPPORTED_SECTORS@
}

fn unknown_message(prefix: &str, name: &str, supported: &str) -> (r: String)
    ensures
        r@ == prefix@ + name@ + "'. Supported: "@ + supported@,
{
    let a = concat(prefix, name);
    let b = concat(a.as_str(), "'. Supported: ");
    concat(b.as_str(), supported)
}

/// Resolves the `exchange` query parameter: lowercased, defaulting to "us",
/// and refused with 422 unless it is a supported exchange.
pub fn resolve_exchange(param: Option<&str>) -> (r: Result<String, AppError>)
    ensures
        match r {
            Ok(e) => e@ == exchange_slug(opt_str_view(param)) && valid_exchange(e@),
            Err(AppError::Unprocessable(m)) => !valid_exchange(exchange_slug(opt_str_view(param)))
                && m@ == unknown_exchange_message(exchange_slug(opt_str_view(param))),
            Err(_) => false,
        },
{
    let e = match param {
        Some(p) => to_lowercase(p),
        None => owned("us"),
    };
    if is_valid_exchange(e.as_str()) {
        Ok(e)
    } else {
        Err(AppError::Unprocessable(unknown_message("Unknown exchange '", e.as_str(), SUPPORTED_EXCHANGES)))
    }
}

/// The US candidate universe of a sector: the loaded large-cap store when it
/// has anything, else (or when the store lacks the slug) the curated list.
pub open spec fn us_universe(store: Map<Seq<char>, Seq<Seq<char>>>, sector: Seq<char>) -> Option<
    Seq<Seq<char>>,
> {
    if store.dom().len() > 0 && store.contains_key(sector) {
        Some(store[sector])
    } else {
        match resolve_sector(sector) {
            Some(sec) => Some(str_views(sector_tickers(sec))),
            None => None,
        }
    }
}

fn clone_strings(s: &[String]) -> (r: Vec<String>)
    ensures
        string_views(r@) == string_views(s@),
{
    let mut out: Vec<String> = Vec::new();
    let mut i: usize = 0;
    while i < s.len()
        invariant
            i <= s@.len(),
            out@.len() == i,
            string_views(out@) == string_views(s@.take(i as int)),
        decreases s@.len() - i,
    {
        let ghost before = out@;
        out.push(s[i].clone());
        proof {
            let next = s@.take(i + 1);
            assert forall|j: int| 0 <= j < i + 1 implies #[trigger] string_views(out@)[j]
                == string_views(next)[j] by {
                if j < i {
                    assert(string_views(before)[j] == string_views(s@.take(i as int))[j]);
                }
            }
            assert(string_views(out@) =~= string_views(next));
        }
        i = i + 1;
    }
    assert(s@.take(s@.len() as int) =~= s@);
    out
}

/// The US candidate tickers for a sector, or 422 for an unknown sector.
pub fn us_candidates(store: &Sp500, sector: &str) -> (r: Result<Vec<String>, AppError>)
    ensures
        match r {
            Ok(t) => us_universe(store@, sector@) == Some(string_views(t@)),
            Err(AppError::Unprocessable(m)) => us_universe(store@, sector@) is None
                && m@ == unknown_sector_message(sector@),
            Err(_) => false,
        },
{
    if store.is_loaded() {
        if let Some(t) = store.tickers_for_sector(sector) {
            proof {
                assert(string_views(t@) == t@.map_values(|s: String| s@));
            }
            return Ok(clone_strings(t));
        }
    }
    match tickers_for_sector(sector) {
        Some(t) => Ok(to_strings(t)),
        None => Err(AppError::Unprocessable(unknown_message("Unknown sector '", sector, SUPPORTED_SECTORS))),
    }
}

/// The FMP sector of a non-US screen, or 422 for an unknown sector.
pub fn fmp_sector_for(sector: &str) -> (r: Result<&'static str, AppError>)
    ensures
        match r {
            Ok(s) => resolve_sector(sector@) matches Some(sec) && s == fmp_sector_name(sec),
            Err(AppError::Unprocessable(m)) => resolve_sector(sector@) is None
                && m@ == unknown_sector_message(sector@),
            Err(_) => false,
        },
{
    match slug_to_fmp_sector(sector) {
        Some(s) => Ok(s),
        None => Err(AppError::Unprocessable(unknown_message("Unknown sector '", sector, SUPPORTED_SECTORS))),
    }
}

/// The key a cached screen is stored under: the bare sector slug for US
/// screens (the key the background refresh writes), `exchange:sector` for
/// the others.
pub open spec fn screen_cache_key(exchange: Seq<char>, sector: Seq<char>) -> Seq<char> {
    if exchange == "us"@ {
        sector
    } else {
        exchange + ":"@ + sector
    }
}

/// The cache key of a screen.
pub fn cache_key(exchange: &str, sector: &str) -> (r: String)
    ensures
        r@ == screen_cache_key(exchange@, sector@),
{
    if str_eq(exchange, "us") {
        owned(sector)
    } else {
        let a = concat(exchange, ":");
        concat(a.as_str(), sector)
    }
}

/// Screens of different exchanges or sectors never share a cache entry.
pub proof fn law_cache_keys_distinct(e1: Seq<char>, s1: Seq<char>, e2: Seq<char>, s2: Seq<char>)
    requires
        valid_exchange(e1),
        valid_exchange(e2),
        !s1.contains(':'),
        !s2.contains(':'),
        screen_cache_key(e1, s1) == screen_cache_key(e2, s2),
    ensures
        e1 == e2 && s1 == s2,
{
    reveal_strlit("us");
    reveal_strlit("lse");
    reveal_strlit(":");
    let k = screen_cache_key(e1, s1);
    if e1 == "lse"@ && e2 == "lse"@ {
        assert(s1 =~= k.subrange(4, k.len() as int));
        assert(s2 =~= k.subrange(4, k.len() as int));
    } else if e1 == "lse"@ {
        assert(k[3] == ':');
        assert(s2[3] == ':');
        assert(s2.contains(':'));
    } else if e2 == "lse"@ {
        assert(k[3] == ':');
        assert(s1[3] == ':');
        assert(s1.contains(':'));
    }
}

// ── Market-cap pre-filter ───────────────────────────────────────────────────

/// The market cap recorded for a ticker: the last entry for it, 0 when absent.
pub open spec fn cap_of(caps: Seq<(String, u64)>, t: Seq<char>) -> u64
    decreases caps.len(),
{
    if caps.len() == 0 {
        0
    } else if caps.last().0@ == t {
        caps.last().1
    } else {
        cap_of(caps.drop_last(), t)
    }
}

/// Each ticker paired with its market cap.
pub open spec fn with_caps(tickers: Seq<String>, caps: Seq<(String, u64)>) -> Seq<(String, u64)> {
    tickers.map_values(|t: String| (t, cap_of(caps, t@)))
}

/// Up to `SCORE_TOP_N` tickers: the first ones when no market cap is known,
/// else the largest by market cap (ties keep their order, unknown caps count as 0).
pub open spec fn top_by_cap(tickers: Seq<String>, caps: Seq<(String, u64)>) -> Seq<Seq<char>> {
    if caps.len() == 0 {
        string_views(tickers.take(min_n(tickers.len(), SCORE_TOP_N as nat) as int))
    } else {
        let ranked = stable_sorted(with_caps(tickers, caps), true);
        crate::sp500::symbols_of(ranked.take(min_n(ranked.len(), SCORE_TOP_N as nat) as int))
    }
}

pub open spec fn min_n(a: nat, b: nat) -> nat {
    if a < b {
        a
    } else {
        b
    }
}

fn lookup_cap(caps: &[(String, u64)], t: &str) -> (r: u64)
    ensures
        r == cap_of(caps@, t@),
{
    let mut i: usize = caps.len();
    assert(caps@.take(caps@.len() as int) =~= caps@);
    while i > 0
        invariant
            i <= caps@.len(),
            cap_of(caps@, t@) == cap_of(caps@.take(i as int), t@),
        decreases i,
    {
        let ghost pre = caps@.take(i as int);
        proof {
            assert(pre.drop_last() =~= caps@.take(i - 1));
        }
        if str_eq(caps[i - 1].0.as_str(), t) {
            return caps[i - 1].1;
        }
        i = i - 1;
    }
    0
}

proof fn lemma_sorted_from(w: Seq<(String, u64)>, i: int)
    requires
        0 <= i < stable_sorted(w, true).len(),
        stable_sorted(w, true).to_multiset() == w.to_multiset(),
    ensures
        exists|j: int| 0 <= j < w.len() && w[j] == stable_sorted(w, true)[i],
{
    let ranked = stable_sorted(w, true);
    let x = ranked[i];
    ranked.to_multiset_ensures();
    w.to_multiset_ensures();
    assert(ranked.contains(x));
    assert(ranked.to_multiset().count(x) > 0);
    assert(w.to_multiset().count(x) > 0);
    assert(w.contains(x));
}

/// The pre-filter keeps `SCORE_TOP_N` tickers (all of them when there are
/// fewer), each one of the candidates, largest market cap first when caps
/// are known.
pub proof fn law_top_by_cap_picks(tickers: Seq<String>, caps: Seq<(String, u64)>)
    ensures
        top_by_cap(tickers, caps).len() == min_n(tickers.len(), SCORE_TOP_N as nat),
        forall|i: int|
            0 <= i < top_by_cap(tickers, caps).len() ==> string_views(tickers).contains(#[trigger] top_by_cap(tickers, caps)[i]),
        caps.len() > 0 ==> forall|i: int, j: int|
            0 <= i < j < top_by_cap(tickers, caps).len() ==> cap_of(caps, #[trigger] top_by_cap(tickers, caps)[i]) >= cap_of(
                caps,
                #[trigger] top_by_cap(tickers, caps)[j],
            ),
{
    let n = min_n(tickers.len(), SCORE_TOP_N as nat);
    let r = top_by_cap(tickers, caps);
    if caps.len() == 0 {
        assert forall|i: int| 0 <= i < r.len() implies string_views(tickers).contains(#[trigger] r[i]) by {
            assert(r[i] == string_views(tickers)[i]);
        }
    } else {
        let w = with_caps(tickers, caps);
        let ranked = stable_sorted(w, true);
        crate::sorting::law_stable_sort_sorted_permutation(w, true);
        assert(ranked.len() == tickers.len());
        assert forall|i: int| 0 <= i < r.len() implies string_views(tickers).contains(#[trigger] r[i]) by {
            assert(r[i] == ranked[i].0@);
            lemma_sorted_from(w, i);
            let j = choose|j: int| 0 <= j < w.len() && w[j] == ranked[i];
            assert(string_views(tickers)[j] == r[i]);
        }
        assert forall|i: int, j: int| 0 <= i < j < r.len() implies cap_of(caps, #[trigger] r[i]) >= cap_of(caps, #[trigger] r[j]) by {
            assert(r[i] == ranked[i].0@);
            assert(r[j] == ranked[j].0@);
            lemma_sorted_from(w, i);
            lemma_sorted_from(w, j);
            let a = choose|a: int| 0 <= a < w.len() && w[a] == ranked[i];
            let b = choose|b: int| 0 <= b < w.len() && w[b] == ranked[j];
            assert(ranked[i].1 == cap_of(caps, tickers[a]@));
            assert(ranked[j].1 == cap_of(caps, tickers[b]@));
            assert(!crate::sorting::key_before(ranked[j].1, ranked[i].1, true));
        }
    }
}

/// Returns up to `SCORE_TOP_N` tickers sorted by market cap descending.
/// `caps` holds the market caps that could be fetched, one entry per ticker.
pub fn top_by_market_cap(tickers: &[String], caps: &[(String, u64)]) -> (r: Vec<String>)
    ensures
        string_views(r@) == top_by_cap(tickers@, caps@),
{
    assert(caps@.take(caps@.len() as int) =~= caps@);
    if caps.len() == 0 {
        let n = if tickers.len() < SCORE_TOP_N { tickers.len() } else { SCORE_TOP_N };
        let mut out: Vec<String> = Vec::new();
        let mut i: usize = 0;
        while i < n
            invariant
                n <= tickers@.len(),
                i <= n,
                out@.len() == i,
                string_views(out@) == string_views(tickers@.take(i as int)),
            decreases n - i,
        {
            let ghost before = out@;
            out.push(tickers[i].clone());
            proof {
                let next = tickers@.take(i + 1);
                assert forall|j: int| 0 <= j < i + 1 implies #[trigger] string_views(out@)[j]
                    == string_views(next)[j] by {
                    if j < i {
                        assert(string_views(before)[j] == string_views(tickers@.take(i as int))[j]);
                    }
                }
                assert(string_views(out@) =~= string_views(next));
            }
            i = i + 1;
        }
        return out;
    }
    let mut paired: Vec<(String, u64)> = Vec::new();
    let mut i: usize = 0;
    while i < tickers.len()
        invariant
            i <= tickers@.len(),
            paired@.len() == i,
            forall|j: int| 0 <= j < i ==> #[trigger] paired@[j] == with_caps(tickers@, caps@)[j],
        decreases tickers@.len() - i,
    {
        let t = tickers[i].clone();
        let c = lookup_cap(caps, t.as_str());
        paired.push((t, c));
        i = i + 1;
    }
    assert(paired@ =~= with_caps(tickers@, caps@));
    let ranked = stable_sort_by_key(paired, true);
    let n = if ranked.len() < SCORE_TOP_N { ranked.len() } else { SCORE_TOP_N };
    let mut out: Vec<String> = Vec::new();
    let mut k: usize = 0;
    while k < n
        invariant
            n <= ranked@.len(),
            k <= n,
            out@.len() == k,
            string_views(out@) == crate::sp500::symbols_of(ranked@.take(k as int)),
        decreases n - k,
    {
        let ghost before = out@;
        out.push(ranked[k].0.clone());
        proof {
            let next = ranked@.take(k + 1);
            assert forall|j: int| 0 <= j < k + 1 implies #[trigger] string_views(out@)[j]
                == crate::sp500::symbols_of(next)[j] by {
                if j < k {
                    assert(string_views(before)[j] == crate::sp500::symbols_of(ranked@.take(k as int))[j]);
                }
            }
            assert(string_views(out@) =~= crate::sp500::symbols_of(next));
        }
        k = k + 1;
    }
    out
}

} // verus!
