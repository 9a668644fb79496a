//! Request and response bodies of the HTTP API that carry no floating-point
//! fields, and the conversions between them.

use vstd::prelude::*;
use crate::fmp::{FmpProfile, SearchResult};
use crate::text::owned;

verus! {

/// Health check response.
pub struct HealthResponse {
    pub status: String,
    pub version: String,
}

impl HealthResponse {
    /// The response of a healthy service of the given version.
    pub fn healthy(version: &str) -> (r: Self)
        ensures
            r.status@ == "ok"@,
            r.version@ == version@,
    {
        HealthResponse { status: owned("ok"), version: owned(version) }
    }
}

/// Piotroski F-Score (0–9) with individual signal breakdown.
pub struct PiotroskiResponse {
    pub ticker: String,
    /// Total score 0–9. ≥7 = strong, 3–6 = moderate, ≤2 = weak.
    pub score: u8,
    pub f1_roa_positive: bool,
    pub f2_ocf_positive: bool,
    pub f3_roa_increasing: bool,
    pub f4_accrual_quality: bool,
    pub f5_leverage_decreasing: bool,
    pub f6_current_ratio_improving: bool,
    pub f7_no_dilution: bool,
    pub f8_gross_margin_improving: bool,
    pub f9_asset_turnover_improving: bool,
    pub interpretation: String,
}

pub open spec fn bit(b: bool) -> nat {
    if b {
        1
    } else {
        0
    }
}

/// How many of the first `n` signals hold.
pub open spec fn count_first(s: [bool; 9], n: nat) -> nat
    decreases n,
{
    if n == 0 {
        0
    } else {
        count_first(s, (n - 1) as nat) + bit(s[n - 1])
    }
}

/// How many of the nine signals hold.
pub open spec fn signal_count(s: [bool; 9]) -> nat {
    count_first(s, 9)
}

/// The reading of an F-Score.
pub open spec fn piotroski_reading(score: nat) -> Seq<char> {
    if score >= 7 {
        "Strong (≥7): high-quality company with improving fundamentals"@
    } else if score >= 3 {
        "Moderate (3–6): average quality — verify trend direction"@
    } else {
        "Weak (≤2): poor fundamentals or deteriorating — exercise caution"@
    }
}

proof fn lemma_count_first_raise(a: [bool; 9], b: [bool; 9], k: int, n: nat)
    requires
        0 <= k < 9,
        n <= 9,
        !a[k],
        b[k],
        forall|i: int| 0 <= i < 9 && i != k ==> a[i] == b[i],
    ensures
        count_first(b, n) == count_first(a, n) + (if k < n { 1int } else { 0int }),
    decreases n,
{
    if n > 0 {
        lemma_count_first_raise(a, b, k, (n - 1) as nat);
    }
}

/// The score counts every signal: raising any one of the nine signals from
/// false to true, the others unchanged, raises the score by exactly one.
pub proof fn law_signal_count_raise(a: [bool; 9], b: [bool; 9], k: int)
    requires
        0 <= k < 9,
        !a[k],
        b[k],
        forall|i: int| 0 <= i < 9 && i != k ==> a[i] == b[i],
    ensures
        signal_count(b) == signal_count(a) + 1,
{
    lemma_count_first_raise(a, b, k, 9);
}

proof fn lemma_count_first_bounds(s: [bool; 9], n: nat)
    requires
        n <= 9,
    ensures
        count_first(s, n) <= n,
        (forall|i: int| 0 <= i < n ==> !s[i]) ==> count_first(s, n) == 0,
        (forall|i: int| 0 <= i < n ==> s[i]) ==> count_first(s, n) == n,
    decreases n,
{
    if n > 0 {
        lemma_count_first_bounds(s, (n - 1) as nat);
    }
}

/// The score runs from 0 to 9: 0 when no signal holds, 9 when all hold.
pub proof fn law_signal_count_range(s: [bool; 9])
    ensures
        signal_count(s) <= 9,
        (forall|i: int| 0 <= i < 9 ==> !s[i]) ==> signal_count(s) == 0,
        (forall|i: int| 0 <= i < 9 ==> s[i]) ==> signal_count(s) == 9,
{
    lemma_count_first_bounds(s, 9);
}

/// The reading's band: 7 or more reads strong, 3 to 6 moderate, 2 or less
/// weak.
pub proof fn law_reading_bands(n: nat)
    ensures
        n >= 7 ==> piotroski_reading(n).subrange(0, 6) == "Strong"@,
        3 <= n <= 6 ==> piotroski_reading(n).subrange(0, 8) == "Moderate"@,
        n <= 2 ==> piotroski_reading(n).subrange(0, 4) == "Weak"@,
{
    reveal_strlit("Strong");
    reveal_strlit("Moderate");
    reveal_strlit("Weak");
    reveal_strlit("Strong (≥7): high-quality company with improving fundamentals");
    reveal_strlit("Moderate (3–6): average quality — verify trend direction");
    reveal_strlit("Weak (≤2): poor fundamentals or deteriorating — exercise caution");
    assert("Strong (≥7): high-quality company with improving fundamentals"@.subrange(0, 6) =~= "Strong"@);
    assert("Moderate (3–6): average quality — verify trend direction"@.subrange(0, 8) =~= "Moderate"@);
    assert("Weak (≤2): poor fundamentals or deteriorating — exercise caution"@.subrange(0, 4) =~= "Weak"@);
}

impl PiotroskiResponse {
    /// The F-Score of the nine signals F1..F9, in order: the number that hold,
    /// with its reading.
    pub fn from_signals(ticker: &str, signals: [bool; 9]) -> (r: Self)
        ensures
            r.ticker@ == ticker@,
            r.score as nat == signal_count(signals),
            r.interpretation@ == piotroski_reading(signal_count(signals)),
            r.f1_roa_positive == signals[0],
            r.f2_ocf_positive == signals[1],
            r.f3_roa_increasing == signals[2],
            r.f4_accrual_quality == signals[3],
            r.f5_leverage_decreasing == signals[4],
            r.f6_current_ratio_improving == signals[5],
            r.f7_no_dilution == signals[6],
            r.f8_gross_margin_improving == signals[7],
            r.f9_asset_turnover_improving == signals[8],
    {
        let mut score: u8 = 0;
        let mut i: usize = 0;
        while i < 9
            invariant
                i <= 9,
                score as nat == count_first(signals, i as nat),
                score <= i,
            decreases 9 - i,
        {
            if signals[i] {
                score = score + 1;
            }
            i = i + 1;
        }
        let interpretation = if score >= 7 {
            owned("Strong (≥7): high-quality company with improving fundamentals")
        } else if score >= 3 {
            owned("Moderate (3–6): average quality — verify trend direction")
        } else {
            owned("Weak (≤2): poor fundamentals or deteriorating — exercise caution")
        };
        PiotroskiResponse {
            ticker: owned(ticker),
            score,
            f1_roa_positive: signals[0],
            f2_ocf_positive: signals[1],
            f3_roa_increasing: signals[2],
            f4_accrual_quality: signals[3],
            f5_leverage_decreasing: signals[4],
            f6_current_ratio_improving: signals[5],
            f7_no_dilution: signals[6],
            f8_gross_margin_improving: signals[7],
            f9_asset_turnover_improving: signals[8],
            interpretation,
        }
    }
}

// ── Search ──────────────────────────────────────────────────────────────────

pub struct StockSearchResult {
    pub symbol: String,
    pub name: String,
    pub exchange: Option<String>,
    pub exchange_short: Option<String>,
}

pub struct StockSearchResponse {
    pub results: Vec<StockSearchResult>,
}

fn clone_opt(s: &Option<String>) -> (r: Option<String>)
    ensures
        r == *s,
{
    match s {
        Some(v) => Some(v.clone()),
        None => None,
    }
}

impl StockSearchResult {
    /// The API's view of a provider search result.
    pub fn from_search(r: &SearchResult) -> (s: Self)
        ensures
            s.symbol == r.symbol,
            s.name == r.name,
            s.exchange == r.stock_exchange,
            s.exchange_short == r.exchange_short_name,
    {
        StockSearchResult {
            symbol: r.symbol.clone(),
            name: r.name.clone(),
            exchange: clone_opt(&r.stock_exchange),
            exchange_short: clone_opt(&r.exchange_short_name),
        }
    }
}

impl StockSearchResponse {
    /// The search response for provider results, in order.
    pub fn from_results(rs: &Vec<SearchResult>) -> (r: Self)
        ensures
            r.results@.len() == rs@.len(),
            forall|i: int| 0 <= i < rs@.len() ==> (#[trigger] r.results@[i]).symbol == rs@[i].symbol
                && r.results@[i].name == rs@[i].name && r.results@[i].exchange == rs@[i].stock_exchange
                && r.results@[i].exchange_short == rs@[i].exchange_short_name,
    {
        let mut results: Vec<StockSearchResult> = Vec::new();
        let mut i: usize = 0;
        while i < rs.len()
            invariant
                i <= rs@.len(),
                results@.len() == i,
                forall|j: int| 0 <= j < i ==> (#[trigger] results@[j]).symbol == rs@[j].symbol
                    && results@[j].name == rs@[j].name && results@[j].exchange == rs@[j].stock_exchange
                    && results@[j].exchange_short == rs@[j].exchange_short_name,
            decreases rs@.len() - i,
        {
            results.push(StockSearchResult::from_search(&rs[i]));
            i = i + 1;
        }
        StockSearchResponse { results }
    }
}

// ── Auth ────────────────────────────────────────────────────────────────────

pub struct RegisterRequest {
    pub email: String,
    pub password: String,
    /// Invite code assigned to this email address by an admin.
    pub invite_code: String,
    /// Optional display name shown in community portfolios instead of the email prefix.
    pub display_name: Option<String>,
}

pub struct CreateInviteRequest {
    /// The email address this code is reserved for.
    pub email: String,
}

pub struct LoginRequest {
    pub email: String,
    pub password: String,
}

pub struct AuthResponse {
    pub token: String,
}

pub struct UpdateProfileRequest {
    /// A non-empty display name, or none to clear it.
    pub display_name: Option<String>,
}

pub struct ChangePasswordRequest {
    pub current_password: String,
    pub new_password: String,
}

pub struct ForgotPasswordRequest {
    pub email: String,
}

pub struct ResetPasswordRequest {
    pub token: String,
    pub new_password: String,
}

// ── Feedback, keys, portfolios ──────────────────────────────────────────────

pub struct SubmitFeedbackRequest {
    pub message: String,
}

pub struct UpsertFmpKeyRequest {
    pub fmp_key: String,
}

pub struct CreatePortfolioRequest {
    pub name: String,
    pub is_public: bool,
}

pub struct UpdatePortfolioRequest {
    pub is_public: bool,
}

pub struct FeedbackFilter {
    pub unread_only: Option<bool>,
}

impl FeedbackFilter {
    /// Whether only unread feedback is listed (default: all).
    pub fn unread_only(&self) -> (r: bool)
        ensures
            r == (self.unread_only == Some(true)),
    {
        match self.unread_only {
            Some(b) => b,
            None => false,
        }
    }
}

// ── Company profile and news ────────────────────────────────────────────────

pub struct CompanyProfileResponse {
    pub ticker: String,
    pub description: String,
    pub sector: Option<String>,
    pub industry: Option<String>,
    pub website: Option<String>,
    pub employees: Option<i64>,
}

impl CompanyProfileResponse {
    /// The profile of a ticker; a missing description reads as empty.
    pub fn from_profile(ticker: &str, p: &FmpProfile) -> (r: Self)
        ensures
            r.ticker@ == ticker@,
            r.description@ == (match p.description {
                Some(d) => d@,
                None => Seq::empty(),
            }),
            r.sector == p.sector,
            r.industry == p.industry,
            r.website == p.website,
            r.employees == p.full_time_employees,
    {
        CompanyProfileResponse {
            ticker: owned(ticker),
            description: match &p.description {
                Some(d) => d.clone(),
                None => String::new(),
            },
            sector: clone_opt(&p.sector),
            industry: clone_opt(&p.industry),
            website: clone_opt(&p.website),
            employees: p.full_time_employees,
        }
    }
}

/// One news item from the Yahoo Finance RSS feed.
pub struct RssNewsItem {
    pub title: String,
    pub url: String,
    /// ISO 8601 publish date, converted from the feed's RFC 2822 date.
    pub published: Option<String>,
    pub source: Option<String>,
    pub summary: Option<String>,
}

pub struct NewsItem {
    pub title: String,
    pub url: String,
    /// ISO 8601 publish date.
    pub published: Option<String>,
    pub source: Option<String>,
    pub summary: Option<String>,
}

pub struct CompanyNewsResponse {
    pub ticker: String,
    pub items: Vec<NewsItem>,
}

impl NewsItem {
    /// The API's view of a feed item (same fields).
    pub fn from_rss(i: &RssNewsItem) -> (r: Self)
        ensures
            r.title == i.title,
            r.url == i.url,
            r.published == i.published,
            r.source == i.source,
            r.summary == i.summary,
    {
        NewsItem {
            title: i.title.clone(),
            url: i.url.clone(),
            published: clone_opt(&i.published),
            source: clone_opt(&i.source),
            summary: clone_opt(&i.summary),
        }
    }
}

impl CompanyNewsResponse {
    /// The news response for a ticker's feed items, in order.
    pub fn from_items(ticker: &str, items: &Vec<RssNewsItem>) -> (r: Self)
        ensures
            r.ticker@ == ticker@,
            r.items@.len() == items@.len(),
            forall|k: int| 0 <= k < items@.len() ==> (#[trigger] r.items@[k]).title == items@[k].title
                && r.items@[k].url == items@[k].url && r.items@[k].published == items@[k].published
                && r.items@[k].source == items@[k].source && r.items@[k].summary == items@[k].summary,
    {
        let mut out: Vec<NewsItem> = Vec::new();
        let mut k: usize = 0;
        while k < items.len()
            invariant
                k <= items@.len(),
                out@.len() == k,
                forall|j: int| 0 <= j < k ==> (#[trigger] out@[j]).title == items@[j].title
                    && out@[j].url == items@[j].url && out@[j].published == items@[j].published
                    && out@[j].source == items@[j].source && out@[j].summary == items@[j].summary,
            decreases items@.len() - k,
        {
            out.push(NewsItem::from_rss(&items[k]));
            k = k + 1;
        }
        CompanyNewsResponse { ticker: owned(ticker), items: out }
    }
}

// ── Chat ────────────────────────────────────────────────────────────────────

pub struct ChatHistoryItem {
    pub role: String,
    pub content: String,
}

pub struct ChatRequest {
    pub question: String,
    pub history: Vec<ChatHistoryItem>,
}

// ── Screener and discovery queries ──────────────────────────────────────────

pub struct ScreenerQuery {
    /// Exchange slug to screen. Defaults to "us" (NYSE/NASDAQ). Supported: us, lse.
    pub exchange: Option<String>,
}

pub struct DiscoveryQuery {
    /// Required sector slug (e.g. "technology").
    pub sector: Option<String>,
    /// Exchange slug to screen. Defaults to "us" (NYSE/NASDAQ). Supported: us, lse.
    pub exchange: Option<String>,
}

} // verus!
