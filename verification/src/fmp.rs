//! Financial Modeling Prep responses: ticker search results, company
//! profiles, company-screener candidates, and the rules applied to them.

use vstd::prelude::*;
use crate::error::AppError;
use crate::sp500::string_views;
use crate::text::{str_eq, chars_of, string_from_chars};

verus! {

/// Ticker/company search result.
pub struct SearchResult {
    pub symbol: String,
    pub name: String,
    pub stock_exchange: Option<String>,
    pub exchange_short_name: Option<String>,
}

/// Company description, sector, industry, website, employee count.
pub struct FmpProfile {
    pub description: Option<String>,
    pub sector: Option<String>,
    pub industry: Option<String>,
    pub website: Option<String>,
    pub full_time_employees: Option<i64>,
}

/// A market-cap/sector-filtered company from the company screener. `N` is
/// the type of the market cap and price.
pub struct ScreenerCandidate<N> {
    pub symbol: String,
    pub company_name: String,
    pub market_cap: N,
    pub sector: Option<String>,
    pub industry: Option<String>,
    pub exchange_short_name: Option<String>,
    pub price: Option<N>,
    pub is_etf: bool,
    pub is_fund: bool,
    pub is_actively_trading: bool,
}

/// A candidate the screener keeps: an actively trading company, not an ETF or fund.
pub open spec fn is_tradable_company<N>(c: ScreenerCandidate<N>) -> bool {
    !c.is_etf && !c.is_fund && c.is_actively_trading
}

/// The kept candidates, in order.
pub open spec fn tradable<N>(cs: Seq<ScreenerCandidate<N>>) -> Seq<ScreenerCandidate<N>>
    decreases cs.len(),
{
    if cs.len() == 0 {
        Seq::empty()
    } else if is_tradable_company(cs.last()) {
        tradable(cs.drop_last()).push(cs.last())
    } else {
        tradable(cs.drop_last())
    }
}

impl<N: Copy> ScreenerCandidate<N> {
    /// An identical copy.
    pub fn duplicate(&self) -> (r: Self)
        ensures
            r == *self,
    {
        ScreenerCandidate {
            symbol: self.symbol.clone(),
            company_name: self.company_name.clone(),
            market_cap: self.market_cap,
            sector: clone_opt(&self.sector),
            industry: clone_opt(&self.industry),
            exchange_short_name: clone_opt(&self.exchange_short_name),
            price: self.price,
            is_etf: self.is_etf,
            is_fund: self.is_fund,
            is_actively_trading: self.is_actively_trading,
        }
    }
}

/// Drops ETFs, funds and companies not actively trading.
pub fn keep_tradable<N: Copy>(cs: &Vec<ScreenerCandidate<N>>) -> (r: Vec<ScreenerCandidate<N>>)
    ensures
        r@ == tradable(cs@),
{
    let mut out: Vec<ScreenerCandidate<N>> = Vec::new();
    let mut i: usize = 0;
    while i < cs.len()
        invariant
            i <= cs@.len(),
            out@ == tradable(cs@.take(i as int)),
        decreases cs@.len() - i,
    {
        proof {
            assert(cs@.take(i + 1).drop_last() =~= cs@.take(i as int));
        }
        let c = &cs[i];
        if !c.is_etf && !c.is_fund && c.is_actively_trading {
            out.push(c.duplicate());
        }
        i = i + 1;
    }
    assert(cs@.take(cs@.len() as int) =~= cs@);
    out
}

// ── Search merge ────────────────────────────────────────────────────────────

/// The results of both lists, symbol matches first, each symbol once (the
/// first result for it stays), cut to `limit`.
pub open spec fn merged_symbols(a: Seq<SearchResult>, b: Seq<SearchResult>) -> Seq<SearchResult> {
    first_per_symbol(a + b)
}

/// Each symbol's first result, in order.
pub open spec fn first_per_symbol(rs: Seq<SearchResult>) -> Seq<SearchResult>
    decreases rs.len(),
{
    if rs.len() == 0 {
        Seq::empty()
    } else if symbols(first_per_symbol(rs.drop_last())).contains(rs.last().symbol@) {
        first_per_symbol(rs.drop_last())
    } else {
        first_per_symbol(rs.drop_last()).push(rs.last())
    }
}

pub open spec fn symbols(rs: Seq<SearchResult>) -> Seq<Seq<char>> {
    rs.map_values(|r: SearchResult| r.symbol@)
}

proof fn lemma_first_per_symbol(rs: Seq<SearchResult>)
    ensures
        forall|i: int, j: int|
            0 <= i < j < first_per_symbol(rs).len() ==> (#[trigger] first_per_symbol(rs)[i]).symbol@ != (#[trigger] first_per_symbol(rs)[j]).symbol@,
        forall|k: int| 0 <= k < rs.len() ==> symbols(first_per_symbol(rs)).contains(#[trigger] rs[k].symbol@),
        forall|i: int| 0 <= i < first_per_symbol(rs).len() ==> rs.contains(#[trigger] first_per_symbol(rs)[i]),
    decreases rs.len(),
{
    if rs.len() > 0 {
        let prev = rs.drop_last();
        let m = first_per_symbol(prev);
        lemma_first_per_symbol(prev);
        let x = rs.last();
        assert forall|k: int| 0 <= k < rs.len() implies symbols(first_per_symbol(rs)).contains(#[trigger] rs[k].symbol@) by {
            if k < rs.len() - 1 {
                assert(rs[k] == prev[k]);
                let p = choose|p: int| 0 <= p < symbols(m).len() && symbols(m)[p] == prev[k].symbol@;
                if !symbols(m).contains(x.symbol@) {
                    assert(symbols(m.push(x))[p] == symbols(m)[p]);
                }
            } else if !symbols(m).contains(x.symbol@) {
                assert(symbols(m.push(x))[m.len() as int] == x.symbol@);
            }
        }
        assert forall|i: int| 0 <= i < first_per_symbol(rs).len() implies rs.contains(#[trigger] first_per_symbol(rs)[i]) by {
            if i < m.len() {
                let k = choose|k: int| 0 <= k < prev.len() && prev[k] == m[i];
                assert(rs[k] == prev[k]);
            } else {
                assert(rs[rs.len() - 1] == x);
            }
        }
        if !symbols(m).contains(x.symbol@) {
            assert forall|i: int| 0 <= i < m.len() implies (#[trigger] m[i]).symbol@ != x.symbol@ by {
                assert(symbols(m)[i] == m[i].symbol@);
            }
        }
    }
}

/// The merged search results name each symbol once, every symbol found by
/// either search is among them (before the cut to the limit), and each
/// result is one that a search returned.
pub proof fn law_merged_symbols(by_symbol: Seq<SearchResult>, by_name: Seq<SearchResult>)
    ensures
        forall|i: int, j: int|
            0 <= i < j < merged_symbols(by_symbol, by_name).len() ==> (#[trigger] merged_symbols(by_symbol, by_name)[i]).symbol@
                != (#[trigger] merged_symbols(by_symbol, by_name)[j]).symbol@,
        forall|k: int| 0 <= k < by_symbol.len() ==> symbols(merged_symbols(by_symbol, by_name)).contains(#[trigger] by_symbol[k].symbol@),
        forall|k: int| 0 <= k < by_name.len() ==> symbols(merged_symbols(by_symbol, by_name)).contains(#[trigger] by_name[k].symbol@),
        forall|i: int|
            0 <= i < merged_symbols(by_symbol, by_name).len() ==> (by_symbol + by_name).contains(#[trigger] merged_symbols(by_symbol, by_name)[i]),
{
    let all = by_symbol + by_name;
    lemma_first_per_symbol(all);
    assert forall|k: int| 0 <= k < by_symbol.len() implies symbols(merged_symbols(by_symbol, by_name)).contains(#[trigger] by_symbol[k].symbol@) by {
        assert(all[k] == by_symbol[k]);
    }
    assert forall|k: int| 0 <= k < by_name.len() implies symbols(merged_symbols(by_symbol, by_name)).contains(#[trigger] by_name[k].symbol@) by {
        assert(all[by_symbol.len() + k] == by_name[k]);
    }
}

fn has_symbol(rs: &Vec<SearchResult>, s: &str) -> (r: bool)
    ensures
        r == symbols(rs@).contains(s@),
{
    let mut i: usize = 0;
    while i < rs.len()
        invariant
            i <= rs@.len(),
            forall|j: int| 0 <= j < i ==> #[trigger] rs@[j].symbol@ != s@,
        decreases rs@.len() - i,
    {
        if str_eq(rs[i].symbol.as_str(), s) {
            assert(symbols(rs@)[i as int] == s@);
            return true;
        }
        i = i + 1;
    }
    assert forall|j: int| 0 <= j < symbols(rs@).len() implies symbols(rs@)[j] != s@ by {
        assert(rs@[j].symbol@ != s@);
    }
    false
}

fn clone_opt(s: &Option<String>) -> (r: Option<String>)
    ensures
        r == *s,
{
    match s {
        Some(v) => Some(v.clone()),
        None => None,
    }
}

impl SearchResult {
    /// An identical copy.
    pub fn duplicate(&self) -> (r: Self)
        ensures
            r == *self,
    {
        SearchResult {
            symbol: self.symbol.clone(),
            name: self.name.clone(),
            stock_exchange: clone_opt(&self.stock_exchange),
            exchange_short_name: clone_opt(&self.exchange_short_name),
        }
    }
}

fn add_unseen(out: &mut Vec<SearchResult>, rs: &Vec<SearchResult>, Ghost(prefix): Ghost<Seq<SearchResult>>)
    requires
        old(out)@ == first_per_symbol(prefix),
    ensures
        final(out)@ == first_per_symbol(prefix + rs@),
{
    let mut i: usize = 0;
    assert(prefix + rs@.take(0) =~= prefix);
    while i < rs.len()
        invariant
            i <= rs@.len(),
            out@ == first_per_symbol(prefix + rs@.take(i as int)),
        decreases rs@.len() - i,
    {
        proof {
            assert((prefix + rs@.take(i + 1)).drop_last() =~= prefix + rs@.take(i as int));
            assert((prefix + rs@.take(i + 1)).last() == rs@[i as int]);
        }
        if !has_symbol(out, rs[i].symbol.as_str()) {
            out.push(rs[i].duplicate());
        }
        i = i + 1;
    }
    assert(rs@.take(rs@.len() as int) =~= rs@);
}

/// Merges symbol-search and name-search results: symbol matches first, each
/// symbol once, at most `limit` results.
pub fn merge_search_results(by_symbol: &Vec<SearchResult>, by_name: &Vec<SearchResult>, limit: u32) -> (r: Vec<SearchResult>)
    ensures
        r@ == merged_symbols(by_symbol@, by_name@).take(
            if merged_symbols(by_symbol@, by_name@).len() < limit {
                merged_symbols(by_symbol@, by_name@).len() as int
            } else {
                limit as int
            },
        ),
{
    let mut out: Vec<SearchResult> = Vec::new();
    assert(Seq::<SearchResult>::empty() + by_symbol@ =~= by_symbol@);
    add_unseen(&mut out, by_symbol, Ghost(Seq::empty()));
    add_unseen(&mut out, by_name, Ghost(by_symbol@));
    if (out.len() as u64) > (limit as u64) {
        out.truncate(limit as usize);
    } else {
        assert(out@.take(out@.len() as int) =~= out@);
    }
    out
}

// ── Employee counts ─────────────────────────────────────────────────────────

/// Whether every character is an ASCII decimal digit.
pub open spec fn all_digits(s: Seq<char>) -> bool {
    forall|i: int| 0 <= i < s.len() ==> '0' <= #[trigger] s[i] && s[i] <= '9'
}

/// The value of a run of decimal digits.
pub open spec fn digits_value(s: Seq<char>) -> int
    decreases s.len(),
{
    if s.len() == 0 {
        0
    } else {
        digits_value(s.drop_last()) * 10 + (s.last() as int - '0' as int)
    }
}

/// What `str::parse::<i64>` reads from a text: an optional `+` or `-` sign
/// followed by one or more ASCII digits, with a value in the `i64` range;
/// `None` for anything else (whitespace, other characters, overflow).
pub open spec fn i64_of_text(s: Seq<char>) -> Option<i64> {
    let neg = s.len() > 0 && s[0] == '-';
    let body = if s.len() > 0 && (s[0] == '-' || s[0] == '+') { s.drop_first() } else { s };
    let v = if neg { -digits_value(body) } else { digits_value(body) };
    if body.len() == 0 || !all_digits(body) || v < i64::MIN || v > i64::MAX {
        None
    } else {
        Some(v as i64)
    }
}

/// Calls `str::parse::<i64>`, which std documents as reading an optional sign
/// followed by decimal digits, and failing on any other character, on an
/// empty number and on overflow.
#[verifier::external_body]
fn parse_i64(s: &str) -> (r: Option<i64>)
    ensures
        r == i64_of_text(s@),
{
    s.parse().ok()
}

/// The text with every comma removed.
pub open spec fn without_commas(s: Seq<char>) -> Seq<char>
    decreases s.len(),
{
    if s.len() == 0 {
        s
    } else if s.last() == ',' {
        without_commas(s.drop_last())
    } else {
        without_commas(s.drop_last()).push(s.last())
    }
}

/// The employee count of a profile's textual field ("150,000" → 150000);
/// `None` when the text is not an integer.
pub fn employees_from_text(s: &str) -> (r: Option<i64>)
    ensures
        r == i64_of_text(without_commas(s@)),
{
    let v = chars_of(s);
    let mut out: Vec<char> = Vec::new();
    let mut i: usize = 0;
    while i < v.len()
        invariant
            i <= v@.len(),
            v@ == s@,
            out@ == without_commas(s@.take(i as int)),
        decreases v@.len() - i,
    {
        proof {
            assert(s@.take(i + 1).drop_last() =~= s@.take(i as int));
        }
        if v[i] != ',' {
            out.push(v[i]);
        }
        i = i + 1;
    }
    assert(s@.take(s@.len() as int) =~= s@);
    let t = string_from_chars(out.as_slice());
    parse_i64(t.as_str())
}

// ── Supplementary lists ─────────────────────────────────────────────────────

/// A supplementary list fetch: "not found" becomes an empty list, anything
/// else is passed through.
pub fn list_or_empty<T>(r: Result<Vec<T>, AppError>) -> (out: Result<Vec<T>, AppError>)
    ensures
        match r {
            Err(AppError::NotFound) => (out matches Ok(v) && v@.len() == 0),
            _ => out == r,
        },
{
    match r {
        Err(AppError::NotFound) => Ok(Vec::new()),
        other => other,
    }
}

/// A statement list fetch: an empty list is "not found".
pub fn non_empty_list<T>(list: Vec<T>) -> (out: Result<Vec<T>, AppError>)
    ensures
        list@.len() == 0 ==> out matches Err(AppError::NotFound),
        list@.len() > 0 ==> (out matches Ok(v) && v@ == list@),
{
    if list.len() == 0 {
        Err(AppError::NotFound)
    } else {
        Ok(list)
    }
}

} // verus!
