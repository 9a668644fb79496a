//! Core fundamentals per fiscal year, aligned from the income statements with
//! the ratios and key metrics of the same date.

use vstd::prelude::*;
use crate::statements::{IncomeStatement, KeyMetrics, Ratio};
use crate::text::{chars_of, str_eq, string_from_chars};

verus! {

/// One year of core fundamental metrics.
pub struct FundamentalsYear<N> {
    pub fiscal_year: String,
    pub revenue: Option<N>,
    pub eps: Option<N>,
    pub book_value_per_share: Option<N>,
    pub free_cash_flow_per_share: Option<N>,
    /// Return on invested capital (decimal, e.g. 0.15 = 15%)
    pub roic: Option<N>,
}

/// Number of bytes of a character's UTF-8 encoding.
pub open spec fn utf8_width(c: char) -> nat {
    let u = c as u32;
    if u < 0x80 {
        1
    } else if u < 0x800 {
        2
    } else if u < 0x10000 {
        3
    } else {
        4
    }
}

/// Number of bytes of the UTF-8 encoding of a character sequence.
pub open spec fn utf8_len(s: Seq<char>) -> nat
    decreases s.len(),
{
    if s.len() == 0 {
        0
    } else {
        utf8_len(s.drop_last()) + utf8_width(s.last())
    }
}

/// `str::get(..n)`: the leading `n` bytes when they end on a character
/// boundary, else nothing.
pub open spec fn leading_bytes(s: Seq<char>, n: nat) -> Option<Seq<char>> {
    if exists|k: int| 0 <= k <= s.len() && utf8_len(#[trigger] s.take(k)) == n {
        Some(s.take(choose|k: int| 0 <= k <= s.len() && utf8_len(#[trigger] s.take(k)) == n))
    } else {
        None
    }
}

/// The fiscal year of a statement date: its first four bytes when they end on
/// a character boundary, else the whole date.
pub open spec fn fiscal_year_of(date: Seq<char>) -> Seq<char> {
    match leading_bytes(date, 4) {
        Some(y) => y,
        None => date,
    }
}

proof fn lemma_utf8_len_mono(s: Seq<char>, i: int, j: int)
    requires
        0 <= i < j <= s.len(),
    ensures
        utf8_len(s.take(i)) < utf8_len(s.take(j)),
    decreases j - i,
{
    assert(s.take(j).drop_last() =~= s.take(j - 1));
    if i < j - 1 {
        lemma_utf8_len_mono(s, i, j - 1);
    }
}

fn width(c: char) -> (r: u8)
    ensures
        r as nat == utf8_width(c),
{
    let u = c as u32;
    if u < 0x80 {
        1
    } else if u < 0x800 {
        2
    } else if u < 0x10000 {
        3
    } else {
        4
    }
}

/// The leading `n` bytes of a text when they end on a character boundary
/// (`str::get(..n)`).
pub fn leading(s: &str, n: usize) -> (r: Option<String>)
    ensures
        match r {
            Some(x) => leading_bytes(s@, n as nat) == Some(x@),
            None => leading_bytes(s@, n as nat) is None,
        },
{
    let v = chars_of(s);
    let mut bytes: u128 = 0;
    let mut i: usize = 0;
    while i < v.len() && bytes < n as u128
        invariant
            i <= v@.len(),
            v@ == s@,
            bytes == utf8_len(s@.take(i as int)),
            i > 0 ==> utf8_len(s@.take(i - 1)) < n,
        decreases v@.len() - i,
    {
        proof {
            assert(s@.take(i + 1).drop_last() =~= s@.take(i as int));
        }
        bytes = bytes + width(v[i]) as u128;
        i = i + 1;
    }
    proof {
        // The byte count only grows, so at most one prefix has exactly `n` bytes.
        assert forall|k: int| 0 <= k <= s@.len() && utf8_len(#[trigger] s@.take(k)) == n implies k == i by {
            if k < i {
                if k < i - 1 {
                    lemma_utf8_len_mono(s@, k, i - 1);
                }
            } else if k > i {
                lemma_utf8_len_mono(s@, i as int, k);
            }
        }
    }
    if bytes == n as u128 {
        let mut out: Vec<char> = Vec::new();
        let mut k: usize = 0;
        while k < i
            invariant
                k <= i <= v@.len(),
                out@ == v@.take(k as int),
            decreases i - k,
        {
            out.push(v[k]);
            k = k + 1;
            assert(v@.take(k as int) =~= v@.take((k - 1) as int).push(v@[k - 1]));
        }
        proof {
            assert(utf8_len(s@.take(i as int)) == n);
        }
        Some(string_from_chars(out.as_slice()))
    } else {
        None
    }
}

/// The fiscal year label of a statement date ("2024-09-28" → "2024").
pub fn fiscal_year(date: &str) -> (r: String)
    ensures
        r@ == fiscal_year_of(date@),
{
    match leading(date, 4) {
        Some(y) => y,
        None => crate::text::owned(date),
    }
}

/// The last ratio of a date, if any (ratios collected into a date-keyed map).
pub open spec fn ratio_on<N>(rs: Seq<Ratio<N>>, d: Seq<char>) -> Option<Ratio<N>>
    decreases rs.len(),
{
    if rs.len() == 0 {
        None
    } else if rs.last().date@ == d {
        Some(rs.last())
    } else {
        ratio_on(rs.drop_last(), d)
    }
}

/// The last key metrics of a date, if any.
pub open spec fn metrics_on<N>(ks: Seq<KeyMetrics<N>>, d: Seq<char>) -> Option<KeyMetrics<N>>
    decreases ks.len(),
{
    if ks.len() == 0 {
        None
    } else if ks.last().date@ == d {
        Some(ks.last())
    } else {
        metrics_on(ks.drop_last(), d)
    }
}

/// `y` is the year of income statement `inc`, with the ratio and key metrics
/// of the same date.
pub open spec fn year_of<N>(y: FundamentalsYear<N>, inc: IncomeStatement<N>, rs: Seq<Ratio<N>>, ks: Seq<KeyMetrics<N>>) -> bool {
    &&& y.fiscal_year@ == fiscal_year_of(inc.date@)
    &&& y.revenue == inc.revenue
    &&& y.eps == inc.eps
    &&& y.book_value_per_share == (match ratio_on(rs, inc.date@) {
        Some(r) => r.book_value_per_share,
        None => None,
    })
    &&& y.free_cash_flow_per_share == (match ratio_on(rs, inc.date@) {
        Some(r) => r.free_cash_flow_per_share,
        None => None,
    })
    &&& y.roic == (match metrics_on(ks, inc.date@) {
        Some(k) => k.return_on_invested_capital,
        None => None,
    })
}

fn find_ratio<'a, N>(rs: &'a Vec<Ratio<N>>, d: &str) -> (r: Option<&'a Ratio<N>>)
    ensures
        match r {
            Some(x) => ratio_on(rs@, d@) == Some(*x),
            None => ratio_on(rs@, d@) is None,
        },
{
    let mut i: usize = rs.len();
    assert(rs@.take(rs@.len() as int) =~= rs@);
    while i > 0
        invariant
            i <= rs@.len(),
            ratio_on(rs@, d@) == ratio_on(rs@.take(i as int), d@),
        decreases i,
    {
        proof {
            assert(rs@.take(i as int).drop_last() =~= rs@.take(i - 1));
        }
        if str_eq(rs[i - 1].date.as_str(), d) {
            return Some(&rs[i - 1]);
        }
        i = i - 1;
    }
    None
}

fn find_metrics<'a, N>(ks: &'a Vec<KeyMetrics<N>>, d: &str) -> (r: Option<&'a KeyMetrics<N>>)
    ensures
        match r {
            Some(x) => metrics_on(ks@, d@) == Some(*x),
            None => metrics_on(ks@, d@) is None,
        },
{
    let mut i: usize = ks.len();
    assert(ks@.take(ks@.len() as int) =~= ks@);
    while i > 0
        invariant
            i <= ks@.len(),
            metrics_on(ks@, d@) == metrics_on(ks@.take(i as int), d@),
        decreases i,
    {
        proof {
            assert(ks@.take(i as int).drop_last() =~= ks@.take(i - 1));
        }
        if str_eq(ks[i - 1].date.as_str(), d) {
            return Some(&ks[i - 1]);
        }
        i = i - 1;
    }
    None
}

/// Aligns the income statements (newest first) with the ratios and key metrics
/// of the same date and returns the years oldest first.
pub fn align_fundamentals<N: Copy>(income: &Vec<IncomeStatement<N>>, ratios: &Vec<Ratio<N>>, km: &Vec<KeyMetrics<N>>) -> (r: Vec<FundamentalsYear<N>>)
    ensures
        r@.len() == income@.len(),
        forall|i: int|
            0 <= i < r@.len() ==> year_of(#[trigger] r@[i], income@[income@.len() - 1 - i], ratios@, km@),
{
    let mut out: Vec<FundamentalsYear<N>> = Vec::new();
    let n = income.len();
    let mut i: usize = 0;
    while i < n
        invariant
            n == income@.len(),
            i <= n,
            out@.len() == i,
            forall|j: int| 0 <= j < i ==> year_of(#[trigger] out@[j], income@[n - 1 - j], ratios@, km@),
        decreases n - i,
    {
        let inc = &income[n - 1 - i];
        let d = inc.date.as_str();
        let ratio = find_ratio(ratios, d);
        let k = find_metrics(km, d);
        out.push(FundamentalsYear {
            fiscal_year: fiscal_year(d),
            revenue: inc.revenue,
            eps: inc.eps,
            book_value_per_share: match ratio {
                Some(r) => r.book_value_per_share,
                None => None,
            },
            free_cash_flow_per_share: match ratio {
                Some(r) => r.free_cash_flow_per_share,
                None => None,
            },
            roic: match k {
                Some(x) => x.return_on_invested_capital,
                None => None,
            },
        });
        i = i + 1;
    }
    out
}

/// The latest P/E ratio: that of the newest ratio row (rows come newest
/// first), if there is a row and it has one.
pub fn latest_pe<N: Copy>(ratios: &Vec<Ratio<N>>) -> (r: Option<N>)
    ensures
        r == (if ratios@.len() == 0 { None } else { ratios@[0].price_to_earnings_ratio }),
{
    if ratios.len() == 0 {
        None
    } else {
        ratios[0].price_to_earnings_ratio
    }
}

} // verus!
