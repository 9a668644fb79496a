//! The small/mid-cap discovery screen: its query parameters, the market-cap
//! sub-ranges it queries, how bucket results are merged, and which scored
//! candidates it keeps.

use vstd::prelude::*;
use crate::error::AppError;
use crate::fmp::ScreenerCandidate;
use crate::models::DiscoveryQuery;
use crate::screener::{exchange_slug, fmp_sector_for, opt_str_view, resolve_exchange, unknown_sector_message};
use crate::sectors::{exchange_fmp_code, fmp_sector_name, resolve_sector, valid_exchange};
use crate::statements::{IncomeStatement, KeyMetrics, Ratio};
use crate::text::{owned, str_eq};

verus! {

/// Lower edge of the small/mid-cap band ($300M).
pub const SMALL_MID_CAP_FLOOR: u64 = 300_000_000;

/// Upper edge of the small/mid-cap band ($5B).
pub const SMALL_MID_CAP_CEILING: u64 = 5_000_000_000;

/// Number of equal-width sub-ranges the band is queried in.
pub const MARKET_CAP_BUCKETS: u64 = 8;

/// Candidates requested per sub-range.
pub const PER_BUCKET_LIMIT: u32 = 30;

// ── Query parameters ────────────────────────────────────────────────────────

/// A validated discovery request.
pub struct DiscoveryParams {
    /// The sector slug as given.
    pub sector: String,
    /// The FMP sector name the slug resolves to.
    pub fmp_sector: &'static str,
    /// The lowercased exchange slug ("us" when absent).
    pub exchange: String,
    /// The FMP exchange code (`None` for US).
    pub fmp_exchange: Option<&'static str>,
}

/// The characters of an optional string.
pub open spec fn opt_string_view(o: Option<String>) -> Option<Seq<char>> {
    match o {
        Some(s) => Some(s@),
        None => None,
    }
}

/// The FMP exchange code of an exchange slug.
pub open spec fn fmp_exchange_of(e: Seq<char>) -> Option<&'static str> {
    if e == "lse"@ {
        Some("LSE")
    } else {
        None
    }
}

/// Validates the discovery query: the sector is required (400), must be
/// known (422), and the exchange must be supported (422), in that order.
pub fn discovery_params(query: &DiscoveryQuery) -> (r: Result<DiscoveryParams, AppError>)
    ensures
        match r {
            Ok(p) => {
                &&& query.sector matches Some(s) && p.sector@ == s@
                &&& resolve_sector(p.sector@) matches Some(sec) && p.fmp_sector == fmp_sector_name(sec)
                &&& p.exchange@ == exchange_slug(opt_string_view(query.exchange))
                &&& valid_exchange(p.exchange@)
                &&& p.fmp_exchange == fmp_exchange_of(p.exchange@)
            },
            Err(AppError::BadRequest(m)) => query.sector is None
                && m@ == "sector query parameter is required"@,
            Err(AppError::Unprocessable(m)) => match query.sector {
                Some(s) => if resolve_sector(s@) is None {
                    m@ == unknown_sector_message(s@)
                } else {
                    !valid_exchange(exchange_slug(opt_string_view(query.exchange)))
                },
                None => false,
            },
            Err(_) => false,
        },
{
    let sector = match &query.sector {
        Some(s) => s,
        None => {
            return Err(AppError::BadRequest(owned("sector query parameter is required")));
        },
    };
    let fmp_sector = match fmp_sector_for(sector.as_str()) {
        Ok(f) => f,
        Err(e) => {
            return Err(e);
        },
    };
    let exchange_param: Option<&str> = match &query.exchange {
        Some(e) => Some(e.as_str()),
        None => None,
    };
    assert(opt_str_view(exchange_param) == opt_string_view(query.exchange));
    let exchange = match resolve_exchange(exchange_param) {
        Ok(e) => e,
        Err(e) => {
            return Err(e);
        },
    };
    let fmp_exchange = exchange_fmp_code(exchange.as_str());
    Ok(DiscoveryParams { sector: sector.clone(), fmp_sector, exchange, fmp_exchange })
}

// ── Market-cap sub-ranges ───────────────────────────────────────────────────

/// The width of each sub-range.
pub open spec fn bucket_width() -> int {
    (SMALL_MID_CAP_CEILING - SMALL_MID_CAP_FLOOR) / (MARKET_CAP_BUCKETS as int)
}

/// The `i`-th sub-range as (floor, ceiling); the last one ends at the band's
/// ceiling.
pub open spec fn bucket(i: int) -> (int, int) {
    let floor = SMALL_MID_CAP_FLOOR + i * bucket_width();
    let ceiling = if i + 1 == MARKET_CAP_BUCKETS {
        SMALL_MID_CAP_CEILING as int
    } else {
        floor + bucket_width()
    };
    (floor, ceiling)
}

/// The sub-ranges of the band, in order.
pub fn market_cap_buckets() -> (r: Vec<(u64, u64)>)
    ensures
        r@.len() == MARKET_CAP_BUCKETS,
        forall|i: int| 0 <= i < r@.len() ==> (#[trigger] r@[i]).0 == bucket(i).0 && r@[i].1 == bucket(i).1,
{
    let width: u64 = (SMALL_MID_CAP_CEILING - SMALL_MID_CAP_FLOOR) / MARKET_CAP_BUCKETS;
    assert(width == 587_500_000);
    assert(bucket_width() == 587_500_000);
    let mut out: Vec<(u64, u64)> = Vec::new();
    let mut i: u64 = 0;
    while i < MARKET_CAP_BUCKETS
        invariant
            i <= MARKET_CAP_BUCKETS,
            width == 587_500_000,
            bucket_width() == 587_500_000,
            out@.len() == i,
            forall|j: int| 0 <= j < i ==> (#[trigger] out@[j]).0 == bucket(j).0 && out@[j].1 == bucket(j).1,
        decreases MARKET_CAP_BUCKETS - i,
    {
        let floor = SMALL_MID_CAP_FLOOR + i * width;
        let ceiling = if i + 1 == MARKET_CAP_BUCKETS {
            SMALL_MID_CAP_CEILING
        } else {
            floor + width
        };
        out.push((floor, ceiling));
        i = i + 1;
    }
    out
}

/// The sub-ranges tile the band: the first starts at the floor, the last ends
/// at the ceiling, each ends where the next starts, and none is empty.
pub proof fn law_buckets_tile_band()
    ensures
        bucket(0).0 == SMALL_MID_CAP_FLOOR,
        bucket(MARKET_CAP_BUCKETS - 1).1 == SMALL_MID_CAP_CEILING,
        forall|i: int| 0 <= i < MARKET_CAP_BUCKETS - 1 ==> #[trigger] bucket(i).1 == bucket(i + 1).0,
        forall|i: int| 0 <= i < MARKET_CAP_BUCKETS ==> #[trigger] bucket(i).0 < bucket(i).1,
{
    assert(bucket_width() == 587_500_000);
}

// ── Merging bucket results ──────────────────────────────────────────────────

/// The symbols of a list of candidates.
pub open spec fn candidate_symbols<N>(cs: Seq<ScreenerCandidate<N>>) -> Seq<Seq<char>> {
    cs.map_values(|c: ScreenerCandidate<N>| c.symbol@)
}

/// The position of the first candidate with symbol `s`, if any.
pub open spec fn symbol_position<N>(cs: Seq<ScreenerCandidate<N>>, s: Seq<char>) -> Option<int>
    decreases cs.len(),
{
    if cs.len() == 0 {
        None
    } else {
        match symbol_position(cs.drop_last(), s) {
            Some(i) => Some(i),
            None => if cs.last().symbol@ == s {
                Some(cs.len() - 1)
            } else {
                None
            },
        }
    }
}

/// One candidate merged in: it replaces an earlier one with its symbol, in
/// place, or is appended.
pub open spec fn merge_one<N>(acc: Seq<ScreenerCandidate<N>>, c: ScreenerCandidate<N>) -> Seq<ScreenerCandidate<N>> {
    match symbol_position(acc, c.symbol@) {
        Some(i) => acc.update(i, c),
        None => acc.push(c),
    }
}

/// All candidates merged in turn: each symbol once, at the place it first
/// appeared, holding the last candidate seen for it.
pub open spec fn merged_candidates<N>(cs: Seq<ScreenerCandidate<N>>) -> Seq<ScreenerCandidate<N>>
    decreases cs.len(),
{
    if cs.len() == 0 {
        Seq::empty()
    } else {
        merge_one(merged_candidates(cs.drop_last()), cs.last())
    }
}

/// The candidates of all buckets, bucket after bucket.
pub open spec fn flattened<N>(buckets: Seq<Vec<ScreenerCandidate<N>>>) -> Seq<ScreenerCandidate<N>>
    decreases buckets.len(),
{
    if buckets.len() == 0 {
        Seq::empty()
    } else {
        flattened(buckets.drop_last()) + buckets.last()@
    }
}

proof fn lemma_symbol_position<N>(cs: Seq<ScreenerCandidate<N>>, s: Seq<char>)
    ensures
        match symbol_position(cs, s) {
            Some(i) => 0 <= i < cs.len() && cs[i].symbol@ == s
                && forall|j: int| 0 <= j < i ==> (#[trigger] cs[j]).symbol@ != s,
            None => forall|j: int| 0 <= j < cs.len() ==> (#[trigger] cs[j]).symbol@ != s,
        },
    decreases cs.len(),
{
    if cs.len() > 0 {
        lemma_symbol_position(cs.drop_last(), s);
        assert forall|j: int| 0 <= j < cs.len() - 1 implies #[trigger] cs[j] == cs.drop_last()[j] by {}
    }
}

fn position_of<N>(cs: &Vec<ScreenerCandidate<N>>, s: &str) -> (r: Option<usize>)
    ensures
        match r {
            Some(i) => symbol_position(cs@, s@) == Some(i as int),
            None => symbol_position(cs@, s@) is None,
        },
{
    let mut i: usize = 0;
    while i < cs.len()
        invariant
            i <= cs@.len(),
            forall|j: int| 0 <= j < i ==> (#[trigger] cs@[j]).symbol@ != s@,
        decreases cs@.len() - i,
    {
        if str_eq(cs[i].symbol.as_str(), s) {
            proof {
                lemma_symbol_position(cs@, s@);
                match symbol_position(cs@, s@) {
                    Some(k) => {
                        if k < i {
                            assert(cs@[k].symbol@ != s@);
                        }
                        if k > i {
                            assert(cs@[i as int].symbol@ != s@);
                        }
                    },
                    None => {
                        assert(cs@[i as int].symbol@ != s@);
                    },
                }
            }
            return Some(i);
        }
        i = i + 1;
    }
    proof {
        lemma_symbol_position(cs@, s@);
        if let Some(k) = symbol_position(cs@, s@) {
            assert(cs@[k].symbol@ != s@);
        }
    }
    None
}

/// Merges the candidates of all market-cap buckets, bucket after bucket: a
/// symbol seen again replaces its earlier candidate.
pub fn merge_bucket_candidates<N: Copy>(buckets: &Vec<Vec<ScreenerCandidate<N>>>) -> (r: Vec<ScreenerCandidate<N>>)
    ensures
        r@ == merged_candidates(flattened(buckets@)),
{
    let mut out: Vec<ScreenerCandidate<N>> = Vec::new();
    let mut b: usize = 0;
    while b < buckets.len()
        invariant
            b <= buckets@.len(),
            out@ == merged_candidates(flattened(buckets@.take(b as int))),
        decreases buckets@.len() - b,
    {
        let bucket = &buckets[b];
        let ghost base = flattened(buckets@.take(b as int));
        let mut j: usize = 0;
        assert(base + bucket@.take(0) =~= base);
        while j < bucket.len()
            invariant
                j <= bucket@.len(),
                out@ == merged_candidates(base + bucket@.take(j as int)),
            decreases bucket@.len() - j,
        {
            proof {
                assert((base + bucket@.take(j + 1)).drop_last() =~= base + bucket@.take(j as int));
                assert((base + bucket@.take(j + 1)).last() == bucket@[j as int]);
            }
            let c = bucket[j].duplicate();
            match position_of(&out, c.symbol.as_str()) {
                Some(i) => {
                    proof {
                        lemma_symbol_position(out@, c.symbol@);
                    }
                    out.set(i, c);
                },
                None => {
                    out.push(c);
                },
            }
            j = j + 1;
        }
        proof {
            let nb = buckets@.take(b + 1);
            assert(nb.drop_last() =~= buckets@.take(b as int));
            assert(nb.last() == buckets@[b as int]);
            assert(bucket@.take(bucket@.len() as int) =~= bucket@);
        }
        b = b + 1;
    }
    assert(buckets@.take(buckets@.len() as int) =~= buckets@);
    out
}

/// The merged list names each symbol once.
pub open spec fn distinct_symbols<N>(cs: Seq<ScreenerCandidate<N>>) -> bool {
    forall|i: int, j: int| 0 <= i < j < cs.len() ==> (#[trigger] cs[i]).symbol@ != (#[trigger] cs[j]).symbol@
}

/// Merging keeps exactly the symbols of the input, each once, and each kept
/// candidate is the last one seen for its symbol.
pub proof fn law_merge_latest_per_symbol<N>(cs: Seq<ScreenerCandidate<N>>)
    ensures
        distinct_symbols(merged_candidates(cs)),
        forall|k: int| 0 <= k < cs.len() ==> candidate_symbols(merged_candidates(cs)).contains(
            #[trigger] cs[k].symbol@,
        ),
        forall|i: int| 0 <= i < merged_candidates(cs).len() ==> exists|k: int|
            0 <= k < cs.len() && #[trigger] merged_candidates(cs)[i] == cs[k]
            && forall|l: int| k < l < cs.len() ==> (#[trigger] cs[l]).symbol@ != cs[k].symbol@,
    decreases cs.len(),
{
    if cs.len() > 0 {
        let prev = cs.drop_last();
        let c = cs.last();
        law_merge_latest_per_symbol(prev);
        let m = merged_candidates(prev);
        lemma_symbol_position(m, c.symbol@);
        let n = merged_candidates(cs);
        assert(n == merge_one(m, c));
        assert forall|k: int| 0 <= k < cs.len() implies candidate_symbols(n).contains(#[trigger] cs[k].symbol@) by {
            if k == cs.len() - 1 {
                match symbol_position(m, c.symbol@) {
                    Some(p) => {
                        assert(candidate_symbols(n)[p] == c.symbol@);
                    },
                    None => {
                        assert(candidate_symbols(n)[n.len() - 1] == c.symbol@);
                    },
                }
            } else {
                assert(cs[k] == prev[k]);
                assert(candidate_symbols(m).contains(prev[k].symbol@));
                let p = choose|p: int| 0 <= p < candidate_symbols(m).len() && candidate_symbols(m)[p] == prev[k].symbol@;
                match symbol_position(m, c.symbol@) {
                    Some(q) => {
                        if p == q {
                            assert(candidate_symbols(n)[p] == c.symbol@);
                            assert(m[q].symbol@ == c.symbol@);
                        } else {
                            assert(candidate_symbols(n)[p] == m[p].symbol@);
                        }
                    },
                    None => {
                        assert(candidate_symbols(n)[p] == m[p].symbol@);
                    },
                }
            }
        }
        assert forall|i: int| 0 <= i < n.len() implies exists|k: int|
            0 <= k < cs.len() && #[trigger] n[i] == cs[k]
            && forall|l: int| k < l < cs.len() ==> (#[trigger] cs[l]).symbol@ != cs[k].symbol@ by {
            let last = cs.len() - 1;
            if n[i] == c {
                assert(cs[last] == c);
            } else {
                assert(i < m.len());
                assert(n[i] == m[i]);
                let k = choose|k: int| 0 <= k < prev.len() && #[trigger] m[i] == prev[k]
                    && forall|l: int| k < l < prev.len() ==> (#[trigger] prev[l]).symbol@ != prev[k].symbol@;
                assert(cs[k] == prev[k]);
                // The new candidate did not replace entry `i`, so its symbol differs.
                match symbol_position(m, c.symbol@) {
                    Some(q) => {
                        assert(q != i);
                        assert(m[q].symbol@ == c.symbol@);
                        assert(m[i].symbol@ != c.symbol@) by {
                            if i < q {
                                assert(m[i].symbol@ != c.symbol@);
                            } else {
                                assert(m[q].symbol@ != m[i].symbol@);
                            }
                        }
                    },
                    None => {
                        assert(m[i].symbol@ != c.symbol@);
                    },
                }
                assert forall|l: int| k < l < cs.len() implies (#[trigger] cs[l]).symbol@ != cs[k].symbol@ by {
                    if l < last {
                        assert(cs[l] == prev[l]);
                    }
                }
            }
        }
        assert forall|i: int, j: int| 0 <= i < j < n.len() implies (#[trigger] n[i]).symbol@ != (#[trigger] n[j]).symbol@ by {
            match symbol_position(m, c.symbol@) {
                Some(q) => {
                    assert(n[i].symbol@ == m[i].symbol@);
                    assert(n[j].symbol@ == m[j].symbol@);
                },
                None => {
                    if j == n.len() - 1 {
                        assert(n[i] == m[i]);
                    } else {
                        assert(n[i] == m[i]);
                        assert(n[j] == m[j]);
                    }
                },
            }
        }
    }
}

// ── Which scored candidates stay ────────────────────────────────────────────

/// The quality-floor inputs still missing from the newest filings: the
/// debt-to-equity ratio, the gross profit and the return on equity.
pub open spec fn missing_fields<N>(income: Seq<IncomeStatement<N>>, ratios: Seq<Ratio<N>>, km: Seq<KeyMetrics<N>>) -> Seq<Seq<char>> {
    let a: Seq<Seq<char>> = if ratios.len() == 0 || ratios[0].debt_to_equity_ratio is None {
        seq!["debt_to_equity"@]
    } else {
        Seq::empty()
    };
    let b: Seq<Seq<char>> = if income.len() == 0 || income[0].gross_profit is None {
        seq!["gross_margin"@]
    } else {
        Seq::empty()
    };
    let c: Seq<Seq<char>> = if km.len() == 0 || km[0].return_on_equity is None {
        seq!["return_on_equity"@]
    } else {
        Seq::empty()
    };
    a + b + c
}

/// The names of the quality-floor fields that neither data source supplied.
pub fn missing_data_fields<N>(income: &[IncomeStatement<N>], ratios: &[Ratio<N>], km: &[KeyMetrics<N>]) -> (r: Vec<String>)
    ensures
        r@.map_values(|s: String| s@) == missing_fields(income@, ratios@, km@),
{
    let mut out: Vec<String> = Vec::new();
    if ratios.len() == 0 || ratios[0].debt_to_equity_ratio.is_none() {
        out.push(owned("debt_to_equity"));
    }
    let ghost a = out@.map_values(|s: String| s@);
    if income.len() == 0 || income[0].gross_profit.is_none() {
        out.push(owned("gross_margin"));
    }
    let ghost b = out@.map_values(|s: String| s@);
    if km.len() == 0 || km[0].return_on_equity.is_none() {
        out.push(owned("return_on_equity"));
    }
    proof {
        let m = missing_fields(income@, ratios@, km@);
        assert(out@.map_values(|s: String| s@) =~= m);
    }
    out
}

/// Whether a scored candidate is listed: it must be near its Graham Number,
/// and it must clear the quality floor unless some of the data behind the
/// floor is missing.
pub open spec fn listed(near_miss: bool, clears_floor: bool, missing: nat) -> bool {
    near_miss && (clears_floor || missing > 0)
}

/// Decides whether a scored candidate is listed.
pub fn is_listed(near_miss: bool, clears_floor: bool, missing_data_fields: &Vec<String>) -> (r: bool)
    ensures
        r == listed(near_miss, clears_floor, missing_data_fields@.len()),
{
    near_miss && (clears_floor || missing_data_fields.len() > 0)
}

} // verus!
