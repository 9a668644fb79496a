//! Portfolio bookkeeping that is not arithmetic: owner labels, bulk-import
//! results, and grouping the rows of many portfolios for the community view.
//!
//! Prices and share counts are of any copyable type `P`; the service uses
//! floating point and does the arithmetic itself.

use vstd::prelude::*;
use crate::error::AppError;
use crate::sorting::{drop_keys, items_of, stable_sort_by_key, stable_sorted};
use crate::sp500::string_views;
use crate::text::{
    chars_contain, chars_of, concat, has_substring, owned, str_eq, string_from_chars,
};

verus! {

// ── Owner labels ────────────────────────────────────────────────────────────

/// Index of the first `@`, or the length.
pub open spec fn at_index(s: Seq<char>) -> nat
    decreases s.len(),
{
    if s.len() == 0 || s[0] == '@' {
        0
    } else {
        1 + at_index(s.drop_first())
    }
}

/// How a portfolio owner is shown: the display name when set, else the part
/// of the email before the first `@`.
pub open spec fn owner_of(email: Seq<char>, display_name: Option<Seq<char>>) -> Seq<char> {
    match display_name {
        Some(d) => d,
        None => email.take(at_index(email) as int),
    }
}

proof fn lemma_at_index(s: Seq<char>, i: int)
    requires
        0 <= i <= s.len(),
        forall|j: int| 0 <= j < i ==> #[trigger] s[j] != '@',
        i == s.len() || s[i] == '@',
    ensures
        at_index(s) == i,
    decreases s.len(),
{
    if s.len() > 0 && i > 0 {
        assert forall|j: int| 0 <= j < i - 1 implies #[trigger] s.drop_first()[j] != '@' by {
            assert(s.drop_first()[j] == s[j + 1]);
        }
        if i < s.len() {
            assert(s.drop_first()[i - 1] == s[i]);
        }
        lemma_at_index(s.drop_first(), i - 1);
    }
}

/// The label of a portfolio's owner.
pub fn owner_label(email: &str, display_name: Option<String>) -> (r: String)
    ensures
        r@ == owner_of(email@, match display_name { Some(d) => Some(d@), None => None }),
{
    match display_name {
        Some(d) => d,
        None => {
            let v = chars_of(email);
            let mut i: usize = 0;
            while i < v.len() && v[i] != '@'
                invariant
                    i <= v@.len(),
                    v@ == email@,
                    forall|j: int| 0 <= j < i ==> #[trigger] v@[j] != '@',
                decreases v@.len() - i,
            {
                i = i + 1;
            }
            proof {
                lemma_at_index(email@, i as int);
            }
            let mut out: Vec<char> = Vec::new();
            let mut k: usize = 0;
            while k < i
                invariant
                    k <= i <= v@.len(),
                    out@ == v@.take(k as int),
                decreases i - k,
            {
                out.push(v[k]);
                k = k + 1;
                assert(v@.take(k as int) =~= v@.take((k - 1) as int).push(v@[k - 1]));
            }
            string_from_chars(out.as_slice())
        },
    }
}

// ── Access and dates ────────────────────────────────────────────────────────

/// Only a portfolio's owner may read or change it.
pub fn require_owner(owner: u128, user: u128) -> (r: Result<(), AppError>)
    ensures
        owner == user ==> r is Ok,
        owner != user ==> (r matches Err(e) && e is Forbidden),
{
    if owner == user {
        Ok(())
    } else {
        Err(AppError::Forbidden)
    }
}

/// A trade date (day number) must lie before today; `message` is the refusal.
pub fn require_past_day(day: i32, today: i32, message: &str) -> (r: Result<(), AppError>)
    ensures
        day < today ==> r is Ok,
        day >= today ==> (r matches Err(AppError::BadRequest(m)) && m@ == message@),
{
    if day >= today {
        Err(AppError::BadRequest(owned(message)))
    } else {
        Ok(())
    }
}

// ── Upload format ───────────────────────────────────────────────────────────

/// `s` ends with `suffix`.
pub open spec fn ends_with(s: Seq<char>, suffix: Seq<char>) -> bool {
    suffix.len() <= s.len() && s.skip(s.len() - suffix.len()) == suffix
}

fn chars_end_with(s: &[char], suffix: &[char]) -> (r: bool)
    ensures
        r == ends_with(s@, suffix@),
{
    if suffix.len() > s.len() {
        return false;
    }
    let off = s.len() - suffix.len();
    let r = crate::text::match_at(s, suffix, off);
    proof {
        assert(s@.subrange(off as int, off + suffix@.len()) =~= s@.skip(off as int));
    }
    r
}

/// Whether an upload is a spreadsheet (XLSX/XLS) rather than CSV: by its
/// content type, else by its file name.
pub open spec fn is_spreadsheet(content_type: Option<Seq<char>>, file_name: Option<Seq<char>>) -> bool {
    (content_type matches Some(ct) && (has_substring(ct, "spreadsheetml"@) || has_substring(ct, "ms-excel"@)))
        || (file_name matches Some(n) && (ends_with(n, ".xlsx"@) || ends_with(n, ".xls"@)))
}

/// Detects a spreadsheet upload from its content type and file name.
pub fn is_spreadsheet_upload(content_type: Option<&str>, file_name: Option<&str>) -> (r: bool)
    ensures
        r == is_spreadsheet(
            match content_type { Some(c) => Some(c@), None => None },
            match file_name { Some(n) => Some(n@), None => None },
        ),
{
    let by_type = match content_type {
        Some(ct) => {
            let v = chars_of(ct);
            let a = chars_of("spreadsheetml");
            let b = chars_of("ms-excel");
            chars_contain(v.as_slice(), a.as_slice()) || chars_contain(v.as_slice(), b.as_slice())
        },
        None => false,
    };
    let by_name = match file_name {
        Some(n) => {
            let v = chars_of(n);
            let a = chars_of(".xlsx");
            let b = chars_of(".xls");
            chars_end_with(v.as_slice(), a.as_slice()) || chars_end_with(v.as_slice(), b.as_slice())
        },
        None => false,
    };
    by_type || by_name
}

// ── Import results ──────────────────────────────────────────────────────────

/// What became of one valid import row.
pub enum RowOutcome<P> {
    /// No price could be had; the message says why.
    PriceFailed(String),
    /// The holding was stored at this price.
    Stored(P),
    /// Storing failed; the driver's message.
    StoreFailed(String),
}

/// Per-row outcome of a holdings import.
pub struct ImportRowResult<P> {
    /// 1-based row number, counting the header row.
    pub row: usize,
    pub ticker: String,
    pub ok: bool,
    /// The price stored as the cost basis.
    pub price_used: Option<P>,
    /// Why the row failed.
    pub error: Option<String>,
}

/// Summary of a bulk import.
pub struct ImportHoldingsResponse<P> {
    pub imported: usize,
    pub failed: usize,
    /// One entry per data row, sorted by row number.
    pub rows: Vec<ImportRowResult<P>>,
}

/// `r` reports valid row `(row, ticker)` with outcome `o`.
pub open spec fn reports_outcome<P>(r: ImportRowResult<P>, row: usize, ticker: Seq<char>, o: RowOutcome<P>) -> bool {
    &&& r.row == row
    &&& r.ticker@ == ticker
    &&& match o {
        RowOutcome::PriceFailed(m) => !r.ok && r.price_used is None && (r.error matches Some(e) && e@ == m@),
        RowOutcome::Stored(p) => r.ok && r.price_used == Some(p) && r.error is None,
        RowOutcome::StoreFailed(m) => !r.ok && r.price_used is None && (r.error matches Some(e) && e@ == "DB error: "@ + m@),
    }
}

/// `r` reports the parse error `(row, ticker, message)`.
pub open spec fn reports_parse_error<P>(r: ImportRowResult<P>, e: (usize, String, String)) -> bool {
    r.row == e.0 && r.ticker@ == e.1@ && !r.ok && r.price_used is None && (r.error matches Some(m) && m@ == e.2@)
}

pub open spec fn stored_count<P>(os: Seq<RowOutcome<P>>) -> nat
    decreases os.len(),
{
    if os.len() == 0 {
        0
    } else {
        stored_count(os.drop_last()) + (if os.last() is Stored { 1nat } else { 0nat })
    }
}

pub open spec fn rows_keyed<P>(rs: Seq<ImportRowResult<P>>) -> Seq<(ImportRowResult<P>, u64)> {
    rs.map_values(|r: ImportRowResult<P>| (r, r.row as u64))
}

/// The reports before sorting: one per valid row, then one per parse error.
pub open spec fn reports_in_order<P>(
    rs: Seq<ImportRowResult<P>>,
    valid: Seq<(usize, String)>,
    outcomes: Seq<RowOutcome<P>>,
    parse_errors: Seq<(usize, String, String)>,
) -> bool {
    &&& rs.len() == valid.len() + parse_errors.len()
    &&& forall|i: int| 0 <= i < valid.len() ==> reports_outcome(#[trigger] rs[i], valid[i].0, valid[i].1@, outcomes[i])
    &&& forall|i: int| 0 <= i < parse_errors.len() ==> reports_parse_error(#[trigger] rs[valid.len() + i], parse_errors[i])
}

/// Assembles the import summary: the outcome of each valid row, then the rows
/// that failed to parse, all sorted by row number (stable); `imported` counts
/// the stored rows and `failed` all the others.
pub fn import_summary<P: Copy>(
    valid: &Vec<(usize, String)>,
    outcomes: &Vec<RowOutcome<P>>,
    parse_errors: &Vec<(usize, String, String)>,
) -> (r: ImportHoldingsResponse<P>)
    requires
        valid@.len() == outcomes@.len(),
        valid@.len() + parse_errors@.len() <= usize::MAX,
    ensures
        r.imported == stored_count(outcomes@),
        r.imported + r.failed == valid@.len() + parse_errors@.len(),
        exists|rs: Seq<ImportRowResult<P>>|
            reports_in_order(rs, valid@, outcomes@, parse_errors@) && r.rows@ == items_of(stable_sorted(rows_keyed(rs), false)),
{
    let mut rows: Vec<(ImportRowResult<P>, u64)> = Vec::new();
    let ghost mut rs: Seq<ImportRowResult<P>> = Seq::empty();
    let mut imported: usize = 0;
    let mut failed: usize = 0;
    let mut i: usize = 0;
    while i < valid.len()
        invariant
            valid@.len() == outcomes@.len(),
            i <= valid@.len(),
            rs.len() == i,
            rows@ == rows_keyed(rs),
            forall|k: int| 0 <= k < i ==> reports_outcome(#[trigger] rs[k], valid@[k].0, valid@[k].1@, outcomes@[k]),
            imported == stored_count(outcomes@.take(i as int)),
            imported + failed == i,
        decreases valid@.len() - i,
    {
        proof {
            assert(outcomes@.take(i + 1).drop_last() =~= outcomes@.take(i as int));
        }
        let row = valid[i].0;
        let ticker = valid[i].1.clone();
        let res = match &outcomes[i] {
            RowOutcome::PriceFailed(m) => {
                failed = failed + 1;
                ImportRowResult { row, ticker, ok: false, price_used: None, error: Some(m.clone()) }
            },
            RowOutcome::Stored(p) => {
                imported = imported + 1;
                ImportRowResult { row, ticker, ok: true, price_used: Some(*p), error: None }
            },
            RowOutcome::StoreFailed(m) => {
                failed = failed + 1;
                ImportRowResult { row, ticker, ok: false, price_used: None, error: Some(concat("DB error: ", m.as_str())) }
            },
        };
        proof {
            rs = rs.push(res);
        }
        rows.push((res, row as u64));
        proof {
            assert(rows@ =~= rows_keyed(rs));
        }
        i = i + 1;
    }
    assert(outcomes@.take(outcomes@.len() as int) =~= outcomes@);
    let mut j: usize = 0;
    while j < parse_errors.len()
        invariant
            j <= parse_errors@.len(),
            rs.len() == valid@.len() + j,
            rows@ == rows_keyed(rs),
            forall|k: int| 0 <= k < valid@.len() ==> reports_outcome(#[trigger] rs[k], valid@[k].0, valid@[k].1@, outcomes@[k]),
            forall|k: int| 0 <= k < j ==> reports_parse_error(#[trigger] rs[valid@.len() + k], parse_errors@[k]),
            imported == stored_count(outcomes@),
            imported + failed == valid@.len() + j,
            valid@.len() + parse_errors@.len() <= usize::MAX,
        decreases parse_errors@.len() - j,
    {
        let e = &parse_errors[j];
        let res = ImportRowResult { row: e.0, ticker: e.1.clone(), ok: false, price_used: None, error: Some(e.2.clone()) };
        proof {
            rs = rs.push(res);
        }
        rows.push((res, e.0 as u64));
        proof {
            assert(rows@ =~= rows_keyed(rs));
        }
        failed = failed + 1;
        j = j + 1;
    }
    assert(reports_in_order(rs, valid@, outcomes@, parse_errors@));
    let sorted = stable_sort_by_key(rows, false);
    let out = drop_keys(sorted);
    ImportHoldingsResponse { imported, failed, rows: out }
}

// ── Community view ──────────────────────────────────────────────────────────

/// Each ticker once, in first-seen order.
pub open spec fn first_seen(ts: Seq<String>) -> Seq<String>
    decreases ts.len(),
{
    if ts.len() == 0 {
        Seq::empty()
    } else if string_views(first_seen(ts.drop_last())).contains(ts.last()@) {
        first_seen(ts.drop_last())
    } else {
        first_seen(ts.drop_last()).push(ts.last())
    }
}

fn contains_string(v: &Vec<String>, t: &str) -> (r: bool)
    ensures
        r == string_views(v@).contains(t@),
{
    let mut i: usize = 0;
    while i < v.len()
        invariant
            i <= v@.len(),
            forall|j: int| 0 <= j < i ==> #[trigger] v@[j]@ != t@,
        decreases v@.len() - i,
    {
        if str_eq(v[i].as_str(), t) {
            assert(string_views(v@)[i as int] == t@);
            return true;
        }
        i = i + 1;
    }
    assert forall|j: int| 0 <= j < string_views(v@).len() implies string_views(v@)[j] != t@ by {
        assert(v@[j]@ != t@);
    }
    false
}

/// The distinct tickers held across the portfolios, in first-seen order:
/// each is priced once.
pub fn unique_tickers(tickers: &Vec<String>) -> (r: Vec<String>)
    ensures
        r@ == first_seen(tickers@),
{
    let mut out: Vec<String> = Vec::new();
    let mut i: usize = 0;
    while i < tickers.len()
        invariant
            i <= tickers@.len(),
            out@ == first_seen(tickers@.take(i as int)),
        decreases tickers@.len() - i,
    {
        proof {
            assert(tickers@.take(i + 1).drop_last() =~= tickers@.take(i as int));
        }
        if !contains_string(&out, tickers[i].as_str()) {
            out.push(tickers[i].clone());
        }
        i = i + 1;
    }
    assert(tickers@.take(tickers@.len() as int) =~= tickers@);
    out
}

/// The current price found for a ticker (the last one listed), if any.
pub open spec fn price_of<P>(prices: Seq<(String, P)>, t: Seq<char>) -> Option<P>
    decreases prices.len(),
{
    if prices.len() == 0 {
        None
    } else if prices.last().0@ == t {
        Some(prices.last().1)
    } else {
        price_of(prices.drop_last(), t)
    }
}

/// A portfolio's open positions that have a current price, in holding order,
/// each with that price.
pub open spec fn priced_holdings<H, P>(hs: Seq<(u128, String, H)>, id: u128, prices: Seq<(String, P)>) -> Seq<(String, H, P)>
    decreases hs.len(),
{
    if hs.len() == 0 {
        Seq::empty()
    } else {
        let rest = priced_holdings(hs.drop_last(), id, prices);
        let h = hs.last();
        if h.0 == id && price_of(prices, h.1@) is Some {
            rest.push((h.1, h.2, price_of(prices, h.1@)->Some_0))
        } else {
            rest
        }
    }
}

/// A portfolio's realized-gain rows, in order.
pub open spec fn realized_rows<R>(rs: Seq<(u128, String, R)>, id: u128) -> Seq<(String, R)>
    decreases rs.len(),
{
    if rs.len() == 0 {
        Seq::empty()
    } else if rs.last().0 == id {
        realized_rows(rs.drop_last(), id).push((rs.last().1, rs.last().2))
    } else {
        realized_rows(rs.drop_last(), id)
    }
}

/// Whether the portfolio at index `i` is the first with its id.
pub open spec fn first_with_id(ids: Seq<u128>, i: int) -> bool {
    forall|j: int| 0 <= j < i ==> ids[j] != ids[i]
}

/// One portfolio of the community view.
pub struct CommunityEntry<H, R, P> {
    /// Index of the portfolio in the input list.
    pub index: usize,
    /// Open positions with their current price: (ticker, holding, price).
    pub holdings: Vec<(String, H, P)>,
    /// Closed positions: (ticker, realized-gain row).
    pub realized: Vec<(String, R)>,
}

/// `e` is the entry of portfolio `i`: its priced positions and (for the first
/// portfolio with its id) its realized rows.
pub open spec fn entry_of<H, R, P>(e: CommunityEntry<H, R, P>, i: int, ids: Seq<u128>, hs: Seq<(u128, String, H)>, rs: Seq<(u128, String, R)>, prices: Seq<(String, P)>) -> bool {
    &&& e.index == i
    &&& e.holdings@ == priced_holdings(hs, ids[i], prices)
    &&& e.realized@ == (if first_with_id(ids, i) { realized_rows(rs, ids[i]) } else { Seq::empty() })
}

/// Whether the holdings list has a row of portfolio `id`.
pub open spec fn has_holding_row<H>(hs: Seq<(u128, String, H)>, id: u128) -> bool {
    exists|k: int| 0 <= k < hs.len() && #[trigger] hs[k].0 == id
}

/// Whether portfolio `i` shows in the community view: portfolios with no
/// holdings are left out.
pub open spec fn is_listed<H, R, P>(i: int, ids: Seq<u128>, hs: Seq<(u128, String, H)>, rs: Seq<(u128, String, R)>, prices: Seq<(String, P)>) -> bool {
    has_holding_row(hs, ids[i])
}

/// The indices of the portfolios that show, in order.
pub open spec fn shown<H, R, P>(n: int, ids: Seq<u128>, hs: Seq<(u128, String, H)>, rs: Seq<(u128, String, R)>, prices: Seq<(String, P)>) -> Seq<int>
    decreases n,
{
    if n <= 0 {
        Seq::empty()
    } else if is_listed(n - 1, ids, hs, rs, prices) {
        shown(n - 1, ids, hs, rs, prices).push(n - 1)
    } else {
        shown(n - 1, ids, hs, rs, prices)
    }
}

fn find_price<P: Copy>(prices: &Vec<(String, P)>, t: &str) -> (r: Option<P>)
    ensures
        r == price_of(prices@, t@),
{
    let mut i: usize = prices.len();
    assert(prices@.take(prices@.len() as int) =~= prices@);
    while i > 0
        invariant
            i <= prices@.len(),
            price_of(prices@, t@) == price_of(prices@.take(i as int), t@),
        decreases i,
    {
        proof {
            assert(prices@.take(i as int).drop_last() =~= prices@.take(i - 1));
        }
        if str_eq(prices[i - 1].0.as_str(), t) {
            return Some(prices[i - 1].1);
        }
        i = i - 1;
    }
    None
}

fn collect_priced<H: Copy, P: Copy>(hs: &Vec<(u128, String, H)>, id: u128, prices: &Vec<(String, P)>) -> (r: Vec<(String, H, P)>)
    ensures
        r@ == priced_holdings(hs@, id, prices@),
{
    let mut out: Vec<(String, H, P)> = Vec::new();
    let mut k: usize = 0;
    while k < hs.len()
        invariant
            k <= hs@.len(),
            out@ == priced_holdings(hs@.take(k as int), id, prices@),
        decreases hs@.len() - k,
    {
        proof {
            assert(hs@.take(k + 1).drop_last() =~= hs@.take(k as int));
        }
        if hs[k].0 == id {
            match find_price(prices, hs[k].1.as_str()) {
                Some(p) => {
                    out.push((hs[k].1.clone(), hs[k].2, p));
                },
                None => {},
            }
        }
        k = k + 1;
    }
    assert(hs@.take(hs@.len() as int) =~= hs@);
    out
}

fn any_holding<H>(hs: &Vec<(u128, String, H)>, id: u128) -> (r: bool)
    ensures
        r == has_holding_row(hs@, id),
{
    let mut k: usize = 0;
    while k < hs.len()
        invariant
            k <= hs@.len(),
            forall|m: int| 0 <= m < k ==> #[trigger] hs@[m].0 != id,
        decreases hs@.len() - k,
    {
        if hs[k].0 == id {
            return true;
        }
        k = k + 1;
    }
    false
}

fn collect_realized<R: Copy>(rs: &Vec<(u128, String, R)>, id: u128) -> (r: Vec<(String, R)>)
    ensures
        r@ == realized_rows(rs@, id),
{
    let mut out: Vec<(String, R)> = Vec::new();
    let mut k: usize = 0;
    while k < rs.len()
        invariant
            k <= rs@.len(),
            out@ == realized_rows(rs@.take(k as int), id),
        decreases rs@.len() - k,
    {
        proof {
            assert(rs@.take(k + 1).drop_last() =~= rs@.take(k as int));
        }
        if rs[k].0 == id {
            out.push((rs[k].1.clone(), rs[k].2));
        }
        k = k + 1;
    }
    assert(rs@.take(rs@.len() as int) =~= rs@);
    out
}

/// Groups the positions and closed positions of the public portfolios (ids in
/// display order) for the community view: each portfolio with its priced open
/// positions and its realized rows; portfolios with no holdings are left out.
pub fn community_entries<H: Copy, R: Copy, P: Copy>(
    ids: &Vec<u128>,
    holdings: &Vec<(u128, String, H)>,
    realized: &Vec<(u128, String, R)>,
    prices: &Vec<(String, P)>,
) -> (r: Vec<CommunityEntry<H, R, P>>)
    ensures
        r@.len() == shown(ids@.len() as int, ids@, holdings@, realized@, prices@).len(),
        forall|k: int|
            0 <= k < r@.len() ==> entry_of(#[trigger] r@[k], shown(ids@.len() as int, ids@, holdings@, realized@, prices@)[k], ids@, holdings@, realized@, prices@),
{
    let mut out: Vec<CommunityEntry<H, R, P>> = Vec::new();
    let mut i: usize = 0;
    while i < ids.len()
        invariant
            i <= ids@.len(),
            out@.len() == shown(i as int, ids@, holdings@, realized@, prices@).len(),
            forall|k: int|
                0 <= k < out@.len() ==> entry_of(#[trigger] out@[k], shown(i as int, ids@, holdings@, realized@, prices@)[k], ids@, holdings@, realized@, prices@),
        decreases ids@.len() - i,
    {
        let id = ids[i];
        let hs = collect_priced(holdings, id, prices);
        let mut first = true;
        let mut j: usize = 0;
        while j < i
            invariant
                j <= i < ids@.len(),
                id == ids@[i as int],
                first == (forall|m: int| 0 <= m < j ==> ids@[m] != ids@[i as int]),
            decreases i - j,
        {
            if ids[j] == id {
                first = false;
            }
            j = j + 1;
        }
        let rs = if first { collect_realized(realized, id) } else { Vec::new() };
        if any_holding(holdings, id) {
            let ghost before = out@;
            out.push(CommunityEntry { index: i, holdings: hs, realized: rs });
            proof {
                assert forall|k: int| 0 <= k < out@.len() implies entry_of(#[trigger] out@[k], shown(i + 1, ids@, holdings@, realized@, prices@)[k], ids@, holdings@, realized@, prices@) by {
                    if k < before.len() {
                        assert(out@[k] == before[k]);
                    }
                }
            }
        }
        i = i + 1;
    }
    out
}

} // verus!
