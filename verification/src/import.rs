//! Reading holdings to import from an uploaded CSV or spreadsheet.
//!
//! Required column: `ticker`; optional: `date` (YYYY-MM-DD or MM/DD/YYYY),
//! `shares`, `price` (header names ASCII case-insensitive). Each data row
//! either yields a holding to import or a per-row error; row numbers count
//! the header row, so data starts at row 2.
//!
//! Dates are day numbers (days since 1 January of year 1, that day being 1);
//! a date must lie before `today`.

use vstd::prelude::*;
use chrono::Datelike;
use crate::error::AppError;
use crate::fundamentals::{leading, leading_bytes};
use crate::sp500::string_views;
use crate::text::{
    ascii_lower, chars_of, concat, owned, str_eq, to_ascii_lowercase, to_uppercase, trim, trim_ws,
    uppercase,
};

verus! {

/// A share count or price as read: a number, or trimmed text still to be
/// read as one.
pub enum Amount<N> {
    Number(N),
    Text(String),
}

/// A holding to import.
pub struct ImportRow<N> {
    pub row_num: usize,
    pub ticker: String,
    pub date: Option<i32>,
    pub shares: Option<Amount<N>>,
    pub price_override: Option<Amount<N>>,
}

/// What one data row yields.
pub enum RowParse<N> {
    /// A holding to import.
    Valid(ImportRow<N>),
    /// A row that cannot be imported: row number, ticker (possibly empty), reason.
    Invalid(usize, String, String),
    /// A wholly empty spreadsheet row, ignored.
    Skipped,
}

// ── Dates ───────────────────────────────────────────────────────────────────

/// The day number `NaiveDate::parse_from_str(s, fmt)` reads, if it reads one.
pub uninterp spec fn parsed_date(s: Seq<char>, fmt: Seq<char>) -> Option<i32>;

/// Calls `chrono::NaiveDate::parse_from_str` and returns the date's day
/// number (`num_days_from_ce`). The result is named.
#[verifier::external_body]
fn parse_date_fmt(s: &str, fmt: &str) -> (r: Option<i32>)
    ensures
        r == parsed_date(s@, fmt@),
{
    chrono::NaiveDate::parse_from_str(s, fmt).ok().map(|d| d.num_days_from_ce())
}

/// A date written as text: ISO `YYYY-MM-DD` first, else US `MM/DD/YYYY`.
pub open spec fn text_date(s: Seq<char>) -> Option<i32> {
    match parsed_date(s, "%Y-%m-%d"@) {
        Some(d) => Some(d),
        None => parsed_date(s, "%m/%d/%Y"@),
    }
}

fn read_text_date(s: &str) -> (r: Option<i32>)
    ensures
        r == text_date(s@),
{
    match parse_date_fmt(s, "%Y-%m-%d") {
        Some(d) => Some(d),
        None => parse_date_fmt(s, "%m/%d/%Y"),
    }
}

// ── Columns ─────────────────────────────────────────────────────────────────

/// Index of the first header holding text equal to `name` ignoring ASCII case.
pub open spec fn column_of(headers: Seq<Option<Seq<char>>>, name: Seq<char>) -> Option<usize>
    decreases headers.len(),
{
    if headers.len() == 0 {
        None
    } else {
        match column_of(headers.drop_last(), name) {
            Some(i) => Some(i),
            None => if headers.last() matches Some(h) && ascii_lower(h) == ascii_lower(name) {
                Some((headers.len() - 1) as usize)
            } else {
                None
            },
        }
    }
}

/// The text of each header cell, when it holds text.
pub open spec fn header_views(hs: Seq<Option<String>>) -> Seq<Option<Seq<char>>> {
    hs.map_values(|h: Option<String>| match h {
        Some(s) => Some(s@),
        None => None,
    })
}

fn eq_ignore_ascii_case(a: &str, b: &str) -> (r: bool)
    ensures
        r == (ascii_lower(a@) == ascii_lower(b@)),
{
    let x = to_ascii_lowercase(a);
    let y = to_ascii_lowercase(b);
    str_eq(x.as_str(), y.as_str())
}

proof fn lemma_column_prefix(hs: Seq<Option<Seq<char>>>, i: int, name: Seq<char>)
    requires
        0 <= i < hs.len(),
        column_of(hs.take(i), name) is None,
        hs[i] matches Some(h) && ascii_lower(h) == ascii_lower(name),
    ensures
        column_of(hs, name) == Some(i as usize),
    decreases hs.len(),
{
    if i < hs.len() - 1 {
        assert(hs.drop_last().take(i) =~= hs.take(i));
        lemma_column_prefix(hs.drop_last(), i, name);
    } else {
        assert(hs.drop_last() =~= hs.take(i));
    }
}

proof fn lemma_column_none(hs: Seq<Option<Seq<char>>>, name: Seq<char>)
    requires
        column_of(hs, name) is None,
    ensures
        forall|j: int| 0 <= j < hs.len() ==> !(#[trigger] hs[j] matches Some(h) && ascii_lower(h) == ascii_lower(name)),
    decreases hs.len(),
{
    if hs.len() > 0 {
        lemma_column_none(hs.drop_last(), name);
        assert forall|j: int| 0 <= j < hs.len() implies !(#[trigger] hs[j] matches Some(h) && ascii_lower(h) == ascii_lower(name)) by {
            if j < hs.len() - 1 {
                assert(hs[j] == hs.drop_last()[j]);
            }
        }
    }
}

/// The index of a column, found by its header name (ASCII case-insensitive).
pub fn find_column(headers: &Vec<Option<String>>, name: &str) -> (r: Option<usize>)
    ensures
        r == column_of(header_views(headers@), name@),
{
    let ghost hv = header_views(headers@);
    let mut i: usize = 0;
    while i < headers.len()
        invariant
            i <= headers@.len(),
            hv == header_views(headers@),
            column_of(hv.take(i as int), name@) is None,
        decreases headers@.len() - i,
    {
        let hit = match &headers[i] {
            Some(h) => eq_ignore_ascii_case(h.as_str(), name),
            None => false,
        };
        if hit {
            proof {
                lemma_column_prefix(hv, i as int, name@);
            }
            return Some(i);
        }
        proof {
            assert(hv.take(i + 1).drop_last() =~= hv.take(i as int));
            assert(hv.take(i + 1).last() == hv[i as int]);
        }
        i = i + 1;
    }
    assert(hv.take(headers@.len() as int) =~= hv);
    None
}

// ── Rows ────────────────────────────────────────────────────────────────────

/// Where the columns are.
#[derive(Clone, Copy)]
pub struct Columns {
    pub ticker: usize,
    pub date: Option<usize>,
    pub shares: Option<usize>,
    pub price: Option<usize>,
}

/// The columns named by a header row; the ticker column is required.
pub open spec fn columns_of(headers: Seq<Option<Seq<char>>>) -> Option<Columns> {
    match column_of(headers, "ticker"@) {
        None => None,
        Some(t) => Some(Columns {
            ticker: t,
            date: column_of(headers, "date"@),
            shares: column_of(headers, "shares"@),
            price: column_of(headers, "price"@),
        }),
    }
}

fn find_columns(headers: &Vec<Option<String>>) -> (r: Option<Columns>)
    ensures
        r == columns_of(header_views(headers@)),
{
    match find_column(headers, "ticker") {
        None => None,
        Some(t) => Some(Columns {
            ticker: t,
            date: find_column(headers, "date"),
            shares: find_column(headers, "shares"),
            price: find_column(headers, "price"),
        }),
    }
}

/// `p` reports a row that cannot be imported.
pub open spec fn is_invalid<N>(p: RowParse<N>, row: usize, ticker: Seq<char>, msg: Seq<char>) -> bool {
    p matches RowParse::Invalid(n, t, m) && n == row && t@ == ticker && m@ == msg
}

/// `a` is the amount read from trimmed text `s` (none when there is none).
pub open spec fn amount_is_text<N>(a: Option<Amount<N>>, s: Option<Seq<char>>) -> bool {
    match s {
        None => a is None,
        Some(t) => a matches Some(Amount::Text(x)) && x@ == t,
    }
}

/// The trimmed text of a CSV field; empty when the record is shorter.
pub open spec fn csv_field(rec: Seq<Seq<char>>, c: usize) -> Seq<char> {
    if c < rec.len() {
        trim_ws(rec[c as int])
    } else {
        Seq::empty()
    }
}

/// An optional column's trimmed text, none when absent or blank.
pub open spec fn csv_optional(rec: Seq<Seq<char>>, col: Option<usize>) -> Option<Seq<char>> {
    match col {
        Some(c) => if csv_field(rec, c).len() == 0 {
            None
        } else {
            Some(csv_field(rec, c))
        },
        None => None,
    }
}

/// What a CSV record yields at row `row`.
pub open spec fn csv_row_ok<N>(p: RowParse<N>, rec: Result<Seq<Seq<char>>, Seq<char>>, row: usize, cols: Columns, today: i32) -> bool {
    match rec {
        Err(e) => is_invalid(p, row, Seq::empty(), e),
        Ok(fields) => {
            let ticker = uppercase(csv_field(fields, cols.ticker));
            let date = match csv_optional(fields, cols.date) {
                Some(s) => text_date(s),
                None => None,
            };
            if ticker.len() == 0 {
                is_invalid(p, row, Seq::empty(), "Empty ticker"@)
            } else if date matches Some(d) && d >= today {
                is_invalid(p, row, ticker, "Date must be in the past"@)
            } else {
                p matches RowParse::Valid(ir) && ir.row_num == row && ir.ticker@ == ticker && ir.date == date
                    && amount_is_text(ir.shares, csv_optional(fields, cols.shares))
                    && amount_is_text(ir.price_override, csv_optional(fields, cols.price))
            }
        },
    }
}

pub open spec fn record_view(r: Result<Vec<String>, String>) -> Result<Seq<Seq<char>>, Seq<char>> {
    match r {
        Ok(v) => Ok(string_views(v@)),
        Err(e) => Err(e@),
    }
}

fn field(rec: &Vec<String>, c: usize) -> (r: String)
    ensures
        r@ == csv_field(string_views(rec@), c),
{
    if c < rec.len() {
        trim(rec[c].as_str())
    } else {
        String::new()
    }
}

fn optional_field(rec: &Vec<String>, col: Option<usize>) -> (r: Option<String>)
    ensures
        match r {
            Some(s) => csv_optional(string_views(rec@), col) == Some(s@),
            None => csv_optional(string_views(rec@), col) is None,
        },
{
    match col {
        Some(c) => {
            let f = field(rec, c);
            if f.as_str().unicode_len() == 0 {
                None
            } else {
                Some(f)
            }
        },
        None => None,
    }
}

/// What one CSV record yields at row `row`.
pub fn csv_row<N>(cols: Columns, rec: &Result<Vec<String>, String>, row: usize, today: i32) -> (p: RowParse<N>)
    ensures
        csv_row_ok(p, record_view(*rec), row, cols, today),
{
    match rec {
        Err(e) => RowParse::Invalid(row, String::new(), e.clone()),
        Ok(fields) => {
            let t = field(fields, cols.ticker);
            let ticker = to_uppercase(t.as_str());
            if ticker.as_str().unicode_len() == 0 {
                return RowParse::Invalid(row, String::new(), owned("Empty ticker"));
            }
            let date = match optional_field(fields, cols.date) {
                Some(s) => read_text_date(s.as_str()),
                None => None,
            };
            if let Some(d) = date {
                if d >= today {
                    return RowParse::Invalid(row, ticker, owned("Date must be in the past"));
                }
            }
            let shares = match optional_field(fields, cols.shares) {
                Some(s) => Some(Amount::Text(s)),
                None => None,
            };
            let price_override = match optional_field(fields, cols.price) {
                Some(s) => Some(Amount::Text(s)),
                None => None,
            };
            RowParse::Valid(ImportRow { row_num: row, ticker, date, shares, price_override })
        },
    }
}

/// What the records of a CSV upload yield, one result per record, record `i`
/// being row `i + 2`.
pub fn csv_rows<N>(cols: Columns, records: &Vec<Result<Vec<String>, String>>, today: i32) -> (r: Vec<RowParse<N>>)
    requires
        records@.len() + 2 <= usize::MAX,
    ensures
        r@.len() == records@.len(),
        forall|i: int| 0 <= i < r@.len() ==> csv_row_ok(#[trigger] r@[i], record_view(records@[i]), (i + 2) as usize, cols, today),
{
    let mut out: Vec<RowParse<N>> = Vec::new();
    let mut i: usize = 0;
    while i < records.len()
        invariant
            i <= records@.len(),
            records@.len() + 2 <= usize::MAX,
            out@.len() == i,
            forall|k: int| 0 <= k < i ==> csv_row_ok(#[trigger] out@[k], record_view(records@[k]), (k + 2) as usize, cols, today),
        decreases records@.len() - i,
    {
        out.push(csv_row(cols, &records[i], i + 2, today));
        i = i + 1;
    }
    out
}

/// The header row and records that `csv::ReaderBuilder` (fields trimmed)
/// reads from some bytes, each error as its message; no records when the
/// header row cannot be read.
pub uninterp spec fn csv_parsed(bytes: Seq<u8>) -> (Result<Seq<Seq<char>>, Seq<char>>, Seq<Result<Seq<Seq<char>>, Seq<char>>>);

pub open spec fn csv_view(t: (Result<Vec<String>, String>, Vec<Result<Vec<String>, String>>)) -> (Result<Seq<Seq<char>>, Seq<char>>, Seq<Result<Seq<Seq<char>>, Seq<char>>>) {
    (record_view(t.0), t.1@.map_values(|r: Result<Vec<String>, String>| record_view(r)))
}

/// Reads a CSV upload with the `csv` crate: the header row, then every
/// record, fields trimmed. The result is named.
#[verifier::external_body]
fn read_csv(bytes: &[u8]) -> (r: (Result<Vec<String>, String>, Vec<Result<Vec<String>, String>>))
    ensures
        csv_view(r) == csv_parsed(bytes@),
{
    let mut rdr = csv::ReaderBuilder::new().trim(csv::Trim::All).from_reader(bytes);
    let headers: Vec<String> = match rdr.headers() {
        Ok(h) => h.iter().map(|f| f.to_owned()).collect(),
        Err(e) => return (Err(e.to_string()), Vec::new()),
    };
    let records = rdr.records().map(|r| r.map(|rec| rec.iter().map(|f| f.to_owned()).collect()).map_err(|e| e.to_string())).collect();
    (Ok(headers), records)
}

fn all_text(hs: &Vec<String>) -> (r: Vec<Option<String>>)
    ensures
        header_views(r@) == string_views(hs@).map_values(|h: Seq<char>| Some(h)),
{
    let mut out: Vec<Option<String>> = Vec::new();
    let mut i: usize = 0;
    while i < hs.len()
        invariant
            i <= hs@.len(),
            out@.len() == i,
            forall|k: int| 0 <= k < i ==> (#[trigger] out@[k]) == Some(hs@[k]),
        decreases hs@.len() - i,
    {
        out.push(Some(hs[i].clone()));
        i = i + 1;
    }
    assert(header_views(out@) =~= string_views(hs@).map_values(|h: Seq<char>| Some(h)));
    out
}

/// What a CSV upload yields: a header error or a missing ticker column is a
/// bad request; otherwise one result per record.
pub open spec fn csv_upload_ok<N>(r: Result<Vec<RowParse<N>>, AppError>, bytes: Seq<u8>, today: i32) -> bool {
    let (header, records) = csv_parsed(bytes);
    match header {
        Err(e) => r matches Err(AppError::BadRequest(m)) && m@ == "CSV header error: "@ + e,
        Ok(hs) => match columns_of(hs.map_values(|h: Seq<char>| Some(h))) {
            None => r matches Err(AppError::BadRequest(m)) && m@ == "CSV must have a 'ticker' column"@,
            Some(cols) => r matches Ok(rows) && rows@.len() == records.len() && forall|i: int|
                0 <= i < rows@.len() ==> csv_row_ok(#[trigger] rows@[i], records[i], (i + 2) as usize, cols, today),
        },
    }
}

/// Reads the holdings of a CSV upload. `None` only when the upload holds more
/// records than row numbers can count.
pub fn parse_csv_bytes<N>(bytes: &[u8], today: i32) -> (r: Option<Result<Vec<RowParse<N>>, AppError>>)
    ensures
        match r {
            Some(x) => csv_upload_ok(x, bytes@, today),
            None => csv_parsed(bytes@).1.len() + 2 > usize::MAX,
        },
{
    let (header, records) = read_csv(bytes);
    proof {
        assert(csv_view((header, records)) == csv_parsed(bytes@));
    }
    let hs = match header {
        Err(e) => return Some(Err(AppError::BadRequest(concat("CSV header error: ", e.as_str())))),
        Ok(h) => h,
    };
    let cols = match find_columns(&all_text(&hs)) {
        None => return Some(Err(AppError::BadRequest(owned("CSV must have a 'ticker' column")))),
        Some(c) => c,
    };
    if records.len() > usize::MAX - 2 {
        return None;
    }
    let rows = csv_rows(cols, &records, today);
    proof {
        assert forall|i: int| 0 <= i < rows@.len() implies csv_row_ok(#[trigger] rows@[i], csv_parsed(bytes@).1[i], (i + 2) as usize, cols, today) by {
            assert(csv_parsed(bytes@).1[i] == record_view(records@[i]));
        }
    }
    Some(Ok(rows))
}

// ── Splitting valid rows from errors ────────────────────────────────────────

pub open spec fn valid_rows<N>(ps: Seq<RowParse<N>>) -> Seq<ImportRow<N>>
    decreases ps.len(),
{
    if ps.len() == 0 {
        Seq::empty()
    } else {
        match ps.last() {
            RowParse::Valid(r) => valid_rows(ps.drop_last()).push(r),
            _ => valid_rows(ps.drop_last()),
        }
    }
}

pub open spec fn row_errors<N>(ps: Seq<RowParse<N>>) -> Seq<(usize, String, String)>
    decreases ps.len(),
{
    if ps.len() == 0 {
        Seq::empty()
    } else {
        match ps.last() {
            RowParse::Invalid(n, t, m) => row_errors(ps.drop_last()).push((n, t, m)),
            _ => row_errors(ps.drop_last()),
        }
    }
}

/// The holdings to import and the per-row errors, each in row order.
pub fn split_rows<N>(ps: Vec<RowParse<N>>) -> (r: (Vec<ImportRow<N>>, Vec<(usize, String, String)>))
    ensures
        r.0@ == valid_rows(ps@),
        r.1@ == row_errors(ps@),
{
    let ghost orig = ps@;
    let mut ps = ps;
    let mut rev: Vec<RowParse<N>> = Vec::new();
    while ps.len() > 0
        invariant
            ps@ == orig.take(ps@.len() as int),
            ps@.len() <= orig.len(),
            rev@.len() == orig.len() - ps@.len(),
            forall|i: int| 0 <= i < rev@.len() ==> #[trigger] rev@[i] == orig[orig.len() - 1 - i],
        decreases ps@.len(),
    {
        let ghost n = ps@.len();
        let p = ps.pop().unwrap();
        proof {
            assert(ps@ =~= orig.take(n - 1));
        }
        rev.push(p);
    }
    let mut rows: Vec<ImportRow<N>> = Vec::new();
    let mut errs: Vec<(usize, String, String)> = Vec::new();
    let ghost total = orig.len();
    while rev.len() > 0
        invariant
            rev@.len() <= total,
            total == orig.len(),
            forall|i: int| 0 <= i < rev@.len() ==> #[trigger] rev@[i] == orig[orig.len() - 1 - i],
            rows@ == valid_rows(orig.take(total - rev@.len())),
            errs@ == row_errors(orig.take(total - rev@.len())),
        decreases rev@.len(),
    {
        let ghost n = rev@.len();
        let p = rev.pop().unwrap();
        proof {
            let k = total - n;
            assert(p == orig[k]);
            assert(orig.take(k + 1).drop_last() =~= orig.take(k));
            assert(orig.take(k + 1).last() == p);
        }
        match p {
            RowParse::Valid(r) => rows.push(r),
            RowParse::Invalid(n, t, m) => errs.push((n, t, m)),
            RowParse::Skipped => {},
        }
    }
    assert(orig.take(total as int) =~= orig);
    (rows, errs)
}

// ── Spreadsheets ────────────────────────────────────────────────────────────

/// A spreadsheet cell, as the import reads it.
pub enum SheetCell<N> {
    Empty,
    /// A float or integer cell.
    Number(N),
    Text(String),
    /// A date-time cell: the day number of its date, when it has one.
    DateTime(Option<i32>),
    /// An ISO 8601 date-time text cell.
    DateTimeIso(String),
    /// Any other cell (boolean, error, duration).
    Other,
}

/// The date a cell holds: a date-time cell's date; an ISO cell's first ten
/// bytes (or the whole text) read as YYYY-MM-DD; a text cell, trimmed, read as
/// YYYY-MM-DD or MM/DD/YYYY.
pub open spec fn cell_date<N>(c: SheetCell<N>) -> Option<i32> {
    match c {
        SheetCell::DateTime(d) => d,
        SheetCell::DateTimeIso(s) => parsed_date(
            match leading_bytes(s@, 10) {
                Some(p) => p,
                None => s@,
            },
            "%Y-%m-%d"@,
        ),
        SheetCell::Text(s) => text_date(trim_ws(s@)),
        _ => None,
    }
}

/// The amount a cell holds: a number, or trimmed text still to be read.
pub open spec fn cell_amount_ok<N>(a: Option<Amount<N>>, c: SheetCell<N>) -> bool {
    match c {
        SheetCell::Number(n) => a == Some(Amount::Number(n)),
        SheetCell::Text(s) => a matches Some(Amount::Text(t)) && t@ == trim_ws(s@),
        _ => a is None,
    }
}

pub open spec fn cell_at<N>(row: Seq<SheetCell<N>>, col: Option<usize>) -> SheetCell<N> {
    match col {
        Some(c) => if c < row.len() {
            row[c as int]
        } else {
            SheetCell::Empty
        },
        None => SheetCell::Empty,
    }
}

/// The text of the ticker cell; empty unless it is a text cell.
pub open spec fn cell_text<N>(c: SheetCell<N>) -> Seq<char> {
    match c {
        SheetCell::Text(s) => s@,
        _ => Seq::empty(),
    }
}

pub open spec fn all_empty<N>(row: Seq<SheetCell<N>>) -> bool {
    forall|i: int| 0 <= i < row.len() ==> #[trigger] row[i] is Empty
}

/// What a spreadsheet data row yields at row `row`.
pub open spec fn sheet_row_ok<N>(p: RowParse<N>, cells: Seq<SheetCell<N>>, row: usize, cols: Columns, today: i32) -> bool {
    if all_empty(cells) {
        p is Skipped
    } else {
        let ticker = uppercase(trim_ws(cell_text(cell_at(cells, Some(cols.ticker)))));
        let date = cell_date(cell_at(cells, cols.date));
        if ticker.len() == 0 {
            is_invalid(p, row, Seq::empty(), "Empty ticker"@)
        } else if date matches Some(d) && d >= today {
            is_invalid(p, row, ticker, "Date must be in the past"@)
        } else {
            p matches RowParse::Valid(ir) && ir.row_num == row && ir.ticker@ == ticker && ir.date == date
                && (cols.shares is Some ==> cell_amount_ok(ir.shares, cell_at(cells, cols.shares)))
                && (cols.shares is None ==> ir.shares is None)
                && (cols.price is Some ==> cell_amount_ok(ir.price_override, cell_at(cells, cols.price)))
                && (cols.price is None ==> ir.price_override is None)
        }
    }
}

fn cell_ref<'a, N>(row: &'a Vec<SheetCell<N>>, col: Option<usize>) -> (r: Option<&'a SheetCell<N>>)
    ensures
        match r {
            Some(c) => col is Some && *c == cell_at(row@, col),
            None => cell_at(row@, col) is Empty,
        },
{
    match col {
        Some(c) => if c < row.len() {
            Some(&row[c])
        } else {
            None
        },
        None => None,
    }
}

fn date_of_cell<N>(c: Option<&SheetCell<N>>) -> (r: Option<i32>)
    ensures
        match c {
            Some(x) => r == cell_date(*x),
            None => r is None,
        },
{
    match c {
        Some(SheetCell::DateTime(d)) => *d,
        Some(SheetCell::DateTimeIso(s)) => {
            let head = match leading(s.as_str(), 10) {
                Some(p) => p,
                None => s.clone(),
            };
            parse_date_fmt(head.as_str(), "%Y-%m-%d")
        },
        Some(SheetCell::Text(s)) => {
            let t = trim(s.as_str());
            read_text_date(t.as_str())
        },
        _ => None,
    }
}

fn amount_of_cell<N: Copy>(c: Option<&SheetCell<N>>) -> (r: Option<Amount<N>>)
    ensures
        match c {
            Some(x) => cell_amount_ok(r, *x),
            None => r is None,
        },
{
    match c {
        Some(SheetCell::Number(n)) => Some(Amount::Number(*n)),
        Some(SheetCell::Text(s)) => Some(Amount::Text(trim(s.as_str()))),
        _ => None,
    }
}

fn row_is_empty<N>(row: &Vec<SheetCell<N>>) -> (r: bool)
    ensures
        r == all_empty(row@),
{
    let mut i: usize = 0;
    while i < row.len()
        invariant
            i <= row@.len(),
            forall|k: int| 0 <= k < i ==> #[trigger] row@[k] is Empty,
        decreases row@.len() - i,
    {
        match &row[i] {
            SheetCell::Empty => {},
            _ => {
                return false;
            },
        }
        i = i + 1;
    }
    true
}

/// What one spreadsheet data row yields at row `row`.
pub fn sheet_row<N: Copy>(cols: Columns, cells: &Vec<SheetCell<N>>, row: usize, today: i32) -> (p: RowParse<N>)
    ensures
        sheet_row_ok(p, cells@, row, cols, today),
{
    if row_is_empty(cells) {
        return RowParse::Skipped;
    }
    let text = match cell_ref(cells, Some(cols.ticker)) {
        Some(SheetCell::Text(s)) => s.clone(),
        _ => String::new(),
    };
    let t = trim(text.as_str());
    let ticker = to_uppercase(t.as_str());
    if ticker.as_str().unicode_len() == 0 {
        return RowParse::Invalid(row, String::new(), owned("Empty ticker"));
    }
    let date = date_of_cell(cell_ref(cells, cols.date));
    if let Some(d) = date {
        if d >= today {
            return RowParse::Invalid(row, ticker, owned("Date must be in the past"));
        }
    }
    let shares = amount_of_cell(cell_ref(cells, cols.shares));
    let price_override = amount_of_cell(cell_ref(cells, cols.price));
    RowParse::Valid(ImportRow { row_num: row, ticker, date, shares, price_override })
}

pub open spec fn sheet_header_views<N>(row: Seq<SheetCell<N>>) -> Seq<Option<Seq<char>>> {
    row.map_values(|c: SheetCell<N>| match c {
        SheetCell::Text(s) => Some(s@),
        _ => None,
    })
}

/// What a spreadsheet's rows yield: the first row names the columns (an empty
/// sheet or a missing ticker column is a bad request); data row `i` (0-based,
/// empty rows counted) is row `i + 2`.
pub open spec fn sheet_ok<N>(r: Result<Vec<RowParse<N>>, AppError>, rows: Seq<Vec<SheetCell<N>>>, today: i32) -> bool {
    if rows.len() == 0 {
        r matches Err(AppError::BadRequest(m)) && m@ == "Spreadsheet is empty"@
    } else {
        match columns_of(sheet_header_views(rows[0]@)) {
            None => r matches Err(AppError::BadRequest(m)) && m@ == "Spreadsheet must have a 'ticker' column"@,
            Some(cols) => r matches Ok(out) && out@.len() == rows.len() - 1 && forall|i: int|
                0 <= i < out@.len() ==> sheet_row_ok(#[trigger] out@[i], rows[i + 1]@, (i + 2) as usize, cols, today),
        }
    }
}

/// Reads the holdings of a spreadsheet's first sheet.
pub fn sheet_rows<N: Copy>(rows: &Vec<Vec<SheetCell<N>>>, today: i32) -> (r: Result<Vec<RowParse<N>>, AppError>)
    requires
        rows@.len() + 1 <= usize::MAX,
    ensures
        sheet_ok(r, rows@, today),
{
    if rows.len() == 0 {
        return Err(AppError::BadRequest(owned("Spreadsheet is empty")));
    }
    let header = &rows[0];
    let mut names: Vec<Option<String>> = Vec::new();
    let mut h: usize = 0;
    while h < header.len()
        invariant
            h <= header@.len(),
            names@.len() == h,
            forall|k: int| 0 <= k < h ==> (#[trigger] names@[k]) == (match header@[k] {
                SheetCell::Text(s) => Some(s),
                _ => None::<String>,
            }),
        decreases header@.len() - h,
    {
        let n = match &header[h] {
            SheetCell::Text(s) => Some(s.clone()),
            _ => None,
        };
        names.push(n);
        h = h + 1;
    }
    assert(header_views(names@) =~= sheet_header_views(header@));
    let cols = match find_columns(&names) {
        None => return Err(AppError::BadRequest(owned("Spreadsheet must have a 'ticker' column"))),
        Some(c) => c,
    };
    let mut out: Vec<RowParse<N>> = Vec::new();
    let mut i: usize = 1;
    while i < rows.len()
        invariant
            1 <= i <= rows@.len(),
            rows@.len() + 1 <= usize::MAX,
            out@.len() == i - 1,
            forall|k: int| 0 <= k < i - 1 ==> sheet_row_ok(#[trigger] out@[k], rows@[k + 1]@, (k + 2) as usize, cols, today),
        decreases rows@.len() - i,
    {
        out.push(sheet_row(cols, &rows[i], i + 1, today));
        i = i + 1;
    }
    Ok(out)
}

// ── Prices ──────────────────────────────────────────────────────────────────

/// Where an imported holding's cost basis comes from.
pub enum PriceSource<N> {
    /// The price given in the upload.
    Given(Amount<N>),
    /// The closing price on this day (or the nearest earlier trading day).
    OnDay(i32),
    /// The latest price.
    Latest,
}

/// A given price wins; else the row's date's price; else the latest.
pub fn price_source<N: Copy>(row: &ImportRow<N>) -> (r: PriceSource<N>)
    ensures
        match row.price_override {
            Some(a) => r matches PriceSource::Given(b) && b == a,
            None => match row.date {
                Some(d) => r matches PriceSource::OnDay(x) && x == d,
                None => r is Latest,
            },
        },
{
    match &row.price_override {
        Some(Amount::Number(n)) => PriceSource::Given(Amount::Number(*n)),
        Some(Amount::Text(t)) => PriceSource::Given(Amount::Text(t.clone())),
        None => match row.date {
            Some(d) => PriceSource::OnDay(d),
            None => PriceSource::Latest,
        },
    }
}

/// An upload with neither importable rows nor row errors is refused.
pub fn require_data_rows(valid: usize, errors: usize) -> (r: Result<(), AppError>)
    ensures
        valid == 0 && errors == 0 ==> (r matches Err(AppError::BadRequest(m)) && m@ == "File has no data rows"@),
        valid > 0 || errors > 0 ==> r is Ok,
{
    if valid == 0 && errors == 0 {
        Err(AppError::BadRequest(owned("File has no data rows")))
    } else {
        Ok(())
    }
}

} // verus!
