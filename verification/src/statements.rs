//! Annual financial statements in the shape the service's routes use, gap
//! detection, and field-level backfill of one source's statements from
//! another's, matched by date.
//!
//! Amounts are of any copyable type `N`; the service uses floating point.

use vstd::prelude::*;
use crate::error::AppError;
use crate::text::str_eq;
use crate::xbrl::AnnualRow;

verus! {

pub struct IncomeStatement<N> {
    pub date: String,
    pub revenue: Option<N>,
    pub gross_profit: Option<N>,
    pub net_income: Option<N>,
    pub eps: Option<N>,
    pub weighted_average_shs_out: Option<N>,
}

pub struct BalanceSheet<N> {
    pub date: String,
    pub total_assets: Option<N>,
    pub total_current_assets: Option<N>,
    pub total_current_liabilities: Option<N>,
    pub long_term_debt: Option<N>,
    pub total_equity: Option<N>,
    pub total_debt: Option<N>,
}

pub struct CashFlowStatement<N> {
    pub date: String,
    pub operating_cash_flow: Option<N>,
    pub free_cash_flow: Option<N>,
    pub common_stock_issuance: Option<N>,
}

/// Per-share values, P/E, and dividend metrics.
pub struct Ratio<N> {
    pub date: String,
    pub book_value_per_share: Option<N>,
    pub free_cash_flow_per_share: Option<N>,
    pub price_to_earnings_ratio: Option<N>,
    pub dividend_yield_percentage: Option<N>,
    pub dividend_payout_ratio: Option<N>,
    pub dividend_per_share: Option<N>,
    pub debt_to_equity_ratio: Option<N>,
}

/// ROIC and ROE.
pub struct KeyMetrics<N> {
    pub date: String,
    pub return_on_invested_capital: Option<N>,
    pub return_on_equity: Option<N>,
}

// ── Gaps ────────────────────────────────────────────────────────────────────

pub open spec fn income_gap<N>(r: IncomeStatement<N>) -> bool {
    r.revenue is None || r.gross_profit is None || r.net_income is None || r.eps is None
        || r.weighted_average_shs_out is None
}

pub open spec fn balance_gap<N>(r: BalanceSheet<N>) -> bool {
    r.total_assets is None || r.total_current_assets is None || r.total_current_liabilities is None
        || r.long_term_debt is None || r.total_equity is None || r.total_debt is None
}

pub open spec fn cash_flow_gap<N>(r: CashFlowStatement<N>) -> bool {
    r.operating_cash_flow is None || r.free_cash_flow is None
}

/// The ratio fields used elsewhere (P/E and dividend per share are not checked).
pub open spec fn ratio_gap<N>(r: Ratio<N>) -> bool {
    r.book_value_per_share is None || r.free_cash_flow_per_share is None
        || r.dividend_yield_percentage is None || r.dividend_payout_ratio is None
        || r.debt_to_equity_ratio is None
}

pub open spec fn key_metrics_gap<N>(r: KeyMetrics<N>) -> bool {
    r.return_on_invested_capital is None || r.return_on_equity is None
}

pub fn income_statement_has_gap<N>(r: &IncomeStatement<N>) -> (b: bool)
    ensures
        b == income_gap(*r),
{
    r.revenue.is_none() || r.gross_profit.is_none() || r.net_income.is_none() || r.eps.is_none()
        || r.weighted_average_shs_out.is_none()
}

pub fn balance_sheet_has_gap<N>(r: &BalanceSheet<N>) -> (b: bool)
    ensures
        b == balance_gap(*r),
{
    r.total_assets.is_none() || r.total_current_assets.is_none()
        || r.total_current_liabilities.is_none() || r.long_term_debt.is_none()
        || r.total_equity.is_none() || r.total_debt.is_none()
}

pub fn cash_flow_has_gap<N>(r: &CashFlowStatement<N>) -> (b: bool)
    ensures
        b == cash_flow_gap(*r),
{
    r.operating_cash_flow.is_none() || r.free_cash_flow.is_none()
}

pub fn ratio_has_gap<N>(r: &Ratio<N>) -> (b: bool)
    ensures
        b == ratio_gap(*r),
{
    r.book_value_per_share.is_none() || r.free_cash_flow_per_share.is_none()
        || r.dividend_yield_percentage.is_none() || r.dividend_payout_ratio.is_none()
        || r.debt_to_equity_ratio.is_none()
}

pub fn key_metrics_has_gap<N>(r: &KeyMetrics<N>) -> (b: bool)
    ensures
        b == key_metrics_gap(*r),
{
    r.return_on_invested_capital.is_none() || r.return_on_equity.is_none()
}

// ── Backfill ────────────────────────────────────────────────────────────────

/// A dated statement whose missing fields another statement can fill.
pub trait Backfill: Sized {
    /// The statement's date.
    spec fn date_view(&self) -> Seq<char>;

    /// Whether a field used elsewhere is missing.
    spec fn gap(&self) -> bool;

    /// Every field kept where present, otherwise taken from `other`; the date kept.
    spec fn filled(&self, other: Option<Self>) -> Self;

    /// Every field present in `self` has the same value in `r`, and `r` has
    /// `self`'s date.
    spec fn keeps_present(&self, r: Self) -> bool;

    /// Filling keeps the date and every present field, whatever the other
    /// statement holds.
    proof fn law_fill_keeps_present(&self, other: Option<Self>)
        ensures
            self.keeps_present(self.filled(other)),
            self.filled(other).date_view() == self.date_view(),
    ;

    /// Every field missing in `self` has `other`'s value in `r`.
    spec fn takes_missing(&self, other: Self, r: Self) -> bool;

    /// Filling from a statement takes that statement's value for every field
    /// missing here (and, by `law_fill_keeps_present`, keeps every other).
    proof fn law_fill_takes_missing(&self, other: Self)
        ensures
            self.takes_missing(other, self.filled(Some(other))),
    ;

    fn date(&self) -> (r: &str)
        ensures
            r@ == self.date_view(),
    ;

    fn has_gap(&self) -> (r: bool)
        ensures
            r == self.gap(),
    ;

    fn fill_from(&self, other: Option<&Self>) -> (r: Self)
        ensures
            r == self.filled(match other {
                Some(o) => Some(*o),
                None => None,
            }),
    ;
}

/// `a` where present, else `b`'s field when `b` is there.
pub open spec fn or_field<N>(a: Option<N>, b: Option<N>) -> Option<N> {
    match a {
        Some(x) => Some(x),
        None => b,
    }
}

fn fill<N: Copy>(a: Option<N>, b: Option<N>) -> (r: Option<N>)
    ensures
        r == or_field(a, b),
{
    match a {
        Some(x) => Some(x),
        None => b,
    }
}

impl<N: Copy> Backfill for IncomeStatement<N> {
    open spec fn takes_missing(&self, other: Self, r: Self) -> bool {
        &&& (self.revenue is None ==> r.revenue == other.revenue)
        &&& (self.gross_profit is None ==> r.gross_profit == other.gross_profit)
        &&& (self.net_income is None ==> r.net_income == other.net_income)
        &&& (self.eps is None ==> r.eps == other.eps)
        &&& (self.weighted_average_shs_out is None ==> r.weighted_average_shs_out == other.weighted_average_shs_out)
    }

    proof fn law_fill_takes_missing(&self, other: Self) {
    }

    open spec fn keeps_present(&self, r: Self) -> bool {
        &&& r.date == self.date
        &&& (self.revenue is Some ==> r.revenue == self.revenue)
        &&& (self.gross_profit is Some ==> r.gross_profit == self.gross_profit)
        &&& (self.net_income is Some ==> r.net_income == self.net_income)
        &&& (self.eps is Some ==> r.eps == self.eps)
        &&& (self.weighted_average_shs_out is Some ==> r.weighted_average_shs_out == self.weighted_average_shs_out)
    }

    proof fn law_fill_keeps_present(&self, other: Option<Self>) {
    }

    open spec fn date_view(&self) -> Seq<char> {
        self.date@
    }

    open spec fn gap(&self) -> bool {
        income_gap(*self)
    }

    open spec fn filled(&self, other: Option<Self>) -> Self {
        match other {
            Some(f) => IncomeStatement {
                date: self.date,
                revenue: or_field(self.revenue, f.revenue),
                gross_profit: or_field(self.gross_profit, f.gross_profit),
                net_income: or_field(self.net_income, f.net_income),
                eps: or_field(self.eps, f.eps),
                weighted_average_shs_out: or_field(self.weighted_average_shs_out, f.weighted_average_shs_out),
            },
            None => *self,
        }
    }

    fn date(&self) -> (r: &str) {
        self.date.as_str()
    }

    fn has_gap(&self) -> (r: bool) {
        income_statement_has_gap(self)
    }

    fn fill_from(&self, other: Option<&Self>) -> (r: Self) {
        match other {
            Some(f) => IncomeStatement {
                date: self.date.clone(),
                revenue: fill(self.revenue, f.revenue),
                gross_profit: fill(self.gross_profit, f.gross_profit),
                net_income: fill(self.net_income, f.net_income),
                eps: fill(self.eps, f.eps),
                weighted_average_shs_out: fill(self.weighted_average_shs_out, f.weighted_average_shs_out),
            },
            None => IncomeStatement {
                date: self.date.clone(),
                revenue: self.revenue,
                gross_profit: self.gross_profit,
                net_income: self.net_income,
                eps: self.eps,
                weighted_average_shs_out: self.weighted_average_shs_out,
            },
        }
    }
}

impl<N: Copy> Backfill for BalanceSheet<N> {
    open spec fn takes_missing(&self, other: Self, r: Self) -> bool {
        &&& (self.total_assets is None ==> r.total_assets == other.total_assets)
        &&& (self.total_current_assets is None ==> r.total_current_assets == other.total_current_assets)
        &&& (self.total_current_liabilities is None ==> r.total_current_liabilities == other.total_current_liabilities)
        &&& (self.long_term_debt is None ==> r.long_term_debt == other.long_term_debt)
        &&& (self.total_equity is None ==> r.total_equity == other.total_equity)
        &&& (self.total_debt is None ==> r.total_debt == other.total_debt)
    }

    proof fn law_fill_takes_missing(&self, other: Self) {
    }

    open spec fn keeps_present(&self, r: Self) -> bool {
        &&& r.date == self.date
        &&& (self.total_assets is Some ==> r.total_assets == self.total_assets)
        &&& (self.total_current_assets is Some ==> r.total_current_assets == self.total_current_assets)
        &&& (self.total_current_liabilities is Some ==> r.total_current_liabilities == self.total_current_liabilities)
        &&& (self.long_term_debt is Some ==> r.long_term_debt == self.long_term_debt)
        &&& (self.total_equity is Some ==> r.total_equity == self.total_equity)
        &&& (self.total_debt is Some ==> r.total_debt == self.total_debt)
    }

    proof fn law_fill_keeps_present(&self, other: Option<Self>) {
    }

    open spec fn date_view(&self) -> Seq<char> {
        self.date@
    }

    open spec fn gap(&self) -> bool {
        balance_gap(*self)
    }

    open spec fn filled(&self, other: Option<Self>) -> Self {
        match other {
            Some(f) => BalanceSheet {
                date: self.date,
                total_assets: or_field(self.total_assets, f.total_assets),
                total_current_assets: or_field(self.total_current_assets, f.total_current_assets),
                total_current_liabilities: or_field(self.total_current_liabilities, f.total_current_liabilities),
                long_term_debt: or_field(self.long_term_debt, f.long_term_debt),
                total_equity: or_field(self.total_equity, f.total_equity),
                total_debt: or_field(self.total_debt, f.total_debt),
            },
            None => *self,
        }
    }

    fn date(&self) -> (r: &str) {
        self.date.as_str()
    }

    fn has_gap(&self) -> (r: bool) {
        balance_sheet_has_gap(self)
    }

    fn fill_from(&self, other: Option<&Self>) -> (r: Self) {
        match other {
            Some(f) => BalanceSheet {
                date: self.date.clone(),
                total_assets: fill(self.total_assets, f.total_assets),
                total_current_assets: fill(self.total_current_assets, f.total_current_assets),
                total_current_liabilities: fill(self.total_current_liabilities, f.total_current_liabilities),
                long_term_debt: fill(self.long_term_debt, f.long_term_debt),
                total_equity: fill(self.total_equity, f.total_equity),
                total_debt: fill(self.total_debt, f.total_debt),
            },
            None => BalanceSheet {
                date: self.date.clone(),
                total_assets: self.total_assets,
                total_current_assets: self.total_current_assets,
                total_current_liabilities: self.total_current_liabilities,
                long_term_debt: self.long_term_debt,
                total_equity: self.total_equity,
                total_debt: self.total_debt,
            },
        }
    }
}

impl<N: Copy> Backfill for CashFlowStatement<N> {
    open spec fn takes_missing(&self, other: Self, r: Self) -> bool {
        &&& (self.operating_cash_flow is None ==> r.operating_cash_flow == other.operating_cash_flow)
        &&& (self.free_cash_flow is None ==> r.free_cash_flow == other.free_cash_flow)
        &&& (self.common_stock_issuance is None ==> r.common_stock_issuance == other.common_stock_issuance)
    }

    proof fn law_fill_takes_missing(&self, other: Self) {
    }

    open spec fn keeps_present(&self, r: Self) -> bool {
        &&& r.date == self.date
        &&& (self.operating_cash_flow is Some ==> r.operating_cash_flow == self.operating_cash_flow)
        &&& (self.free_cash_flow is Some ==> r.free_cash_flow == self.free_cash_flow)
        &&& (self.common_stock_issuance is Some ==> r.common_stock_issuance == self.common_stock_issuance)
    }

    proof fn law_fill_keeps_present(&self, other: Option<Self>) {
    }

    open spec fn date_view(&self) -> Seq<char> {
        self.date@
    }

    open spec fn gap(&self) -> bool {
        cash_flow_gap(*self)
    }

    open spec fn filled(&self, other: Option<Self>) -> Self {
        match other {
            Some(f) => CashFlowStatement {
                date: self.date,
                operating_cash_flow: or_field(self.operating_cash_flow, f.operating_cash_flow),
                free_cash_flow: or_field(self.free_cash_flow, f.free_cash_flow),
                common_stock_issuance: or_field(self.common_stock_issuance, f.common_stock_issuance),
            },
            None => *self,
        }
    }

    fn date(&self) -> (r: &str) {
        self.date.as_str()
    }

    fn has_gap(&self) -> (r: bool) {
        cash_flow_has_gap(self)
    }

    fn fill_from(&self, other: Option<&Self>) -> (r: Self) {
        match other {
            Some(f) => CashFlowStatement {
                date: self.date.clone(),
                operating_cash_flow: fill(self.operating_cash_flow, f.operating_cash_flow),
                free_cash_flow: fill(self.free_cash_flow, f.free_cash_flow),
                common_stock_issuance: fill(self.common_stock_issuance, f.common_stock_issuance),
            },
            None => CashFlowStatement {
                date: self.date.clone(),
                operating_cash_flow: self.operating_cash_flow,
                free_cash_flow: self.free_cash_flow,
                common_stock_issuance: self.common_stock_issuance,
            },
        }
    }
}

impl<N: Copy> Backfill for Ratio<N> {
    open spec fn takes_missing(&self, other: Self, r: Self) -> bool {
        &&& (self.book_value_per_share is None ==> r.book_value_per_share == other.book_value_per_share)
        &&& (self.free_cash_flow_per_share is None ==> r.free_cash_flow_per_share == other.free_cash_flow_per_share)
        &&& (self.price_to_earnings_ratio is None ==> r.price_to_earnings_ratio == other.price_to_earnings_ratio)
        &&& (self.dividend_yield_percentage is None ==> r.dividend_yield_percentage == other.dividend_yield_percentage)
        &&& (self.dividend_payout_ratio is None ==> r.dividend_payout_ratio == other.dividend_payout_ratio)
        &&& (self.dividend_per_share is None ==> r.dividend_per_share == other.dividend_per_share)
        &&& (self.debt_to_equity_ratio is None ==> r.debt_to_equity_ratio == other.debt_to_equity_ratio)
    }

    proof fn law_fill_takes_missing(&self, other: Self) {
    }

    open spec fn keeps_present(&self, r: Self) -> bool {
        &&& r.date == self.date
        &&& (self.book_value_per_share is Some ==> r.book_value_per_share == self.book_value_per_share)
        &&& (self.free_cash_flow_per_share is Some ==> r.free_cash_flow_per_share == self.free_cash_flow_per_share)
        &&& (self.price_to_earnings_ratio is Some ==> r.price_to_earnings_ratio == self.price_to_earnings_ratio)
        &&& (self.dividend_yield_percentage is Some ==> r.dividend_yield_percentage == self.dividend_yield_percentage)
        &&& (self.dividend_payout_ratio is Some ==> r.dividend_payout_ratio == self.dividend_payout_ratio)
        &&& (self.dividend_per_share is Some ==> r.dividend_per_share == self.dividend_per_share)
        &&& (self.debt_to_equity_ratio is Some ==> r.debt_to_equity_ratio == self.debt_to_equity_ratio)
    }

    proof fn law_fill_keeps_present(&self, other: Option<Self>) {
    }

    open spec fn date_view(&self) -> Seq<char> {
        self.date@
    }

    open spec fn gap(&self) -> bool {
        ratio_gap(*self)
    }

    open spec fn filled(&self, other: Option<Self>) -> Self {
        match other {
            Some(f) => Ratio {
                date: self.date,
                book_value_per_share: or_field(self.book_value_per_share, f.book_value_per_share),
                free_cash_flow_per_share: or_field(self.free_cash_flow_per_share, f.free_cash_flow_per_share),
                price_to_earnings_ratio: or_field(self.price_to_earnings_ratio, f.price_to_earnings_ratio),
                dividend_yield_percentage: or_field(self.dividend_yield_percentage, f.dividend_yield_percentage),
                dividend_payout_ratio: or_field(self.dividend_payout_ratio, f.dividend_payout_ratio),
                dividend_per_share: or_field(self.dividend_per_share, f.dividend_per_share),
                debt_to_equity_ratio: or_field(self.debt_to_equity_ratio, f.debt_to_equity_ratio),
            },
            None => *self,
        }
    }

    fn date(&self) -> (r: &str) {
        self.date.as_str()
    }

    fn has_gap(&self) -> (r: bool) {
        ratio_has_gap(self)
    }

    fn fill_from(&self, other: Option<&Self>) -> (r: Self) {
        match other {
            Some(f) => Ratio {
                date: self.date.clone(),
                book_value_per_share: fill(self.book_value_per_share, f.book_value_per_share),
                free_cash_flow_per_share: fill(self.free_cash_flow_per_share, f.free_cash_flow_per_share),
                price_to_earnings_ratio: fill(self.price_to_earnings_ratio, f.price_to_earnings_ratio),
                dividend_yield_percentage: fill(self.dividend_yield_percentage, f.dividend_yield_percentage),
                dividend_payout_ratio: fill(self.dividend_payout_ratio, f.dividend_payout_ratio),
                dividend_per_share: fill(self.dividend_per_share, f.dividend_per_share),
                debt_to_equity_ratio: fill(self.debt_to_equity_ratio, f.debt_to_equity_ratio),
            },
            None => Ratio {
                date: self.date.clone(),
                book_value_per_share: self.book_value_per_share,
                free_cash_flow_per_share: self.free_cash_flow_per_share,
                price_to_earnings_ratio: self.price_to_earnings_ratio,
                dividend_yield_percentage: self.dividend_yield_percentage,
                dividend_payout_ratio: self.dividend_payout_ratio,
                dividend_per_share: self.dividend_per_share,
                debt_to_equity_ratio: self.debt_to_equity_ratio,
            },
        }
    }
}

impl<N: Copy> Backfill for KeyMetrics<N> {
    open spec fn takes_missing(&self, other: Self, r: Self) -> bool {
        &&& (self.return_on_invested_capital is None ==> r.return_on_invested_capital == other.return_on_invested_capital)
        &&& (self.return_on_equity is None ==> r.return_on_equity == other.return_on_equity)
    }

    proof fn law_fill_takes_missing(&self, other: Self) {
    }

    open spec fn keeps_present(&self, r: Self) -> bool {
        &&& r.date == self.date
        &&& (self.return_on_invested_capital is Some ==> r.return_on_invested_capital == self.return_on_invested_capital)
        &&& (self.return_on_equity is Some ==> r.return_on_equity == self.return_on_equity)
    }

    proof fn law_fill_keeps_present(&self, other: Option<Self>) {
    }

    open spec fn date_view(&self) -> Seq<char> {
        self.date@
    }

    open spec fn gap(&self) -> bool {
        key_metrics_gap(*self)
    }

    open spec fn filled(&self, other: Option<Self>) -> Self {
        match other {
            Some(f) => KeyMetrics {
                date: self.date,
                return_on_invested_capital: or_field(self.return_on_invested_capital, f.return_on_invested_capital),
                return_on_equity: or_field(self.return_on_equity, f.return_on_equity),
            },
            None => *self,
        }
    }

    fn date(&self) -> (r: &str) {
        self.date.as_str()
    }

    fn has_gap(&self) -> (r: bool) {
        key_metrics_has_gap(self)
    }

    fn fill_from(&self, other: Option<&Self>) -> (r: Self) {
        match other {
            Some(f) => KeyMetrics {
                date: self.date.clone(),
                return_on_invested_capital: fill(self.return_on_invested_capital, f.return_on_invested_capital),
                return_on_equity: fill(self.return_on_equity, f.return_on_equity),
            },
            None => KeyMetrics {
                date: self.date.clone(),
                return_on_invested_capital: self.return_on_invested_capital,
                return_on_equity: self.return_on_equity,
            },
        }
    }
}

/// The last row of `rows` with the given date, if any (rows collected into a
/// date-keyed map: a later row replaces an earlier one).
pub open spec fn last_dated<T: Backfill>(rows: Seq<T>, d: Seq<char>) -> Option<T>
    decreases rows.len(),
{
    if rows.len() == 0 {
        None
    } else if rows.last().date_view() == d {
        Some(rows.last())
    } else {
        last_dated(rows.drop_last(), d)
    }
}

/// The row a primary row is matched with: there is one exactly when some
/// secondary row has its date, and it is the last row of that date.
pub proof fn law_match_last_of_date<T: Backfill>(rows: Seq<T>, d: Seq<char>, i: int)
    ensures
        last_dated(rows, d) is Some <==> exists|k: int| 0 <= k < rows.len() && (#[trigger] rows[k]).date_view() == d,
        0 <= i < rows.len() && rows[i].date_view() == d && (forall|k: int| i < k < rows.len() ==> (#[trigger] rows[k]).date_view() != d)
            ==> last_dated(rows, d) == Some(rows[i]),
    decreases rows.len(),
{
    if rows.len() > 0 {
        let r = rows.drop_last();
        law_match_last_of_date(r, d, i);
        if rows.last().date_view() != d {
            assert forall|k: int| 0 <= k < r.len() && (#[trigger] r[k]).date_view() == d implies
                0 <= k < rows.len() && rows[k].date_view() == d by {
                assert(r[k] == rows[k]);
            }
            if exists|k: int| 0 <= k < rows.len() && (#[trigger] rows[k]).date_view() == d {
                let k = choose|k: int| 0 <= k < rows.len() && (#[trigger] rows[k]).date_view() == d;
                assert(k < rows.len() - 1);
                assert(r[k] == rows[k]);
            }
            if 0 <= i < rows.len() && rows[i].date_view() == d && (forall|k: int| i < k < rows.len() ==> (#[trigger] rows[k]).date_view() != d) {
                assert(i < rows.len() - 1);
                assert(r[i] == rows[i]);
                assert forall|k: int| i < k < r.len() implies (#[trigger] r[k]).date_view() != d by {
                    assert(r[k] == rows[k]);
                }
            }
        } else {
            assert(rows[rows.len() - 1].date_view() == d);
            if 0 <= i < rows.len() && rows[i].date_view() == d && (forall|k: int| i < k < rows.len() ==> (#[trigger] rows[k]).date_view() != d) {
                if i < rows.len() - 1 {
                    assert(rows[rows.len() - 1].date_view() != d);
                }
            }
        }
    }
}

/// Whether any row has a gap.
pub open spec fn any_gap<T: Backfill>(rows: Seq<T>) -> bool {
    exists|i: int| 0 <= i < rows.len() && (#[trigger] rows[i]).gap()
}

/// Whether the primary rows are worth backfilling: some row misses a field.
pub fn needs_backfill<T: Backfill>(rows: &Vec<T>) -> (r: bool)
    ensures
        r == any_gap(rows@),
{
    let mut i: usize = 0;
    while i < rows.len()
        invariant
            i <= rows@.len(),
            forall|j: int| 0 <= j < i ==> !(#[trigger] rows@[j]).gap(),
        decreases rows@.len() - i,
    {
        if rows[i].has_gap() {
            return true;
        }
        i = i + 1;
    }
    false
}

fn find_last_dated<'a, T: Backfill>(rows: &'a [T], d: &str) -> (r: Option<&'a T>)
    ensures
        match r {
            Some(x) => last_dated(rows@, d@) == Some(*x),
            None => last_dated(rows@, d@) is None,
        },
{
    let mut i: usize = rows.len();
    assert(rows@.take(rows@.len() as int) =~= rows@);
    while i > 0
        invariant
            i <= rows@.len(),
            last_dated(rows@, d@) == last_dated(rows@.take(i as int), d@),
        decreases i,
    {
        proof {
            assert(rows@.take(i as int).drop_last() =~= rows@.take(i - 1));
        }
        if str_eq(rows[i - 1].date(), d) {
            return Some(&rows[i - 1]);
        }
        i = i - 1;
    }
    None
}

/// Merges the primary rows with the secondary rows matched by date: each
/// primary row keeps its values and takes the missing ones from the last
/// secondary row of the same date.
pub fn backfill_from_fmp<T: Backfill>(edgar_rows: Vec<T>, fmp_rows: &[T]) -> (r: Vec<T>)
    ensures
        r@.len() == edgar_rows@.len(),
        forall|i: int|
            0 <= i < r@.len() ==> #[trigger] r@[i] == edgar_rows@[i].filled(
                last_dated(fmp_rows@, edgar_rows@[i].date_view()),
            ),
{
    let mut out: Vec<T> = Vec::new();
    let mut i: usize = 0;
    while i < edgar_rows.len()
        invariant
            i <= edgar_rows@.len(),
            out@.len() == i,
            forall|j: int|
                0 <= j < i ==> #[trigger] out@[j] == edgar_rows@[j].filled(
                    last_dated(fmp_rows@, edgar_rows@[j].date_view()),
                ),
        decreases edgar_rows@.len() - i,
    {
        let e = &edgar_rows[i];
        let matched = find_last_dated(fmp_rows, e.date());
        out.push(e.fill_from(matched));
        i = i + 1;
    }
    out
}

// ── EDGAR rows as statements ────────────────────────────────────────────────

pub open spec fn min_len(n: nat, limit: u32) -> nat {
    if n < limit {
        n
    } else {
        limit as nat
    }
}

/// Income statements from the first `limit` EDGAR rows; not found when none.
pub fn income_statements_from_rows<V: Copy>(rows: &Vec<AnnualRow<V>>, limit: u32) -> (r: Result<Vec<IncomeStatement<V>>, AppError>)
    ensures
        match r {
            Ok(v) => v@.len() == min_len(rows@.len(), limit) && v@.len() > 0 && forall|i: int|
                0 <= i < v@.len() ==> {
                    let s = #[trigger] v@[i];
                    let a = rows@[i];
                    &&& s.date@ == a.end_date@
                    &&& s.revenue == a.revenue
                    &&& s.gross_profit == a.gross_profit
                    &&& s.net_income == a.net_income
                    &&& s.eps == a.eps_diluted
                    &&& s.weighted_average_shs_out == a.shares_diluted
                },
            Err(e) => e is NotFound && min_len(rows@.len(), limit) == 0,
        },
{
    let n: usize = if (rows.len() as u64) < (limit as u64) { rows.len() } else { limit as usize };
    let mut out: Vec<IncomeStatement<V>> = Vec::new();
    let mut i: usize = 0;
    while i < n
        invariant
            n == min_len(rows@.len(), limit),
            i <= n,
            out@.len() == i,
            forall|j: int|
                0 <= j < i ==> {
                    let s = #[trigger] out@[j];
                    let a = rows@[j];
                    &&& s.date@ == a.end_date@
                    &&& s.revenue == a.revenue
                    &&& s.gross_profit == a.gross_profit
                    &&& s.net_income == a.net_income
                    &&& s.eps == a.eps_diluted
                    &&& s.weighted_average_shs_out == a.shares_diluted
                },
        decreases n - i,
    {
        let a = &rows[i];
        out.push(IncomeStatement {
            date: a.end_date.clone(),
            revenue: a.revenue,
            gross_profit: a.gross_profit,
            net_income: a.net_income,
            eps: a.eps_diluted,
            weighted_average_shs_out: a.shares_diluted,
        });
        i = i + 1;
    }
    if out.len() == 0 {
        Err(AppError::NotFound)
    } else {
        Ok(out)
    }
}

/// Balance sheets from the first `limit` EDGAR rows; total debt is taken as the
/// long-term debt. Not found when none.
pub fn balance_sheets_from_rows<V: Copy>(rows: &Vec<AnnualRow<V>>, limit: u32) -> (r: Result<Vec<BalanceSheet<V>>, AppError>)
    ensures
        match r {
            Ok(v) => v@.len() == min_len(rows@.len(), limit) && v@.len() > 0 && forall|i: int|
                0 <= i < v@.len() ==> {
                    let s = #[trigger] v@[i];
                    let a = rows@[i];
                    &&& s.date@ == a.end_date@
                    &&& s.total_assets == a.total_assets
                    &&& s.total_current_assets == a.current_assets
                    &&& s.total_current_liabilities == a.current_liabilities
                    &&& s.long_term_debt == a.long_term_debt
                    &&& s.total_equity == a.stockholders_equity
                    &&& s.total_debt == a.long_term_debt
                },
            Err(e) => e is NotFound && min_len(rows@.len(), limit) == 0,
        },
{
    let n: usize = if (rows.len() as u64) < (limit as u64) { rows.len() } else { limit as usize };
    let mut out: Vec<BalanceSheet<V>> = Vec::new();
    let mut i: usize = 0;
    while i < n
        invariant
            n == min_len(rows@.len(), limit),
            i <= n,
            out@.len() == i,
            forall|j: int|
                0 <= j < i ==> {
                    let s = #[trigger] out@[j];
                    let a = rows@[j];
                    &&& s.date@ == a.end_date@
                    &&& s.total_assets == a.total_assets
                    &&& s.total_current_assets == a.current_assets
                    &&& s.total_current_liabilities == a.current_liabilities
                    &&& s.long_term_debt == a.long_term_debt
                    &&& s.total_equity == a.stockholders_equity
                    &&& s.total_debt == a.long_term_debt
                },
        decreases n - i,
    {
        let a = &rows[i];
        out.push(BalanceSheet {
            date: a.end_date.clone(),
            total_assets: a.total_assets,
            total_current_assets: a.current_assets,
            total_current_liabilities: a.current_liabilities,
            long_term_debt: a.long_term_debt,
            total_equity: a.stockholders_equity,
            total_debt: a.long_term_debt,
        });
        i = i + 1;
    }
    if out.len() == 0 {
        Err(AppError::NotFound)
    } else {
        Ok(out)
    }
}

} // verus!
