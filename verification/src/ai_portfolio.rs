//! The AI-managed portfolio's selection and rebalancing rules.
//!
//! Selection (hybrid):
//!   1. Guarantee one pick per sector: the top screener result of each sector,
//!      in sector order, unless its ticker or its company is already picked.
//!   2. Fill the remaining slots, up to `MAX_HOLDINGS`, with the best-ranked
//!      remaining candidates across all sectors, at most `MAX_PER_SECTOR` per sector.
//!   3. Hand the picks back best first.
//!
//! Rebalancing: a candidate with negative news and a score below the veto
//! threshold is dropped; a held ticker is replaced when its current score is
//! below the replacement threshold and its news is negative (whether or not it
//! was dropped); new picks, from the candidates not dropped, fill the free
//! slots in candidate order.
//!
//! Scores are compared with their thresholds by the caller, which hands each
//! candidate in with its rank (an order key of its composite score) and the
//! outcome of each threshold comparison.

use vstd::prelude::*;
use crate::sorting::{stable_sort_by_key, stable_sorted, stable_sort_by_str_key, str_stable_sorted};
use crate::sp500::string_views;
use crate::text::{
    seq_lt,
    chars_of, concat, decimal, owned, signed_decimal, str_eq, string_from_chars, u64_to_string,
    zero_pad, zero_padded, i64_to_string,
};

verus! {

/// Most holdings the portfolio carries.
pub const MAX_HOLDINGS: usize = 20;

/// Most holdings from one sector (the per-sector best pick aside).
pub const MAX_PER_SECTOR: usize = 3;

/// A screener result offered for selection.
pub struct Candidate<S> {
    pub ticker: String,
    pub sector: String,
    /// Order key of the composite score: a larger rank is a better score.
    pub rank: u64,
    /// The scores that travel with the pick.
    pub scores: S,
}

impl<S: Copy> Candidate<S> {
    /// An identical copy.
    pub fn duplicate(&self) -> (r: Self)
        ensures
            r == *self,
    {
        Candidate {
            ticker: self.ticker.clone(),
            sector: self.sector.clone(),
            rank: self.rank,
            scores: self.scores,
        }
    }
}

// ── Company key ─────────────────────────────────────────────────────────────

/// Index of the first share-class separator (`-` or `.`), or the length.
pub open spec fn class_sep(t: Seq<char>) -> nat
    decreases t.len(),
{
    if t.len() == 0 {
        0
    } else if t[0] == '-' || t[0] == '.' {
        0
    } else {
        1 + class_sep(t.drop_first())
    }
}

/// The company a ticker belongs to: its symbol up to the first share-class
/// separator, so that `BRK-A` and `BRK-B` count as one company.
pub open spec fn company_key(t: Seq<char>) -> Seq<char> {
    t.take(class_sep(t) as int)
}

proof fn lemma_class_sep(t: Seq<char>, i: int)
    requires
        0 <= i <= t.len(),
        forall|j: int| 0 <= j < i ==> #[trigger] t[j] != '-' && t[j] != '.',
        i == t.len() || t[i] == '-' || t[i] == '.',
    ensures
        class_sep(t) == i,
    decreases t.len(),
{
    if t.len() > 0 && i > 0 {
        assert forall|j: int| 0 <= j < i - 1 implies #[trigger] t.drop_first()[j] != '-'
            && t.drop_first()[j] != '.' by {
            assert(t.drop_first()[j] == t[j + 1]);
        }
        if i < t.len() {
            assert(t.drop_first()[i - 1] == t[i]);
        }
        lemma_class_sep(t.drop_first(), i - 1);
    }
}

/// The company key of a ticker.
pub fn company_key_of(t: &str) -> (r: String)
    ensures
        r@ == company_key(t@),
{
    let v = chars_of(t);
    let mut i: usize = 0;
    while i < v.len()
        invariant
            i <= v@.len(),
            v@ == t@,
            forall|j: int| 0 <= j < i ==> #[trigger] v@[j] != '-' && v@[j] != '.',
        ensures
            i <= v@.len(),
            forall|j: int| 0 <= j < i ==> #[trigger] v@[j] != '-' && v@[j] != '.',
            i == v@.len() || v@[i as int] == '-' || v@[i as int] == '.',
        decreases v@.len() - i,
    {
        if v[i] == '-' || v[i] == '.' {
            break;
        }
        i = i + 1;
    }
    proof {
        lemma_class_sep(t@, i as int);
    }
    let mut out: Vec<char> = Vec::new();
    let mut k: usize = 0;
    while k < i
        invariant
            k <= i <= v@.len(),
            out@ == v@.take(k as int),
        decreases i - k,
    {
        out.push(v[k]);
        k = k + 1;
        assert(v@.take(k as int) =~= v@.take((k - 1) as int).push(v@[k - 1]));
    }
    string_from_chars(out.as_slice())
}

// ── Selection ───────────────────────────────────────────────────────────────

/// Selection state: the picks so far, the tickers seen as picked, and the
/// companies picked.
pub type Pick<S> = (Seq<Candidate<S>>, Seq<Seq<char>>, Seq<Seq<char>>);

/// How many picks belong to a sector.
pub open spec fn sector_count<S>(chosen: Seq<Candidate<S>>, sector: Seq<char>) -> nat
    decreases chosen.len(),
{
    if chosen.len() == 0 {
        0
    } else {
        sector_count(chosen.drop_last(), sector) + (if chosen.last().sector@ == sector {
            1nat
        } else {
            0nat
        })
    }
}

/// Step 1 on one sector's top candidate: its ticker is marked as picked when
/// new; it is picked when its company is new as well.
pub open spec fn take_top<S>(st: Pick<S>, c: Candidate<S>) -> Pick<S> {
    if st.1.contains(c.ticker@) {
        st
    } else if st.2.contains(company_key(c.ticker@)) {
        (st.0, st.1.push(c.ticker@), st.2)
    } else {
        (st.0.push(c), st.1.push(c.ticker@), st.2.push(company_key(c.ticker@)))
    }
}

/// Step 1 over the sectors' result lists, in sector order.
pub open spec fn first_pass<S>(lists: Seq<Seq<Candidate<S>>>) -> Pick<S>
    decreases lists.len(),
{
    if lists.len() == 0 {
        (Seq::empty(), Seq::empty(), Seq::empty())
    } else {
        let st = first_pass(lists.drop_last());
        if lists.last().len() > 0 {
            take_top(st, lists.last()[0])
        } else {
            st
        }
    }
}

/// Step 2 on one candidate: picked unless the portfolio is full, the ticker or
/// the company is already picked, or its sector already has `MAX_PER_SECTOR`.
pub open spec fn fill_one<S>(st: Pick<S>, c: Candidate<S>) -> Pick<S> {
    if st.0.len() >= MAX_HOLDINGS || st.1.contains(c.ticker@) || st.2.contains(
        company_key(c.ticker@),
    ) || sector_count(st.0, c.sector@) >= MAX_PER_SECTOR {
        st
    } else {
        (st.0.push(c), st.1.push(c.ticker@), st.2.push(company_key(c.ticker@)))
    }
}

/// Step 2 over the ranked remaining candidates.
pub open spec fn fill_pass<S>(st: Pick<S>, rest: Seq<Candidate<S>>) -> Pick<S>
    decreases rest.len(),
{
    if rest.len() == 0 {
        st
    } else {
        fill_one(fill_pass(st, rest.drop_last()), rest.last())
    }
}

/// All candidates, sector after sector.
pub open spec fn flatten_lists<S>(lists: Seq<Seq<Candidate<S>>>) -> Seq<Candidate<S>>
    decreases lists.len(),
{
    if lists.len() == 0 {
        Seq::empty()
    } else {
        flatten_lists(lists.drop_last()) + lists.last()
    }
}

/// The candidates whose ticker is not marked as picked.
pub open spec fn unpicked<S>(all: Seq<Candidate<S>>, tickers: Seq<Seq<char>>) -> Seq<Candidate<S>>
    decreases all.len(),
{
    if all.len() == 0 {
        Seq::empty()
    } else if tickers.contains(all.last().ticker@) {
        unpicked(all.drop_last(), tickers)
    } else {
        unpicked(all.drop_last(), tickers).push(all.last())
    }
}

pub open spec fn with_rank<S>(cs: Seq<Candidate<S>>) -> Seq<(Candidate<S>, u64)> {
    cs.map_values(|c: Candidate<S>| (c, c.rank))
}

pub open spec fn firsts<S>(ps: Seq<(Candidate<S>, u64)>) -> Seq<Candidate<S>> {
    ps.map_values(|p: (Candidate<S>, u64)| p.0)
}

/// The remaining candidates, best rank first (ties in sector order).
pub open spec fn ranked_rest<S>(lists: Seq<Seq<Candidate<S>>>) -> Seq<Candidate<S>> {
    firsts(stable_sorted(with_rank(unpicked(flatten_lists(lists), first_pass(lists).1)), true))
}

/// The picks of the two passes, in the order they were made.
pub open spec fn picked<S>(lists: Seq<Seq<Candidate<S>>>) -> Seq<Candidate<S>> {
    fill_pass(first_pass(lists), ranked_rest(lists)).0
}

/// The selected portfolio for the given per-sector result lists: the picks,
/// best rank first (equal ranks in the order they were picked).
pub open spec fn selection<S>(lists: Seq<Seq<Candidate<S>>>) -> Seq<Candidate<S>> {
    firsts(stable_sorted(with_rank(picked(lists)), true))
}

pub open spec fn lists_view<S>(lists: Seq<Vec<Candidate<S>>>) -> Seq<Seq<Candidate<S>>> {
    lists.map_values(|v: Vec<Candidate<S>>| v@)
}

fn contains_string(v: &[String], t: &str) -> (r: bool)
    ensures
        r == string_views(v@).contains(t@),
{
    let mut i: usize = 0;
    while i < v.len()
        invariant
            i <= v@.len(),
            forall|j: int| 0 <= j < i ==> #[trigger] v@[j]@ != t@,
        decreases v@.len() - i,
    {
        if str_eq(v[i].as_str(), t) {
            assert(string_views(v@)[i as int] == t@);
            return true;
        }
        i = i + 1;
    }
    assert forall|j: int| 0 <= j < string_views(v@).len() implies string_views(v@)[j] != t@ by {
        assert(v@[j]@ != t@);
    }
    false
}

fn count_sector<S>(chosen: &Vec<Candidate<S>>, sector: &str) -> (r: usize)
    ensures
        r == sector_count(chosen@, sector@),
{
    let mut n: usize = 0;
    let mut i: usize = 0;
    while i < chosen.len()
        invariant
            i <= chosen@.len(),
            n == sector_count(chosen@.take(i as int), sector@),
            n <= i,
        decreases chosen@.len() - i,
    {
        proof {
            assert(chosen@.take(i + 1).drop_last() =~= chosen@.take(i as int));
        }
        if str_eq(chosen[i].sector.as_str(), sector) {
            n = n + 1;
        }
        i = i + 1;
    }
    assert(chosen@.take(chosen@.len() as int) =~= chosen@);
    n
}

proof fn lemma_push_view(v: Seq<String>, s: String)
    ensures
        string_views(v.push(s)) == string_views(v).push(s@),
{
    assert(string_views(v.push(s)) =~= string_views(v).push(s@));
}

/// Runs the hybrid selection over each sector's screener results (one list per
/// sector, in sector order, best first; a failed sector has an empty list) and
/// returns the picks ordered best first.
pub fn select_candidates<S: Copy>(lists: &Vec<Vec<Candidate<S>>>) -> (r: Vec<Candidate<S>>)
    ensures
        r@ == selection(lists_view(lists@)),
{
    let ghost ls = lists_view(lists@);
    let mut chosen: Vec<Candidate<S>> = Vec::new();
    let mut tickers: Vec<String> = Vec::new();
    let mut companies: Vec<String> = Vec::new();
    let mut all: Vec<Candidate<S>> = Vec::new();
    let mut i: usize = 0;
    while i < lists.len()
        invariant
            i <= lists@.len(),
            ls == lists_view(lists@),
            (chosen@, string_views(tickers@), string_views(companies@)) == first_pass(ls.take(i as int)),
            all@ == flatten_lists(ls.take(i as int)),
        decreases lists@.len() - i,
    {
        proof {
            assert(ls.take(i + 1).drop_last() =~= ls.take(i as int));
            assert(ls.take(i + 1).last() == lists@[i as int]@);
        }
        let list = &lists[i];
        if list.len() > 0 {
            let top = &list[0];
            let t = top.ticker.as_str();
            if !contains_string(tickers.as_slice(), t) {
                let co = company_key_of(t);
                proof {
                    lemma_push_view(tickers@, top.ticker);
                }
                tickers.push(top.ticker.clone());
                if !contains_string(companies.as_slice(), co.as_str()) {
                    proof {
                        lemma_push_view(companies@, co);
                    }
                    companies.push(co);
                    chosen.push(top.duplicate());
                }
            }
        }
        let mut j: usize = 0;
        let ghost before = all@;
        while j < list.len()
            invariant
                j <= list@.len(),
                all@ == before + list@.take(j as int),
            decreases list@.len() - j,
        {
            all.push(list[j].duplicate());
            j = j + 1;
            assert(list@.take(j as int) =~= list@.take((j - 1) as int).push(list@[j - 1]));
        }
        assert(list@.take(list@.len() as int) =~= list@);
        i = i + 1;
    }
    assert(ls.take(lists@.len() as int) =~= ls);
    let ghost st1 = first_pass(ls);
    // Remaining candidates: those whose ticker is not marked as picked.
    let mut rest: Vec<(Candidate<S>, u64)> = Vec::new();
    let mut k: usize = 0;
    while k < all.len()
        invariant
            k <= all@.len(),
            string_views(tickers@) == st1.1,
            rest@ == with_rank(unpicked(all@.take(k as int), st1.1)),
        decreases all@.len() - k,
    {
        proof {
            assert(all@.take(k + 1).drop_last() =~= all@.take(k as int));
        }
        if !contains_string(tickers.as_slice(), all[k].ticker.as_str()) {
            let c = all[k].duplicate();
            let rk = c.rank;
            rest.push((c, rk));
            proof {
                assert(rest@ =~= with_rank(unpicked(all@.take(k + 1), st1.1)));
            }
        }
        k = k + 1;
    }
    assert(all@.take(all@.len() as int) =~= all@);
    let ranked = stable_sort_by_key(rest, true);
    let ghost rr = firsts(ranked@);
    let ghost st_start = (chosen@, string_views(tickers@), string_views(companies@));
    let mut m: usize = 0;
    while m < ranked.len()
        invariant
            m <= ranked@.len(),
            rr == firsts(ranked@),
            (chosen@, string_views(tickers@), string_views(companies@)) == fill_pass(st_start, rr.take(m as int)),
        decreases ranked@.len() - m,
    {
        proof {
            assert(rr.take(m + 1).drop_last() =~= rr.take(m as int));
            assert(rr.take(m + 1).last() == ranked@[m as int].0);
        }
        let c = &ranked[m].0;
        if chosen.len() < MAX_HOLDINGS {
            let t = c.ticker.as_str();
            if !contains_string(tickers.as_slice(), t) {
                let co = company_key_of(t);
                if !contains_string(companies.as_slice(), co.as_str()) {
                    if count_sector(&chosen, c.sector.as_str()) < MAX_PER_SECTOR {
                        proof {
                            lemma_push_view(tickers@, c.ticker);
                            lemma_push_view(companies@, co);
                        }
                        tickers.push(c.ticker.clone());
                        companies.push(co);
                        chosen.push(c.duplicate());
                    }
                }
            }
        }
        m = m + 1;
    }
    assert(rr.take(ranked@.len() as int) =~= rr);
    // Order the picks best first.
    let mut keyed_picks: Vec<(Candidate<S>, u64)> = Vec::new();
    let mut q: usize = 0;
    while q < chosen.len()
        invariant
            q <= chosen@.len(),
            keyed_picks@ == with_rank(chosen@.take(q as int)),
        decreases chosen@.len() - q,
    {
        let c = chosen[q].duplicate();
        let rk = c.rank;
        keyed_picks.push((c, rk));
        q = q + 1;
        assert(keyed_picks@ =~= with_rank(chosen@.take(q as int)));
    }
    assert(chosen@.take(chosen@.len() as int) =~= chosen@);
    let ordered = stable_sort_by_key(keyed_picks, true);
    let mut out: Vec<Candidate<S>> = Vec::new();
    let mut w: usize = 0;
    while w < ordered.len()
        invariant
            w <= ordered@.len(),
            out@ == firsts(ordered@.take(w as int)),
        decreases ordered@.len() - w,
    {
        out.push(ordered[w].0.duplicate());
        w = w + 1;
        assert(out@ =~= firsts(ordered@.take(w as int)));
    }
    assert(ordered@.take(ordered@.len() as int) =~= ordered@);
    out
}

// ── Laws of the selection ───────────────────────────────────────────────────

/// What every selection state keeps: picked tickers and companies are marked,
/// and no ticker and no company is picked twice.
pub open spec fn pick_inv<S>(st: Pick<S>) -> bool {
    &&& forall|i: int| 0 <= i < st.0.len() ==> st.1.contains(#[trigger] st.0[i].ticker@)
    &&& forall|i: int| 0 <= i < st.0.len() ==> st.2.contains(company_key(#[trigger] st.0[i].ticker@))
    &&& forall|i: int, j: int|
        0 <= i < j < st.0.len() ==> #[trigger] st.0[i].ticker@ != #[trigger] st.0[j].ticker@
    &&& forall|i: int, j: int|
        0 <= i < j < st.0.len() ==> company_key(#[trigger] st.0[i].ticker@) != company_key(
            #[trigger] st.0[j].ticker@,
        )
}

proof fn lemma_push_pick<S>(st: Pick<S>, c: Candidate<S>)
    requires
        pick_inv(st),
        !st.1.contains(c.ticker@),
        !st.2.contains(company_key(c.ticker@)),
    ensures
        pick_inv((st.0.push(c), st.1.push(c.ticker@), st.2.push(company_key(c.ticker@)))),
{
    let n = (st.0.push(c), st.1.push(c.ticker@), st.2.push(company_key(c.ticker@)));
    assert forall|i: int| 0 <= i < n.0.len() implies n.1.contains(#[trigger] n.0[i].ticker@) by {
        if i < st.0.len() {
            let k = choose|k: int| 0 <= k < st.1.len() && st.1[k] == st.0[i].ticker@;
            assert(n.1[k] == n.0[i].ticker@);
        } else {
            assert(n.1[st.1.len() as int] == c.ticker@);
        }
    }
    assert forall|i: int| 0 <= i < n.0.len() implies n.2.contains(
        company_key(#[trigger] n.0[i].ticker@),
    ) by {
        if i < st.0.len() {
            let k = choose|k: int| 0 <= k < st.2.len() && st.2[k] == company_key(st.0[i].ticker@);
            assert(n.2[k] == company_key(n.0[i].ticker@));
        } else {
            assert(n.2[st.2.len() as int] == company_key(c.ticker@));
        }
    }
    assert forall|i: int, j: int| 0 <= i < j < n.0.len() implies #[trigger] n.0[i].ticker@
        != #[trigger] n.0[j].ticker@ by {
        if j == st.0.len() {
            assert(st.1.contains(st.0[i].ticker@));
        }
    }
    assert forall|i: int, j: int| 0 <= i < j < n.0.len() implies company_key(
        #[trigger] n.0[i].ticker@,
    ) != company_key(#[trigger] n.0[j].ticker@) by {
        if j == st.0.len() {
            assert(st.2.contains(company_key(st.0[i].ticker@)));
        }
    }
}

proof fn lemma_first_pass_inv<S>(lists: Seq<Seq<Candidate<S>>>)
    ensures
        pick_inv(first_pass(lists)),
        first_pass(lists).0.len() <= lists.len(),
    decreases lists.len(),
{
    if lists.len() > 0 {
        lemma_first_pass_inv(lists.drop_last());
        let st = first_pass(lists.drop_last());
        if lists.last().len() > 0 {
            let c = lists.last()[0];
            if !st.1.contains(c.ticker@) {
                if st.2.contains(company_key(c.ticker@)) {
                    let n = (st.0, st.1.push(c.ticker@), st.2);
                    assert forall|i: int| 0 <= i < n.0.len() implies n.1.contains(
                        #[trigger] n.0[i].ticker@,
                    ) by {
                        let k = choose|k: int| 0 <= k < st.1.len() && st.1[k] == st.0[i].ticker@;
                        assert(n.1[k] == n.0[i].ticker@);
                    }
                } else {
                    lemma_push_pick(st, c);
                }
            }
        }
    }
}

proof fn lemma_fill_pass_inv<S>(st: Pick<S>, rest: Seq<Candidate<S>>)
    requires
        pick_inv(st),
    ensures
        pick_inv(fill_pass(st, rest)),
        fill_pass(st, rest).0.len() <= (if st.0.len() > MAX_HOLDINGS {
            st.0.len()
        } else {
            MAX_HOLDINGS as nat
        }),
        forall|s: Seq<char>|
            #[trigger] sector_count(fill_pass(st, rest).0, s) <= (if sector_count(st.0, s)
                > MAX_PER_SECTOR {
                sector_count(st.0, s)
            } else {
                MAX_PER_SECTOR as nat
            }),
    decreases rest.len(),
{
    if rest.len() > 0 {
        lemma_fill_pass_inv(st, rest.drop_last());
        let p = fill_pass(st, rest.drop_last());
        let c = rest.last();
        if !(p.0.len() >= MAX_HOLDINGS || p.1.contains(c.ticker@) || p.2.contains(
            company_key(c.ticker@),
        ) || sector_count(p.0, c.sector@) >= MAX_PER_SECTOR) {
            lemma_push_pick(p, c);
            assert forall|s: Seq<char>| #[trigger] sector_count(p.0.push(c), s) <= (if sector_count(
                st.0,
                s,
            ) > MAX_PER_SECTOR {
                sector_count(st.0, s)
            } else {
                MAX_PER_SECTOR as nat
            }) by {
                assert(p.0.push(c).drop_last() =~= p.0);
                assert(sector_count(p.0, s) <= (if sector_count(st.0, s) > MAX_PER_SECTOR {
                    sector_count(st.0, s)
                } else {
                    MAX_PER_SECTOR as nat
                }));
            }
        }
    }
}

/// How many sectors' top candidates belong to the sector `s`.
pub open spec fn top_count<S>(lists: Seq<Seq<Candidate<S>>>, s: Seq<char>) -> nat
    decreases lists.len(),
{
    if lists.len() == 0 {
        0
    } else {
        top_count(lists.drop_last(), s) + (if lists.last().len() > 0 && lists.last()[0].sector@
            == s {
            1nat
        } else {
            0nat
        })
    }
}

proof fn lemma_first_pass_sector_count<S>(lists: Seq<Seq<Candidate<S>>>, s: Seq<char>)
    ensures
        sector_count(first_pass(lists).0, s) <= top_count(lists, s),
    decreases lists.len(),
{
    if lists.len() > 0 {
        lemma_first_pass_sector_count(lists.drop_last(), s);
        let st = first_pass(lists.drop_last());
        if lists.last().len() > 0 {
            let c = lists.last()[0];
            assert(st.0.push(c).drop_last() =~= st.0);
        }
    }
}

// ── Counting picks by a key ─────────────────────────────────────────────────

/// How many candidates have the key `k`.
pub open spec fn key_count<S>(cs: Seq<Candidate<S>>, key: spec_fn(Candidate<S>) -> Seq<char>, k: Seq<char>) -> nat
    decreases cs.len(),
{
    if cs.len() == 0 {
        0
    } else {
        key_count(cs.drop_last(), key, k) + (if key(cs.last()) == k {
            1nat
        } else {
            0nat
        })
    }
}

/// No two candidates share a key.
pub open spec fn keys_distinct<S>(cs: Seq<Candidate<S>>, key: spec_fn(Candidate<S>) -> Seq<char>) -> bool {
    forall|i: int, j: int| 0 <= i < j < cs.len() ==> key(#[trigger] cs[i]) != key(#[trigger] cs[j])
}

proof fn lemma_count_zero<S>(cs: Seq<Candidate<S>>, key: spec_fn(Candidate<S>) -> Seq<char>, k: Seq<char>)
    requires
        forall|i: int| 0 <= i < cs.len() ==> key(#[trigger] cs[i]) != k,
    ensures
        key_count(cs, key, k) == 0,
    decreases cs.len(),
{
    if cs.len() > 0 {
        assert forall|i: int| 0 <= i < cs.drop_last().len() implies key(#[trigger] cs.drop_last()[i]) != k by {
            assert(cs.drop_last()[i] == cs[i]);
        }
        lemma_count_zero(cs.drop_last(), key, k);
        assert(key(cs[cs.len() - 1]) != k);
    }
}

proof fn lemma_count_one<S>(cs: Seq<Candidate<S>>, key: spec_fn(Candidate<S>) -> Seq<char>, i: int)
    requires
        0 <= i < cs.len(),
    ensures
        key_count(cs, key, key(cs[i])) >= 1,
    decreases cs.len(),
{
    if i < cs.len() - 1 {
        assert(cs.drop_last()[i] == cs[i]);
        lemma_count_one(cs.drop_last(), key, i);
    }
}

proof fn lemma_count_two<S>(cs: Seq<Candidate<S>>, key: spec_fn(Candidate<S>) -> Seq<char>, i: int, j: int)
    requires
        0 <= i < j < cs.len(),
        key(cs[i]) == key(cs[j]),
    ensures
        key_count(cs, key, key(cs[i])) >= 2,
    decreases cs.len(),
{
    assert(cs.drop_last()[i] == cs[i]);
    if j == cs.len() - 1 {
        lemma_count_one(cs.drop_last(), key, i);
    } else {
        assert(cs.drop_last()[j] == cs[j]);
        lemma_count_two(cs.drop_last(), key, i, j);
    }
}

proof fn lemma_distinct_counts<S>(cs: Seq<Candidate<S>>, key: spec_fn(Candidate<S>) -> Seq<char>, k: Seq<char>)
    requires
        keys_distinct(cs, key),
    ensures
        key_count(cs, key, k) <= 1,
    decreases cs.len(),
{
    if cs.len() > 0 {
        let d = cs.drop_last();
        assert forall|i: int, j: int| 0 <= i < j < d.len() implies key(#[trigger] d[i]) != key(#[trigger] d[j]) by {
            assert(d[i] == cs[i] && d[j] == cs[j]);
        }
        lemma_distinct_counts(d, key, k);
        if key(cs.last()) == k {
            assert forall|i: int| 0 <= i < d.len() implies key(#[trigger] d[i]) != k by {
                assert(d[i] == cs[i]);
                assert(cs[cs.len() - 1] == cs.last());
            }
            lemma_count_zero(d, key, k);
        }
    }
}

proof fn lemma_counts_distinct<S>(cs: Seq<Candidate<S>>, key: spec_fn(Candidate<S>) -> Seq<char>)
    requires
        forall|k: Seq<char>| key_count(cs, key, k) <= 1,
    ensures
        keys_distinct(cs, key),
{
    assert forall|i: int, j: int| 0 <= i < j < cs.len() implies key(#[trigger] cs[i]) != key(#[trigger] cs[j]) by {
        if key(cs[i]) == key(cs[j]) {
            lemma_count_two(cs, key, i, j);
            assert(key_count(cs, key, key(cs[i])) <= 1);
        }
    }
}

proof fn lemma_count_append<S>(a: Seq<Candidate<S>>, b: Seq<Candidate<S>>, key: spec_fn(Candidate<S>) -> Seq<char>, k: Seq<char>)
    ensures
        key_count(a + b, key, k) == key_count(a, key, k) + key_count(b, key, k),
    decreases b.len(),
{
    if b.len() == 0 {
        assert(a + b =~= a);
    } else {
        assert((a + b).drop_last() =~= a + b.drop_last());
        assert((a + b).last() == b.last());
        lemma_count_append(a, b.drop_last(), key, k);
    }
}

proof fn lemma_count_sorted<S>(ps: Seq<(Candidate<S>, u64)>, key: spec_fn(Candidate<S>) -> Seq<char>, k: Seq<char>, d: bool)
    ensures
        key_count(firsts(stable_sorted(ps, d)), key, k) == key_count(firsts(ps), key, k),
    decreases ps.len(),
{
    if ps.len() > 0 {
        let t = stable_sorted(ps.drop_first(), d);
        lemma_count_sorted(ps.drop_first(), key, k, d);
        crate::sorting::law_stable_sort_sorted_permutation(ps.drop_first(), d);
        let x = ps[0];
        let p = crate::sorting::insert_pos(t, x.1, d) as int;
        crate::sorting::lemma_insert_pos_bounds(t, x.1, d);
        assert(firsts(t.take(p).push(x) + t.skip(p)) =~= firsts(t.take(p)).push(x.0) + firsts(t.skip(p)));
        assert(firsts(t) =~= firsts(t.take(p)) + firsts(t.skip(p)));
        lemma_count_append(firsts(t.take(p)).push(x.0), firsts(t.skip(p)), key, k);
        lemma_count_append(firsts(t.take(p)), firsts(t.skip(p)), key, k);
        assert(firsts(t.take(p)).push(x.0).drop_last() =~= firsts(t.take(p)));
        assert(firsts(ps) =~= seq![x.0] + firsts(ps.drop_first()));
        lemma_count_append(seq![x.0], firsts(ps.drop_first()), key, k);
        assert(seq![x.0].drop_last() =~= Seq::<Candidate<S>>::empty());
        assert(seq![x.0].last() == x.0);
        let one: nat = if key(x.0) == k { 1 } else { 0 };
        assert(key_count(Seq::<Candidate<S>>::empty(), key, k) == 0);
        assert(key_count(seq![x.0], key, k) == one);
        let a = firsts(t.take(p));
        let b = firsts(t.skip(p));
        assert(key_count(a.push(x.0), key, k) == key_count(a, key, k) + one);
        assert(stable_sorted(ps, d) == t.take(p).push(x) + t.skip(p));
        assert(key_count(firsts(stable_sorted(ps, d)), key, k) == key_count(a, key, k) + one + key_count(b, key, k));
        assert(key_count(firsts(t), key, k) == key_count(a, key, k) + key_count(b, key, k));
    }
}

proof fn lemma_firsts_with_rank<S>(cs: Seq<Candidate<S>>)
    ensures
        firsts(with_rank(cs)) == cs,
{
    assert(firsts(with_rank(cs)) =~= cs);
}

/// The ordering keeps the picks: each key is counted as often before as after.
proof fn lemma_selection_counts<S>(lists: Seq<Seq<Candidate<S>>>, key: spec_fn(Candidate<S>) -> Seq<char>, k: Seq<char>)
    ensures
        key_count(selection(lists), key, k) == key_count(picked(lists), key, k),
        selection(lists).len() == picked(lists).len(),
{
    lemma_count_sorted(with_rank(picked(lists)), key, k, true);
    lemma_firsts_with_rank(picked(lists));
    crate::sorting::law_stable_sort_sorted_permutation(with_rank(picked(lists)), true);
}

proof fn lemma_sector_key_count<S>(cs: Seq<Candidate<S>>, s: Seq<char>)
    ensures
        sector_count(cs, s) == key_count(cs, |c: Candidate<S>| c.sector@, s),
    decreases cs.len(),
{
    if cs.len() > 0 {
        lemma_sector_key_count(cs.drop_last(), s);
    }
}

/// No ticker and no company is picked twice.
pub proof fn law_selection_distinct<S>(lists: Seq<Seq<Candidate<S>>>)
    ensures
        forall|i: int, j: int|
            0 <= i < j < selection(lists).len() ==> #[trigger] selection(lists)[i].ticker@
                != #[trigger] selection(lists)[j].ticker@,
        forall|i: int, j: int|
            0 <= i < j < selection(lists).len() ==> company_key(#[trigger] selection(lists)[i].ticker@)
                != company_key(#[trigger] selection(lists)[j].ticker@),
{
    lemma_first_pass_inv(lists);
    lemma_fill_pass_inv(first_pass(lists), ranked_rest(lists));
    let p = picked(lists);
    let sel = selection(lists);
    let tk = |c: Candidate<S>| c.ticker@;
    let ck = |c: Candidate<S>| company_key(c.ticker@);
    assert(keys_distinct(p, tk));
    assert(keys_distinct(p, ck));
    assert forall|k: Seq<char>| key_count(sel, tk, k) <= 1 by {
        lemma_distinct_counts(p, tk, k);
        lemma_selection_counts(lists, tk, k);
    }
    assert forall|k: Seq<char>| key_count(sel, ck, k) <= 1 by {
        lemma_distinct_counts(p, ck, k);
        lemma_selection_counts(lists, ck, k);
    }
    lemma_counts_distinct(sel, tk);
    lemma_counts_distinct(sel, ck);
}

/// The portfolio holds at most `MAX_HOLDINGS` picks, or one per sector list
/// when there are more lists than that.
pub proof fn law_selection_size<S>(lists: Seq<Seq<Candidate<S>>>)
    ensures
        selection(lists).len() <= (if lists.len() > MAX_HOLDINGS {
            lists.len()
        } else {
            MAX_HOLDINGS as nat
        }),
{
    lemma_first_pass_inv(lists);
    lemma_fill_pass_inv(first_pass(lists), ranked_rest(lists));
    lemma_selection_counts(lists, |c: Candidate<S>| c.sector@, Seq::empty());
}

/// A sector holds at most `MAX_PER_SECTOR` picks, unless more sector lists
/// than that are topped by one of its candidates.
pub proof fn law_selection_sector_cap<S>(lists: Seq<Seq<Candidate<S>>>, s: Seq<char>)
    ensures
        sector_count(selection(lists), s) <= (if top_count(lists, s) > MAX_PER_SECTOR {
            top_count(lists, s)
        } else {
            MAX_PER_SECTOR as nat
        }),
{
    lemma_first_pass_inv(lists);
    lemma_first_pass_sector_count(lists, s);
    lemma_fill_pass_inv(first_pass(lists), ranked_rest(lists));
    assert(sector_count(fill_pass(first_pass(lists), ranked_rest(lists)).0, s) <= (if sector_count(
        first_pass(lists).0,
        s,
    ) > MAX_PER_SECTOR {
        sector_count(first_pass(lists).0, s)
    } else {
        MAX_PER_SECTOR as nat
    }));
    lemma_selection_counts(lists, |c: Candidate<S>| c.sector@, s);
    lemma_sector_key_count(selection(lists), s);
    lemma_sector_key_count(picked(lists), s);
}

proof fn lemma_rank_order<S>(cs: Seq<Candidate<S>>)
    ensures
        forall|i: int, j: int|
            0 <= i < j < firsts(stable_sorted(with_rank(cs), true)).len() ==> (#[trigger] firsts(stable_sorted(with_rank(cs), true))[i]).rank
                >= (#[trigger] firsts(stable_sorted(with_rank(cs), true))[j]).rank,
        firsts(stable_sorted(with_rank(cs), true)).len() == cs.len(),
        forall|x: Candidate<S>| firsts(stable_sorted(with_rank(cs), true)).contains(x) ==> cs.contains(x),
        forall|x: Candidate<S>| cs.contains(x) ==> firsts(stable_sorted(with_rank(cs), true)).contains(x),
{
    let w = with_rank(cs);
    let srt = stable_sorted(w, true);
    let out = firsts(srt);
    crate::sorting::law_stable_sort_sorted_permutation(w, true);
    srt.to_multiset_ensures();
    w.to_multiset_ensures();
    assert forall|i: int| 0 <= i < srt.len() implies (#[trigger] srt[i]).1 == srt[i].0.rank && cs.contains(srt[i].0) by {
        assert(srt.contains(srt[i]));
        assert(w.to_multiset().count(srt[i]) > 0);
        assert(w.contains(srt[i]));
        let m = choose|m: int| 0 <= m < w.len() && w[m] == srt[i];
        assert(w[m].1 == w[m].0.rank);
        assert(cs[m] == w[m].0);
    }
    assert forall|i: int, j: int| 0 <= i < j < out.len() implies (#[trigger] out[i]).rank >= (#[trigger] out[j]).rank by {
        assert(out[i] == srt[i].0);
        assert(out[j] == srt[j].0);
        assert(srt[i].1 == srt[i].0.rank);
        assert(srt[j].1 == srt[j].0.rank);
    }
    assert forall|x: Candidate<S>| out.contains(x) implies cs.contains(x) by {
        let i = choose|i: int| 0 <= i < out.len() && out[i] == x;
        assert(out[i] == srt[i].0);
    }
    assert forall|x: Candidate<S>| cs.contains(x) implies out.contains(x) by {
        let m = choose|m: int| 0 <= m < cs.len() && cs[m] == x;
        assert(w[m] == (x, x.rank));
        assert(w.contains(w[m]));
        assert(srt.to_multiset().count(w[m]) > 0);
        assert(srt.contains(w[m]));
        let i = choose|i: int| 0 <= i < srt.len() && srt[i] == w[m];
        assert(out[i] == x);
    }
}

/// The selection comes out best first: ranks never rise along it.
pub proof fn law_selection_best_first<S>(lists: Seq<Seq<Candidate<S>>>)
    ensures
        forall|i: int, j: int|
            0 <= i < j < selection(lists).len() ==> (#[trigger] selection(lists)[i]).rank
                >= (#[trigger] selection(lists)[j]).rank,
{
    lemma_rank_order(picked(lists));
}

/// Marked tickers have their company marked, and every marked company is
/// that of a pick.
pub open spec fn marks_inv<S>(st: Pick<S>) -> bool {
    &&& forall|t: Seq<char>| st.1.contains(t) ==> #[trigger] st.2.contains(company_key(t))
    &&& forall|k: Seq<char>|
        #[trigger] st.2.contains(k) ==> exists|i: int| 0 <= i < st.0.len() && company_key((#[trigger] st.0[i]).ticker@) == k
}

proof fn lemma_marks_push<S>(st: Pick<S>, c: Candidate<S>)
    requires
        marks_inv(st),
    ensures
        marks_inv((st.0.push(c), st.1.push(c.ticker@), st.2.push(company_key(c.ticker@)))),
{
    let n = (st.0.push(c), st.1.push(c.ticker@), st.2.push(company_key(c.ticker@)));
    assert forall|t: Seq<char>| n.1.contains(t) implies #[trigger] n.2.contains(company_key(t)) by {
        if t == c.ticker@ {
            assert(n.2[st.2.len() as int] == company_key(t));
        } else {
            let i = choose|i: int| 0 <= i < n.1.len() && n.1[i] == t;
            assert(st.1[i] == t);
            assert(st.2.contains(company_key(t)));
            let j = choose|j: int| 0 <= j < st.2.len() && st.2[j] == company_key(t);
            assert(n.2[j] == company_key(t));
        }
    }
    assert forall|k: Seq<char>| #[trigger] n.2.contains(k) implies exists|i: int| 0 <= i < n.0.len() && company_key((#[trigger] n.0[i]).ticker@) == k by {
        let j = choose|j: int| 0 <= j < n.2.len() && n.2[j] == k;
        if j == st.2.len() {
            assert(company_key(n.0[st.0.len() as int].ticker@) == k);
        } else {
            assert(st.2[j] == k);
            assert(st.2.contains(k));
            let i = choose|i: int| 0 <= i < st.0.len() && company_key((#[trigger] st.0[i]).ticker@) == k;
            assert(n.0[i] == st.0[i]);
        }
    }
}

proof fn lemma_first_pass_marks<S>(lists: Seq<Seq<Candidate<S>>>)
    ensures
        marks_inv(first_pass(lists)),
    decreases lists.len(),
{
    if lists.len() > 0 {
        lemma_first_pass_marks(lists.drop_last());
        let st = first_pass(lists.drop_last());
        if lists.last().len() > 0 {
            let c = lists.last()[0];
            if !st.1.contains(c.ticker@) {
                if st.2.contains(company_key(c.ticker@)) {
                    let n = (st.0, st.1.push(c.ticker@), st.2);
                    assert(first_pass(lists) == n);
                    assert forall|t: Seq<char>| n.1.contains(t) implies #[trigger] n.2.contains(company_key(t)) by {
                        if t != c.ticker@ {
                            let i = choose|i: int| 0 <= i < n.1.len() && n.1[i] == t;
                            assert(st.1[i] == t);
                            assert(st.1.contains(t));
                        }
                    }
                    assert(marks_inv(st));
                    assert forall|k: Seq<char>| #[trigger] n.2.contains(k) implies exists|i: int| 0 <= i < n.0.len() && company_key((#[trigger] n.0[i]).ticker@) == k by {
                        assert(st.2.contains(k));
                        let i = choose|i: int| 0 <= i < st.0.len() && company_key((#[trigger] st.0[i]).ticker@) == k;
                        assert(n.0[i] == st.0[i]);
                    }
                } else {
                    lemma_marks_push(st, c);
                }
            }
        }
    }
}

/// The state after the fill step has gone through the first `n` ranked
/// candidates.
pub open spec fn fill_state<S>(lists: Seq<Seq<Candidate<S>>>, n: int) -> Pick<S> {
    fill_pass(first_pass(lists), ranked_rest(lists).take(n))
}

proof fn lemma_fill_step<S>(st: Pick<S>, rest: Seq<Candidate<S>>, n: int)
    requires
        0 <= n < rest.len(),
    ensures
        fill_pass(st, rest.take(n + 1)) == fill_one(fill_pass(st, rest.take(n)), rest[n]),
{
    assert(rest.take(n + 1).drop_last() =~= rest.take(n));
    assert(rest.take(n + 1).last() == rest[n]);
}

proof fn lemma_fill_mono<S>(st: Pick<S>, rest: Seq<Candidate<S>>, n: int, n2: int)
    requires
        0 <= n <= n2 <= rest.len(),
    ensures
        fill_pass(st, rest.take(n)).0.len() <= fill_pass(st, rest.take(n2)).0.len(),
        fill_pass(st, rest.take(n)).0 == fill_pass(st, rest.take(n2)).0.take(fill_pass(st, rest.take(n)).0.len() as int),
        forall|t: Seq<char>| fill_pass(st, rest.take(n)).1.contains(t) ==> #[trigger] fill_pass(st, rest.take(n2)).1.contains(t),
        forall|t: Seq<char>| fill_pass(st, rest.take(n)).2.contains(t) ==> #[trigger] fill_pass(st, rest.take(n2)).2.contains(t),
    decreases n2 - n,
{
    let a = fill_pass(st, rest.take(n));
    if n == n2 {
        assert(a.0.take(a.0.len() as int) =~= a.0);
    } else {
        lemma_fill_mono(st, rest, n, n2 - 1);
        lemma_fill_step(st, rest, n2 - 1);
        let p = fill_pass(st, rest.take(n2 - 1));
        let b = fill_pass(st, rest.take(n2));
        if b != p {
            let c = rest[n2 - 1];
            assert(b == (p.0.push(c), p.1.push(c.ticker@), p.2.push(company_key(c.ticker@))));
            assert(b.0.take(a.0.len() as int) =~= p.0.take(a.0.len() as int));
            assert forall|t: Seq<char>| a.1.contains(t) implies #[trigger] b.1.contains(t) by {
                assert(p.1.contains(t));
                let i = choose|i: int| 0 <= i < p.1.len() && p.1[i] == t;
                assert(b.1[i] == t);
            }
            assert forall|t: Seq<char>| a.2.contains(t) implies #[trigger] b.2.contains(t) by {
                assert(p.2.contains(t));
                let i = choose|i: int| 0 <= i < p.2.len() && p.2[i] == t;
                assert(b.2[i] == t);
            }
        }
    }
}

/// Position `m` of the picks after `n` fill steps was filled at step `j`, when
/// the portfolio held `m` picks.
pub open spec fn made_at<S>(st: Pick<S>, rest: Seq<Candidate<S>>, n: int, m: int, j: int) -> bool {
    &&& 0 <= j < n
    &&& fill_pass(st, rest.take(j)).0.len() == m
    &&& m < MAX_HOLDINGS
    &&& fill_pass(st, rest.take(n)).0[m] == rest[j]
}

proof fn lemma_fill_origin<S>(st: Pick<S>, rest: Seq<Candidate<S>>, n: int, m: int)
    requires
        0 <= n <= rest.len(),
        st.0.len() <= m < fill_pass(st, rest.take(n)).0.len(),
    ensures
        exists|j: int| #[trigger] made_at(st, rest, n, m, j),
    decreases n,
{
    if n == 0 {
        assert(rest.take(0) =~= Seq::<Candidate<S>>::empty());
        assert(false);
    } else {
        lemma_fill_step(st, rest, n - 1);
        let p = fill_pass(st, rest.take(n - 1));
        let b = fill_pass(st, rest.take(n));
        let c = rest[n - 1];
        if m < p.0.len() {
            lemma_fill_origin(st, rest, n - 1, m);
            let j = choose|j: int| #[trigger] made_at(st, rest, n - 1, m, j);
            if b != p {
                assert(b == (p.0.push(c), p.1.push(c.ticker@), p.2.push(company_key(c.ticker@))));
                assert(b.0[m] == p.0[m]);
            }
            assert(made_at(st, rest, n, m, j));
        } else {
            assert(b != p);
            assert(b == (p.0.push(c), p.1.push(c.ticker@), p.2.push(company_key(c.ticker@))));
            assert(b.0[m] == rest[n - 1]);
            assert(made_at(st, rest, n, m, n - 1));
        }
    }
}

proof fn lemma_sector_count_take<S>(s: Seq<Candidate<S>>, x: int, sec: Seq<char>)
    requires
        0 <= x <= s.len(),
    ensures
        sector_count(s.take(x), sec) <= sector_count(s, sec),
    decreases s.len(),
{
    if x < s.len() {
        assert(s.take(x) =~= s.drop_last().take(x));
        lemma_sector_count_take(s.drop_last(), x, sec);
    } else {
        assert(s.take(x) =~= s);
    }
}

/// The fill step is greedy by rank: when a remaining candidate is left out
/// while a lower-ranked one is bought in the fill step, the candidate was
/// blocked, either by a pick of the same company (the same ticker included)
/// or by its sector already holding `MAX_PER_SECTOR` picks.
pub proof fn law_fill_greedy<S>(lists: Seq<Seq<Candidate<S>>>, c: Candidate<S>, m: int)
    requires
        flatten_lists(lists).contains(c),
        !first_pass(lists).1.contains(c.ticker@),
        first_pass(lists).0.len() <= m < picked(lists).len(),
        c.rank > picked(lists)[m].rank,
        !picked(lists).contains(c),
    ensures
        (exists|i: int| 0 <= i < picked(lists).len() && company_key((#[trigger] picked(lists)[i]).ticker@) == company_key(c.ticker@))
            || sector_count(picked(lists), c.sector@) >= MAX_PER_SECTOR,
{
    let st = first_pass(lists);
    let rest = ranked_rest(lists);
    let f = fill_pass(st, rest);
    law_fill_order_by_rank(lists);
    assert(rest.take(rest.len() as int) =~= rest);
    lemma_fill_origin(st, rest, rest.len() as int, m);
    let j = choose|j: int| #[trigger] made_at(st, rest, rest.len() as int, m, j);
    assert(rest.contains(c));
    let i = choose|i: int| 0 <= i < rest.len() && rest[i] == c;
    if j < i {
        assert(rest[j].rank >= rest[i].rank);
    }
    assert(i < j);
    lemma_fill_step(st, rest, i);
    let pi = fill_pass(st, rest.take(i));
    let pi1 = fill_pass(st, rest.take(i + 1));
    lemma_fill_mono(st, rest, i + 1, rest.len() as int);
    lemma_fill_mono(st, rest, i, j);
    lemma_fill_mono(st, rest, i, rest.len() as int);
    if pi1 != pi {
        assert(pi1.0[pi.0.len() as int] == c);
        assert(f.0[pi.0.len() as int] == c);
        assert(picked(lists).contains(c));
    }
    assert(pi.0.len() < MAX_HOLDINGS);
    lemma_first_pass_marks(lists);
    lemma_first_pass_inv(lists);
    lemma_fill_pass_inv(st, rest);
    lemma_fill_marks(st, rest);
    if pi.1.contains(c.ticker@) {
        assert(f.1.contains(c.ticker@));
        assert(f.2.contains(company_key(c.ticker@)));
    } else if pi.2.contains(company_key(c.ticker@)) {
        assert(f.2.contains(company_key(c.ticker@)));
    } else {
        assert(sector_count(pi.0, c.sector@) >= MAX_PER_SECTOR);
        lemma_sector_count_take(f.0, pi.0.len() as int, c.sector@);
    }
}

proof fn lemma_fill_marks<S>(st: Pick<S>, rest: Seq<Candidate<S>>)
    requires
        marks_inv(st),
    ensures
        marks_inv(fill_pass(st, rest)),
    decreases rest.len(),
{
    if rest.len() > 0 {
        lemma_fill_marks(st, rest.drop_last());
        let p = fill_pass(st, rest.drop_last());
        let c = rest.last();
        if fill_pass(st, rest) != p {
            lemma_marks_push(p, c);
        }
    }
}

proof fn lemma_first_pass_mono<S>(lists: Seq<Seq<Candidate<S>>>, n: int)
    requires
        0 <= n <= lists.len(),
    ensures
        first_pass(lists.take(n)).0.len() <= first_pass(lists).0.len(),
        first_pass(lists.take(n)).0 == first_pass(lists).0.take(first_pass(lists.take(n)).0.len() as int),
        forall|k: Seq<char>| first_pass(lists.take(n)).2.contains(k) ==> #[trigger] first_pass(lists).2.contains(k),
    decreases lists.len(),
{
    let a = first_pass(lists.take(n));
    let f = first_pass(lists);
    if n == lists.len() {
        assert(lists.take(n) =~= lists);
        assert(f.0.take(f.0.len() as int) =~= f.0);
    } else {
        let d = lists.drop_last();
        assert(lists.take(n) =~= d.take(n));
        lemma_first_pass_mono(d, n);
        let p = first_pass(d);
        if f != p {
            if lists.last().len() > 0 {
                let c = lists.last()[0];
                if f.0 == p.0 {
                    assert(f.2 == p.2);
                } else {
                    assert(f == (p.0.push(c), p.1.push(c.ticker@), p.2.push(company_key(c.ticker@))));
                    assert(f.0.take(a.0.len() as int) =~= p.0.take(a.0.len() as int));
                    assert forall|k: Seq<char>| a.2.contains(k) implies #[trigger] f.2.contains(k) by {
                        assert(p.2.contains(k));
                        let i = choose|i: int| 0 <= i < p.2.len() && p.2[i] == k;
                        assert(f.2[i] == k);
                    }
                }
            }
        }
    }
}

/// Every sector's best candidate is bought, unless a pick already holds its
/// company (the same ticker included).
pub proof fn law_sector_top_kept<S>(lists: Seq<Seq<Candidate<S>>>, s: int)
    requires
        0 <= s < lists.len(),
        lists[s].len() > 0,
    ensures
        picked(lists).contains(lists[s][0]) || exists|i: int|
            0 <= i < picked(lists).len() && company_key((#[trigger] picked(lists)[i]).ticker@) == company_key(lists[s][0].ticker@),
{
    let c = lists[s][0];
    let st0 = first_pass(lists);
    let rest = ranked_rest(lists);
    let f = fill_pass(st0, rest);
    let pre = first_pass(lists.take(s));
    let post = first_pass(lists.take(s + 1));
    assert(lists.take(s + 1).drop_last() =~= lists.take(s));
    assert(lists.take(s + 1).last() == lists[s]);
    assert(post == take_top(pre, c));
    lemma_first_pass_marks(lists.take(s));
    lemma_first_pass_marks(lists);
    lemma_first_pass_mono(lists, s + 1);
    lemma_fill_marks(st0, rest);
    lemma_fill_mono(st0, rest, 0, rest.len() as int);
    assert(rest.take(0) =~= Seq::<Candidate<S>>::empty());
    assert(rest.take(rest.len() as int) =~= rest);
    if pre.1.contains(c.ticker@) || pre.2.contains(company_key(c.ticker@)) {
        assert(pre.2.contains(company_key(c.ticker@)));
        assert(post.2.contains(company_key(c.ticker@)));
        assert(st0.2.contains(company_key(c.ticker@)));
        assert(f.2.contains(company_key(c.ticker@)));
    } else {
        assert(post.0[post.0.len() - 1] == c);
        assert(st0.0[post.0.len() - 1] == c);
        assert(f.0[post.0.len() - 1] == c);
    }
}

/// The fill step goes through the candidates left after the sector bests
/// from the best rank down: its order holds exactly the remaining candidates
/// (those whose ticker was not taken by the first step), ranks never rising.
pub proof fn law_fill_order_by_rank<S>(lists: Seq<Seq<Candidate<S>>>)
    ensures
        forall|i: int, j: int|
            0 <= i < j < ranked_rest(lists).len() ==> (#[trigger] ranked_rest(lists)[i]).rank
                >= (#[trigger] ranked_rest(lists)[j]).rank,
        forall|c: Candidate<S>|
            ranked_rest(lists).contains(c) <==> flatten_lists(lists).contains(c) && !first_pass(lists).1.contains(c.ticker@),
{
    let rem = unpicked(flatten_lists(lists), first_pass(lists).1);
    lemma_rank_order(rem);
    lemma_unpicked_members(flatten_lists(lists), first_pass(lists).1);
}

proof fn lemma_unpicked_members<S>(all: Seq<Candidate<S>>, tickers: Seq<Seq<char>>)
    ensures
        forall|c: Candidate<S>|
            #![trigger unpicked(all, tickers).contains(c)]
            #![trigger all.contains(c)]
            unpicked(all, tickers).contains(c) <==> all.contains(c) && !tickers.contains(c.ticker@),
    decreases all.len(),
{
    if all.len() > 0 {
        let d = all.drop_last();
        lemma_unpicked_members(d, tickers);
        let u = unpicked(d, tickers);
        assert forall|c: Candidate<S>|
            #![trigger unpicked(all, tickers).contains(c)]
            #![trigger all.contains(c)]
            unpicked(all, tickers).contains(c) <==> all.contains(c) && !tickers.contains(c.ticker@) by {
            if unpicked(all, tickers).contains(c) {
                let i = choose|i: int| 0 <= i < unpicked(all, tickers).len() && unpicked(all, tickers)[i] == c;
                if i < u.len() {
                    assert(unpicked(all, tickers)[i] == u[i]);
                    assert(u.contains(c));
                    assert(d.contains(c) && !tickers.contains(c.ticker@));
                    let k = choose|k: int| 0 <= k < d.len() && d[k] == c;
                    assert(all[k] == c);
                } else {
                    assert(all[all.len() - 1] == c);
                }
            }
            if all.contains(c) && !tickers.contains(c.ticker@) {
                let k = choose|k: int| 0 <= k < all.len() && all[k] == c;
                if k < d.len() {
                    assert(d[k] == c);
                    assert(d.contains(c));
                    let i = choose|i: int| 0 <= i < u.len() && u[i] == c;
                    assert(unpicked(all, tickers)[i] == c);
                } else {
                    let r = unpicked(all, tickers);
                    assert(r[r.len() - 1] == c);
                }
            }
        }
    }
}

// ── Rebalancing ─────────────────────────────────────────────────────────────

/// A selected candidate with its news sentiment and the outcome of comparing
/// its composite score with the two thresholds.
pub struct CandidateWithSentiment<S> {
    pub candidate: Candidate<S>,
    pub sentiment: Option<String>,
    /// composite score < the sentiment-veto threshold (50)
    pub below_veto_threshold: bool,
    /// composite score < the replacement threshold (40)
    pub below_replacement_threshold: bool,
}

/// Whether a sentiment reads "negative".
pub open spec fn is_negative(s: Option<String>) -> bool {
    s matches Some(v) && v@ == "negative"@
}

/// A candidate survives the veto unless its news is negative and its score is
/// below the veto threshold.
pub open spec fn passes_veto<S>(r: CandidateWithSentiment<S>) -> bool {
    !(is_negative(r.sentiment) && r.below_veto_threshold)
}

/// The candidates that survive the sentiment veto, in order.
pub open spec fn vetted<S>(rs: Seq<CandidateWithSentiment<S>>) -> Seq<CandidateWithSentiment<S>>
    decreases rs.len(),
{
    if rs.len() == 0 {
        Seq::empty()
    } else if passes_veto(rs.last()) {
        vetted(rs.drop_last()).push(rs.last())
    } else {
        vetted(rs.drop_last())
    }
}

/// The last assessed candidate for a ticker, if any.
pub open spec fn sentiment_entry_of<S>(rs: Seq<CandidateWithSentiment<S>>, t: Seq<char>) -> Option<CandidateWithSentiment<S>>
    decreases rs.len(),
{
    if rs.len() == 0 {
        None
    } else if rs.last().candidate.ticker@ == t {
        Some(rs.last())
    } else {
        sentiment_entry_of(rs.drop_last(), t)
    }
}

/// A held ticker is replaced when its current score is below the replacement
/// threshold and its news is negative; a ticker with no current sentiment entry keeps
/// the neutral default score and is not replaced.
pub open spec fn is_replaced<S>(rs: Seq<CandidateWithSentiment<S>>, t: Seq<char>) -> bool {
    match sentiment_entry_of(rs, t) {
        Some(r) => r.below_replacement_threshold && is_negative(r.sentiment),
        None => false,
    }
}

/// Each held ticker once, in first-seen order.
pub open spec fn distinct_tickers(ts: Seq<String>) -> Seq<String>
    decreases ts.len(),
{
    if ts.len() == 0 {
        Seq::empty()
    } else if string_views(distinct_tickers(ts.drop_last())).contains(ts.last()@) {
        distinct_tickers(ts.drop_last())
    } else {
        distinct_tickers(ts.drop_last()).push(ts.last())
    }
}

/// The tickers of `ts` that are (or are not) replaced, in order.
pub open spec fn tickers_where<S>(ts: Seq<String>, rs: Seq<CandidateWithSentiment<S>>, replaced: bool) -> Seq<String>
    decreases ts.len(),
{
    if ts.len() == 0 {
        Seq::empty()
    } else if is_replaced(rs, ts.last()@) == replaced {
        tickers_where(ts.drop_last(), rs, replaced).push(ts.last())
    } else {
        tickers_where(ts.drop_last(), rs, replaced)
    }
}

pub open spec fn keyed(ts: Seq<String>) -> Seq<((), String)> {
    ts.map_values(|t: String| ((), t))
}

pub open spec fn unkeyed(ps: Seq<((), String)>) -> Seq<String> {
    ps.map_values(|p: ((), String)| p.1)
}

/// The kept tickers in lexicographic order.
pub open spec fn sorted_tickers(ts: Seq<String>) -> Seq<String> {
    unkeyed(str_stable_sorted(keyed(ts), false))
}

/// The candidates whose ticker is not among `held`, in order.
pub open spec fn not_held<S>(rs: Seq<CandidateWithSentiment<S>>, held: Seq<Seq<char>>) -> Seq<CandidateWithSentiment<S>>
    decreases rs.len(),
{
    if rs.len() == 0 {
        Seq::empty()
    } else if held.contains(rs.last().candidate.ticker@) {
        not_held(rs.drop_last(), held)
    } else {
        not_held(rs.drop_last(), held).push(rs.last())
    }
}

/// Slots left for new picks.
pub open spec fn free_slots(held: nat) -> nat {
    if held >= MAX_HOLDINGS {
        0
    } else {
        (MAX_HOLDINGS - held) as nat
    }
}

/// The tickers to sell for a held list, given every assessed candidate (the
/// vetoed ones included: a vetoed holding can still be replaced).
pub open spec fn plan_removed<S>(existing: Seq<String>, rs: Seq<CandidateWithSentiment<S>>) -> Seq<String> {
    tickers_where(distinct_tickers(existing), rs, true)
}

/// The tickers to keep, sorted.
pub open spec fn plan_held<S>(existing: Seq<String>, rs: Seq<CandidateWithSentiment<S>>) -> Seq<String> {
    sorted_tickers(tickers_where(distinct_tickers(existing), rs, false))
}

/// The new picks: candidates that survive the veto and are not kept, as many
/// as there are free slots.
pub open spec fn plan_picks<S>(existing: Seq<String>, rs: Seq<CandidateWithSentiment<S>>) -> Seq<CandidateWithSentiment<S>> {
    let held = plan_held(existing, rs);
    let cands = not_held(vetted(rs), string_views(held));
    let n = free_slots(held.len());
    cands.take((if cands.len() < n { cands.len() } else { n }) as int)
}

/// The outcome of a rebalance, before any trade is made.
pub struct RebalancePlan<S> {
    /// Held tickers to sell, in first-held order.
    pub to_remove: Vec<String>,
    /// Held tickers kept, sorted.
    pub held: Vec<String>,
    /// New picks to buy, in candidate order.
    pub new_picks: Vec<CandidateWithSentiment<S>>,
}

impl<S: Copy> CandidateWithSentiment<S> {
    /// An identical copy.
    pub fn duplicate(&self) -> (r: Self)
        ensures
            r == *self,
    {
        CandidateWithSentiment {
            candidate: self.candidate.duplicate(),
            sentiment: match &self.sentiment {
                Some(v) => Some(v.clone()),
                None => None,
            },
            below_veto_threshold: self.below_veto_threshold,
            below_replacement_threshold: self.below_replacement_threshold,
        }
    }
}

fn negative(s: &Option<String>) -> (r: bool)
    ensures
        r == is_negative(*s),
{
    match s {
        Some(v) => str_eq(v.as_str(), "negative"),
        None => false,
    }
}

/// Drops every candidate with negative news and a score below the veto threshold.
pub fn apply_veto<S: Copy>(rs: &Vec<CandidateWithSentiment<S>>) -> (r: Vec<CandidateWithSentiment<S>>)
    ensures
        r@ == vetted(rs@),
{
    let mut out: Vec<CandidateWithSentiment<S>> = Vec::new();
    let mut i: usize = 0;
    while i < rs.len()
        invariant
            i <= rs@.len(),
            out@ == vetted(rs@.take(i as int)),
        decreases rs@.len() - i,
    {
        proof {
            assert(rs@.take(i + 1).drop_last() =~= rs@.take(i as int));
        }
        let r = &rs[i];
        if !(negative(&r.sentiment) && r.below_veto_threshold) {
            out.push(r.duplicate());
        }
        i = i + 1;
    }
    assert(rs@.take(rs@.len() as int) =~= rs@);
    out
}

fn replaced_exec<S>(rs: &Vec<CandidateWithSentiment<S>>, t: &str) -> (r: bool)
    ensures
        r == is_replaced(rs@, t@),
{
    let mut i: usize = rs.len();
    assert(rs@.take(rs@.len() as int) =~= rs@);
    while i > 0
        invariant
            i <= rs@.len(),
            sentiment_entry_of(rs@, t@) == sentiment_entry_of(rs@.take(i as int), t@),
        decreases i,
    {
        proof {
            assert(rs@.take(i as int).drop_last() =~= rs@.take(i - 1));
        }
        if str_eq(rs[i - 1].candidate.ticker.as_str(), t) {
            let r = &rs[i - 1];
            return r.below_replacement_threshold && negative(&r.sentiment);
        }
        i = i - 1;
    }
    false
}

/// Works out which held tickers to sell, which to keep, and which candidates
/// to buy. `assessed` lists every selected candidate with its sentiment, before
/// the veto: held tickers are judged on it, and new picks are taken from the
/// candidates that survive the veto. `existing` lists the tickers of the held
/// positions.
pub fn plan_rebalance<S: Copy>(assessed: &Vec<CandidateWithSentiment<S>>, existing: &Vec<String>) -> (r: RebalancePlan<S>)
    ensures
        r.to_remove@ == plan_removed(existing@, assessed@),
        r.held@ == plan_held(existing@, assessed@),
        r.new_picks@ == plan_picks(existing@, assessed@),
{
    // Distinct held tickers, first-seen order.
    let mut distinct: Vec<String> = Vec::new();
    let mut i: usize = 0;
    while i < existing.len()
        invariant
            i <= existing@.len(),
            distinct@ == distinct_tickers(existing@.take(i as int)),
        decreases existing@.len() - i,
    {
        proof {
            assert(existing@.take(i + 1).drop_last() =~= existing@.take(i as int));
        }
        if !contains_string(distinct.as_slice(), existing[i].as_str()) {
            distinct.push(existing[i].clone());
        }
        i = i + 1;
    }
    assert(existing@.take(existing@.len() as int) =~= existing@);
    let mut to_remove: Vec<String> = Vec::new();
    let mut kept: Vec<((), String)> = Vec::new();
    let mut k: usize = 0;
    while k < distinct.len()
        invariant
            k <= distinct@.len(),
            to_remove@ == tickers_where(distinct@.take(k as int), assessed@, true),
            kept@ == keyed(tickers_where(distinct@.take(k as int), assessed@, false)),
        decreases distinct@.len() - k,
    {
        proof {
            assert(distinct@.take(k + 1).drop_last() =~= distinct@.take(k as int));
        }
        let t = distinct[k].clone();
        if replaced_exec(assessed, t.as_str()) {
            to_remove.push(t);
        } else {
            kept.push(((), t));
            proof {
                assert(kept@ =~= keyed(tickers_where(distinct@.take(k + 1), assessed@, false)));
            }
        }
        k = k + 1;
    }
    assert(distinct@.take(distinct@.len() as int) =~= distinct@);
    let sorted = stable_sort_by_str_key(kept, false);
    let mut held: Vec<String> = Vec::new();
    let mut h: usize = 0;
    while h < sorted.len()
        invariant
            h <= sorted@.len(),
            held@ == unkeyed(sorted@.take(h as int)),
        decreases sorted@.len() - h,
    {
        held.push(sorted[h].1.clone());
        h = h + 1;
        assert(held@ =~= unkeyed(sorted@.take(h as int)));
    }
    assert(sorted@.take(sorted@.len() as int) =~= sorted@);
    // New picks: vetted candidates not kept, up to the free slots.
    let vet = apply_veto(assessed);
    let free: usize = if held.len() >= MAX_HOLDINGS { 0 } else { MAX_HOLDINGS - held.len() };
    let mut cands: Vec<CandidateWithSentiment<S>> = Vec::new();
    let mut c: usize = 0;
    while c < vet.len()
        invariant
            c <= vet@.len(),
            cands@ == not_held(vet@.take(c as int), string_views(held@)),
        decreases vet@.len() - c,
    {
        proof {
            assert(vet@.take(c + 1).drop_last() =~= vet@.take(c as int));
        }
        if !contains_string(held.as_slice(), vet[c].candidate.ticker.as_str()) {
            cands.push(vet[c].duplicate());
        }
        c = c + 1;
    }
    assert(vet@.take(vet@.len() as int) =~= vet@);
    let n = if cands.len() < free { cands.len() } else { free };
    cands.truncate(n);
    RebalancePlan { to_remove, held, new_picks: cands }
}

// ── Laws of the rebalance ───────────────────────────────────────────────────

proof fn lemma_vetted_pass<S>(rs: Seq<CandidateWithSentiment<S>>)
    ensures
        forall|i: int| 0 <= i < vetted(rs).len() ==> passes_veto(#[trigger] vetted(rs)[i]),
    decreases rs.len(),
{
    if rs.len() > 0 {
        lemma_vetted_pass(rs.drop_last());
        let p = vetted(rs.drop_last());
        assert forall|i: int| 0 <= i < vetted(rs).len() implies passes_veto(#[trigger] vetted(rs)[i]) by {
            if i < p.len() {
                assert(vetted(rs)[i] == p[i]);
            }
        }
    }
}

proof fn lemma_vetted_in<S>(rs: Seq<CandidateWithSentiment<S>>)
    ensures
        forall|i: int| 0 <= i < vetted(rs).len() ==> rs.contains(#[trigger] vetted(rs)[i]),
    decreases rs.len(),
{
    if rs.len() > 0 {
        lemma_vetted_in(rs.drop_last());
        let p = vetted(rs.drop_last());
        assert forall|i: int| 0 <= i < vetted(rs).len() implies rs.contains(#[trigger] vetted(rs)[i]) by {
            if i < p.len() {
                let k = choose|k: int| 0 <= k < rs.drop_last().len() && rs.drop_last()[k] == p[i];
                assert(rs[k] == p[i]);
            } else {
                assert(rs[rs.len() - 1] == rs.last());
            }
        }
    }
}

proof fn lemma_not_held<S>(rs: Seq<CandidateWithSentiment<S>>, held: Seq<Seq<char>>)
    ensures
        forall|i: int|
            0 <= i < not_held(rs, held).len() ==> !held.contains(
                (#[trigger] not_held(rs, held)[i]).candidate.ticker@,
            ),
        forall|i: int|
            0 <= i < not_held(rs, held).len() ==> rs.contains(#[trigger] not_held(rs, held)[i]),
    decreases rs.len(),
{
    if rs.len() > 0 {
        lemma_not_held(rs.drop_last(), held);
        let p = not_held(rs.drop_last(), held);
        assert forall|i: int| 0 <= i < not_held(rs, held).len() implies rs.contains(
            #[trigger] not_held(rs, held)[i],
        ) by {
            if i < p.len() {
                let k = choose|k: int| 0 <= k < rs.drop_last().len() && rs.drop_last()[k] == p[i];
                assert(rs[k] == p[i]);
            } else {
                assert(rs[rs.len() - 1] == rs.last());
            }
        }
    }
}

proof fn lemma_where_split<S>(ts: Seq<String>, rs: Seq<CandidateWithSentiment<S>>, t: String)
    requires
        ts.contains(t),
    ensures
        is_replaced(rs, t@) ==> tickers_where(ts, rs, true).contains(t),
        !is_replaced(rs, t@) ==> tickers_where(ts, rs, false).contains(t),
    decreases ts.len(),
{
    if ts.last() == t {
        let w = tickers_where(ts, rs, is_replaced(rs, t@));
        assert(w[w.len() - 1] == t);
    } else {
        let k = choose|k: int| 0 <= k < ts.len() && ts[k] == t;
        assert(ts.drop_last()[k] == t);
        lemma_where_split(ts.drop_last(), rs, t);
        let a = tickers_where(ts.drop_last(), rs, true);
        let b = tickers_where(ts.drop_last(), rs, false);
        if is_replaced(rs, t@) {
            let j = choose|j: int| 0 <= j < a.len() && a[j] == t;
            assert(tickers_where(ts, rs, true)[j] == t);
        } else {
            let j = choose|j: int| 0 <= j < b.len() && b[j] == t;
            assert(tickers_where(ts, rs, false)[j] == t);
        }
    }
}

/// Every vetted candidate survived the veto: none has negative news together
/// with a score below the veto threshold.
pub proof fn law_vetted_pass_veto<S>(rs: Seq<CandidateWithSentiment<S>>)
    ensures
        forall|i: int| 0 <= i < vetted(rs).len() ==> passes_veto(#[trigger] vetted(rs)[i]),
{
    lemma_vetted_pass(rs);
}

/// Every held ticker is either sold or kept, and it is sold exactly when its
/// assessment is below the replacement threshold with negative news (vetoed or
/// not); kept tickers come out sorted; new picks are candidates that survive
/// the veto and are not kept, and they never fill the portfolio beyond
/// `MAX_HOLDINGS`.
pub proof fn law_rebalance_plan<S>(existing: Seq<String>, rs: Seq<CandidateWithSentiment<S>>)
    ensures
        forall|t: String|
            distinct_tickers(existing).contains(t) ==> (if is_replaced(rs, t@) {
                plan_removed(existing, rs).contains(t)
            } else {
                tickers_where(distinct_tickers(existing), rs, false).contains(t)
            }),
        forall|i: int, j: int|
            0 <= i < j < plan_held(existing, rs).len() ==> !seq_lt(
                (#[trigger] plan_held(existing, rs)[j])@,
                (#[trigger] plan_held(existing, rs)[i])@,
            ),
        forall|i: int|
            0 <= i < plan_picks(existing, rs).len() ==> !string_views(plan_held(existing, rs)).contains(
                (#[trigger] plan_picks(existing, rs)[i]).candidate.ticker@,
            ) && rs.contains(plan_picks(existing, rs)[i]) && passes_veto(plan_picks(existing, rs)[i]),
        plan_picks(existing, rs).len() <= free_slots(plan_held(existing, rs).len()),
{
    let d = distinct_tickers(existing);
    assert forall|t: String| d.contains(t) implies (if is_replaced(rs, t@) {
        plan_removed(existing, rs).contains(t)
    } else {
        tickers_where(d, rs, false).contains(t)
    }) by {
        lemma_where_split(d, rs, t);
    }
    let kept = tickers_where(d, rs, false);
    crate::sorting::law_str_sort_sorted_permutation(keyed(kept), false);
    let held = plan_held(existing, rs);
    let srt = str_stable_sorted(keyed(kept), false);
    assert forall|i: int, j: int| 0 <= i < j < held.len() implies !seq_lt(
        (#[trigger] held[j])@,
        (#[trigger] held[i])@,
    ) by {
        assert(held[i] == srt[i].1);
        assert(held[j] == srt[j].1);
    }
    lemma_not_held(vetted(rs), string_views(held));
    lemma_vetted_pass(rs);
    lemma_vetted_in(rs);
    let picks = plan_picks(existing, rs);
    let cands = not_held(vetted(rs), string_views(held));
    assert forall|i: int| 0 <= i < picks.len() implies !string_views(held).contains(
        (#[trigger] picks[i]).candidate.ticker@,
    ) && rs.contains(picks[i]) && passes_veto(picks[i]) by {
        assert(picks[i] == cands[i]);
        let k = choose|k: int| 0 <= k < vetted(rs).len() && vetted(rs)[k] == cands[i];
        assert(passes_veto(vetted(rs)[k]));
    }
}

/// The new picks are the first candidates, in candidate order, that survive
/// the veto and are not kept: as many as there are, up to the free slots, and
/// none skipped ahead of a pick.
pub proof fn law_new_picks_lead_candidates<S>(existing: Seq<String>, rs: Seq<CandidateWithSentiment<S>>)
    ensures
        ({
            let held = plan_held(existing, rs);
            let cands = not_held(vetted(rs), string_views(held));
            let free = free_slots(held.len());
            &&& plan_picks(existing, rs).len() == (if cands.len() < free { cands.len() } else { free })
            &&& forall|i: int| 0 <= i < plan_picks(existing, rs).len() ==> #[trigger] plan_picks(existing, rs)[i] == cands[i]
        }),
{
}

// ── Rebalance cycle ────────────────────────────────────────────────────────────

/// "{year}-Q{quarter}" for a zero-based month.
pub open spec fn cycle_label(year: int, month0: nat) -> Seq<char> {
    signed_decimal(year) + "-Q"@ + decimal(month0 / 3 + 1)
}

/// The first day of the next quarter, "{year}-{month:02}-01".
pub open spec fn next_review_label(year: int, month0: nat) -> Seq<char> {
    let q = month0 / 3;
    if q == 3 {
        signed_decimal(year + 1) + "-"@ + zero_padded(1, 2) + "-01"@
    } else {
        signed_decimal(year) + "-"@ + zero_padded(((q + 1) * 3 + 1) as nat, 2) + "-01"@
    }
}

/// The current rebalance cycle, e.g. "2025-Q3", from the current year and
/// zero-based month.
pub fn current_cycle(year: i32, month0: u32) -> (r: String)
    requires
        month0 < 12,
    ensures
        r@ == cycle_label(year as int, month0 as nat),
{
    let q: u32 = month0 / 3 + 1;
    let a = concat(i64_to_string(year as i64).as_str(), "-Q");
    concat(a.as_str(), u64_to_string(q as u64).as_str())
}

/// The next quarterly rebalance date, e.g. "2025-10-01", from the current year
/// and zero-based month.
pub fn next_review_date(year: i32, month0: u32) -> (r: String)
    requires
        month0 < 12,
    ensures
        r@ == next_review_label(year as int, month0 as nat),
{
    let current_q: u32 = month0 / 3;
    let (next_year, next_month): (i64, u32) = if current_q == 3 {
        (year as i64 + 1, 1u32)
    } else {
        (year as i64, (current_q + 1) * 3 + 1)
    };
    let a = concat(i64_to_string(next_year).as_str(), "-");
    let b = concat(a.as_str(), zero_pad(next_month as u64, 2).as_str());
    concat(b.as_str(), "-01")
}

} // verus!
