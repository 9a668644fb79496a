//! Annual figures from SEC EDGAR XBRL company facts.
//!
//! A company's `us-gaap` facts are a list of concepts; each concept has
//! entries per unit. For a metric, the first concept (in a fixed fallback
//! order) that yields any annual 10-K entry supplies the metric's series. The
//! series of the most populated primary metric gives the fiscal years, and
//! every metric is read at those years.
//!
//! Values are of any copyable type `V`; the service uses floating point.

use vstd::prelude::*;
use crate::text::{chars_lt, chars_of, lemma_seq_lt_irrefl, owned, seq_lt, str_eq};

verus! {

/// One XBRL fact entry, with the fields the extraction reads.
pub struct XbrlEntry<V> {
    pub form: Option<String>,
    pub fp: Option<String>,
    pub end: Option<String>,
    pub filed: Option<String>,
    pub val: Option<V>,
}

/// One `us-gaap` concept: its name and, per unit, its entries (`None` when the
/// unit's value is not an array).
pub struct GaapConcept<V> {
    pub name: String,
    pub units: Vec<(String, Option<Vec<XbrlEntry<V>>>)>,
}

// ── Annual entries of one unit ──────────────────────────────────────────────

/// An entry of an annual report: form 10-K or 10-K/A, fiscal period "FY",
/// with an end date and a value.
pub open spec fn is_annual<V>(e: XbrlEntry<V>) -> bool {
    &&& e.form matches Some(f) && (f@ == "10-K"@ || f@ == "10-K/A"@)
    &&& e.fp matches Some(p) && p@ == "FY"@
    &&& e.end is Some
    &&& e.val is Some
}

/// The filing date, "" when absent.
pub open spec fn filed_of<V>(e: XbrlEntry<V>) -> Seq<char> {
    match e.filed {
        Some(f) => f@,
        None => Seq::empty(),
    }
}

/// Per end date, the filing date and value of the latest-filed annual entry
/// (on equal filing dates the first one seen stays).
pub open spec fn annual_by_end<V>(es: Seq<XbrlEntry<V>>) -> Map<Seq<char>, (Seq<char>, V)>
    decreases es.len(),
{
    if es.len() == 0 {
        Map::empty()
    } else {
        let m = annual_by_end(es.drop_last());
        let e = es.last();
        if !is_annual(e) {
            m
        } else {
            let end = e.end->Some_0@;
            if !m.contains_key(end) || seq_lt(m[end].0, filed_of(e)) {
                m.insert(end, (filed_of(e), e.val->Some_0))
            } else {
                m
            }
        }
    }
}

/// `r` lists `m`'s end dates with their values, newest end date first.
pub open spec fn lists_newest_first<V>(r: Seq<(String, V)>, m: Map<Seq<char>, (Seq<char>, V)>) -> bool {
    &&& forall|i: int, j: int| 0 <= i < j < r.len() ==> seq_lt((#[trigger] r[j]).0@, (#[trigger] r[i]).0@)
    &&& forall|i: int| 0 <= i < r.len() ==> m.contains_key((#[trigger] r[i]).0@) && m[r[i].0@].1 == r[i].1
    &&& forall|k: Seq<char>| #[trigger] m.contains_key(k) ==> listed(r, k)
}

/// The working table: end date, filing date, value; end dates distinct.
spec fn table_map<V>(t: Seq<(String, String, V)>) -> Map<Seq<char>, (Seq<char>, V)> {
    Map::new(
        |k: Seq<char>| exists|i: int| 0 <= i < t.len() && #[trigger] t[i].0@ == k,
        |k: Seq<char>| {
            let i = choose|i: int| 0 <= i < t.len() && #[trigger] t[i].0@ == k;
            (t[i].1@, t[i].2)
        },
    )
}

spec fn table_distinct<V>(t: Seq<(String, String, V)>) -> bool {
    forall|i: int, j: int| 0 <= i < j < t.len() ==> #[trigger] t[i].0@ != #[trigger] t[j].0@
}

proof fn lemma_table_at<V>(t: Seq<(String, String, V)>, i: int)
    requires
        table_distinct(t),
        0 <= i < t.len(),
    ensures
        table_map(t).contains_key(t[i].0@),
        table_map(t)[t[i].0@] == (t[i].1@, t[i].2),
{
    let k = t[i].0@;
    let c = choose|c: int| 0 <= c < t.len() && #[trigger] t[c].0@ == k;
    assert(0 <= c < t.len() && t[c].0@ == k);
    if c < i {
        assert(t[c].0@ != t[i].0@);
    } else if c > i {
        assert(t[i].0@ != t[c].0@);
    }
}

proof fn lemma_table_update<V>(t: Seq<(String, String, V)>, idx: int, e: (String, String, V))
    requires
        table_distinct(t),
        0 <= idx < t.len(),
        t[idx].0@ == e.0@,
    ensures
        table_distinct(t.update(idx, e)),
        table_map(t.update(idx, e)) == table_map(t).insert(e.0@, (e.1@, e.2)),
{
    let n = t.update(idx, e);
    assert forall|a: int, b: int| 0 <= a < b < n.len() implies #[trigger] n[a].0@ != #[trigger] n[b].0@ by {
        assert(t[a].0@ != t[b].0@);
    }
    let want = table_map(t).insert(e.0@, (e.1@, e.2));
    assert forall|k: Seq<char>| table_map(n).contains_key(k) <==> want.contains_key(k) by {
        if table_map(n).contains_key(k) {
            let i = choose|i: int| 0 <= i < n.len() && #[trigger] n[i].0@ == k;
            if i != idx {
                lemma_table_at(t, i);
            }
        }
        if want.contains_key(k) && k != e.0@ {
            let i = choose|i: int| 0 <= i < t.len() && #[trigger] t[i].0@ == k;
            lemma_table_at(n, i);
        }
        if k == e.0@ {
            lemma_table_at(n, idx);
        }
    }
    assert forall|k: Seq<char>| #[trigger] table_map(n).contains_key(k) implies table_map(n)[k] == want[k] by {
        let i = choose|i: int| 0 <= i < n.len() && #[trigger] n[i].0@ == k;
        lemma_table_at(n, i);
        if i != idx {
            lemma_table_at(t, i);
        }
    }
    assert(table_map(n) =~= want);
}

proof fn lemma_table_push<V>(t: Seq<(String, String, V)>, e: (String, String, V))
    requires
        table_distinct(t),
        forall|i: int| 0 <= i < t.len() ==> #[trigger] t[i].0@ != e.0@,
    ensures
        table_distinct(t.push(e)),
        table_map(t.push(e)) == table_map(t).insert(e.0@, (e.1@, e.2)),
{
    let n = t.push(e);
    let want = table_map(t).insert(e.0@, (e.1@, e.2));
    assert forall|a: int, b: int| 0 <= a < b < n.len() implies #[trigger] n[a].0@ != #[trigger] n[b].0@ by {
        if b < t.len() {
            assert(t[a].0@ != t[b].0@);
        }
    }
    assert forall|k: Seq<char>| table_map(n).contains_key(k) <==> want.contains_key(k) by {
        if table_map(n).contains_key(k) {
            let i = choose|i: int| 0 <= i < n.len() && #[trigger] n[i].0@ == k;
            if i < t.len() {
                lemma_table_at(t, i);
            }
        }
        if want.contains_key(k) && k != e.0@ {
            let i = choose|i: int| 0 <= i < t.len() && #[trigger] t[i].0@ == k;
            lemma_table_at(n, i);
        }
        if k == e.0@ {
            lemma_table_at(n, t.len() as int);
        }
    }
    assert forall|k: Seq<char>| #[trigger] table_map(n).contains_key(k) implies table_map(n)[k] == want[k] by {
        let i = choose|i: int| 0 <= i < n.len() && #[trigger] n[i].0@ == k;
        lemma_table_at(n, i);
        if i < t.len() {
            lemma_table_at(t, i);
        }
    }
    assert(table_map(n) =~= want);
}

fn opt_str_is(s: &Option<String>, lit: &str) -> (r: bool)
    ensures
        r == (s matches Some(v) && v@ == lit@),
{
    match s {
        Some(v) => str_eq(v.as_str(), lit),
        None => false,
    }
}

fn find_end<V>(t: &Vec<(String, String, V)>, end: &str) -> (r: Option<usize>)
    ensures
        r matches Some(i) ==> i < t@.len() && t@[i as int].0@ == end@,
        r is None ==> forall|i: int| 0 <= i < t@.len() ==> #[trigger] t@[i].0@ != end@,
{
    let mut i: usize = 0;
    while i < t.len()
        invariant
            i <= t@.len(),
            forall|j: int| 0 <= j < i ==> #[trigger] t@[j].0@ != end@,
        decreases t@.len() - i,
    {
        if str_eq(t[i].0.as_str(), end) {
            return Some(i);
        }
        i = i + 1;
    }
    None
}

/// Strictly descending by the first component's characters.
spec fn strictly_desc<V>(r: Seq<(String, V)>) -> bool {
    forall|i: int, j: int| 0 <= i < j < r.len() ==> seq_lt((#[trigger] r[j]).0@, (#[trigger] r[i]).0@)
}

proof fn lemma_insert_desc<V>(before: Seq<(String, V)>, p: int, x: (String, V))
    requires
        strictly_desc(before),
        0 <= p <= before.len(),
        forall|i: int| 0 <= i < p ==> seq_lt(x.0@, (#[trigger] before[i]).0@),
        p < before.len() ==> seq_lt(before[p].0@, x.0@),
    ensures
        strictly_desc(before.insert(p, x)),
{
    let out = before.insert(p, x);
    assert forall|i: int, j: int| 0 <= i < j < out.len() implies seq_lt((#[trigger] out[j]).0@, (#[trigger] out[i]).0@) by {
        if j < p {
            assert(out[i] == before[i] && out[j] == before[j]);
        } else if j == p {
            assert(out[i] == before[i]);
        } else if i < p {
            assert(out[i] == before[i] && out[j] == before[j - 1]);
            if j - 1 > p {
                crate::text::lemma_seq_lt_trans(before[j - 1].0@, before[p].0@, x.0@);
            }
            crate::text::lemma_seq_lt_trans(before[j - 1].0@, x.0@, before[i].0@);
        } else if i == p {
            assert(out[j] == before[j - 1]);
            if j - 1 > p {
                crate::text::lemma_seq_lt_trans(before[j - 1].0@, before[p].0@, x.0@);
            }
        } else {
            assert(out[i] == before[i - 1] && out[j] == before[j - 1]);
        }
    }
}

/// `row` is a row of the table (end date and value).
spec fn from_table<V>(t: Seq<(String, String, V)>, row: (String, V)) -> bool {
    exists|c: int| 0 <= c < t.len() && t[c].0@ == row.0@ && t[c].2 == row.1
}

/// Some item of `r` has end date `key`.
pub open spec fn listed<V>(r: Seq<(String, V)>, key: Seq<char>) -> bool {
    exists|i: int| 0 <= i < r.len() && r[i].0@ == key
}

/// The table's rows, newest end date first.
fn newest_first<V: Copy>(table: &Vec<(String, String, V)>) -> (r: Vec<(String, V)>)
    requires
        table_distinct(table@),
    ensures
        strictly_desc(r@),
        forall|i: int| 0 <= i < r@.len() ==> from_table(table@, #[trigger] r@[i]),
        forall|c: int| 0 <= c < table@.len() ==> listed(r@, (#[trigger] table@[c]).0@),
{
    let mut out: Vec<(String, V)> = Vec::new();
    let ghost mut origin: Seq<int> = Seq::empty();
    let ghost mut pos: Seq<int> = Seq::empty();
    let mut k: usize = 0;
    while k < table.len()
        invariant
            k <= table@.len(),
            table_distinct(table@),
            strictly_desc(out@),
            origin.len() == out@.len(),
            pos.len() == k,
            forall|i: int| 0 <= i < out@.len() ==> 0 <= #[trigger] origin[i] < k && table@[origin[i]].0@ == out@[i].0@ && table@[origin[i]].2 == out@[i].1,
            forall|c: int| 0 <= c < k ==> 0 <= #[trigger] pos[c] < out@.len() && out@[pos[c]].0@ == table@[c].0@,
        decreases table@.len() - k,
    {
        let key = table[k].0.clone();
        let kc = chars_of(key.as_str());
        let mut p: usize = 0;
        while p < out.len() && chars_lt(kc.as_slice(), chars_of(out[p].0.as_str()).as_slice())
            invariant
                p <= out@.len(),
                kc@ == key@,
                forall|i: int| 0 <= i < p ==> seq_lt(key@, (#[trigger] out@[i]).0@),
            decreases out@.len() - p,
        {
            p = p + 1;
        }
        proof {
            if p < out@.len() {
                let c = origin[p as int];
                assert(table@[c].0@ != table@[k as int].0@);
                crate::text::lemma_seq_lt_total(key@, out@[p as int].0@);
            }
            lemma_insert_desc(out@, p as int, (key, table@[k as int].2));
        }
        let ghost before = out@;
        out.insert(p, (key, table[k].2));
        proof {
            let o2 = origin.insert(p as int, k as int);
            let p2 = pos.map_values(|x: int| if x >= p { x + 1 } else { x }).push(p as int);
            assert forall|i: int| 0 <= i < out@.len() implies 0 <= #[trigger] o2[i] < k + 1 && table@[o2[i]].0@ == out@[i].0@ && table@[o2[i]].2 == out@[i].1 by {
                if i < p {
                    assert(out@[i] == before[i] && o2[i] == origin[i]);
                } else if i > p {
                    assert(out@[i] == before[i - 1] && o2[i] == origin[i - 1]);
                }
            }
            assert forall|c: int| 0 <= c < k + 1 implies 0 <= #[trigger] p2[c] < out@.len() && out@[p2[c]].0@ == table@[c].0@ by {
                if c < k {
                    let x = pos[c];
                    if x >= p {
                        assert(out@[x + 1] == before[x]);
                    } else {
                        assert(out@[x] == before[x]);
                    }
                }
            }
            origin = o2;
            pos = p2;
        }
        k = k + 1;
    }
    proof {
        assert forall|i: int| 0 <= i < out@.len() implies from_table(table@, #[trigger] out@[i]) by {
            let c = origin[i];
            assert(0 <= c < table@.len() && table@[c].0@ == out@[i].0@ && table@[c].2 == out@[i].1);
        }
        assert forall|c: int| 0 <= c < table@.len() implies listed(out@, (#[trigger] table@[c]).0@) by {
            let i = pos[c];
            assert(0 <= i < out@.len() && table@[c].0@ == out@[i].0@);
        }
    }
    out
}

/// Filters XBRL entries to annual 10-K filings, keeps the latest filed entry
/// per end date, and returns `(end_date, val)` newest end date first.
pub fn collect_annual_entries<V: Copy>(entries: &[XbrlEntry<V>]) -> (r: Vec<(String, V)>)
    ensures
        lists_newest_first(r@, annual_by_end(entries@)),
{
    let mut table: Vec<(String, String, V)> = Vec::new();
    let mut i: usize = 0;
    while i < entries.len()
        invariant
            i <= entries@.len(),
            table_distinct(table@),
            table_map(table@) == annual_by_end(entries@.take(i as int)),
        decreases entries@.len() - i,
    {
        proof {
            assert(entries@.take(i + 1).drop_last() =~= entries@.take(i as int));
            assert(entries@.take(i + 1).last() == entries@[i as int]);
        }
        let e = &entries[i];
        let form_ok = opt_str_is(&e.form, "10-K") || opt_str_is(&e.form, "10-K/A");
        let fp_ok = opt_str_is(&e.fp, "FY");
        if form_ok && fp_ok {
            if let Some(end) = &e.end {
                if let Some(val) = e.val {
                    let filed = match &e.filed {
                        Some(f) => f.clone(),
                        None => String::new(),
                    };
                    match find_end(&table, end.as_str()) {
                        None => {
                            let key = end.clone();
                            proof {
                                lemma_table_push(table@, (key, filed, val));
                            }
                            table.push((key, filed, val));
                        },
                        Some(idx) => {
                            proof {
                                lemma_table_at(table@, idx as int);
                            }
                            let fa = chars_of(table[idx].1.as_str());
                            let fb = chars_of(filed.as_str());
                            if chars_lt(fa.as_slice(), fb.as_slice()) {
                                let key = table[idx].0.clone();
                                proof {
                                    lemma_table_update(table@, idx as int, (key, filed, val));
                                }
                                table.set(idx, (key, filed, val));
                            }
                        },
                    }
                }
            }
        }
        i = i + 1;
    }
    assert(entries@.take(entries@.len() as int) =~= entries@);
    let out = newest_first(&table);
    proof {
        let mp = annual_by_end(entries@);
        let t = table@;
        let r = out@;
        assert forall|i: int| 0 <= i < r.len() implies mp.contains_key((#[trigger] r[i]).0@) && mp[r[i].0@].1 == r[i].1 by {
            assert(from_table(t, r[i]));
            let c = choose|c: int| 0 <= c < t.len() && t[c].0@ == r[i].0@ && t[c].2 == r[i].1;
            lemma_table_at(t, c);
        }
        assert forall|key: Seq<char>| #[trigger] mp.contains_key(key) implies listed(r, key) by {
            let c = choose|c: int| 0 <= c < t.len() && #[trigger] t[c].0@ == key;
            assert(listed(r, t[c].0@));
        }
    }
    out
}

// ── Concepts and units ──────────────────────────────────────────────────────

/// The entries of `concept` in `unit`, when the facts hold an array there
/// (the first concept and unit of that name).
pub open spec fn unit_entries<V>(gaap: Seq<GaapConcept<V>>, concept: Seq<char>, unit: Seq<char>) -> Option<Seq<XbrlEntry<V>>>
    decreases gaap.len(),
{
    if gaap.len() == 0 {
        None
    } else if gaap[0].name@ == concept {
        unit_in(gaap[0].units@, unit)
    } else {
        unit_entries(gaap.drop_first(), concept, unit)
    }
}

pub open spec fn unit_in<V>(units: Seq<(String, Option<Vec<XbrlEntry<V>>>)>, unit: Seq<char>) -> Option<Seq<XbrlEntry<V>>>
    decreases units.len(),
{
    if units.len() == 0 {
        None
    } else if units[0].0@ == unit {
        match units[0].1 {
            Some(v) => Some(v@),
            None => None,
        }
    } else {
        unit_in(units.drop_first(), unit)
    }
}

/// The annual entries by end date of one concept in one unit.
pub open spec fn concept_annual<V>(gaap: Seq<GaapConcept<V>>, concept: Seq<char>, unit: Seq<char>) -> Map<Seq<char>, (Seq<char>, V)> {
    match unit_entries(gaap, concept, unit) {
        Some(es) => annual_by_end(es),
        None => Map::empty(),
    }
}

pub open spec fn has_any<V>(m: Map<Seq<char>, (Seq<char>, V)>) -> bool {
    exists|k: Seq<char>| m.contains_key(k)
}

/// The first concept of the fallback list, from index `from` on, that has
/// annual data in `unit`.
pub open spec fn first_with_data<V>(gaap: Seq<GaapConcept<V>>, unit: Seq<char>, concepts: Seq<&str>, from: int) -> Option<int>
    decreases concepts.len() - from,
{
    if from < 0 || from >= concepts.len() {
        None
    } else if has_any(concept_annual(gaap, concepts[from]@, unit)) {
        Some(from)
    } else {
        first_with_data(gaap, unit, concepts, from + 1)
    }
}

/// `r` is the series of a metric: the annual entries, newest first, of the
/// first concept in the fallback list that has any; empty when none has.
pub open spec fn is_series<V>(r: Seq<(String, V)>, gaap: Seq<GaapConcept<V>>, unit: Seq<char>, concepts: Seq<&str>) -> bool {
    match first_with_data(gaap, unit, concepts, 0) {
        Some(k) => lists_newest_first(r, concept_annual(gaap, concepts[k]@, unit)),
        None => r.len() == 0,
    }
}

fn find_unit<'a, V>(units: &'a Vec<(String, Option<Vec<XbrlEntry<V>>>)>, unit: &str) -> (r: Option<&'a Vec<XbrlEntry<V>>>)
    ensures
        match r {
            Some(v) => unit_in(units@, unit@) == Some(v@),
            None => unit_in(units@, unit@) is None,
        },
{
    let mut i: usize = 0;
    assert(units@.skip(0) =~= units@);
    while i < units.len()
        invariant
            i <= units@.len(),
            unit_in(units@, unit@) == unit_in(units@.skip(i as int), unit@),
        decreases units@.len() - i,
    {
        proof {
            assert(units@.skip(i as int).drop_first() =~= units@.skip(i + 1));
        }
        if str_eq(units[i].0.as_str(), unit) {
            return match &units[i].1 {
                Some(v) => Some(v),
                None => None,
            };
        }
        i = i + 1;
    }
    None
}

fn find_entries<'a, V>(gaap: &'a Vec<GaapConcept<V>>, concept: &str, unit: &str) -> (r: Option<&'a Vec<XbrlEntry<V>>>)
    ensures
        match r {
            Some(v) => unit_entries(gaap@, concept@, unit@) == Some(v@),
            None => unit_entries(gaap@, concept@, unit@) is None,
        },
{
    let mut i: usize = 0;
    assert(gaap@.skip(0) =~= gaap@);
    while i < gaap.len()
        invariant
            i <= gaap@.len(),
            unit_entries(gaap@, concept@, unit@) == unit_entries(gaap@.skip(i as int), concept@, unit@),
        decreases gaap@.len() - i,
    {
        proof {
            assert(gaap@.skip(i as int).drop_first() =~= gaap@.skip(i + 1));
        }
        if str_eq(gaap[i].name.as_str(), concept) {
            return find_unit(&gaap[i].units, unit);
        }
        i = i + 1;
    }
    None
}

proof fn lemma_series_nonempty<V>(r: Seq<(String, V)>, m: Map<Seq<char>, (Seq<char>, V)>)
    requires
        lists_newest_first(r, m),
    ensures
        r.len() > 0 <==> has_any(m),
{
    if r.len() > 0 {
        assert(m.contains_key(r[0].0@));
    }
    if has_any(m) {
        let k = choose|k: Seq<char>| m.contains_key(k);
        assert(listed(r, k));
    }
}

/// Extracts the annual entries of a metric in a unit ("USD", "USD/shares",
/// "shares"): the first concept of the list with any annual 10-K data.
pub fn extract_annual_units<V: Copy>(gaap: &Vec<GaapConcept<V>>, unit: &str, concepts: &[&str]) -> (r: Vec<(String, V)>)
    ensures
        is_series(r@, gaap@, unit@, concepts@),
{
    let mut i: usize = 0;
    while i < concepts.len()
        invariant
            i <= concepts@.len(),
            first_with_data(gaap@, unit@, concepts@, 0) == first_with_data(gaap@, unit@, concepts@, i as int),
        decreases concepts@.len() - i,
    {
        let ghost m = concept_annual(gaap@, concepts@[i as int]@, unit@);
        match find_entries(gaap, concepts[i], unit) {
            Some(entries) => {
                let result = collect_annual_entries(entries.as_slice());
                proof {
                    lemma_series_nonempty(result@, m);
                }
                if result.len() > 0 {
                    return result;
                }
            },
            None => {
                assert(!has_any(m)) by {
                    assert(m =~= Map::<Seq<char>, (Seq<char>, V)>::empty());
                }
            },
        }
        i = i + 1;
    }
    Vec::new()
}

/// Extracts the annual USD entries of a metric.
pub fn extract_annual_usd<V: Copy>(gaap: &Vec<GaapConcept<V>>, concepts: &[&str]) -> (r: Vec<(String, V)>)
    ensures
        is_series(r@, gaap@, "USD"@, concepts@),
{
    extract_annual_units(gaap, "USD", concepts)
}

// ── The fourteen metrics ────────────────────────────────────────────────────

/// The series of every metric, each newest end date first.
pub struct FactSeries<V> {
    pub revenue: Vec<(String, V)>,
    pub gross_profit: Vec<(String, V)>,
    pub net_income: Vec<(String, V)>,
    pub eps_diluted: Vec<(String, V)>,
    pub shares_diluted: Vec<(String, V)>,
    pub operating_cash_flow: Vec<(String, V)>,
    pub capex: Vec<(String, V)>,
    pub total_assets: Vec<(String, V)>,
    pub current_assets: Vec<(String, V)>,
    pub current_liabilities: Vec<(String, V)>,
    pub long_term_debt: Vec<(String, V)>,
    pub stockholders_equity: Vec<(String, V)>,
    pub dividend_per_share: Vec<(String, V)>,
    pub common_stock_issuance: Vec<(String, V)>,
}

/// One fiscal year of data aligned across all metrics.
pub struct AnnualRow<V> {
    pub end_date: String,
    pub revenue: Option<V>,
    pub gross_profit: Option<V>,
    pub net_income: Option<V>,
    pub eps_diluted: Option<V>,
    pub shares_diluted: Option<V>,
    pub operating_cash_flow: Option<V>,
    /// Capital expenditures (positive; subtract from operating cash flow for free cash flow)
    pub capex: Option<V>,
    pub total_assets: Option<V>,
    pub current_assets: Option<V>,
    pub current_liabilities: Option<V>,
    pub long_term_debt: Option<V>,
    pub stockholders_equity: Option<V>,
    pub dividend_per_share: Option<V>,
    /// Proceeds from issuance of common stock (the dilution check)
    pub common_stock_issuance: Option<V>,
}

/// The XBRL concepts tried, in order, for `revenue`.
pub open spec fn revenue_concepts() -> Seq<&'static str> {
    seq!["RevenueFromContractWithCustomerExcludingAssessedTax", "Revenues", "SalesRevenueNet", "SalesRevenueGoodsNet", "RevenueFromContractWithCustomer"]
}

fn revenue_concept_list() -> (r: &'static [&'static str])
    ensures
        r@ == revenue_concepts(),
{
    &["RevenueFromContractWithCustomerExcludingAssessedTax", "Revenues", "SalesRevenueNet", "SalesRevenueGoodsNet", "RevenueFromContractWithCustomer"]
}

/// The XBRL concepts tried, in order, for `gross_profit`.
pub open spec fn gross_profit_concepts() -> Seq<&'static str> {
    seq!["GrossProfit"]
}

fn gross_profit_concept_list() -> (r: &'static [&'static str])
    ensures
        r@ == gross_profit_concepts(),
{
    &["GrossProfit"]
}

/// The XBRL concepts tried, in order, for `net_income`.
pub open spec fn net_income_concepts() -> Seq<&'static str> {
    seq!["NetIncomeLoss", "NetIncomeLossAvailableToCommonStockholdersBasic"]
}

fn net_income_concept_list() -> (r: &'static [&'static str])
    ensures
        r@ == net_income_concepts(),
{
    &["NetIncomeLoss", "NetIncomeLossAvailableToCommonStockholdersBasic"]
}

/// The XBRL concepts tried, in order, for `eps_diluted`.
pub open spec fn eps_diluted_concepts() -> Seq<&'static str> {
    seq!["EarningsPerShareDiluted"]
}

fn eps_diluted_concept_list() -> (r: &'static [&'static str])
    ensures
        r@ == eps_diluted_concepts(),
{
    &["EarningsPerShareDiluted"]
}

/// The XBRL concepts tried, in order, for `shares_diluted`.
pub open spec fn shares_diluted_concepts() -> Seq<&'static str> {
    seq!["WeightedAverageNumberOfDilutedSharesOutstanding", "WeightedAverageNumberOfSharesOutstandingBasic", "CommonStockSharesOutstanding"]
}

fn shares_diluted_concept_list() -> (r: &'static [&'static str])
    ensures
        r@ == shares_diluted_concepts(),
{
    &["WeightedAverageNumberOfDilutedSharesOutstanding", "WeightedAverageNumberOfSharesOutstandingBasic", "CommonStockSharesOutstanding"]
}

/// The XBRL concepts tried, in order, for `operating_cash_flow`.
pub open spec fn operating_cash_flow_concepts() -> Seq<&'static str> {
    seq!["NetCashProvidedByUsedInOperatingActivities"]
}

fn operating_cash_flow_concept_list() -> (r: &'static [&'static str])
    ensures
        r@ == operating_cash_flow_concepts(),
{
    &["NetCashProvidedByUsedInOperatingActivities"]
}

/// The XBRL concepts tried, in order, for `capex`.
pub open spec fn capex_concepts() -> Seq<&'static str> {
    seq!["PaymentsToAcquirePropertyPlantAndEquipment", "PaymentsToAcquireProductiveAssets"]
}

fn capex_concept_list() -> (r: &'static [&'static str])
    ensures
        r@ == capex_concepts(),
{
    &["PaymentsToAcquirePropertyPlantAndEquipment", "PaymentsToAcquireProductiveAssets"]
}

/// The XBRL concepts tried, in order, for `total_assets`.
pub open spec fn total_assets_concepts() -> Seq<&'static str> {
    seq!["Assets"]
}

fn total_assets_concept_list() -> (r: &'static [&'static str])
    ensures
        r@ == total_assets_concepts(),
{
    &["Assets"]
}

/// The XBRL concepts tried, in order, for `current_assets`.
pub open spec fn current_assets_concepts() -> Seq<&'static str> {
    seq!["AssetsCurrent"]
}

fn current_assets_concept_list() -> (r: &'static [&'static str])
    ensures
        r@ == current_assets_concepts(),
{
    &["AssetsCurrent"]
}

/// The XBRL concepts tried, in order, for `current_liabilities`.
pub open spec fn current_liabilities_concepts() -> Seq<&'static str> {
    seq!["LiabilitiesCurrent"]
}

fn current_liabilities_concept_list() -> (r: &'static [&'static str])
    ensures
        r@ == current_liabilities_concepts(),
{
    &["LiabilitiesCurrent"]
}

/// The XBRL concepts tried, in order, for `long_term_debt`.
pub open spec fn long_term_debt_concepts() -> Seq<&'static str> {
    seq!["LongTermDebt", "LongTermDebtNoncurrent", "LongTermNotesPayable"]
}

fn long_term_debt_concept_list() -> (r: &'static [&'static str])
    ensures
        r@ == long_term_debt_concepts(),
{
    &["LongTermDebt", "LongTermDebtNoncurrent", "LongTermNotesPayable"]
}

/// The XBRL concepts tried, in order, for `stockholders_equity`.
pub open spec fn stockholders_equity_concepts() -> Seq<&'static str> {
    seq!["StockholdersEquity", "StockholdersEquityIncludingPortionAttributableToNoncontrollingInterest"]
}

fn stockholders_equity_concept_list() -> (r: &'static [&'static str])
    ensures
        r@ == stockholders_equity_concepts(),
{
    &["StockholdersEquity", "StockholdersEquityIncludingPortionAttributableToNoncontrollingInterest"]
}

/// The XBRL concepts tried, in order, for `dividend_per_share`.
pub open spec fn dividend_per_share_concepts() -> Seq<&'static str> {
    seq!["CommonStockDividendsPerShareCashPaid", "CommonStockDividendsPerShareDeclared"]
}

fn dividend_per_share_concept_list() -> (r: &'static [&'static str])
    ensures
        r@ == dividend_per_share_concepts(),
{
    &["CommonStockDividendsPerShareCashPaid", "CommonStockDividendsPerShareDeclared"]
}

/// The XBRL concepts tried, in order, for `common_stock_issuance`.
pub open spec fn common_stock_issuance_concepts() -> Seq<&'static str> {
    seq!["ProceedsFromIssuanceOfCommonStock"]
}

fn common_stock_issuance_concept_list() -> (r: &'static [&'static str])
    ensures
        r@ == common_stock_issuance_concepts(),
{
    &["ProceedsFromIssuanceOfCommonStock"]
}

/// `s` holds, for every metric, its series extracted from `gaap`.
pub open spec fn series_of<V>(s: FactSeries<V>, gaap: Seq<GaapConcept<V>>) -> bool {
    &&& is_series(s.revenue@, gaap, "USD"@, revenue_concepts())
    &&& is_series(s.gross_profit@, gaap, "USD"@, gross_profit_concepts())
    &&& is_series(s.net_income@, gaap, "USD"@, net_income_concepts())
    &&& is_series(s.eps_diluted@, gaap, "USD/shares"@, eps_diluted_concepts())
    &&& is_series(s.shares_diluted@, gaap, "shares"@, shares_diluted_concepts())
    &&& is_series(s.operating_cash_flow@, gaap, "USD"@, operating_cash_flow_concepts())
    &&& is_series(s.capex@, gaap, "USD"@, capex_concepts())
    &&& is_series(s.total_assets@, gaap, "USD"@, total_assets_concepts())
    &&& is_series(s.current_assets@, gaap, "USD"@, current_assets_concepts())
    &&& is_series(s.current_liabilities@, gaap, "USD"@, current_liabilities_concepts())
    &&& is_series(s.long_term_debt@, gaap, "USD"@, long_term_debt_concepts())
    &&& is_series(s.stockholders_equity@, gaap, "USD"@, stockholders_equity_concepts())
    &&& is_series(s.dividend_per_share@, gaap, "USD/shares"@, dividend_per_share_concepts())
    &&& is_series(s.common_stock_issuance@, gaap, "USD"@, common_stock_issuance_concepts())
}

/// Extracts every metric's series, trying each metric's concepts in order.
pub fn extract_series<V: Copy>(gaap: &Vec<GaapConcept<V>>) -> (r: FactSeries<V>)
    ensures
        series_of(r, gaap@),
{
    FactSeries {
        revenue: extract_annual_units(gaap, "USD", revenue_concept_list()),
        gross_profit: extract_annual_units(gaap, "USD", gross_profit_concept_list()),
        net_income: extract_annual_units(gaap, "USD", net_income_concept_list()),
        eps_diluted: extract_annual_units(gaap, "USD/shares", eps_diluted_concept_list()),
        shares_diluted: extract_annual_units(gaap, "shares", shares_diluted_concept_list()),
        operating_cash_flow: extract_annual_units(gaap, "USD", operating_cash_flow_concept_list()),
        capex: extract_annual_units(gaap, "USD", capex_concept_list()),
        total_assets: extract_annual_units(gaap, "USD", total_assets_concept_list()),
        current_assets: extract_annual_units(gaap, "USD", current_assets_concept_list()),
        current_liabilities: extract_annual_units(gaap, "USD", current_liabilities_concept_list()),
        long_term_debt: extract_annual_units(gaap, "USD", long_term_debt_concept_list()),
        stockholders_equity: extract_annual_units(gaap, "USD", stockholders_equity_concept_list()),
        dividend_per_share: extract_annual_units(gaap, "USD/shares", dividend_per_share_concept_list()),
        common_stock_issuance: extract_annual_units(gaap, "USD", common_stock_issuance_concept_list()),
    }
}

/// The value of a series at an end date (the last entry for that date), if any.
pub open spec fn value_at<V>(series: Seq<(String, V)>, d: Seq<char>) -> Option<V>
    decreases series.len(),
{
    if series.len() == 0 {
        None
    } else if series.last().0@ == d {
        Some(series.last().1)
    } else {
        value_at(series.drop_last(), d)
    }
}

fn value_at_exec<V: Copy>(series: &Vec<(String, V)>, d: &str) -> (r: Option<V>)
    ensures
        r == value_at(series@, d@),
{
    let mut i: usize = series.len();
    assert(series@.take(series@.len() as int) =~= series@);
    while i > 0
        invariant
            i <= series@.len(),
            value_at(series@, d@) == value_at(series@.take(i as int), d@),
        decreases i,
    {
        proof {
            assert(series@.take(i as int).drop_last() =~= series@.take(i - 1));
        }
        if str_eq(series[i - 1].0.as_str(), d) {
            return Some(series[i - 1].1);
        }
        i = i - 1;
    }
    None
}

/// `row` is the year ending at `d`, every metric read at `d`.
pub open spec fn row_at<V>(row: AnnualRow<V>, d: Seq<char>, s: FactSeries<V>) -> bool {
    &&& row.end_date@ == d
    &&& row.revenue == value_at(s.revenue@, d)
    &&& row.gross_profit == value_at(s.gross_profit@, d)
    &&& row.net_income == value_at(s.net_income@, d)
    &&& row.eps_diluted == value_at(s.eps_diluted@, d)
    &&& row.shares_diluted == value_at(s.shares_diluted@, d)
    &&& row.operating_cash_flow == value_at(s.operating_cash_flow@, d)
    &&& row.capex == value_at(s.capex@, d)
    &&& row.total_assets == value_at(s.total_assets@, d)
    &&& row.current_assets == value_at(s.current_assets@, d)
    &&& row.current_liabilities == value_at(s.current_liabilities@, d)
    &&& row.long_term_debt == value_at(s.long_term_debt@, d)
    &&& row.stockholders_equity == value_at(s.stockholders_equity@, d)
    &&& row.dividend_per_share == value_at(s.dividend_per_share@, d)
    &&& row.common_stock_issuance == value_at(s.common_stock_issuance@, d)
}

/// The series that gives the fiscal years: the longest of revenue, net income
/// and total assets, the last of them on a tie.
pub open spec fn anchor_of<V>(s: FactSeries<V>) -> Seq<(String, V)> {
    let best = if s.net_income@.len() >= s.revenue@.len() {
        s.net_income@
    } else {
        s.revenue@
    };
    if s.total_assets@.len() >= best.len() {
        s.total_assets@
    } else {
        best
    }
}

/// `rows` are the anchor's years, in the anchor's order, each fully read.
pub open spec fn rows_aligned<V>(rows: Seq<AnnualRow<V>>, s: FactSeries<V>) -> bool {
    &&& rows.len() == anchor_of(s).len()
    &&& forall|i: int| 0 <= i < rows.len() ==> row_at(#[trigger] rows[i], anchor_of(s)[i].0@, s)
}

/// Reads every metric at each fiscal year of the anchor series.
pub fn align_rows<V: Copy>(s: &FactSeries<V>) -> (r: Vec<AnnualRow<V>>)
    ensures
        rows_aligned(r@, *s),
{
    let anchor = if s.total_assets.len() >= (if s.net_income.len() >= s.revenue.len() {
        s.net_income.len()
    } else {
        s.revenue.len()
    }) {
        &s.total_assets
    } else if s.net_income.len() >= s.revenue.len() {
        &s.net_income
    } else {
        &s.revenue
    };
    let mut rows: Vec<AnnualRow<V>> = Vec::new();
    let mut i: usize = 0;
    while i < anchor.len()
        invariant
            anchor@ == anchor_of(*s),
            i <= anchor@.len(),
            rows@.len() == i,
            forall|j: int| 0 <= j < i ==> row_at(#[trigger] rows@[j], anchor@[j].0@, *s),
        decreases anchor@.len() - i,
    {
        let d = anchor[i].0.as_str();
        rows.push(AnnualRow {
            end_date: anchor[i].0.clone(),
            revenue: value_at_exec(&s.revenue, d),
            gross_profit: value_at_exec(&s.gross_profit, d),
            net_income: value_at_exec(&s.net_income, d),
            eps_diluted: value_at_exec(&s.eps_diluted, d),
            shares_diluted: value_at_exec(&s.shares_diluted, d),
            operating_cash_flow: value_at_exec(&s.operating_cash_flow, d),
            capex: value_at_exec(&s.capex, d),
            total_assets: value_at_exec(&s.total_assets, d),
            current_assets: value_at_exec(&s.current_assets, d),
            current_liabilities: value_at_exec(&s.current_liabilities, d),
            long_term_debt: value_at_exec(&s.long_term_debt, d),
            stockholders_equity: value_at_exec(&s.stockholders_equity, d),
            dividend_per_share: value_at_exec(&s.dividend_per_share, d),
            common_stock_issuance: value_at_exec(&s.common_stock_issuance, d),
        });
        i = i + 1;
    }
    rows
}

/// The fiscal years of a company's facts, newest first: every metric read at
/// each year of the anchor series; no rows when the anchor is empty.
pub open spec fn parsed_rows<V>(rows: Seq<AnnualRow<V>>, gaap: Seq<GaapConcept<V>>) -> bool {
    exists|s: FactSeries<V>| series_of(s, gaap) && rows_aligned(rows, s)
}

/// Parses a company's `us-gaap` facts into aligned annual rows.
pub fn parse_company_facts<V: Copy>(gaap: &Vec<GaapConcept<V>>) -> (r: Vec<AnnualRow<V>>)
    ensures
        parsed_rows(r@, gaap@),
{
    let s = extract_series(gaap);
    let rows = align_rows(&s);
    assert(series_of(s, gaap@) && rows_aligned(rows@, s));
    rows
}

} // verus!
