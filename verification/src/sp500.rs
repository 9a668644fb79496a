//! The large-cap universe per sector, ranked by market cap.
//!
//! Each sector slug maps to its candidate tickers, largest market cap first.
//! A store with no sector loaded makes the screener fall back to the curated
//! lists of `sectors`.

use vstd::prelude::*;
use crate::sorting::{stable_sort_by_key, stable_sorted};
use crate::text::{owned, str_eq};

verus! {

/// The characters of each string, in order.
pub open spec fn string_views(v: Seq<String>) -> Seq<Seq<char>> {
    v.map_values(|t: String| t@)
}

/// The symbols of ranked candidates, in order.
pub open spec fn symbols_of(s: Seq<(String, u64)>) -> Seq<Seq<char>> {
    s.map_values(|p: (String, u64)| p.0@)
}

/// Candidates ranked by market cap, largest first (ties keep their order).
pub open spec fn ranked_symbols(candidates: Seq<(String, u64)>) -> Seq<Seq<char>> {
    symbols_of(stable_sorted(candidates, true))
}

/// Large-cap constituent list indexed by sector slug.
pub struct Sp500 {
    /// sector slug and its tickers, sorted by market cap descending; each slug once
    by_sector: Vec<(String, Vec<String>)>,
}

/// The slug → tickers map that a list of distinct-slug entries stands for.
pub closed spec fn view_of(entries: Seq<(String, Vec<String>)>) -> Map<Seq<char>, Seq<Seq<char>>> {
    Map::new(
        |k: Seq<char>| exists|i: int| 0 <= i < entries.len() && #[trigger] entries[i].0@ == k,
        |k: Seq<char>| {
            let i = choose|i: int| 0 <= i < entries.len() && #[trigger] entries[i].0@ == k;
            string_views(entries[i].1@)
        },
    )
}

pub open spec fn distinct_slugs(entries: Seq<(String, Vec<String>)>) -> bool {
    forall|i: int, j: int|
        0 <= i < j < entries.len() ==> #[trigger] entries[i].0@ != #[trigger] entries[j].0@
}

proof fn lemma_view_of_at(entries: Seq<(String, Vec<String>)>, i: int)
    requires
        distinct_slugs(entries),
        0 <= i < entries.len(),
    ensures
        view_of(entries).contains_key(entries[i].0@),
        view_of(entries)[entries[i].0@] == string_views(entries[i].1@),
{
    let k = entries[i].0@;
    let c = choose|c: int| 0 <= c < entries.len() && #[trigger] entries[c].0@ == k;
    assert(0 <= c < entries.len() && entries[c].0@ == k);
    if c < i {
        assert(entries[c].0@ != entries[i].0@);
    } else if c > i {
        assert(entries[i].0@ != entries[c].0@);
    }
}

proof fn lemma_view_of_absent(entries: Seq<(String, Vec<String>)>, k: Seq<char>)
    requires
        forall|i: int| 0 <= i < entries.len() ==> #[trigger] entries[i].0@ != k,
    ensures
        !view_of(entries).contains_key(k),
{
}

proof fn lemma_view_of_update(
    entries: Seq<(String, Vec<String>)>,
    idx: int,
    e: (String, Vec<String>),
)
    requires
        distinct_slugs(entries),
        0 <= idx < entries.len(),
        entries[idx].0@ == e.0@,
    ensures
        distinct_slugs(entries.update(idx, e)),
        view_of(entries.update(idx, e)) == view_of(entries).insert(e.0@, string_views(e.1@)),
{
    let n = entries.update(idx, e);
    assert forall|a: int, b: int| 0 <= a < b < n.len() implies #[trigger] n[a].0@ != #[trigger] n[b].0@ by {
        assert(entries[a].0@ != entries[b].0@);
    }
    let want = view_of(entries).insert(e.0@, string_views(e.1@));
    assert forall|k: Seq<char>| view_of(n).contains_key(k) <==> want.contains_key(k) by {
        if view_of(n).contains_key(k) {
            let i = choose|i: int| 0 <= i < n.len() && #[trigger] n[i].0@ == k;
            if i != idx {
                lemma_view_of_at(entries, i);
            }
        }
        if want.contains_key(k) && k != e.0@ {
            let i = choose|i: int| 0 <= i < entries.len() && #[trigger] entries[i].0@ == k;
            lemma_view_of_at(n, i);
        }
        if k == e.0@ {
            lemma_view_of_at(n, idx);
        }
    }
    assert forall|k: Seq<char>| #[trigger] view_of(n).contains_key(k) implies view_of(n)[k] == want[k] by {
        let i = choose|i: int| 0 <= i < n.len() && #[trigger] n[i].0@ == k;
        lemma_view_of_at(n, i);
        if i != idx {
            lemma_view_of_at(entries, i);
        }
    }
    assert(view_of(n) =~= want);
}

proof fn lemma_view_of_push(entries: Seq<(String, Vec<String>)>, e: (String, Vec<String>))
    requires
        distinct_slugs(entries),
        forall|i: int| 0 <= i < entries.len() ==> #[trigger] entries[i].0@ != e.0@,
    ensures
        distinct_slugs(entries.push(e)),
        view_of(entries.push(e)) == view_of(entries).insert(e.0@, string_views(e.1@)),
{
    let n = entries.push(e);
    let want = view_of(entries).insert(e.0@, string_views(e.1@));
    assert forall|a: int, b: int| 0 <= a < b < n.len() implies #[trigger] n[a].0@ != #[trigger] n[b].0@ by {
        if b < entries.len() {
            assert(entries[a].0@ != entries[b].0@);
        }
    }
    assert forall|k: Seq<char>| view_of(n).contains_key(k) <==> want.contains_key(k) by {
        if view_of(n).contains_key(k) {
            let i = choose|i: int| 0 <= i < n.len() && #[trigger] n[i].0@ == k;
            if i < entries.len() {
                lemma_view_of_at(entries, i);
            }
        }
        if want.contains_key(k) && k != e.0@ {
            let i = choose|i: int| 0 <= i < entries.len() && #[trigger] entries[i].0@ == k;
            lemma_view_of_at(n, i);
        }
        if k == e.0@ {
            lemma_view_of_at(n, entries.len() as int);
        }
    }
    assert forall|k: Seq<char>| #[trigger] view_of(n).contains_key(k) implies view_of(n)[k] == want[k] by {
        let i = choose|i: int| 0 <= i < n.len() && #[trigger] n[i].0@ == k;
        lemma_view_of_at(n, i);
        if i < entries.len() {
            lemma_view_of_at(entries, i);
        }
    }
    assert(view_of(n) =~= want);
}

proof fn lemma_view_of_dom_finite(entries: Seq<(String, Vec<String>)>)
    ensures
        view_of(entries).dom().finite(),
{
    let keys = entries.map_values(|p: (String, Vec<String>)| p.0@);
    assert(view_of(entries).dom() =~= keys.to_set()) by {
        assert forall|k: Seq<char>| view_of(entries).dom().contains(k) implies keys.to_set().contains(k) by {
            let i = choose|i: int| 0 <= i < entries.len() && #[trigger] entries[i].0@ == k;
            assert(keys[i] == k);
        }
        assert forall|k: Seq<char>| keys.to_set().contains(k) implies view_of(entries).dom().contains(k) by {
            let i = choose|i: int| 0 <= i < keys.len() && keys[i] == k;
            assert(entries[i].0@ == k);
        }
    }
    vstd::seq_lib::seq_to_set_is_finite(keys);
}

impl View for Sp500 {
    type V = Map<Seq<char>, Seq<Seq<char>>>;

    closed spec fn view(&self) -> Map<Seq<char>, Seq<Seq<char>>> {
        view_of(self.by_sector@)
    }
}

impl Sp500 {
    #[verifier::type_invariant]
    spec fn slugs_distinct(&self) -> bool {
        self.wf()
    }

    spec fn wf(&self) -> bool {
        distinct_slugs(self.by_sector@)
    }

    /// Creates an empty store (the screener then falls back to `sectors`).
    pub fn empty() -> (r: Self)
        ensures
            r@ == Map::<Seq<char>, Seq<Seq<char>>>::empty(),
    {
        let r = Sp500 { by_sector: Vec::new() };
        assert(r@ =~= Map::<Seq<char>, Seq<Seq<char>>>::empty());
        r
    }

    fn find(&self, sector: &str) -> (r: Option<usize>)
        ensures
            r matches Some(i) ==> i < self.by_sector@.len() && self.by_sector@[i as int].0@
                == sector@,
            r is None ==> forall|i: int|
                0 <= i < self.by_sector@.len() ==> #[trigger] self.by_sector@[i].0@ != sector@,
    {
        let mut i: usize = 0;
        while i < self.by_sector.len()
            invariant
                i <= self.by_sector@.len(),
                forall|j: int| 0 <= j < i ==> #[trigger] self.by_sector@[j].0@ != sector@,
            decreases self.by_sector@.len() - i,
        {
            if str_eq(self.by_sector[i].0.as_str(), sector) {
                return Some(i);
            }
            i = i + 1;
        }
        None
    }

    /// Returns all tickers in the given sector slug, or `None` if unknown / not loaded.
    /// The slug is matched exactly.
    pub fn tickers_for_sector(&self, sector: &str) -> (r: Option<&[String]>)
        ensures
            r matches Some(t) ==> self@.contains_key(sector@) && t@.map_values(|s: String| s@)
                == self@[sector@],
            r is None <==> !self@.contains_key(sector@),
    {
        match self.find(sector) {
            Some(i) => {
                proof {
                    use_type_invariant(self);
                    lemma_view_of_at(self.by_sector@, i as int);
                }
                Some(self.by_sector[i].1.as_slice())
            },
            None => {
                proof {
                    lemma_view_of_absent(self.by_sector@, sector@);
                }
                None
            },
        }
    }

    /// `true` if at least one sector's constituent data was loaded successfully.
    pub fn is_loaded(&self) -> (r: bool)
        ensures
            r == (self@.dom().len() > 0),
    {
        if self.by_sector.len() == 0 {
            assert(self@.dom() =~= Set::empty());
            false
        } else {
            proof {
                use_type_invariant(self);
                lemma_view_of_at(self.by_sector@, 0);
                lemma_view_of_dom_finite(self.by_sector@);
            }
            assert(self@.dom().contains(self.by_sector@[0].0@));
            true
        }
    }

    /// Stores a sector's candidates, ranked by market cap (largest first),
    /// replacing whatever the sector held before.
    pub fn insert_ranked(&mut self, slug: &str, candidates: Vec<(String, u64)>)
        ensures
            final(self)@ == old(self)@.insert(slug@, ranked_symbols(candidates@)),
    {
        proof {
            use_type_invariant(&*self);
        }
        let ranked = stable_sort_by_key(candidates, true);
        let mut tickers: Vec<String> = Vec::new();
        let mut i: usize = 0;
        while i < ranked.len()
            invariant
                i <= ranked@.len(),
                tickers@.len() == i,
                string_views(tickers@) == symbols_of(ranked@.take(i as int)),
            decreases ranked@.len() - i,
        {
            let t = ranked[i].0.clone();
            let ghost before = tickers@;
            let ghost tv = t@;
            proof {
                assert(tv == ranked@[i as int].0@);
            }
            tickers.push(t);
            proof {
                let prev = ranked@.take(i as int);
                let next = ranked@.take(i + 1);
                assert(tickers@ == before.push(t));
                assert forall|j: int| 0 <= j < i + 1 implies #[trigger] string_views(tickers@)[j]
                    == symbols_of(next)[j] by {
                    assert(before.len() == i);
                    assert(tickers@.len() == i + 1);
                    if j < i {
                        assert(string_views(before)[j] == symbols_of(prev)[j]);
                        assert(prev[j] == next[j]);
                        assert(tickers@[j] == before[j]);
                    } else {
                        assert(tickers@[j] == t);
                        assert(string_views(tickers@)[j] == tv);
                        assert(next[j] == ranked@[i as int]);
                    }
                }
                assert(string_views(tickers@) =~= symbols_of(next));
            }
            i = i + 1;
        }
        assert(ranked@.take(ranked@.len() as int) =~= ranked@);
        let key = owned(slug);
        let ghost old_entries = self.by_sector@;
        match self.find(slug) {
            Some(idx) => {
                let mut entries = Vec::new();
                std::mem::swap(&mut entries, &mut self.by_sector);
                proof {
                    lemma_view_of_update(old_entries, idx as int, (key, tickers));
                }
                entries.set(idx, (key, tickers));
                self.by_sector = entries;
            },
            None => {
                let mut entries = Vec::new();
                std::mem::swap(&mut entries, &mut self.by_sector);
                proof {
                    lemma_view_of_push(old_entries, (key, tickers));
                }
                entries.push((key, tickers));
                self.by_sector = entries;
            },
        }
    }
}

/// Reading a sector back after storing it gives its ranked tickers, and
/// storing one sector leaves every other sector as it was.
pub proof fn law_insert_then_lookup(
    store: Map<Seq<char>, Seq<Seq<char>>>,
    slug: Seq<char>,
    candidates: Seq<(String, u64)>,
    other: Seq<char>,
)
    requires
        other != slug,
    ensures
        store.insert(slug, ranked_symbols(candidates))[slug] == ranked_symbols(candidates),
        store.insert(slug, ranked_symbols(candidates)).contains_key(other) == store.contains_key(other),
        store.contains_key(other) ==> store.insert(slug, ranked_symbols(candidates))[other] == store[other],
{
}

} // verus!
