//! The ticker directory: ticker → SEC CIK and company name, with title-cased
//! names and a local search over tickers and names.

use vstd::prelude::*;
use crate::fmp::SearchResult;
use crate::sorting::{stable_sort_by_str_key, str_stable_sorted};
use crate::text::{
    all_ascii, ascii_lower, ascii_upper_char, chars_of, has_prefix, has_substring, occurs_at, seq_lt, is_ws,
    is_whitespace, match_at, chars_contain, chars_start_with, chars_eq, owned, string_from_chars,
    to_ascii_lowercase, to_uppercase, trim, trim_ws, uppercase, zero_pad, zero_padded, lower_char,
};

verus! {

// ── Title case ──────────────────────────────────────────────────────────────

/// What `char::to_uppercase` yields for a non-ASCII character: its Unicode
/// uppercase mapping (one or more characters).
pub uninterp spec fn unicode_char_upper(c: char) -> Seq<char>;

/// `char::to_uppercase` collected: the ASCII mapping for an ASCII character,
/// otherwise the (named) Unicode mapping.
pub open spec fn char_upper(c: char) -> Seq<char> {
    if (c as u32) < 128 {
        seq![ascii_upper_char(c)]
    } else {
        unicode_char_upper(c)
    }
}

/// Calls `char::to_uppercase` and collects the characters. For an ASCII
/// character the result is its ASCII uppercase; for any other character it is
/// named only, as the character's Unicode uppercase mapping.
#[verifier::external_body]
fn char_to_uppercase(c: char) -> (r: Vec<char>)
    ensures
        r@ == char_upper(c),
        (c as u32) >= 128 ==> r@ == unicode_char_upper(c),
{
    c.to_uppercase().collect()
}

/// Length of the leading run of non-whitespace characters.
pub open spec fn word_len(s: Seq<char>) -> nat
    decreases s.len(),
{
    if s.len() == 0 || is_ws(s[0]) {
        0
    } else {
        1 + word_len(s.drop_first())
    }
}

/// The whitespace-separated words of `s` (`str::split_whitespace`).
pub open spec fn words(s: Seq<char>) -> Seq<Seq<char>>
    decreases s.len(),
{
    if s.len() == 0 {
        Seq::empty()
    } else if is_ws(s[0]) {
        words(s.drop_first())
    } else {
        proof {
            lemma_word_len_bounds(s);
        }
        seq![s.take(word_len(s) as int)] + words(s.skip(word_len(s) as int))
    }
}

pub proof fn lemma_word_len_bounds(s: Seq<char>)
    ensures
        word_len(s) <= s.len(),
        s.len() > 0 && !is_ws(s[0]) ==> word_len(s) >= 1,
    decreases s.len(),
{
    if s.len() > 0 && !is_ws(s[0]) {
        lemma_word_len_bounds(s.drop_first());
    }
}

/// A word with its first character uppercased and the rest ASCII-lowercased.
pub open spec fn title_word(w: Seq<char>) -> Seq<char> {
    if w.len() == 0 {
        w
    } else {
        char_upper(w[0]) + ascii_lower(w.drop_first())
    }
}

/// The words joined by single spaces.
pub open spec fn join_spaced(ws: Seq<Seq<char>>) -> Seq<char>
    decreases ws.len(),
{
    if ws.len() == 0 {
        Seq::empty()
    } else if ws.len() == 1 {
        ws[0]
    } else {
        join_spaced(ws.drop_last()) + seq![' '] + ws.last()
    }
}

/// Title case: each word capitalised, words joined by single spaces.
pub open spec fn title_case(s: Seq<char>) -> Seq<char> {
    join_spaced(words(s).map_values(|w: Seq<char>| title_word(w)))
}

proof fn lemma_word_len(s: Seq<char>, i: int)
    requires
        0 <= i <= s.len(),
        forall|j: int| 0 <= j < i ==> !is_ws(#[trigger] s[j]),
        i == s.len() || is_ws(s[i]),
    ensures
        word_len(s) == i,
    decreases s.len(),
{
    if s.len() > 0 && i > 0 {
        assert forall|j: int| 0 <= j < i - 1 implies !is_ws(#[trigger] s.drop_first()[j]) by {
            assert(s.drop_first()[j] == s[j + 1]);
        }
        if i < s.len() {
            assert(s.drop_first()[i - 1] == s[i]);
        }
        lemma_word_len(s.drop_first(), i - 1);
    }
}

fn title_word_exec(w: &[char]) -> (r: Vec<char>)
    ensures
        r@ == title_word(w@),
{
    if w.len() == 0 {
        return Vec::new();
    }
    let mut out = char_to_uppercase(w[0]);
    let ghost head = out@;
    let mut i: usize = 1;
    while i < w.len()
        invariant
            1 <= i <= w@.len(),
            out@ == head + ascii_lower(w@.subrange(1, i as int)),
        decreases w@.len() - i,
    {
        let c = lower_char(w[i]);
        out.push(c);
        i = i + 1;
        assert(ascii_lower(w@.subrange(1, i as int)) =~= ascii_lower(w@.subrange(1, (i - 1) as int)).push(c));
    }
    assert(w@.subrange(1, w@.len() as int) =~= w@.drop_first());
    out
}

/// Capitalises each word (first character uppercased, the rest ASCII
/// lowercase) and joins the words with single spaces.
pub fn to_title_case(s: &str) -> (r: String)
    ensures
        r@ == title_case(s@),
{
    let v = chars_of(s);
    let n = v.len();
    let mut titled: Vec<Vec<char>> = Vec::new();
    let ghost mut done: Seq<Seq<char>> = Seq::empty();
    let mut i: usize = 0;
    assert(v@.skip(0) =~= v@);
    while i < n
        invariant
            n == v@.len(),
            v@ == s@,
            i <= n,
            words(s@) == done + words(s@.skip(i as int)),
            titled@.len() == done.len(),
            forall|k: int| 0 <= k < done.len() ==> (#[trigger] titled@[k])@ == title_word(done[k]),
        decreases n - i,
    {
        let ghost rest = s@.skip(i as int);
        if is_whitespace(v[i]) {
            proof {
                assert(rest.drop_first() =~= s@.skip(i + 1));
            }
            i = i + 1;
        } else {
            let start = i;
            let mut j: usize = i;
            while j < n && !is_whitespace(v[j])
                invariant
                    n == v@.len(),
                    start <= j <= n,
                    forall|k: int| start <= k < j ==> !is_ws(#[trigger] v@[k]),
                decreases n - j,
            {
                j = j + 1;
            }
            proof {
                assert forall|k: int| 0 <= k < j - start implies !is_ws(#[trigger] rest[k]) by {
                    assert(rest[k] == v@[start + k]);
                }
                if j < n {
                    assert(rest[j - start] == v@[j as int]);
                }
                lemma_word_len(rest, j - start);
                assert(rest.skip(j - start) =~= s@.skip(j as int));
                assert(rest.take(j - start) =~= v@.subrange(start as int, j as int));
            }
            let mut word: Vec<char> = Vec::new();
            let mut k: usize = start;
            while k < j
                invariant
                    start <= k <= j <= n,
                    n == v@.len(),
                    word@ == v@.subrange(start as int, k as int),
                decreases j - k,
            {
                word.push(v[k]);
                k = k + 1;
                assert(v@.subrange(start as int, k as int) =~= v@.subrange(start as int, (k - 1) as int).push(v@[k - 1]));
            }
            let t = title_word_exec(word.as_slice());
            proof {
                let w = v@.subrange(start as int, j as int);
                assert(words(rest) =~= seq![w] + words(s@.skip(j as int)));
                assert(done + words(rest) =~= done.push(w) + words(s@.skip(j as int)));
                done = done.push(w);
            }
            titled.push(t);
            i = j;
        }
    }
    proof {
        assert(s@.skip(n as int) =~= Seq::<char>::empty());
        assert(done + Seq::<Seq<char>>::empty() =~= done);
    }
    // Join with single spaces.
    let mut out: Vec<char> = Vec::new();
    let mut m: usize = 0;
    let ghost tw = done.map_values(|w: Seq<char>| title_word(w));
    while m < titled.len()
        invariant
            m <= titled@.len(),
            titled@.len() == done.len(),
            tw == done.map_values(|w: Seq<char>| title_word(w)),
            forall|k: int| 0 <= k < done.len() ==> (#[trigger] titled@[k])@ == title_word(done[k]),
            out@ == join_spaced(tw.take(m as int)),
        decreases titled@.len() - m,
    {
        let ghost before = out@;
        if m > 0 {
            out.push(' ');
        }
        let w = &titled[m];
        let mut c: usize = 0;
        let ghost mid = out@;
        while c < w.len()
            invariant
                c <= w@.len(),
                out@ == mid + w@.take(c as int),
            decreases w@.len() - c,
        {
            out.push(w[c]);
            c = c + 1;
            assert(w@.take(c as int) =~= w@.take((c - 1) as int).push(w@[c - 1]));
        }
        proof {
            assert(w@.take(w@.len() as int) =~= w@);
            let t2 = tw.take(m + 1);
            assert(t2.drop_last() =~= tw.take(m as int));
            assert(t2.last() == tw[m as int]);
            assert(tw[m as int] == w@);
            if m > 0 {
                assert(out@ =~= before + seq![' '] + w@);
            } else {
                assert(tw.take(0) =~= Seq::<Seq<char>>::empty());
                assert(out@ =~= w@);
            }
        }
        m = m + 1;
    }
    assert(tw.take(titled@.len() as int) =~= tw);
    string_from_chars(out.as_slice())
}

// ── The directory ───────────────────────────────────────────────────────────

/// The directory's key for a ticker: its Unicode uppercase.
pub open spec fn ticker_key(t: Seq<char>) -> Seq<char> {
    uppercase(t)
}

/// Ticker → zero-padded 10-digit CIK and title-cased company name.
pub struct CikDirectory {
    /// (ticker, padded CIK, name); each ticker once
    entries: Vec<(String, String, String)>,
}

pub open spec fn distinct_first<A, B>(e: Seq<(String, A, B)>) -> bool {
    forall|i: int, j: int| 0 <= i < j < e.len() ==> #[trigger] e[i].0@ != #[trigger] e[j].0@
}

/// The directory built from (CIK, ticker, title) records in order: each
/// record sets its uppercased ticker to the padded CIK and the title-cased
/// name, a later record replacing an earlier one.
pub open spec fn directory_of(raw: Seq<(u64, String, String)>) -> Map<Seq<char>, (Seq<char>, Seq<char>)>
    decreases raw.len(),
{
    if raw.len() == 0 {
        Map::empty()
    } else {
        let r = raw.last();
        directory_of(raw.drop_last()).insert(
            ticker_key(r.1@),
            (zero_padded(r.0 as nat, 10), title_case(r.2@)),
        )
    }
}

/// The map a list of distinct-ticker entries stands for.
pub closed spec fn entries_map(e: Seq<(String, String, String)>) -> Map<Seq<char>, (Seq<char>, Seq<char>)> {
    Map::new(
        |k: Seq<char>| exists|i: int| 0 <= i < e.len() && #[trigger] e[i].0@ == k,
        |k: Seq<char>| {
            let i = choose|i: int| 0 <= i < e.len() && #[trigger] e[i].0@ == k;
            (e[i].1@, e[i].2@)
        },
    )
}

proof fn lemma_entries_at(e: Seq<(String, String, String)>, i: int)
    requires
        distinct_first(e),
        0 <= i < e.len(),
    ensures
        entries_map(e).contains_key(e[i].0@),
        entries_map(e)[e[i].0@] == (e[i].1@, e[i].2@),
{
    let k = e[i].0@;
    let c = choose|c: int| 0 <= c < e.len() && #[trigger] e[c].0@ == k;
    assert(0 <= c < e.len() && e[c].0@ == k);
    if c < i {
        assert(e[c].0@ != e[i].0@);
    } else if c > i {
        assert(e[i].0@ != e[c].0@);
    }
}

proof fn lemma_entries_set(e: Seq<(String, String, String)>, idx: int, x: (String, String, String))
    requires
        distinct_first(e),
        0 <= idx <= e.len(),
        idx < e.len() ==> e[idx].0@ == x.0@,
        idx == e.len() ==> forall|i: int| 0 <= i < e.len() ==> #[trigger] e[i].0@ != x.0@,
    ensures
        distinct_first(if idx < e.len() { e.update(idx, x) } else { e.push(x) }),
        entries_map(if idx < e.len() { e.update(idx, x) } else { e.push(x) }) == entries_map(e).insert(x.0@, (x.1@, x.2@)),
{
    let n = if idx < e.len() { e.update(idx, x) } else { e.push(x) };
    assert(n.len() == if idx < e.len() { e.len() } else { e.len() + 1 });
    assert forall|i: int| 0 <= i < n.len() implies #[trigger] n[i] == (if i == idx { x } else { e[i] }) by {}
    assert forall|a: int, b: int| 0 <= a < b < n.len() implies #[trigger] n[a].0@ != #[trigger] n[b].0@ by {
        if a != idx && b != idx {
            assert(e[a].0@ != e[b].0@);
        } else if a == idx && idx < e.len() {
            assert(e[a].0@ != e[b].0@);
        } else if b == idx && idx < e.len() {
            assert(e[a].0@ != e[b].0@);
        }
    }
    let want = entries_map(e).insert(x.0@, (x.1@, x.2@));
    assert forall|k: Seq<char>| entries_map(n).contains_key(k) <==> want.contains_key(k) by {
        if entries_map(n).contains_key(k) {
            let i = choose|i: int| 0 <= i < n.len() && #[trigger] n[i].0@ == k;
            if i != idx {
                lemma_entries_at(e, i);
            }
        }
        if want.contains_key(k) && k != x.0@ {
            let i = choose|i: int| 0 <= i < e.len() && #[trigger] e[i].0@ == k;
            lemma_entries_at(n, i);
        }
        if k == x.0@ {
            lemma_entries_at(n, idx);
        }
    }
    assert forall|k: Seq<char>| #[trigger] entries_map(n).contains_key(k) implies entries_map(n)[k] == want[k] by {
        let i = choose|i: int| 0 <= i < n.len() && #[trigger] n[i].0@ == k;
        lemma_entries_at(n, i);
        if i != idx {
            lemma_entries_at(e, i);
        }
    }
    assert(entries_map(n) =~= want);
}

fn find_ticker(e: &Vec<(String, String, String)>, t: &str) -> (r: Option<usize>)
    ensures
        r matches Some(i) ==> i < e@.len() && e@[i as int].0@ == t@,
        r is None ==> forall|i: int| 0 <= i < e@.len() ==> #[trigger] e@[i].0@ != t@,
{
    let mut i: usize = 0;
    while i < e.len()
        invariant
            i <= e@.len(),
            forall|j: int| 0 <= j < i ==> #[trigger] e@[j].0@ != t@,
        decreases e@.len() - i,
    {
        if crate::text::str_eq(e[i].0.as_str(), t) {
            return Some(i);
        }
        i = i + 1;
    }
    None
}

impl View for CikDirectory {
    type V = Map<Seq<char>, (Seq<char>, Seq<char>)>;

    closed spec fn view(&self) -> Map<Seq<char>, (Seq<char>, Seq<char>)> {
        entries_map(self.entries@)
    }
}

impl CikDirectory {
    #[verifier::type_invariant]
    spec fn tickers_distinct(&self) -> bool {
        distinct_first(self.entries@)
    }

    /// The (ticker, CIK, name) entries in the order they were first added.
    pub closed spec fn listing(&self) -> Seq<(String, String, String)> {
        self.entries@
    }

    /// An empty directory: every lookup falls through to the other sources.
    pub fn new_empty() -> (r: Self)
        ensures
            r@ == Map::<Seq<char>, (Seq<char>, Seq<char>)>::empty(),
            r.listing().len() == 0,
    {
        let r = CikDirectory { entries: Vec::new() };
        assert(r@ =~= Map::<Seq<char>, (Seq<char>, Seq<char>)>::empty());
        r
    }

    /// Builds the directory from the SEC's (CIK, ticker, title) records.
    pub fn from_records(raw: &Vec<(u64, String, String)>) -> (r: Self)
        ensures
            r@ == directory_of(raw@),
    {
        let mut entries: Vec<(String, String, String)> = Vec::new();
        let mut i: usize = 0;
        assert(entries_map(entries@) =~= Map::<Seq<char>, (Seq<char>, Seq<char>)>::empty());
        while i < raw.len()
            invariant
                i <= raw@.len(),
                distinct_first(entries@),
                entries_map(entries@) == directory_of(raw@.take(i as int)),
            decreases raw@.len() - i,
        {
            proof {
                assert(raw@.take(i + 1).drop_last() =~= raw@.take(i as int));
            }
            let ticker = to_uppercase(raw[i].1.as_str());
            let cik = zero_pad(raw[i].0, 10);
            let name = to_title_case(raw[i].2.as_str());
            match find_ticker(&entries, ticker.as_str()) {
                Some(idx) => {
                    let key = entries[idx].0.clone();
                    proof {
                        lemma_entries_set(entries@, idx as int, (key, cik, name));
                    }
                    entries.set(idx, (key, cik, name));
                },
                None => {
                    proof {
                        lemma_entries_set(entries@, entries@.len() as int, (ticker, cik, name));
                    }
                    entries.push((ticker, cik, name));
                },
            }
            i = i + 1;
        }
        assert(raw@.take(raw@.len() as int) =~= raw@);
        CikDirectory { entries }
    }

    /// Whether this ticker has a known CIK (a US-listed company).
    pub fn has_cik(&self, ticker: &str) -> (r: bool)
        ensures
            r == self@.contains_key(ticker_key(ticker@)),
    {
        proof {
            use_type_invariant(self);
        }
        let key = to_uppercase(ticker);
        match find_ticker(&self.entries, key.as_str()) {
            Some(i) => {
                proof {
                    lemma_entries_at(self.entries@, i as int);
                }
                true
            },
            None => false,
        }
    }

    /// The padded CIK of a ticker, if known.
    pub fn cik_of(&self, ticker: &str) -> (r: Option<String>)
        ensures
            match r {
                Some(c) => self@.contains_key(ticker_key(ticker@)) && c@ == self@[ticker_key(ticker@)].0,
                None => !self@.contains_key(ticker_key(ticker@)),
            },
    {
        proof {
            use_type_invariant(self);
        }
        let key = to_uppercase(ticker);
        match find_ticker(&self.entries, key.as_str()) {
            Some(i) => {
                proof {
                    lemma_entries_at(self.entries@, i as int);
                }
                Some(self.entries[i].1.clone())
            },
            None => None,
        }
    }

    /// Number of tickers known.
    pub fn len(&self) -> (r: usize)
        ensures
            r == self.listing().len(),
    {
        self.entries.len()
    }
}

/// The directory entry a record sets: its padded CIK and title-cased name.
pub open spec fn record_entry(r: (u64, String, String)) -> (Seq<char>, Seq<char>) {
    (zero_padded(r.0 as nat, 10), title_case(r.2@))
}

/// Whether record `i` is the last one naming ticker key `t`.
pub open spec fn last_naming(raw: Seq<(u64, String, String)>, t: Seq<char>, i: int) -> bool {
    &&& 0 <= i < raw.len()
    &&& ticker_key(raw[i].1@) == t
    &&& forall|j: int| i < j < raw.len() ==> ticker_key(#[trigger] raw[j].1@) != t
}

proof fn lemma_directory_keys(raw: Seq<(u64, String, String)>, t: Seq<char>)
    ensures
        directory_of(raw).contains_key(t) <==> exists|i: int| 0 <= i < raw.len() && ticker_key(#[trigger] raw[i].1@) == t,
    decreases raw.len(),
{
    if raw.len() > 0 {
        let prev = raw.drop_last();
        lemma_directory_keys(prev, t);
        if exists|i: int| 0 <= i < raw.len() && ticker_key(#[trigger] raw[i].1@) == t {
            let i = choose|i: int| 0 <= i < raw.len() && ticker_key(#[trigger] raw[i].1@) == t;
            if i < raw.len() - 1 {
                assert(prev[i] == raw[i]);
            }
        }
        if exists|i: int| 0 <= i < prev.len() && ticker_key(#[trigger] prev[i].1@) == t {
            let i = choose|i: int| 0 <= i < prev.len() && ticker_key(#[trigger] prev[i].1@) == t;
            assert(prev[i] == raw[i]);
        }
    }
}

proof fn lemma_directory_value(raw: Seq<(u64, String, String)>, t: Seq<char>, i: int)
    requires
        last_naming(raw, t, i),
    ensures
        directory_of(raw).contains_key(t),
        directory_of(raw)[t] == (zero_padded(raw[i].0 as nat, 10), title_case(raw[i].2@)),
    decreases raw.len(),
{
    let prev = raw.drop_last();
    let last = raw.len() - 1;
    if i < last {
        assert(ticker_key(raw[last].1@) != t);
        assert(prev[i] == raw[i]);
        assert forall|j: int| i < j < prev.len() implies ticker_key(#[trigger] prev[j].1@) != t by {
            assert(prev[j] == raw[j]);
        }
        lemma_directory_value(prev, t, i);
    }
}

/// A ticker is in the directory exactly when some record names it (compared
/// after uppercasing), and it holds the CIK and title-cased name of the last
/// such record.
pub proof fn law_directory_last_record_wins(raw: Seq<(u64, String, String)>, t: Seq<char>)
    ensures
        directory_of(raw).contains_key(t) <==> exists|i: int| 0 <= i < raw.len() && ticker_key(#[trigger] raw[i].1@) == t,
        forall|i: int| #[trigger] last_naming(raw, t, i) ==> directory_of(raw)[t] == record_entry(raw[i]),
{
    lemma_directory_keys(raw, t);
    assert forall|i: int| #[trigger] last_naming(raw, t, i) implies directory_of(raw)[t] == record_entry(raw[i]) by {
        lemma_directory_value(raw, t, i);
    }
}

// ── Local search ────────────────────────────────────────────────────────────

/// How an entry matches a (trimmed, lowercased) query: 0 exact ticker,
/// 1 ticker prefix, 2 name substring, 3 no match.
pub open spec fn match_class(ticker: Seq<char>, name: Seq<char>, q: Seq<char>) -> nat {
    if ascii_lower(ticker) == q {
        0
    } else if has_prefix(ascii_lower(ticker), q) {
        1
    } else if has_substring(ascii_lower(name), q) {
        2
    } else {
        3
    }
}

/// The (name, ticker) pairs of the entries of one match class, in listing order.
pub open spec fn of_class(e: Seq<(String, String, String)>, q: Seq<char>, cls: nat) -> Seq<(String, String)>
    decreases e.len(),
{
    if e.len() == 0 {
        Seq::empty()
    } else if match_class(e.last().0@, e.last().2@, q) == cls {
        of_class(e.drop_last(), q, cls).push((e.last().2, e.last().0))
    } else {
        of_class(e.drop_last(), q, cls)
    }
}

/// Exact ticker matches, then ticker-prefix matches by symbol, then name
/// matches by symbol, as (name, ticker) pairs.
pub open spec fn ranked_matches(e: Seq<(String, String, String)>, q: Seq<char>) -> Seq<(String, String)> {
    of_class(e, q, 0) + str_stable_sorted(of_class(e, q, 1), false) + str_stable_sorted(of_class(e, q, 2), false)
}

/// The search results for a query, at most `limit`: none for a blank query.
pub open spec fn local_search(e: Seq<(String, String, String)>, query: Seq<char>, limit: nat) -> Seq<(String, String)> {
    let q = ascii_lower(trim_ws(query));
    if q.len() == 0 {
        Seq::empty()
    } else {
        let all = ranked_matches(e, q);
        all.take(if all.len() < limit { all.len() as int } else { limit as int })
    }
}

fn classify(ticker: &str, name: &str, q: &[char]) -> (r: u8)
    ensures
        r as nat == match_class(ticker@, name@, q@),
{
    let tl = to_ascii_lowercase(ticker);
    let tv = chars_of(tl.as_str());
    if chars_eq(tv.as_slice(), q) {
        0
    } else if chars_start_with(tv.as_slice(), q) {
        1
    } else {
        let nl = to_ascii_lowercase(name);
        let nv = chars_of(nl.as_str());
        if chars_contain(nv.as_slice(), q) {
            2
        } else {
            3
        }
    }
}

fn pairs_to_results(p: &Vec<(String, String)>, out: &mut Vec<SearchResult>, limit: usize)
    ensures
        final(out)@.len() == (if old(out)@.len() >= limit { old(out)@.len() as int } else if old(out)@.len() + p@.len() <= limit { (old(out)@.len() + p@.len()) as int } else { limit as int }),
        forall|i: int| 0 <= i < old(out)@.len() ==> #[trigger] final(out)@[i] == old(out)@[i],
        forall|i: int| old(out)@.len() <= i < final(out)@.len() ==> result_of(#[trigger] final(out)@[i], p@[i - old(out)@.len()]),
{
    let ghost base = out@.len();
    let mut i: usize = 0;
    while i < p.len() && out.len() < limit
        invariant
            i <= p@.len(),
            base <= out@.len(),
            out@.len() == base + i,
            base < limit ==> out@.len() <= limit,
            base >= limit ==> i == 0,
            forall|k: int| 0 <= k < base ==> #[trigger] out@[k] == old(out)@[k],
            old(out)@.len() == base,
            forall|k: int| base <= k < out@.len() ==> result_of(#[trigger] out@[k], p@[k - base]),
        decreases p@.len() - i,
    {
        out.push(SearchResult {
            symbol: p[i].1.clone(),
            name: p[i].0.clone(),
            stock_exchange: None,
            exchange_short_name: None,
        });
        i = i + 1;
    }
}

/// `r` is the search result for the (name, ticker) pair `p`.
pub open spec fn result_of(r: SearchResult, p: (String, String)) -> bool {
    r.symbol@ == p.1@ && r.name@ == p.0@ && r.stock_exchange is None && r.exchange_short_name is None
}

/// No two (name, ticker) pairs share a ticker.
pub open spec fn symbols_distinct(p: Seq<(String, String)>) -> bool {
    forall|i: int, j: int| 0 <= i < j < p.len() ==> #[trigger] p[i].1@ != #[trigger] p[j].1@
}

/// `x` is the (name, ticker) pair of an entry of match class `cls`.
pub open spec fn class_member(e: Seq<(String, String, String)>, q: Seq<char>, cls: nat, x: (String, String)) -> bool {
    exists|k: int|
        0 <= k < e.len() && x.0 == (#[trigger] e[k]).2 && x.1 == e[k].0 && match_class(e[k].0@, e[k].2@, q)
            == cls
}

proof fn lemma_of_class_members(e: Seq<(String, String, String)>, q: Seq<char>, cls: nat)
    ensures
        forall|i: int| 0 <= i < of_class(e, q, cls).len() ==> class_member(e, q, cls, #[trigger] of_class(e, q, cls)[i]),
    decreases e.len(),
{
    if e.len() > 0 {
        let d = e.drop_last();
        lemma_of_class_members(d, q, cls);
        let p = of_class(d, q, cls);
        assert forall|i: int| 0 <= i < of_class(e, q, cls).len() implies class_member(e, q, cls, #[trigger] of_class(e, q, cls)[i]) by {
            if i < p.len() {
                assert(of_class(e, q, cls)[i] == p[i]);
                assert(class_member(d, q, cls, p[i]));
                let k = choose|k: int|
                    0 <= k < d.len() && p[i].0 == (#[trigger] d[k]).2 && p[i].1 == d[k].0 && match_class(d[k].0@, d[k].2@, q) == cls;
                assert(e[k] == d[k]);
            } else {
                assert(e[e.len() - 1] == e.last());
            }
        }
    }
}

proof fn lemma_of_class_distinct(e: Seq<(String, String, String)>, q: Seq<char>, cls: nat)
    requires
        distinct_first(e),
    ensures
        symbols_distinct(of_class(e, q, cls)),
    decreases e.len(),
{
    if e.len() > 0 {
        let d = e.drop_last();
        assert forall|i: int, j: int| 0 <= i < j < d.len() implies #[trigger] d[i].0@ != #[trigger] d[j].0@ by {
            assert(d[i] == e[i] && d[j] == e[j]);
        }
        lemma_of_class_distinct(d, q, cls);
        lemma_of_class_members(d, q, cls);
        let p = of_class(d, q, cls);
        let r = of_class(e, q, cls);
        assert forall|i: int, j: int| 0 <= i < j < r.len() implies #[trigger] r[i].1@ != #[trigger] r[j].1@ by {
            if j < p.len() {
                assert(r[i] == p[i] && r[j] == p[j]);
            } else {
                assert(r[i] == p[i]);
                assert(class_member(d, q, cls, p[i]));
                let k = choose|k: int|
                    0 <= k < d.len() && p[i].0 == (#[trigger] d[k]).2 && p[i].1 == d[k].0 && match_class(d[k].0@, d[k].2@, q) == cls;
                assert(e[k] == d[k]);
                assert(e[k].0@ != e[e.len() - 1].0@);
            }
        }
    }
}

proof fn lemma_sorted_symbols(p: Seq<(String, String)>)
    requires
        symbols_distinct(p),
    ensures
        symbols_distinct(str_stable_sorted(p, false)),
        forall|x: (String, String)| str_stable_sorted(p, false).contains(x) ==> p.contains(x),
        str_stable_sorted(p, false).len() == p.len(),
{
    let srt = str_stable_sorted(p, false);
    crate::sorting::law_str_sort_sorted_permutation(p, false);
    p.to_multiset_ensures();
    srt.to_multiset_ensures();
    assert(p.no_duplicates()) by {
        assert forall|i: int, j: int| 0 <= i < p.len() && 0 <= j < p.len() && i != j implies p[i] != p[j] by {
            if i < j {
                assert(p[i].1@ != p[j].1@);
            } else {
                assert(p[j].1@ != p[i].1@);
            }
        }
    }
    p.lemma_multiset_has_no_duplicates();
    srt.lemma_multiset_has_no_duplicates_conv();
    assert forall|x: (String, String)| srt.contains(x) implies p.contains(x) by {
        assert(srt.to_multiset().count(x) > 0);
    }
    assert forall|i: int, j: int| 0 <= i < j < srt.len() implies #[trigger] srt[i].1@ != #[trigger] srt[j].1@ by {
        if srt[i].1@ == srt[j].1@ {
            assert(srt.contains(srt[i]));
            assert(srt.contains(srt[j]));
            let a = choose|a: int| 0 <= a < p.len() && p[a] == srt[i];
            let b = choose|b: int| 0 <= b < p.len() && p[b] == srt[j];
            if a < b {
                assert(p[a].1@ != p[b].1@);
            } else if b < a {
                assert(p[b].1@ != p[a].1@);
            }
            assert(srt[i] == srt[j]);
        }
    }
}

/// A search never names a ticker twice, given a listing that holds each
/// ticker once.
pub proof fn law_search_symbols_distinct(e: Seq<(String, String, String)>, query: Seq<char>, limit: nat)
    requires
        distinct_first(e),
    ensures
        symbols_distinct(local_search(e, query, limit)),
{
    let q = ascii_lower(trim_ws(query));
    if q.len() > 0 {
        let a = of_class(e, q, 0);
        let b0 = of_class(e, q, 1);
        let c0 = of_class(e, q, 2);
        lemma_of_class_distinct(e, q, 0);
        lemma_of_class_distinct(e, q, 1);
        lemma_of_class_distinct(e, q, 2);
        lemma_of_class_members(e, q, 0);
        lemma_of_class_members(e, q, 1);
        lemma_of_class_members(e, q, 2);
        lemma_sorted_symbols(b0);
        lemma_sorted_symbols(c0);
        let b = str_stable_sorted(b0, false);
        let c = str_stable_sorted(c0, false);
        let all = ranked_matches(e, q);
        assert(all == a + b + c);
        // Members of different classes never share a ticker.
        assert forall|x: (String, String), y: (String, String), cx: nat, cy: nat|
            #![trigger class_member(e, q, cx, x), class_member(e, q, cy, y)]
            class_member(e, q, cx, x) && class_member(e, q, cy, y) && cx != cy implies x.1@ != y.1@ by {
            let k1 = choose|k: int|
                0 <= k < e.len() && x.0 == (#[trigger] e[k]).2 && x.1 == e[k].0 && match_class(e[k].0@, e[k].2@, q) == cx;
            let k2 = choose|k: int|
                0 <= k < e.len() && y.0 == (#[trigger] e[k]).2 && y.1 == e[k].0 && match_class(e[k].0@, e[k].2@, q) == cy;
            if k1 < k2 {
                assert(e[k1].0@ != e[k2].0@);
            } else if k2 < k1 {
                assert(e[k2].0@ != e[k1].0@);
            }
        }
        assert forall|i: int| 0 <= i < b.len() implies class_member(e, q, 1, #[trigger] b[i]) by {
            assert(b.contains(b[i]));
            assert(b0.contains(b[i]));
            let k = choose|k: int| 0 <= k < b0.len() && b0[k] == b[i];
            assert(class_member(e, q, 1, b0[k]));
        }
        assert forall|i: int| 0 <= i < c.len() implies class_member(e, q, 2, #[trigger] c[i]) by {
            assert(c.contains(c[i]));
            assert(c0.contains(c[i]));
            let k = choose|k: int| 0 <= k < c0.len() && c0[k] == c[i];
            assert(class_member(e, q, 2, c0[k]));
        }
        assert forall|i: int, j: int| 0 <= i < j < all.len() implies #[trigger] all[i].1@ != #[trigger] all[j].1@ by {
            let la = a.len() as int;
            let lb = b.len() as int;
            if j < la {
                assert(all[i] == a[i] && all[j] == a[j]);
            } else if j < la + lb {
                assert(all[j] == b[j - la]);
                assert(class_member(e, q, 1, b[j - la]));
                if i < la {
                    assert(all[i] == a[i]);
                    assert(class_member(e, q, 0, a[i]));
                } else {
                    assert(all[i] == b[i - la]);
                }
            } else {
                assert(all[j] == c[j - la - lb]);
                assert(class_member(e, q, 2, c[j - la - lb]));
                if i < la {
                    assert(all[i] == a[i]);
                    assert(class_member(e, q, 0, a[i]));
                } else if i < la + lb {
                    assert(all[i] == b[i - la]);
                    assert(class_member(e, q, 1, b[i - la]));
                } else {
                    assert(all[i] == c[i - la - lb]);
                }
            }
        }
        let n = if all.len() < limit { all.len() as int } else { limit as int };
        let r = all.take(n);
        assert forall|i: int, j: int| 0 <= i < j < r.len() implies #[trigger] r[i].1@ != #[trigger] r[j].1@ by {
            assert(r[i] == all[i] && r[j] == all[j]);
        }
    }
}

proof fn lemma_of_class_has(e: Seq<(String, String, String)>, q: Seq<char>, cls: nat, k: int)
    requires
        0 <= k < e.len(),
        match_class(e[k].0@, e[k].2@, q) == cls,
    ensures
        of_class(e, q, cls).contains((e[k].2, e[k].0)),
    decreases e.len(),
{
    let r = of_class(e, q, cls);
    if k == e.len() - 1 {
        assert(e.last() == e[k]);
        assert(r[r.len() - 1] == (e[k].2, e[k].0));
    } else {
        let d = e.drop_last();
        assert(d[k] == e[k]);
        lemma_of_class_has(d, q, cls, k);
        let p = of_class(d, q, cls);
        let i = choose|i: int| 0 <= i < p.len() && p[i] == (e[k].2, e[k].0);
        assert(r[i] == p[i]);
    }
}

/// A query found anywhere inside a company's name finds the company: an entry
/// whose ticker is neither the (trimmed, lowercased) query nor starts with it,
/// and whose lowercased name contains the query at some position, is among the
/// ranked matches, and so among the results whenever the limit leaves room.
pub proof fn law_name_substring_found(e: Seq<(String, String, String)>, query: Seq<char>, limit: nat, k: int, at: int)
    requires
        0 <= k < e.len(),
        ascii_lower(trim_ws(query)).len() > 0,
        ascii_lower(e[k].0@) != ascii_lower(trim_ws(query)),
        !(ascii_lower(trim_ws(query)).len() <= ascii_lower(e[k].0@).len() && ascii_lower(e[k].0@).subrange(
            0,
            ascii_lower(trim_ws(query)).len() as int,
        ) == ascii_lower(trim_ws(query))),
        0 <= at,
        at + ascii_lower(trim_ws(query)).len() <= ascii_lower(e[k].2@).len(),
        ascii_lower(e[k].2@).subrange(at, at + ascii_lower(trim_ws(query)).len()) == ascii_lower(trim_ws(query)),
    ensures
        ranked_matches(e, ascii_lower(trim_ws(query))).contains((e[k].2, e[k].0)),
        ranked_matches(e, ascii_lower(trim_ws(query))).len() <= limit ==> local_search(e, query, limit).contains(
            (e[k].2, e[k].0),
        ),
{
    let q = ascii_lower(trim_ws(query));
    assert(occurs_at(ascii_lower(e[k].2@), q, at));
    assert(match_class(e[k].0@, e[k].2@, q) == 2);
    lemma_of_class_has(e, q, 2, k);
    let c0 = of_class(e, q, 2);
    let c = str_stable_sorted(c0, false);
    crate::sorting::law_str_sort_sorted_permutation(c0, false);
    c0.to_multiset_ensures();
    c.to_multiset_ensures();
    let x = (e[k].2, e[k].0);
    assert(c0.to_multiset().count(x) > 0);
    assert(c.contains(x));
    let j = choose|j: int| 0 <= j < c.len() && c[j] == x;
    let a = of_class(e, q, 0);
    let b = str_stable_sorted(of_class(e, q, 1), false);
    let all = ranked_matches(e, q);
    assert(all == a + b + c);
    assert(all[a.len() + b.len() + j] == x);
    if all.len() <= limit {
        assert(all.take(all.len() as int) =~= all);
    }
}

/// The ranked matches come in three runs: tickers equal to the (trimmed,
/// lowercased) query, then tickers starting with it, ordered by ticker, then
/// companies whose name contains it, ordered by ticker; nothing else.
pub proof fn law_search_ranking(e: Seq<(String, String, String)>, q: Seq<char>)
    ensures
        ({
            let all = ranked_matches(e, q);
            let na = of_class(e, q, 0).len();
            let nb = of_class(e, q, 1).len();
            &&& forall|i: int| 0 <= i < na ==> ascii_lower((#[trigger] all[i]).1@) == q
            &&& forall|i: int|
                na <= i < na + nb ==> ascii_lower((#[trigger] all[i]).1@) != q && q.len() <= ascii_lower(all[i].1@).len()
                    && ascii_lower(all[i].1@).subrange(0, q.len() as int) == q
            &&& forall|i: int|
                na + nb <= i < all.len() ==> ascii_lower((#[trigger] all[i]).1@) != q && !(q.len() <= ascii_lower(all[i].1@).len()
                    && ascii_lower(all[i].1@).subrange(0, q.len() as int) == q) && exists|at: int|
                    occurs_at(ascii_lower(all[i].0@), q, at)
            &&& forall|i: int, j: int|
                na <= i < j < na + nb ==> !seq_lt((#[trigger] all[j]).1@, (#[trigger] all[i]).1@)
            &&& forall|i: int, j: int|
                na + nb <= i < j < all.len() ==> !seq_lt((#[trigger] all[j]).1@, (#[trigger] all[i]).1@)
        }),
{
    let a = of_class(e, q, 0);
    let b0 = of_class(e, q, 1);
    let c0 = of_class(e, q, 2);
    let b = str_stable_sorted(b0, false);
    let c = str_stable_sorted(c0, false);
    let all = ranked_matches(e, q);
    assert(all == a + b + c);
    lemma_of_class_members(e, q, 0);
    lemma_of_class_members(e, q, 1);
    lemma_of_class_members(e, q, 2);
    crate::sorting::law_str_sort_sorted_permutation(b0, false);
    crate::sorting::law_str_sort_sorted_permutation(c0, false);
    b0.to_multiset_ensures();
    b.to_multiset_ensures();
    c0.to_multiset_ensures();
    c.to_multiset_ensures();
    let na = a.len() as int;
    let nb = b.len() as int;
    assert forall|i: int| 0 <= i < all.len() implies match_class((#[trigger] all[i]).1@, all[i].0@, q) == (if i < na {
        0nat
    } else if i < na + nb {
        1nat
    } else {
        2nat
    }) by {
        if i < na {
            assert(all[i] == a[i]);
            assert(class_member(e, q, 0, a[i]));
        } else if i < na + nb {
            assert(all[i] == b[i - na]);
            assert(b.contains(b[i - na]));
            assert(b.to_multiset().count(b[i - na]) > 0);
            assert(b0.contains(b[i - na]));
            let m = choose|m: int| 0 <= m < b0.len() && b0[m] == b[i - na];
            assert(class_member(e, q, 1, b0[m]));
        } else {
            assert(all[i] == c[i - na - nb]);
            assert(c.contains(c[i - na - nb]));
            assert(c.to_multiset().count(c[i - na - nb]) > 0);
            assert(c0.contains(c[i - na - nb]));
            let m = choose|m: int| 0 <= m < c0.len() && c0[m] == c[i - na - nb];
            assert(class_member(e, q, 2, c0[m]));
        }
    }
    assert forall|i: int| na + nb <= i < all.len() implies exists|at: int| occurs_at(ascii_lower((#[trigger] all[i]).0@), q, at) by {
        assert(match_class(all[i].1@, all[i].0@, q) == 2);
        assert(has_substring(ascii_lower(all[i].0@), q));
    }
    assert forall|i: int| na <= i < na + nb implies ascii_lower((#[trigger] all[i]).1@) != q && q.len() <= ascii_lower(all[i].1@).len()
        && ascii_lower(all[i].1@).subrange(0, q.len() as int) == q by {
        assert(match_class(all[i].1@, all[i].0@, q) == 1);
    }
    assert forall|i: int, j: int| na <= i < j < na + nb implies !seq_lt((#[trigger] all[j]).1@, (#[trigger] all[i]).1@) by {
        assert(all[i] == b[i - na] && all[j] == b[j - na]);
        assert(!crate::sorting::str_key_before(b[j - na].1@, b[i - na].1@, false));
    }
    assert forall|i: int, j: int| na + nb <= i < j < all.len() implies !seq_lt((#[trigger] all[j]).1@, (#[trigger] all[i]).1@) by {
        assert(all[i] == c[i - na - nb] && all[j] == c[j - na - nb]);
        assert(!crate::sorting::str_key_before(c[j - na - nb].1@, c[i - na - nb].1@, false));
    }
}

impl CikDirectory {
    /// Searches the directory, no network call. Priority: exact ticker match,
    /// then ticker prefix, then company-name substring (ASCII case-insensitive).
    /// The listing it searches holds each ticker once, and no ticker is
    /// returned twice.
    pub fn search_local(&self, query: &str, limit: usize) -> (r: Vec<SearchResult>)
        ensures
            distinct_first(self.listing()),
            forall|i: int, j: int| 0 <= i < j < r@.len() ==> #[trigger] r@[i].symbol@ != #[trigger] r@[j].symbol@,
            r@.len() == local_search(self.listing(), query@, limit as nat).len(),
            forall|i: int| 0 <= i < r@.len() ==> result_of(#[trigger] r@[i], local_search(self.listing(), query@, limit as nat)[i]),
    {
        proof {
            use_type_invariant(self);
            law_search_symbols_distinct(self.entries@, query@, limit as nat);
        }
        let t = trim(query);
        let ql = to_ascii_lowercase(t.as_str());
        let q = chars_of(ql.as_str());
        if q.len() == 0 {
            return Vec::new();
        }
        let mut exact: Vec<(String, String)> = Vec::new();
        let mut prefix: Vec<(String, String)> = Vec::new();
        let mut names: Vec<(String, String)> = Vec::new();
        let mut i: usize = 0;
        while i < self.entries.len()
            invariant
                i <= self.entries@.len(),
                q@ == ascii_lower(trim_ws(query@)),
                exact@ == of_class(self.entries@.take(i as int), q@, 0),
                prefix@ == of_class(self.entries@.take(i as int), q@, 1),
                names@ == of_class(self.entries@.take(i as int), q@, 2),
            decreases self.entries@.len() - i,
        {
            proof {
                assert(self.entries@.take(i + 1).drop_last() =~= self.entries@.take(i as int));
            }
            let e = &self.entries[i];
            let c = classify(e.0.as_str(), e.2.as_str(), q.as_slice());
            if c == 0 {
                exact.push((e.2.clone(), e.0.clone()));
            } else if c == 1 {
                prefix.push((e.2.clone(), e.0.clone()));
            } else if c == 2 {
                names.push((e.2.clone(), e.0.clone()));
            }
            i = i + 1;
        }
        assert(self.entries@.take(self.entries@.len() as int) =~= self.entries@);
        let prefix = stable_sort_by_str_key(prefix, false);
        let names = stable_sort_by_str_key(names, false);
        let mut out: Vec<SearchResult> = Vec::new();
        pairs_to_results(&exact, &mut out, limit);
        pairs_to_results(&prefix, &mut out, limit);
        pairs_to_results(&names, &mut out, limit);
        proof {
            let all = exact@ + prefix@ + names@;
            assert(all =~= ranked_matches(self.entries@, q@));
            let n = if all.len() < limit { all.len() as int } else { limit as int };
            assert(out@.len() == n);
            assert forall|k: int| 0 <= k < out@.len() implies result_of(#[trigger] out@[k], all.take(n)[k]) by {
                if k < exact@.len() {
                } else if k < exact@.len() + prefix@.len() {
                } else {
                }
            }
        }
        out
    }
}

} // verus!
