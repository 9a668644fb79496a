//! Stable sorting of keyed items.
//!
//! Items are `(value, key)` pairs with an integer key. A stable sort is
//! specified as insertion from the back: the sorted form of `s` is the sorted
//! form of `s.drop_first()` with `s[0]` put in front of every item whose key
//! does not strictly precede its own. Equal keys therefore keep their input
//! order.

use vstd::prelude::*;
use vstd::multiset::Multiset;
use crate::text::{
    chars_lt, chars_of, lemma_seq_lt_asym, lemma_seq_lt_irrefl, lemma_seq_lt_total, lemma_seq_lt_trans, seq_lt,
};

verus! {

/// Whether key `a` must come strictly before key `b`.
pub open spec fn key_before(a: u64, b: u64, descending: bool) -> bool {
    if descending {
        a > b
    } else {
        a < b
    }
}

/// Whether `s` is sorted by key in the given direction.
pub open spec fn sorted_by_key<T>(s: Seq<(T, u64)>, descending: bool) -> bool {
    forall|i: int, j: int|
        0 <= i < j < s.len() ==> !key_before(#[trigger] s[j].1, #[trigger] s[i].1, descending)
}

/// Where `x` goes in the sorted `s`: after the leading run of items whose key
/// strictly precedes its own.
pub open spec fn insert_pos<T>(s: Seq<(T, u64)>, k: u64, descending: bool) -> nat
    decreases s.len(),
{
    if s.len() == 0 {
        0
    } else if key_before(s[0].1, k, descending) {
        1 + insert_pos(s.drop_first(), k, descending)
    } else {
        0
    }
}

/// `s` with `x` inserted at its position.
pub open spec fn insert_sorted<T>(s: Seq<(T, u64)>, x: (T, u64), descending: bool) -> Seq<(T, u64)> {
    let p = insert_pos(s, x.1, descending) as int;
    s.take(p).push(x) + s.skip(p)
}

/// The stable sort of `s` by key.
pub open spec fn stable_sorted<T>(s: Seq<(T, u64)>, descending: bool) -> Seq<(T, u64)>
    decreases s.len(),
{
    if s.len() == 0 {
        s
    } else {
        insert_sorted(stable_sorted(s.drop_first(), descending), s[0], descending)
    }
}

pub(crate) proof fn lemma_insert_pos_bounds<T>(s: Seq<(T, u64)>, k: u64, descending: bool)
    ensures
        insert_pos(s, k, descending) <= s.len(),
        forall|i: int|
            0 <= i < insert_pos(s, k, descending) ==> key_before(#[trigger] s[i].1, k, descending),
        insert_pos(s, k, descending) < s.len() ==> !key_before(
            s[insert_pos(s, k, descending) as int].1,
            k,
            descending,
        ),
    decreases s.len(),
{
    if s.len() > 0 && key_before(s[0].1, k, descending) {
        lemma_insert_pos_bounds(s.drop_first(), k, descending);
        assert forall|i: int| 0 <= i < insert_pos(s, k, descending) implies key_before(
            #[trigger] s[i].1,
            k,
            descending,
        ) by {
            if i > 0 {
                assert(s[i] == s.drop_first()[i - 1]);
            }
        }
    }
}

proof fn lemma_insert_sorted<T>(s: Seq<(T, u64)>, x: (T, u64), descending: bool)
    requires
        sorted_by_key(s, descending),
    ensures
        sorted_by_key(insert_sorted(s, x, descending), descending),
        insert_sorted(s, x, descending).to_multiset() == s.to_multiset().insert(x),
        insert_sorted(s, x, descending).len() == s.len() + 1,
{
    let p = insert_pos(s, x.1, descending) as int;
    lemma_insert_pos_bounds(s, x.1, descending);
    let r = insert_sorted(s, x, descending);
    assert(r.len() == s.len() + 1);
    assert forall|i: int| 0 <= i < r.len() implies #[trigger] r[i] == (if i < p {
        s[i]
    } else if i == p {
        x
    } else {
        s[i - 1]
    }) by {}
    assert forall|i: int, j: int| 0 <= i < j < r.len() implies !key_before(
        #[trigger] r[j].1,
        #[trigger] r[i].1,
        descending,
    ) by {
        if j < p {
        } else if j == p {
            assert(key_before(s[i].1, x.1, descending));
        } else if i < p {
            assert(key_before(s[i].1, x.1, descending));
            if p < s.len() {
                assert(!key_before(s[p].1, x.1, descending));
                assert(!key_before(s[j - 1].1, s[p].1, descending));
            }
        } else if i == p {
            assert(!key_before(s[p].1, x.1, descending));
            if p < j - 1 {
                assert(!key_before(s[j - 1].1, s[p].1, descending));
            }
        } else {
        }
    }
    vstd::seq_lib::lemma_multiset_commutative(s.take(p).push(x), s.skip(p));
    vstd::seq_lib::lemma_multiset_commutative(s.take(p), s.skip(p));
    assert(s.take(p) + s.skip(p) =~= s);
    assert(s.take(p).push(x).to_multiset() == s.take(p).to_multiset().insert(x)) by {
        s.take(p).to_multiset_ensures();
    }
}

/// The stable sort is sorted, and it holds the same items as its input.
pub proof fn law_stable_sort_sorted_permutation<T>(s: Seq<(T, u64)>, descending: bool)
    ensures
        sorted_by_key(stable_sorted(s, descending), descending),
        stable_sorted(s, descending).to_multiset() == s.to_multiset(),
        stable_sorted(s, descending).len() == s.len(),
    decreases s.len(),
{
    if s.len() > 0 {
        law_stable_sort_sorted_permutation(s.drop_first(), descending);
        lemma_insert_sorted(stable_sorted(s.drop_first(), descending), s[0], descending);
        assert(s =~= seq![s[0]] + s.drop_first());
        vstd::seq_lib::lemma_multiset_commutative(seq![s[0]], s.drop_first());
        assert(seq![s[0]].to_multiset() =~= Multiset::empty().insert(s[0])) by {
            seq![s[0]].to_multiset_ensures();
            assert(seq![s[0]] =~= Seq::<(T, u64)>::empty().push(s[0]));
            Seq::<(T, u64)>::empty().to_multiset_ensures();
        }
    } else {
        assert(s.to_multiset() =~= Multiset::empty()) by {
            s.to_multiset_ensures();
        }
    }
}

/// Whether key `a` must come strictly before key `b`.
pub fn precedes(a: u64, b: u64, descending: bool) -> (r: bool)
    ensures
        r == key_before(a, b, descending),
{
    if descending {
        a > b
    } else {
        a < b
    }
}

/// Stable sort of keyed items, in descending or ascending key order.
pub fn stable_sort_by_key<T>(v: Vec<(T, u64)>, descending: bool) -> (r: Vec<(T, u64)>)
    ensures
        r@ == stable_sorted(v@, descending),
{
    let ghost orig = v@;
    let mut v = v;
    let mut out: Vec<(T, u64)> = Vec::new();
    proof {
        assert(orig.skip(orig.len() as int) =~= Seq::<(T, u64)>::empty());
    }
    while v.len() > 0
        invariant
            v@ == orig.take(v@.len() as int),
            v@.len() <= orig.len(),
            out@ == stable_sorted(orig.skip(v@.len() as int), descending),
        decreases v@.len(),
    {
        let ghost n = v@.len();
        let x = v.pop().unwrap();
        let ghost rest = orig.skip(n - 1);
        proof {
            assert(rest.drop_first() =~= orig.skip(n as int));
            assert(rest[0] == x);
            assert(v@ =~= orig.take(n - 1));
        }
        let mut p: usize = 0;
        while p < out.len() && precedes(out[p].1, x.1, descending)
            invariant
                p <= out@.len(),
                forall|i: int| 0 <= i < p ==> key_before(#[trigger] out@[i].1, x.1, descending),
            decreases out@.len() - p,
        {
            p = p + 1;
        }
        proof {
            lemma_insert_pos_bounds(out@, x.1, descending);
            lemma_insert_pos_exact(out@, x.1, descending, p as int);
        }
        out.insert(p, x);
        proof {
            assert(out@ =~= insert_sorted(stable_sorted(rest.drop_first(), descending), rest[0], descending));
        }
    }
    assert(orig.skip(0) =~= orig);
    out
}

proof fn lemma_insert_pos_exact<T>(s: Seq<(T, u64)>, k: u64, descending: bool, p: int)
    requires
        0 <= p <= s.len(),
        forall|i: int| 0 <= i < p ==> key_before(#[trigger] s[i].1, k, descending),
        p == s.len() || !key_before(s[p].1, k, descending),
    ensures
        insert_pos(s, k, descending) == p,
    decreases s.len(),
{
    if s.len() > 0 && p > 0 {
        assert forall|i: int| 0 <= i < p - 1 implies key_before(
            #[trigger] s.drop_first()[i].1,
            k,
            descending,
        ) by {
            assert(s.drop_first()[i] == s[i + 1]);
        }
        if p < s.len() {
            assert(s.drop_first()[p - 1] == s[p]);
        }
        lemma_insert_pos_exact(s.drop_first(), k, descending, p - 1);
    } else if s.len() > 0 {
        assert(!key_before(s[0].1, k, descending));
    }
}

// ── The same, keyed by strings in lexicographic order ────────────────────────

/// Whether string key `a` must come strictly before `b` (lexicographic order).
pub open spec fn str_key_before(a: Seq<char>, b: Seq<char>, descending: bool) -> bool {
    if descending {
        seq_lt(b, a)
    } else {
        seq_lt(a, b)
    }
}

/// Whether `s` is sorted by key in the given direction.
pub open spec fn sorted_by_str_key<T>(s: Seq<(T, String)>, descending: bool) -> bool {
    forall|i: int, j: int|
        0 <= i < j < s.len() ==> !str_key_before(#[trigger] s[j].1@, #[trigger] s[i].1@, descending)
}

/// Where `x` goes in the sorted `s`: after the leading run of items whose key
/// strictly precedes its own.
pub open spec fn str_insert_pos<T>(s: Seq<(T, String)>, k: Seq<char>, descending: bool) -> nat
    decreases s.len(),
{
    if s.len() == 0 {
        0
    } else if str_key_before(s[0].1@, k, descending) {
        1 + str_insert_pos(s.drop_first(), k, descending)
    } else {
        0
    }
}

/// `s` with `x` inserted at its position.
pub open spec fn str_insert_sorted<T>(s: Seq<(T, String)>, x: (T, String), descending: bool) -> Seq<(T, String)> {
    let p = str_insert_pos(s, x.1@, descending) as int;
    s.take(p).push(x) + s.skip(p)
}

/// The stable sort of `s` by key.
pub open spec fn str_stable_sorted<T>(s: Seq<(T, String)>, descending: bool) -> Seq<(T, String)>
    decreases s.len(),
{
    if s.len() == 0 {
        s
    } else {
        str_insert_sorted(str_stable_sorted(s.drop_first(), descending), s[0], descending)
    }
}

proof fn lemma_str_insert_pos_bounds<T>(s: Seq<(T, String)>, k: Seq<char>, descending: bool)
    ensures
        str_insert_pos(s, k, descending) <= s.len(),
        forall|i: int|
            0 <= i < str_insert_pos(s, k, descending) ==> str_key_before(#[trigger] s[i].1@, k, descending),
        str_insert_pos(s, k, descending) < s.len() ==> !str_key_before(
            s[str_insert_pos(s, k, descending) as int].1@,
            k,
            descending,
        ),
    decreases s.len(),
{
    if s.len() > 0 && str_key_before(s[0].1@, k, descending) {
        lemma_str_insert_pos_bounds(s.drop_first(), k, descending);
        assert forall|i: int| 0 <= i < str_insert_pos(s, k, descending) implies str_key_before(
            #[trigger] s[i].1@,
            k,
            descending,
        ) by {
            if i > 0 {
                assert(s[i] == s.drop_first()[i - 1]);
            }
        }
    }
}

proof fn lemma_str_before_trans(a: Seq<char>, b: Seq<char>, c: Seq<char>, descending: bool)
    requires
        str_key_before(a, b, descending),
        str_key_before(b, c, descending),
    ensures
        str_key_before(a, c, descending),
{
    if descending {
        lemma_seq_lt_trans(c, b, a);
    } else {
        lemma_seq_lt_trans(a, b, c);
    }
}

proof fn lemma_str_before_asym(a: Seq<char>, b: Seq<char>, descending: bool)
    requires
        str_key_before(a, b, descending),
    ensures
        !str_key_before(b, a, descending),
{
    if descending {
        lemma_seq_lt_asym(b, a);
    } else {
        lemma_seq_lt_asym(a, b);
    }
}

proof fn lemma_str_not_before_trans(a: Seq<char>, b: Seq<char>, c: Seq<char>, descending: bool)
    requires
        !str_key_before(a, b, descending),
        !str_key_before(b, c, descending),
    ensures
        !str_key_before(a, c, descending),
{
    if str_key_before(a, c, descending) {
        lemma_seq_lt_total(a, b);
        if a == b {
        } else if str_key_before(b, a, descending) {
            lemma_str_before_trans(b, a, c, descending);
        } else {
            if descending {
                assert(seq_lt(a, b));
            } else {
                assert(seq_lt(b, a));
            }
        }
    }
}

proof fn lemma_str_insert_sorted<T>(s: Seq<(T, String)>, x: (T, String), descending: bool)
    requires
        sorted_by_str_key(s, descending),
    ensures
        sorted_by_str_key(str_insert_sorted(s, x, descending), descending),
        str_insert_sorted(s, x, descending).to_multiset() == s.to_multiset().insert(x),
        str_insert_sorted(s, x, descending).len() == s.len() + 1,
{
    let p = str_insert_pos(s, x.1@, descending) as int;
    lemma_str_insert_pos_bounds(s, x.1@, descending);
    let r = str_insert_sorted(s, x, descending);
    assert(r.len() == s.len() + 1);
    assert forall|i: int| 0 <= i < r.len() implies #[trigger] r[i] == (if i < p {
        s[i]
    } else if i == p {
        x
    } else {
        s[i - 1]
    }) by {}
    assert forall|i: int, j: int| 0 <= i < j < r.len() implies !str_key_before(
        #[trigger] r[j].1@,
        #[trigger] r[i].1@,
        descending,
    ) by {
        if j < p {
        } else if j == p {
            lemma_str_before_asym(s[i].1@, x.1@, descending);
        } else if i < p {
            assert(!str_key_before(s[p].1@, x.1@, descending));
            if p < j - 1 {
                assert(!str_key_before(s[j - 1].1@, s[p].1@, descending));
            } else {
                lemma_seq_lt_irrefl(s[p].1@);
            }
            lemma_str_not_before_trans(s[j - 1].1@, s[p].1@, x.1@, descending);
            if str_key_before(s[j - 1].1@, s[i].1@, descending) {
                lemma_str_before_trans(s[j - 1].1@, s[i].1@, x.1@, descending);
            }
        } else if i == p {
            assert(!str_key_before(s[p].1@, x.1@, descending));
            if p < j - 1 {
                assert(!str_key_before(s[j - 1].1@, s[p].1@, descending));
            } else {
                lemma_seq_lt_irrefl(s[p].1@);
            }
            lemma_str_not_before_trans(s[j - 1].1@, s[p].1@, x.1@, descending);
        } else {
        }
    }
    vstd::seq_lib::lemma_multiset_commutative(s.take(p).push(x), s.skip(p));
    vstd::seq_lib::lemma_multiset_commutative(s.take(p), s.skip(p));
    assert(s.take(p) + s.skip(p) =~= s);
    assert(s.take(p).push(x).to_multiset() == s.take(p).to_multiset().insert(x)) by {
        s.take(p).to_multiset_ensures();
    }
}

/// The stable sort is sorted, and it holds the same items as its input.
pub proof fn law_str_sort_sorted_permutation<T>(s: Seq<(T, String)>, descending: bool)
    ensures
        sorted_by_str_key(str_stable_sorted(s, descending), descending),
        str_stable_sorted(s, descending).to_multiset() == s.to_multiset(),
        str_stable_sorted(s, descending).len() == s.len(),
    decreases s.len(),
{
    if s.len() > 0 {
        law_str_sort_sorted_permutation(s.drop_first(), descending);
        lemma_str_insert_sorted(str_stable_sorted(s.drop_first(), descending), s[0], descending);
        assert(s =~= seq![s[0]] + s.drop_first());
        vstd::seq_lib::lemma_multiset_commutative(seq![s[0]], s.drop_first());
        assert(seq![s[0]].to_multiset() =~= Multiset::empty().insert(s[0])) by {
            seq![s[0]].to_multiset_ensures();
            assert(seq![s[0]] =~= Seq::<(T, String)>::empty().push(s[0]));
            Seq::<(T, String)>::empty().to_multiset_ensures();
        }
    } else {
        assert(s.to_multiset() =~= Multiset::empty()) by {
            s.to_multiset_ensures();
        }
    }
}

/// Whether string key `a` must come strictly before `b`.
pub fn str_precedes(a: &String, b: &String, descending: bool) -> (r: bool)
    ensures
        r == str_key_before(a@, b@, descending),
{
    let x = chars_of(a.as_str());
    let y = chars_of(b.as_str());
    if descending {
        chars_lt(y.as_slice(), x.as_slice())
    } else {
        chars_lt(x.as_slice(), y.as_slice())
    }
}

/// Stable sort of keyed items, in descending or ascending key order.
pub fn stable_sort_by_str_key<T>(v: Vec<(T, String)>, descending: bool) -> (r: Vec<(T, String)>)
    ensures
        r@ == str_stable_sorted(v@, descending),
{
    let ghost orig = v@;
    let mut v = v;
    let mut out: Vec<(T, String)> = Vec::new();
    proof {
        assert(orig.skip(orig.len() as int) =~= Seq::<(T, String)>::empty());
    }
    while v.len() > 0
        invariant
            v@ == orig.take(v@.len() as int),
            v@.len() <= orig.len(),
            out@ == str_stable_sorted(orig.skip(v@.len() as int), descending),
        decreases v@.len(),
    {
        let ghost n = v@.len();
        let x = v.pop().unwrap();
        let ghost rest = orig.skip(n - 1);
        proof {
            assert(rest.drop_first() =~= orig.skip(n as int));
            assert(rest[0] == x);
            assert(v@ =~= orig.take(n - 1));
        }
        let mut p: usize = 0;
        while p < out.len() && str_precedes(&out[p].1, &x.1, descending)
            invariant
                p <= out@.len(),
                forall|i: int| 0 <= i < p ==> str_key_before(#[trigger] out@[i].1@, x.1@, descending),
            decreases out@.len() - p,
        {
            p = p + 1;
        }
        proof {
            lemma_str_insert_pos_bounds(out@, x.1@, descending);
            lemma_str_insert_pos_exact(out@, x.1@, descending, p as int);
        }
        out.insert(p, x);
        proof {
            assert(out@ =~= str_insert_sorted(str_stable_sorted(rest.drop_first(), descending), rest[0], descending));
        }
    }
    assert(orig.skip(0) =~= orig);
    out
}

proof fn lemma_str_insert_pos_exact<T>(s: Seq<(T, String)>, k: Seq<char>, descending: bool, p: int)
    requires
        0 <= p <= s.len(),
        forall|i: int| 0 <= i < p ==> str_key_before(#[trigger] s[i].1@, k, descending),
        p == s.len() || !str_key_before(s[p].1@, k, descending),
    ensures
        str_insert_pos(s, k, descending) == p,
    decreases s.len(),
{
    if s.len() > 0 && p > 0 {
        assert forall|i: int| 0 <= i < p - 1 implies str_key_before(
            #[trigger] s.drop_first()[i].1@,
            k,
            descending,
        ) by {
            assert(s.drop_first()[i] == s[i + 1]);
        }
        if p < s.len() {
            assert(s.drop_first()[p - 1] == s[p]);
        }
        lemma_str_insert_pos_exact(s.drop_first(), k, descending, p - 1);
    } else if s.len() > 0 {
        assert(!str_key_before(s[0].1@, k, descending));
    }
}

// ── Dropping the keys ───────────────────────────────────────────────────────

/// The items of keyed pairs, in order.
pub open spec fn items_of<T>(s: Seq<(T, u64)>) -> Seq<T> {
    s.map_values(|p: (T, u64)| p.0)
}

/// The items of keyed pairs, in order (the pairs are consumed).
pub fn drop_keys<T>(v: Vec<(T, u64)>) -> (r: Vec<T>)
    ensures
        r@ == items_of(v@),
{
    let ghost orig = v@;
    let mut v = v;
    let mut rev: Vec<T> = Vec::new();
    while v.len() > 0
        invariant
            v@ == orig.take(v@.len() as int),
            v@.len() <= orig.len(),
            rev@.len() == orig.len() - v@.len(),
            forall|i: int| 0 <= i < rev@.len() ==> #[trigger] rev@[i] == orig[orig.len() - 1 - i].0,
        decreases v@.len(),
    {
        let ghost n = v@.len();
        let p = v.pop().unwrap();
        proof {
            assert(v@ =~= orig.take(n - 1));
            assert(p == orig[n - 1]);
        }
        rev.push(p.0);
    }
    let mut out: Vec<T> = Vec::new();
    let ghost total = rev@.len();
    while rev.len() > 0
        invariant
            total == orig.len(),
            rev@.len() + out@.len() == total,
            forall|i: int| 0 <= i < rev@.len() ==> #[trigger] rev@[i] == orig[orig.len() - 1 - i].0,
            forall|i: int| 0 <= i < out@.len() ==> #[trigger] out@[i] == orig[i].0,
        decreases rev@.len(),
    {
        let ghost n = rev@.len();
        let x = rev.pop().unwrap();
        proof {
            assert(x == orig[orig.len() - n].0);
        }
        out.push(x);
    }
    assert(out@ =~= items_of(orig));
    out
}

} // verus!
