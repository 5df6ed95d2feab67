//! Key-value lists with distinct keys, the representation of SVG attributes and styles,
//! and their sorting by key.
use vstd::prelude::*;
use crate::ui::joined;
use crate::text::{
    write_str, lemma_lex_irreflexive, lemma_lex_total, lemma_lex_transitive, lex_lt,
    text_eq, text_lt,
};

verus! {

/// A key-value pair of texts.
pub type TextPair = (Seq<char>, Seq<char>);

/// The texts of a list of string pairs.
pub open spec fn pairs_view(s: Seq<(String, String)>) -> Seq<TextPair> {
    s.map_values(|p: (String, String)| (p.0@, p.1@))
}

/// No two pairs share a key.
pub open spec fn keys_distinct(s: Seq<TextPair>) -> bool {
    forall|i: int, j: int| 0 <= i < s.len() && 0 <= j < s.len() && i != j ==> s[i].0 != s[j].0
}

/// The index of the last pair with key `k`, or -1.
pub open spec fn key_index(s: Seq<TextPair>, k: Seq<char>) -> int
    decreases s.len(),
{
    if s.len() == 0 {
        -1
    } else if s.last().0 == k {
        s.len() - 1
    } else {
        key_index(s.drop_last(), k)
    }
}

/// The value bound to `k`, if any.
pub open spec fn lookup(s: Seq<TextPair>, k: Seq<char>) -> Option<Seq<char>> {
    let i = key_index(s, k);
    if i >= 0 {
        Some(s[i].1)
    } else {
        None
    }
}

/// `s` with `k` bound to `v`: the pair with key `k` is replaced in place, or the pair is
/// appended when `k` is new.
pub open spec fn with_pair(s: Seq<TextPair>, k: Seq<char>, v: Seq<char>) -> Seq<TextPair> {
    let i = key_index(s, k);
    if i >= 0 {
        s.update(i, (k, v))
    } else {
        s.push((k, v))
    }
}

/// Every pair's key sorts strictly before the keys of the pairs after it.
pub open spec fn sorted_by_key(s: Seq<TextPair>) -> bool {
    forall|i: int, j: int| 0 <= i < j < s.len() ==> lex_lt(#[trigger] s[i].0, #[trigger] s[j].0)
}

/// Two lists hold the same pairs.
pub open spec fn same_elements(a: Seq<TextPair>, b: Seq<TextPair>) -> bool {
    forall|x: TextPair| a.contains(x) <==> b.contains(x)
}

/// The pairs of `s`, ordered by key.
pub open spec fn by_key(s: Seq<TextPair>) -> Seq<TextPair> {
    choose|t: Seq<TextPair>| same_elements(t, s) && sorted_by_key(t)
}

pub proof fn lemma_key_index(s: Seq<TextPair>, k: Seq<char>)
    ensures
        -1 <= key_index(s, k) < s.len(),
        key_index(s, k) >= 0 ==> s[key_index(s, k)].0 == k,
        key_index(s, k) == -1 ==> forall|j: int| 0 <= j < s.len() ==> s[j].0 != k,
    decreases s.len(),
{
    if s.len() > 0 && s.last().0 != k {
        lemma_key_index(s.drop_last(), k);
        assert forall|j: int| 0 <= j < s.len() && key_index(s, k) == -1 implies s[j].0 != k by {
            if j < s.len() - 1 {
                assert(s[j] == s.drop_last()[j]);
            }
        }
    }
}

/// Binding a key keeps keys distinct.
pub proof fn lemma_with_pair_distinct(s: Seq<TextPair>, k: Seq<char>, v: Seq<char>)
    requires
        keys_distinct(s),
    ensures
        keys_distinct(with_pair(s, k, v)),
{
    lemma_key_index(s, k);
}

/// After binding `k` to `v`, `k` looks up `v` and every other key looks up what it did before.
pub proof fn lemma_lookup_with_pair(s: Seq<TextPair>, k: Seq<char>, v: Seq<char>, q: Seq<char>)
    requires
        keys_distinct(s),
    ensures
        lookup(with_pair(s, k, v), q) == (if q == k {
            Some(v)
        } else {
            lookup(s, q)
        }),
{
    let t = with_pair(s, k, v);
    lemma_key_index(s, k);
    lemma_key_index(s, q);
    lemma_key_index(t, q);
    lemma_with_pair_distinct(s, k, v);
    let i = key_index(s, q);
    let i2 = key_index(t, q);
    if q == k {
        if i2 >= 0 {
            if key_index(s, k) >= 0 {
                assert(t[key_index(s, k)].0 == q);
            } else {
                assert(t[s.len() as int].0 == q);
            }
        }
    } else {
        if i >= 0 {
            assert(t[i].0 == q);
        }
        if i2 >= 0 {
            assert(s[i2].0 == q);
        }
    }
}

/// Sorted lists with the same pairs are equal.
pub proof fn lemma_sorted_unique(a: Seq<TextPair>, b: Seq<TextPair>)
    requires
        sorted_by_key(a),
        sorted_by_key(b),
        same_elements(a, b),
    ensures
        a == b,
    decreases a.len(),
{
    if a.len() == 0 {
        if b.len() > 0 {
            assert(b.contains(b[0]));
        }
        assert(a =~= b);
    } else {
        assert(a.contains(a[0]));
        let j = choose|j: int| 0 <= j < b.len() && b[j] == a[0];
        assert(b.contains(b[0]));
        let i = choose|i: int| 0 <= i < a.len() && a[i] == b[0];
        if j > 0 {
            if i == 0 {
                assert(lex_lt(b[0].0, b[j].0));
                lemma_lex_irreflexive(b[0].0);
            } else {
                assert(lex_lt(a[0].0, a[i].0));
                assert(lex_lt(b[0].0, b[j].0));
                lemma_lex_transitive(a[0].0, a[i].0, a[0].0);
                lemma_lex_irreflexive(a[0].0);
            }
        }
        assert(a[0] == b[0]);
        let a1 = a.drop_first();
        let b1 = b.drop_first();
        assert forall|x: TextPair| a1.contains(x) <==> b1.contains(x) by {
            if a1.contains(x) {
                let p = choose|p: int| 0 <= p < a1.len() && a1[p] == x;
                assert(a[p + 1] == x);
                assert(b.contains(x));
                let q = choose|q: int| 0 <= q < b.len() && b[q] == x;
                if q == 0 {
                    assert(lex_lt(a[0].0, a[p + 1].0));
                    lemma_lex_irreflexive(a[0].0);
                }
                assert(b1[q - 1] == x);
            }
            if b1.contains(x) {
                let p = choose|p: int| 0 <= p < b1.len() && b1[p] == x;
                assert(b[p + 1] == x);
                assert(a.contains(x));
                let q = choose|q: int| 0 <= q < a.len() && a[q] == x;
                if q == 0 {
                    assert(lex_lt(b[0].0, b[p + 1].0));
                    lemma_lex_irreflexive(b[0].0);
                }
                assert(a1[q - 1] == x);
            }
        }
        assert(b.len() > 0);
        lemma_sorted_unique(a1, b1);
        assert(a =~= seq![a[0]] + a1);
        assert(b =~= seq![b[0]] + b1);
    }
}

/// A sorted list with the pairs of `s` is `by_key(s)`.
pub proof fn lemma_by_key(t: Seq<TextPair>, s: Seq<TextPair>)
    requires
        sorted_by_key(t),
        same_elements(t, s),
    ensures
        by_key(s) == t,
{
    let c = by_key(s);
    assert(same_elements(c, s) && sorted_by_key(c));
    assert(same_elements(c, t));
    lemma_sorted_unique(c, t);
}

/// The index of the last pair whose key is `k`.
pub fn find_key(v: &Vec<(String, String)>, k: &str) -> (r: Option<usize>)
    ensures
        match r {
            Some(i) => i as int == key_index(pairs_view(v@), k@),
            None => key_index(pairs_view(v@), k@) == -1,
        },
{
    let ghost s = pairs_view(v@);
    let mut i: usize = v.len();
    assert(s.subrange(0, i as int) =~= s);
    while i > 0
        invariant
            i <= v.len(),
            s == pairs_view(v@),
            key_index(s, k@) == key_index(s.subrange(0, i as int), k@),
        decreases i,
    {
        let ghost sub = s.subrange(0, i as int);
        if text_eq(v[i - 1].0.as_str(), k) {
            return Some(i - 1);
        }
        assert(sub.drop_last() =~= s.subrange(0, i - 1));
        i = i - 1;
    }
    None
}

/// Binds `k` to `val`: replaces the value of the pair with key `k`, or appends a new pair.
pub fn set_pair(v: &mut Vec<(String, String)>, k: &str, val: String)
    ensures
        pairs_view(final(v)@) == with_pair(pairs_view(old(v)@), k@, val@),
{
    let key = String::from_str(k);
    match find_key(v, k) {
        Some(i) => {
            proof {
                lemma_key_index(pairs_view(v@), k@);
            }
            v.set(i, (key, val));
        },
        None => {
            v.push((key, val));
        },
    }
    assert(pairs_view(v@) =~= with_pair(pairs_view(old(v)@), k@, val@));
}

/// The pairs of `s` whose key is not `k`.
pub open spec fn without_key(s: Seq<TextPair>, k: Seq<char>) -> Seq<TextPair> {
    s.filter(|p: TextPair| p.0 != k)
}

/// Inserts `x` into the sorted list `r` at its place by key.
fn insert_sorted(r: &mut Vec<(String, String)>, x: (String, String))
    requires
        sorted_by_key(pairs_view(old(r)@)),
        forall|j: int| 0 <= j < old(r)@.len() ==> old(r)@[j].0@ != x.0@,
    ensures
        sorted_by_key(pairs_view(final(r)@)),
        forall|y: TextPair|
            pairs_view(final(r)@).contains(y) <==> (pairs_view(old(r)@).contains(y) || y == (
            x.0@,
            x.1@,
        )),
{
    let ghost s = pairs_view(r@);
    let ghost xv = (x.0@, x.1@);
    let mut p: usize = 0;
    while p < r.len() && text_lt(r[p].0.as_str(), x.0.as_str())
        invariant
            p <= r.len(),
            s == pairs_view(r@),
            r@ == old(r)@,
            forall|j: int| 0 <= j < p ==> lex_lt(s[j].0, x.0@),
        decreases r.len() - p,
    {
        p = p + 1;
    }
    r.insert(p, x);
    let ghost t = pairs_view(r@);
    assert(t =~= s.insert(p as int, xv));
    assert forall|i: int, j: int| 0 <= i < j < t.len() implies lex_lt(#[trigger] t[i].0, #[trigger] t[j].0) by {
        if j < p {
            assert(t[i] == s[i] && t[j] == s[j]);
        } else if j == p {
            assert(t[i] == s[i]);
        } else if i == p {
            assert(t[j] == s[j - 1]);
            assert(!lex_lt(s[p as int].0, xv.0));
            assert(s[p as int].0 != xv.0);
            lemma_lex_total(s[p as int].0, xv.0);
            if j - 1 > p {
                lemma_lex_transitive(xv.0, s[p as int].0, s[j - 1].0);
            }
        } else if i < p {
            assert(t[i] == s[i] && t[j] == s[j - 1]);
            if j - 1 >= p {
                assert(lex_lt(s[i].0, xv.0));
                assert(!lex_lt(s[p as int].0, xv.0));
                assert(s[p as int].0 != xv.0);
                lemma_lex_total(s[p as int].0, xv.0);
            }
        } else {
            assert(t[i] == s[i - 1] && t[j] == s[j - 1]);
        }
    }
    assert forall|y: TextPair| t.contains(y) <==> (s.contains(y) || y == xv) by {
        if t.contains(y) {
            let q = choose|q: int| 0 <= q < t.len() && t[q] == y;
            if q < p {
                assert(s[q] == y);
            } else if q > p {
                assert(s[q - 1] == y);
            }
        }
        if s.contains(y) {
            let q = choose|q: int| 0 <= q < s.len() && s[q] == y;
            if q < p {
                assert(t[q] == y);
            } else {
                assert(t[q + 1] == y);
            }
        }
        if y == xv {
            assert(t[p as int] == y);
        }
    }
}

/// The pairs whose key is not `k`, sorted by key.
pub fn sorted_without_key(v: &Vec<(String, String)>, k: &str) -> (r: Vec<(String, String)>)
    requires
        keys_distinct(pairs_view(v@)),
    ensures
        pairs_view(r@) == by_key(without_key(pairs_view(v@), k@)),
{
    let ghost s = pairs_view(v@);
    let ghost pred = |p: TextPair| p.0 != k@;
    let mut r: Vec<(String, String)> = Vec::new();
    let mut i: usize = 0;
    while i < v.len()
        invariant
            i <= v.len(),
            s == pairs_view(v@),
            keys_distinct(s),
            pred == (|p: TextPair| p.0 != k@),
            sorted_by_key(pairs_view(r@)),
            same_elements(pairs_view(r@), s.take(i as int).filter(pred)),
        decreases v.len() - i,
    {
        let ghost before = pairs_view(r@);
        assert(s.take(i + 1) =~= s.take(i as int).push(s[i as int]));
        proof {
            s.take(i as int).lemma_filter_push(s[i as int], pred);
        }
        if !text_eq(v[i].0.as_str(), k) {
            proof {
                assert forall|j: int| 0 <= j < r@.len() implies r@[j].0@ != v@[i as int].0@ by {
                    assert(before.contains(before[j]));
                    assert(s.take(i as int).filter(pred).contains(before[j]));
                    s.take(i as int).lemma_filter_contains_rev(pred, before[j]);
                    let q = choose|q: int| 0 <= q < i && s.take(i as int)[q] == before[j];
                    assert(s[q] == before[j]);
                }
            }
            let x = (v[i].0.clone(), v[i].1.clone());
            insert_sorted(&mut r, x);
            proof {
                let f0 = s.take(i as int).filter(pred);
                assert(pred(s[i as int]));
                assert(s.take(i + 1).filter(pred) == f0.push(s[i as int]));
                assert forall|y: TextPair| pairs_view(r@).contains(y) <==> f0.push(
                    s[i as int],
                ).contains(y) by {
                    if f0.push(s[i as int]).contains(y) {
                        let q = choose|q: int| 0 <= q < f0.len() + 1 && f0.push(s[i as int])[q] == y;
                        if q < f0.len() {
                            assert(f0.contains(y));
                        }
                    }
                    if f0.contains(y) {
                        let q = choose|q: int| 0 <= q < f0.len() && f0[q] == y;
                        assert(f0.push(s[i as int])[q] == y);
                    }
                    if y == s[i as int] {
                        assert(f0.push(s[i as int])[f0.len() as int] == y);
                    }
                }
            }
        } else {
            proof {
                assert(!pred(s[i as int]));
                assert(s.take(i + 1).filter(pred) == s.take(i as int).filter(pred));
            }
        }
        i = i + 1;
    }
    assert(s.take(v.len() as int) =~= s);
    proof {
        lemma_by_key(pairs_view(r@), without_key(s, k@));
    }
    r
}

/// `s` with the pair `p` merged in: a key that is already bound gets `join` and the new
/// value appended to its value; a new key is bound to the new value.
pub open spec fn merge_pair(s: Seq<TextPair>, p: TextPair, join: Seq<char>) -> Seq<TextPair> {
    match lookup(s, p.0) {
        Some(old) => with_pair(s, p.0, old + join + p.1),
        None => with_pair(s, p.0, p.1),
    }
}

/// `s` with the pairs of `items` merged in, one after the other.
pub open spec fn merge_pairs(s: Seq<TextPair>, items: Seq<TextPair>, join: Seq<char>) -> Seq<
    TextPair,
>
    decreases items.len(),
{
    if items.len() == 0 {
        s
    } else {
        merge_pair(merge_pairs(s, items.drop_last(), join), items.last(), join)
    }
}

/// The attribute lists of `maps` merged, in order, into one list.
pub open spec fn merged_maps(maps: Seq<Seq<TextPair>>, join: Seq<char>) -> Seq<TextPair>
    decreases maps.len(),
{
    if maps.len() == 0 {
        Seq::empty()
    } else {
        merge_pairs(merged_maps(maps.drop_last(), join), maps.last(), join)
    }
}

/// The values that the pairs of `items` give the key `k`, in order.
pub open spec fn values_of(items: Seq<TextPair>, k: Seq<char>) -> Seq<Seq<char>>
    decreases items.len(),
{
    if items.len() == 0 {
        Seq::empty()
    } else if items.last().0 == k {
        values_of(items.drop_last(), k).push(items.last().1)
    } else {
        values_of(items.drop_last(), k)
    }
}

/// The values that the lists of `maps` give the key `k`, list after list.
pub open spec fn values_in_maps(maps: Seq<Seq<TextPair>>, k: Seq<char>) -> Seq<Seq<char>>
    decreases maps.len(),
{
    if maps.len() == 0 {
        Seq::empty()
    } else {
        values_in_maps(maps.drop_last(), k) + values_of(maps.last(), k)
    }
}

/// The values joined by `join`, or nothing when there are none.
pub open spec fn joined_values(values: Seq<Seq<char>>, join: Seq<char>) -> Option<Seq<char>> {
    if values.len() == 0 {
        None
    } else {
        Some(joined(values, join))
    }
}

/// Merging pairs into a list whose value for `k` is the join of `pre` gives the join of
/// `pre` followed by the values the pairs give `k`.
pub proof fn lemma_merge_pairs_lookup(
    s: Seq<TextPair>,
    items: Seq<TextPair>,
    join: Seq<char>,
    k: Seq<char>,
    pre: Seq<Seq<char>>,
)
    requires
        keys_distinct(s),
        lookup(s, k) == joined_values(pre, join),
    ensures
        keys_distinct(merge_pairs(s, items, join)),
        lookup(merge_pairs(s, items, join), k) == joined_values(pre + values_of(items, k), join),
    decreases items.len(),
{
    if items.len() == 0 {
        assert(pre + values_of(items, k) =~= pre);
    } else {
        let rest = items.drop_last();
        let p = items.last();
        lemma_merge_pairs_lookup(s, rest, join, k, pre);
        let m = merge_pairs(s, rest, join);
        let before = pre + values_of(rest, k);
        let v = match lookup(m, p.0) {
            Some(old) => old + join + p.1,
            None => p.1,
        };
        lemma_with_pair_distinct(m, p.0, v);
        lemma_lookup_with_pair(m, p.0, v, k);
        if p.0 == k {
            assert(pre + values_of(items, k) =~= before.push(p.1));
            assert(before.push(p.1).drop_last() =~= before);
            if before.len() == 0 {
                assert(before.push(p.1) =~= seq![p.1]);
            }
        } else {
            assert(pre + values_of(items, k) =~= before);
        }
    }
}

/// The texts of a list of attribute lists.
pub open spec fn maps_view(maps: Seq<Vec<(String, String)>>) -> Seq<Seq<TextPair>> {
    maps.map_values(|m: Vec<(String, String)>| pairs_view(m@))
}

/// Merges the attribute lists of several items into one: the value of a key that more than
/// one list binds is their values in order, separated by `join`.
pub fn merge_attribute_maps(maps: &Vec<Vec<(String, String)>>, join: &str) -> (r: Vec<
    (String, String),
>)
    ensures
        pairs_view(r@) == merged_maps(maps_view(maps@), join@),
{
    let ghost views = maps_view(maps@);
    let mut r: Vec<(String, String)> = Vec::new();
    let mut i: usize = 0;
    assert(views.take(0) =~= Seq::<Seq<TextPair>>::empty());
    while i < maps.len()
        invariant
            i <= maps.len(),
            views == maps_view(maps@),
            pairs_view(r@) == merged_maps(views.take(i as int), join@),
        decreases maps.len() - i,
    {
        let m = &maps[i];
        let ghost base = pairs_view(r@);
        let ghost items = pairs_view(m@);
        let mut j: usize = 0;
        assert(items.take(0) =~= Seq::<TextPair>::empty());
        while j < m.len()
            invariant
                j <= m.len(),
                items == pairs_view(m@),
                pairs_view(r@) == merge_pairs(base, items.take(j as int), join@),
            decreases m.len() - j,
        {
            let key = &m[j].0;
            let value = &m[j].1;
            let ghost before = pairs_view(r@);
            proof {
                lemma_key_index(before, key@);
            }
            match find_key(&r, key.as_str()) {
                Some(idx) => {
                    let mut joined = r[idx].1.clone();
                    write_str(&mut joined, join);
                    write_str(&mut joined, value.as_str());
                    set_pair(&mut r, key.as_str(), joined);
                },
                None => {
                    set_pair(&mut r, key.as_str(), value.clone());
                },
            }
            assert(items.take(j + 1).drop_last() =~= items.take(j as int));
            assert(items.take(j + 1).last() == (key@, value@));
            j = j + 1;
        }
        assert(items.take(m.len() as int) =~= items);
        assert(views.take(i + 1).drop_last() =~= views.take(i as int));
        assert(views.take(i + 1).last() == items);
        i = i + 1;
    }
    assert(views.take(maps.len() as int) =~= views);
    r
}

} // verus!
