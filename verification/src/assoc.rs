//! Association lists keyed by strings and kept in the order of `str`: the library's
//! ordered maps (what a `BTreeMap<String, V>` holds, as a vector of pairs).
use vstd::prelude::*;
use crate::text::{chars_lt, chars_of, lemma_text_lt_irreflexive, lemma_text_lt_total, lemma_text_lt_transitive, text_lt};

verus! {

/// The keys of `s` strictly increase, so each key occurs once.
pub open spec fn keys_sorted<V>(s: Seq<(String, V)>) -> bool {
    forall|i: int, j: int| 0 <= i < j < s.len() ==> text_lt(#[trigger] s[i].0@, #[trigger] s[j].0@)
}

/// Some entry of `s` has key `k`.
pub open spec fn has_key<V>(s: Seq<(String, V)>, k: Seq<char>) -> bool {
    exists|i: int| 0 <= i < s.len() && #[trigger] s[i].0@ == k
}

/// An index of `s` at which key `k` stands, where there is one.
pub open spec fn key_index<V>(s: Seq<(String, V)>, k: Seq<char>) -> int {
    choose|i: int| 0 <= i < s.len() && #[trigger] s[i].0@ == k
}

/// The map that the association list `s` stands for.
pub open spec fn assoc_map<V>(s: Seq<(String, V)>) -> Map<Seq<char>, V> {
    Map::new(|k: Seq<char>| has_key(s, k), |k: Seq<char>| s[key_index(s, k)].1)
}

/// The map that an association list of strings stands for, its values taken by view.
pub open spec fn text_map(s: Seq<(String, String)>) -> Map<Seq<char>, Seq<char>> {
    assoc_map(s).map_values(|v: String| v@)
}

pub proof fn lemma_sorted_keys_distinct<V>(s: Seq<(String, V)>, i: int, j: int)
    requires
        keys_sorted(s),
        0 <= i < s.len(),
        0 <= j < s.len(),
        i != j,
    ensures
        s[i].0@ != s[j].0@,
{
    if i < j {
        assert(text_lt(s[i].0@, s[j].0@));
        lemma_text_lt_irreflexive(s[i].0@);
    } else {
        assert(text_lt(s[j].0@, s[i].0@));
        lemma_text_lt_irreflexive(s[j].0@);
    }
}

/// In a sorted list, the map's value for the key at index `i` is the value at `i`.
pub proof fn lemma_assoc_map_at<V>(s: Seq<(String, V)>, i: int)
    requires
        keys_sorted(s),
        0 <= i < s.len(),
    ensures
        assoc_map(s).contains_key(s[i].0@),
        assoc_map(s)[s[i].0@] == s[i].1,
{
    let k = s[i].0@;
    assert(has_key(s, k));
    let j = key_index(s, k);
    if j != i {
        lemma_sorted_keys_distinct(s, i, j);
    }
}

/// The index at which `k` is found in, or would go into, the sorted list `s`.
fn find_slot<V>(s: &Vec<(String, V)>, k: &String) -> (r: (usize, bool))
    requires
        keys_sorted(s@),
    ensures
        r.0 <= s.len(),
        forall|i: int| 0 <= i < r.0 ==> text_lt(#[trigger] s@[i].0@, k@),
        r.1 ==> r.0 < s.len() && s@[r.0 as int].0@ == k@,
        !r.1 ==> forall|i: int| r.0 <= i < s.len() ==> text_lt(k@, #[trigger] s@[i].0@),
{
    let kc = chars_of(k.as_str());
    let mut i: usize = 0;
    while i < s.len()
        invariant
            i <= s.len(),
            kc@ == k@,
            keys_sorted(s@),
            forall|j: int| 0 <= j < i ==> text_lt(#[trigger] s@[j].0@, k@),
        decreases s.len() - i,
    {
        let ec = chars_of(s[i].0.as_str());
        if !chars_lt(&ec, &kc) {
            if !chars_lt(&kc, &ec) {
                proof {
                    if ec@ != kc@ {
                        lemma_text_lt_total(ec@, kc@);
                    }
                }
                return (i, true);
            }
            proof {
                assert forall|j: int| i <= j < s.len() implies text_lt(k@, #[trigger] s@[j].0@) by {
                    if j > i {
                        assert(text_lt(s@[i as int].0@, s@[j].0@));
                        lemma_text_lt_transitive(k@, s@[i as int].0@, s@[j].0@);
                    }
                }
            }
            return (i, false);
        }
        i = i + 1;
    }
    (i, false)
}

/// The index at which key `k` stands in the sorted list `m`, if it does.
pub fn assoc_find<V>(m: &Vec<(String, V)>, k: &String) -> (r: Option<usize>)
    requires
        keys_sorted(m@),
    ensures
        match r {
            Some(i) => i < m.len() && m@[i as int].0@ == k@,
            None => !has_key(m@, k@),
        },
{
    let (i, found) = find_slot(m, k);
    if found {
        Some(i)
    } else {
        proof {
            assert forall|j: int| 0 <= j < m.len() implies #[trigger] m@[j].0@ != k@ by {
                if j < i {
                    assert(text_lt(m@[j].0@, k@));
                } else {
                    assert(text_lt(k@, m@[j].0@));
                }
                lemma_text_lt_irreflexive(k@);
            }
        }
        None
    }
}

/// Sets the value of `k` to `v`, keeping the keys in order.
pub fn assoc_insert<V>(m: &mut Vec<(String, V)>, k: String, v: V)
    requires
        keys_sorted(old(m)@),
    ensures
        keys_sorted(final(m)@),
        assoc_map(final(m)@) == assoc_map(old(m)@).insert(k@, v),
{
    let (i, found) = find_slot(m, &k);
    let ghost kv = k@;
    let ghost vv = v;
    let ghost s0 = m@;
    if found {
        m.set(i, (k, v));
        let ghost s1 = m@;
        assert forall|a: int, b: int| 0 <= a < b < s1.len() implies text_lt(#[trigger] s1[a].0@, #[trigger] s1[b].0@) by {
            assert(s0[a].0@ == s1[a].0@ || a == i);
            assert(s0[b].0@ == s1[b].0@ || b == i);
            assert(text_lt(s0[a].0@, s0[b].0@));
        }
        proof { lemma_assoc_same_keys(s0, s1, i as int, kv, vv); }
    } else {
        m.insert(i, (k, v));
        let ghost s1 = m@;
        assert forall|a: int, b: int| 0 <= a < b < s1.len() implies text_lt(#[trigger] s1[a].0@, #[trigger] s1[b].0@) by {
            if b < i {
                assert(s1[a] == s0[a] && s1[b] == s0[b]);
            } else if b == i {
                assert(s1[a] == s0[a]);
            } else if a == i {
                assert(s1[b] == s0[b - 1]);
            } else if a < i {
                assert(s1[a] == s0[a] && s1[b] == s0[b - 1]);
                assert(text_lt(s0[a].0@, kv));
                lemma_text_lt_transitive(s0[a].0@, kv, s0[b - 1].0@);
            } else {
                assert(s1[a] == s0[a - 1] && s1[b] == s0[b - 1]);
            }
        }
        proof { lemma_assoc_inserted(s0, s1, i as int, kv, vv); }
    }
}

proof fn lemma_assoc_same_keys<V>(s0: Seq<(String, V)>, s1: Seq<(String, V)>, i: int, k: Seq<char>, v: V)
    requires
        keys_sorted(s0),
        keys_sorted(s1),
        0 <= i < s0.len(),
        s1.len() == s0.len(),
        s0[i].0@ == k,
        s1[i].0@ == k,
        s1[i].1 == v,
        forall|j: int| 0 <= j < s0.len() && j != i ==> s1[j] == s0[j],
    ensures
        assoc_map(s1) == assoc_map(s0).insert(k, v),
{
    let m0 = assoc_map(s0);
    let m1 = assoc_map(s1);
    assert forall|key: Seq<char>| m1.contains_key(key) <==> m0.insert(k, v).contains_key(key) by {
        if m0.contains_key(key) {
            let j = choose|j: int| 0 <= j < s0.len() && #[trigger] s0[j].0@ == key;
            assert(s1[j].0@ == key);
        }
        if m1.contains_key(key) {
            let j = choose|j: int| 0 <= j < s1.len() && #[trigger] s1[j].0@ == key;
            assert(s0[j].0@ == key);
        }
    }
    assert forall|key: Seq<char>| #[trigger] m1.contains_key(key) implies m1[key] == m0.insert(k, v)[key] by {
        let j = choose|j: int| 0 <= j < s1.len() && #[trigger] s1[j].0@ == key;
        lemma_assoc_map_at(s1, j);
        if j != i {
            lemma_assoc_map_at(s0, j);
            lemma_sorted_keys_distinct(s1, i, j);
        }
    }
    assert(m1 =~= m0.insert(k, v));
}

proof fn lemma_assoc_inserted<V>(s0: Seq<(String, V)>, s1: Seq<(String, V)>, i: int, k: Seq<char>, v: V)
    requires
        keys_sorted(s0),
        keys_sorted(s1),
        0 <= i <= s0.len(),
        s1 == s0.insert(i, (s1[i].0, v)),
        s1[i].0@ == k,
    ensures
        assoc_map(s1) == assoc_map(s0).insert(k, v),
{
    let m0 = assoc_map(s0);
    let m1 = assoc_map(s1);
    assert forall|key: Seq<char>| m1.contains_key(key) <==> m0.insert(k, v).contains_key(key) by {
        if m0.contains_key(key) {
            let j = choose|j: int| 0 <= j < s0.len() && #[trigger] s0[j].0@ == key;
            if j < i {
                assert(s1[j] == s0[j]);
            } else {
                assert(s1[j + 1] == s0[j]);
            }
        }
        if key == k {
            assert(s1[i].0@ == key);
        }
        if m1.contains_key(key) {
            let j = choose|j: int| 0 <= j < s1.len() && #[trigger] s1[j].0@ == key;
            if j < i {
                assert(s0[j] == s1[j]);
            } else if j > i {
                assert(s0[j - 1] == s1[j]);
            }
        }
    }
    assert forall|key: Seq<char>| #[trigger] m1.contains_key(key) implies m1[key] == m0.insert(k, v)[key] by {
        let j = choose|j: int| 0 <= j < s1.len() && #[trigger] s1[j].0@ == key;
        lemma_assoc_map_at(s1, j);
        if j < i {
            assert(s0[j] == s1[j]);
            lemma_assoc_map_at(s0, j);
            lemma_sorted_keys_distinct(s1, i, j);
        } else if j > i {
            assert(s0[j - 1] == s1[j]);
            lemma_assoc_map_at(s0, j - 1);
            lemma_sorted_keys_distinct(s1, i, j);
        }
    }
    assert(m1 =~= m0.insert(k, v));
}

/// The entries of an association list of strings, by view.
pub open spec fn text_entries(s: Seq<(String, String)>) -> Seq<(Seq<char>, Seq<char>)> {
    s.map_values(|e: (String, String)| (e.0@, e.1@))
}

/// The keys of `e` strictly increase.
pub open spec fn entries_sorted<V>(e: Seq<(Seq<char>, V)>) -> bool {
    forall|i: int, j: int| 0 <= i < j < e.len() ==> text_lt(#[trigger] e[i].0, #[trigger] e[j].0)
}

/// An index of `e` at which key `k` stands, where there is one.
pub open spec fn entry_index<V>(e: Seq<(Seq<char>, V)>, k: Seq<char>) -> int {
    choose|i: int| 0 <= i < e.len() && #[trigger] e[i].0 == k
}

/// The map that a list of text entries stands for.
pub open spec fn entries_map<V>(e: Seq<(Seq<char>, V)>) -> Map<Seq<char>, V> {
    Map::new(
        |k: Seq<char>| exists|i: int| 0 <= i < e.len() && #[trigger] e[i].0 == k,
        |k: Seq<char>| e[entry_index(e, k)].1,
    )
}

/// The entries of `m` in increasing key order, as an ordered map lists them.
pub open spec fn sorted_listing<V>(m: Map<Seq<char>, V>) -> Seq<(Seq<char>, V)> {
    choose|e: Seq<(Seq<char>, V)>| entries_sorted(e) && entries_map(e) == m
}

proof fn lemma_entries_map_at<V>(e: Seq<(Seq<char>, V)>, i: int)
    requires
        entries_sorted(e),
        0 <= i < e.len(),
    ensures
        entries_map(e).contains_key(e[i].0),
        entries_map(e)[e[i].0] == e[i].1,
{
    let k = e[i].0;
    assert(entries_map(e).contains_key(k));
    let j = entry_index(e, k);
    if j < i {
        assert(text_lt(e[j].0, e[i].0));
        lemma_text_lt_irreflexive(k);
    } else if j > i {
        assert(text_lt(e[i].0, e[j].0));
        lemma_text_lt_irreflexive(k);
    }
}

proof fn lemma_entries_map_drop_first<V>(e: Seq<(Seq<char>, V)>)
    requires
        entries_sorted(e),
        e.len() > 0,
    ensures
        entries_sorted(e.drop_first()),
        entries_map(e.drop_first()) == entries_map(e).remove(e[0].0),
{
    let t = e.drop_first();
    assert forall|i: int, j: int| 0 <= i < j < t.len() implies text_lt(#[trigger] t[i].0, #[trigger] t[j].0) by {
        assert(t[i] == e[i + 1] && t[j] == e[j + 1]);
    }
    let m = entries_map(e).remove(e[0].0);
    assert forall|k: Seq<char>| entries_map(t).contains_key(k) <==> m.contains_key(k) by {
        if entries_map(t).contains_key(k) {
            let i = entry_index(t, k);
            assert(e[i + 1].0 == k);
            assert(text_lt(e[0].0, e[i + 1].0));
            lemma_text_lt_irreflexive(k);
        }
        if m.contains_key(k) {
            let i = entry_index(e, k);
            assert(i != 0);
            assert(t[i - 1].0 == k);
        }
    }
    assert forall|k: Seq<char>| #[trigger] entries_map(t).contains_key(k) implies entries_map(t)[k] == m[k] by {
        let i = entry_index(t, k);
        lemma_entries_map_at(t, i);
        assert(t[i] == e[i + 1]);
        lemma_entries_map_at(e, i + 1);
        assert(text_lt(e[0].0, e[i + 1].0));
        lemma_text_lt_irreflexive(k);
        assert(k != e[0].0);
        assert(m[k] == entries_map(e)[k]);
    }
    assert(entries_map(t) =~= m);
}

/// Two increasing entry lists that stand for the same map are the same list.
pub proof fn lemma_listing_unique<V>(a: Seq<(Seq<char>, V)>, b: Seq<(Seq<char>, V)>)
    requires
        entries_sorted(a),
        entries_sorted(b),
        entries_map(a) == entries_map(b),
    ensures
        a == b,
    decreases a.len(),
{
    if a.len() == 0 {
        if b.len() > 0 {
            assert(entries_map(b).contains_key(b[0].0));
        }
        assert(a =~= b);
    } else {
        if b.len() == 0 {
            assert(entries_map(a).contains_key(a[0].0));
        }
        let k = a[0].0;
        lemma_entries_map_at(a, 0);
        let j = entry_index(b, k);
        if j > 0 {
            assert(text_lt(b[0].0, b[j].0));
            lemma_entries_map_at(b, 0);
            let i = entry_index(a, b[0].0);
            if i == 0 {
                lemma_text_lt_irreflexive(k);
            } else {
                assert(text_lt(a[0].0, a[i].0));
                lemma_text_lt_transitive(k, b[0].0, k);
                lemma_text_lt_irreflexive(k);
            }
        }
        lemma_entries_map_at(b, 0);
        assert(a[0] == b[0]);
        lemma_entries_map_drop_first(a);
        lemma_entries_map_drop_first(b);
        lemma_listing_unique(a.drop_first(), b.drop_first());
        assert(a =~= seq![a[0]] + a.drop_first());
        assert(b =~= seq![b[0]] + b.drop_first());
    }
}

/// A sorted association list of strings lists its map in key order.
pub proof fn lemma_sorted_listing(s: Seq<(String, String)>)
    requires
        keys_sorted(s),
    ensures
        entries_sorted(text_entries(s)),
        entries_map(text_entries(s)) == text_map(s),
        sorted_listing(text_map(s)) == text_entries(s),
{
    let e = text_entries(s);
    assert forall|i: int, j: int| 0 <= i < j < e.len() implies text_lt(#[trigger] e[i].0, #[trigger] e[j].0) by {
        assert(text_lt(s[i].0@, s[j].0@));
    }
    let m = text_map(s);
    assert forall|k: Seq<char>| entries_map(e).contains_key(k) <==> m.contains_key(k) by {
        if entries_map(e).contains_key(k) {
            let i = entry_index(e, k);
            assert(s[i].0@ == k);
        }
        if m.contains_key(k) {
            let i = key_index(s, k);
            assert(e[i].0 == k);
        }
    }
    assert forall|k: Seq<char>| #[trigger] entries_map(e).contains_key(k) implies entries_map(e)[k] == m[k] by {
        let i = entry_index(e, k);
        lemma_entries_map_at(e, i);
        lemma_assoc_map_at(s, i);
    }
    assert(entries_map(e) =~= m);
    let l = sorted_listing(m);
    assert(entries_sorted(l) && entries_map(l) == m);
    lemma_listing_unique(l, e);
}

/// Folding the entries of a sorted list one by one: the first `i + 1` entries
/// stand for the map of the first `i` with entry `i` added.
pub proof fn lemma_assoc_map_take<V>(s: Seq<(String, V)>, i: int)
    requires
        keys_sorted(s),
        0 <= i < s.len(),
    ensures
        keys_sorted(s.take(i + 1)),
        assoc_map(s.take(i + 1)) == assoc_map(s.take(i)).insert(s[i].0@, s[i].1),
{
    let a = s.take(i);
    let b = s.take(i + 1);
    assert forall|x: int, y: int| 0 <= x < y < b.len() implies text_lt(#[trigger] b[x].0@, #[trigger] b[y].0@) by {
        assert(b[x] == s[x] && b[y] == s[y]);
    }
    assert forall|x: int, y: int| 0 <= x < y < a.len() implies text_lt(#[trigger] a[x].0@, #[trigger] a[y].0@) by {
        assert(a[x] == s[x] && a[y] == s[y]);
    }
    assert(b =~= a.insert(i, (s[i].0, s[i].1)));
    lemma_assoc_inserted(a, b, i, s[i].0@, s[i].1);
}

/// Sets text key `k` to text value `v`, keeping the keys in order.
pub fn text_insert(m: &mut Vec<(String, String)>, k: String, v: String)
    requires
        keys_sorted(old(m)@),
    ensures
        keys_sorted(final(m)@),
        text_map(final(m)@) == text_map(old(m)@).insert(k@, v@),
{
    let ghost kv = k@;
    let ghost vv = v@;
    assoc_insert(m, k, v);
    assert(text_map(m@) =~= text_map(old(m)@).insert(kv, vv));
}

/// Sets every key of `from` to its value there, keeping the keys of `into` in order.
pub fn text_merge(into: &mut Vec<(String, String)>, from: &Vec<(String, String)>)
    requires
        keys_sorted(old(into)@),
        keys_sorted(from@),
    ensures
        keys_sorted(final(into)@),
        text_map(final(into)@) == text_map(old(into)@).union_prefer_right(text_map(from@)),
{
    let ghost m0 = text_map(into@);
    let mut i: usize = 0;
    assert(text_map(from@.take(0)) =~= Map::empty());
    assert(m0.union_prefer_right(Map::empty()) =~= m0);
    while i < from.len()
        invariant
            i <= from.len(),
            keys_sorted(into@),
            keys_sorted(from@),
            text_map(into@) == m0.union_prefer_right(text_map(from@.take(i as int))),
        decreases from.len() - i,
    {
        let k = from[i].0.clone();
        let v = from[i].1.clone();
        text_insert(into, k, v);
        proof {
            lemma_assoc_map_take(from@, i as int);
            let a = text_map(from@.take(i as int));
            let b = text_map(from@.take(i + 1));
            assert(b =~= a.insert(from@[i as int].0@, from@[i as int].1@));
            assert(m0.union_prefer_right(b) =~= m0.union_prefer_right(a).insert(
                from@[i as int].0@,
                from@[i as int].1@,
            ));
        }
        i = i + 1;
    }
    assert(from@.take(from.len() as int) =~= from@);
}

/// The entries of an association list, keys by view and values through `f`.
pub open spec fn entries_of<V, W>(s: Seq<(String, V)>, f: spec_fn(V) -> W) -> Seq<(Seq<char>, W)> {
    s.map_values(|e: (String, V)| (e.0@, f(e.1)))
}

/// In an increasing entry list, the map's value for the key at index `i` is the value at `i`.
pub proof fn lemma_entries_map_index<V>(e: Seq<(Seq<char>, V)>, i: int)
    requires
        entries_sorted(e),
        0 <= i < e.len(),
    ensures
        entries_map(e).contains_key(e[i].0),
        entries_map(e)[e[i].0] == e[i].1,
{
    lemma_entries_map_at(e, i);
}

/// A finite nonempty set of texts has a greatest member.
proof fn lemma_greatest_text(s: Set<Seq<char>>) -> (g: Seq<char>)
    requires
        s.finite(),
        s.len() > 0,
    ensures
        s.contains(g),
        forall|x: Seq<char>| #[trigger] s.contains(x) && x != g ==> text_lt(x, g),
    decreases s.len(),
{
    let x = s.choose();
    let r = s.remove(x);
    if r.len() == 0 {
        assert forall|y: Seq<char>| #[trigger] s.contains(y) && y != x implies text_lt(y, x) by {
            assert(r.contains(y));
        }
        x
    } else {
        let h = lemma_greatest_text(r);
        if text_lt(h, x) {
            assert forall|y: Seq<char>| #[trigger] s.contains(y) && y != x implies text_lt(y, x) by {
                assert(r.contains(y));
                if y != h {
                    lemma_text_lt_transitive(y, h, x);
                }
            }
            x
        } else {
            lemma_text_lt_total(h, x);
            assert forall|y: Seq<char>| #[trigger] s.contains(y) && y != h implies text_lt(y, h) by {
                if y != x {
                    assert(r.contains(y));
                }
            }
            h
        }
    }
}

/// Every finite map keyed by texts is listed by some increasing entry list.
pub proof fn lemma_listing_exists<V>(m: Map<Seq<char>, V>)
    requires
        m.dom().finite(),
    ensures
        entries_sorted(sorted_listing(m)),
        entries_map(sorted_listing(m)) == m,
{
    let e = lemma_some_listing(m);
    assert(entries_sorted(e) && entries_map(e) == m);
}

proof fn lemma_some_listing<V>(m: Map<Seq<char>, V>) -> (e: Seq<(Seq<char>, V)>)
    requires
        m.dom().finite(),
    ensures
        entries_sorted(e),
        entries_map(e) == m,
    decreases m.dom().len(),
{
    if m.dom().len() == 0 {
        let e = Seq::<(Seq<char>, V)>::empty();
        assert(m.dom() =~= Set::empty()) by {
            if exists|k: Seq<char>| m.dom().contains(k) {
                let k = choose|k: Seq<char>| m.dom().contains(k);
                assert(m.dom().remove(k).len() + 1 == m.dom().len());
            }
        }
        assert(entries_map(e) =~= m);
        e
    } else {
        let g = lemma_greatest_text(m.dom());
        let m1 = m.remove(g);
        assert(m1.dom() =~= m.dom().remove(g));
        let e1 = lemma_some_listing(m1);
        let e = e1.push((g, m[g]));
        assert forall|i: int, j: int| 0 <= i < j < e.len() implies text_lt(#[trigger] e[i].0, #[trigger] e[j].0) by {
            if j < e1.len() {
                assert(e[i] == e1[i] && e[j] == e1[j]);
            } else {
                assert(e[i] == e1[i]);
                lemma_entries_map_at(e1, i);
                assert(m1.contains_key(e1[i].0));
            }
        }
        assert forall|k: Seq<char>| entries_map(e).contains_key(k) <==> m.contains_key(k) by {
            if entries_map(e).contains_key(k) {
                let i = entry_index(e, k);
                if i < e1.len() {
                    assert(e[i] == e1[i]);
                    lemma_entries_map_at(e1, i);
                }
            }
            if m.contains_key(k) {
                if k == g {
                    assert(e[e1.len() as int].0 == k);
                } else {
                    assert(m1.contains_key(k));
                    let i = entry_index(e1, k);
                    assert(e[i] == e1[i]);
                }
            }
        }
        assert forall|k: Seq<char>| #[trigger] entries_map(e).contains_key(k) implies entries_map(e)[k] == m[k] by {
            let i = entry_index(e, k);
            lemma_entries_map_at(e, i);
            if i < e1.len() {
                assert(e[i] == e1[i]);
                lemma_entries_map_at(e1, i);
            }
        }
        assert(entries_map(e) =~= m);
        e
    }
}

} // verus!
