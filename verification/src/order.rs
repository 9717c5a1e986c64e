//! Stable sorting by keys.
//!
//! A key is a sequence of integers and keys are ordered lexicographically.
//! Sorting is described by the order in which it visits the positions of its
//! input: that order is a permutation of the positions, keys never decrease
//! along it, and positions whose keys tie are visited in increasing order.

use vstd::prelude::*;

verus! {

/// Lexicographic order on keys: `a` does not come after `b`.
pub open spec fn key_le(a: Seq<int>, b: Seq<int>) -> bool
    decreases a.len(),
{
    if a.len() == 0 {
        true
    } else if b.len() == 0 {
        false
    } else if a[0] != b[0] {
        a[0] < b[0]
    } else {
        key_le(a.skip(1), b.skip(1))
    }
}

/// The entries of an executable key as mathematical integers.
pub open spec fn ints(key: Seq<i128>) -> Seq<int> {
    key.map_values(|x: i128| x as int)
}

/// An item with the key by which it is sorted.
pub struct Keyed<T> {
    pub key: Vec<i128>,
    pub item: T,
}

/// The keys of a list of entries.
pub open spec fn entry_keys<T>(entries: Seq<Keyed<T>>) -> Seq<Seq<int>> {
    entries.map_values(|entry: Keyed<T>| ints(entry.key@))
}

/// The items of a list of entries.
pub open spec fn entry_items<T>(entries: Seq<Keyed<T>>) -> Seq<T> {
    entries.map_values(|entry: Keyed<T>| entry.item)
}

/// `order` with position `i` put behind the last position whose key does not
/// come after the key of `i`.
pub open spec fn insert_index(order: Seq<int>, i: int, keys: Seq<Seq<int>>) -> Seq<int>
    decreases order.len(),
{
    if order.len() == 0 || key_le(keys[order.last()], keys[i]) {
        order.push(i)
    } else {
        insert_index(order.drop_last(), i, keys).push(order.last())
    }
}

/// The order in which a stable sort visits the first `n` positions of `keys`.
pub open spec fn sorted_order(keys: Seq<Seq<int>>, n: nat) -> Seq<int>
    decreases n,
{
    if n == 0 {
        Seq::<int>::empty()
    } else {
        insert_index(sorted_order(keys, (n - 1) as nat), n - 1, keys)
    }
}

/// `items` stably sorted by `keys`, the key of `items[i]` being `keys[i]`.
pub open spec fn arranged<T>(items: Seq<T>, keys: Seq<Seq<int>>) -> Seq<T> {
    sorted_order(keys, keys.len()).map_values(|i: int| items[i])
}

/// `order` visits each of the first `n` positions once.
pub open spec fn is_permutation(order: Seq<int>, n: nat) -> bool {
    &&& order.len() == n
    &&& forall|a: int| 0 <= a < order.len() ==> 0 <= #[trigger] order[a] < n
    &&& forall|a: int, b: int|
        0 <= a < b < order.len() ==> #[trigger] order[a] != #[trigger] order[b]
    &&& forall|i: int| 0 <= i < n ==> #[trigger] order.contains(i)
}

/// Keys never decrease along `order`, and positions with tying keys come in
/// increasing order.
pub open spec fn is_stably_sorted(order: Seq<int>, keys: Seq<Seq<int>>) -> bool {
    forall|a: int, b: int|
        0 <= a < b < order.len() ==> {
            &&& key_le(keys[#[trigger] order[a]], keys[#[trigger] order[b]])
            &&& key_le(keys[order[b]], keys[order[a]]) ==> order[a] < order[b]
        }
}

/// Every key stands in order with itself.
pub proof fn lemma_key_le_reflexive(a: Seq<int>)
    ensures
        key_le(a, a),
    decreases a.len(),
{
    if a.len() > 0 {
        lemma_key_le_reflexive(a.skip(1));
    }
}

/// Any two keys stand in order one way or the other.
pub proof fn lemma_key_le_total(a: Seq<int>, b: Seq<int>)
    ensures
        key_le(a, b) || key_le(b, a),
    decreases a.len(),
{
    if a.len() > 0 && b.len() > 0 && a[0] == b[0] {
        lemma_key_le_total(a.skip(1), b.skip(1));
    }
}

/// The order on keys is transitive.
pub proof fn lemma_key_le_transitive(a: Seq<int>, b: Seq<int>, c: Seq<int>)
    requires
        key_le(a, b),
        key_le(b, c),
    ensures
        key_le(a, c),
    decreases a.len(),
{
    if a.len() > 0 && b.len() > 0 && c.len() > 0 && a[0] == b[0] && b[0] == c[0] {
        lemma_key_le_transitive(a.skip(1), b.skip(1), c.skip(1));
    }
}

/// Keys that stand in order both ways are the same key.
pub proof fn lemma_key_le_antisymmetric(a: Seq<int>, b: Seq<int>)
    requires
        key_le(a, b),
        key_le(b, a),
    ensures
        a == b,
    decreases a.len(),
{
    if a.len() > 0 && b.len() > 0 {
        lemma_key_le_antisymmetric(a.skip(1), b.skip(1));
        assert(a =~= seq![a[0]] + a.skip(1));
        assert(b =~= seq![b[0]] + b.skip(1));
    } else {
        assert(a =~= b);
    }
}

/// Keys of one entry are ordered as their entries.
pub proof fn lemma_key_le_single(x: int, y: int)
    ensures
        key_le(seq![x], seq![y]) <==> x <= y,
{
    let a = seq![x];
    let b = seq![y];
    assert(a.skip(1).len() == 0);
    assert(key_le(a.skip(1), b.skip(1)));
}

/// Where `insert_index` puts a position: at `j`, behind a position whose key
/// does not come after its own and before those whose keys do.
proof fn lemma_insert_point(order: Seq<int>, i: int, keys: Seq<Seq<int>>) -> (j: int)
    ensures
        0 <= j <= order.len(),
        insert_index(order, i, keys) == order.insert(j, i),
        forall|t: int| j <= t < order.len() ==> !key_le(keys[#[trigger] order[t]], keys[i]),
        j > 0 ==> key_le(keys[order[j - 1]], keys[i]),
    decreases order.len(),
{
    if order.len() == 0 || key_le(keys[order.last()], keys[i]) {
        assert(order.push(i) =~= order.insert(order.len() as int, i));
        order.len() as int
    } else {
        let j = lemma_insert_point(order.drop_last(), i, keys);
        assert(order.drop_last().insert(j, i).push(order.last()) =~= order.insert(j, i));
        assert forall|t: int| j <= t < order.len() implies !key_le(
            keys[#[trigger] order[t]],
            keys[i],
        ) by {
            if t < order.len() - 1 {
                assert(order[t] == order.drop_last()[t]);
            }
        }
        j
    }
}

/// A position found by scanning back from the end is where `insert_index`
/// puts the new position.
proof fn lemma_insert_at(order: Seq<int>, i: int, keys: Seq<Seq<int>>, j: int)
    requires
        0 <= j <= order.len(),
        forall|t: int| j <= t < order.len() ==> !key_le(keys[#[trigger] order[t]], keys[i]),
        j > 0 ==> key_le(keys[order[j - 1]], keys[i]),
    ensures
        insert_index(order, i, keys) == order.insert(j, i),
    decreases order.len() - j,
{
    if j == order.len() {
        assert(order.push(i) =~= order.insert(j, i));
    } else {
        assert(!key_le(keys[order[order.len() - 1]], keys[i]));
        let rest = order.drop_last();
        assert forall|t: int| j <= t < rest.len() implies !key_le(
            keys[#[trigger] rest[t]],
            keys[i],
        ) by {
            assert(rest[t] == order[t]);
        }
        lemma_insert_at(rest, i, keys, j);
        assert(rest.insert(j, i).push(order.last()) =~= order.insert(j, i));
    }
}

/// The sorted order is a permutation of the positions, sorted and stable.
pub proof fn lemma_sorted_order(keys: Seq<Seq<int>>, n: nat)
    ensures
        is_permutation(sorted_order(keys, n), n),
        is_stably_sorted(sorted_order(keys, n), keys),
    decreases n,
{
    if n > 0 {
        let before = sorted_order(keys, (n - 1) as nat);
        lemma_sorted_order(keys, (n - 1) as nat);
        let i = n - 1;
        let j = lemma_insert_point(before, i, keys);
        let after = before.insert(j, i);
        assert(after == sorted_order(keys, n));
        assert forall|a: int| 0 <= a < after.len() implies 0 <= #[trigger] after[a] < n by {
            if a < j {
                assert(after[a] == before[a]);
            } else if a > j {
                assert(after[a] == before[a - 1]);
            }
        }
        assert forall|v: int| 0 <= v < n implies #[trigger] after.contains(v) by {
            if v == i {
                assert(after[j] == v);
            } else {
                assert(before.contains(v));
                let a = choose|a: int| 0 <= a < before.len() && before[a] == v;
                if a < j {
                    assert(after[a] == v);
                } else {
                    assert(after[a + 1] == v);
                }
            }
        }
        assert forall|a: int, b: int| 0 <= a < b < after.len() implies {
            &&& #[trigger] after[a] != #[trigger] after[b]
            &&& key_le(keys[after[a]], keys[after[b]])
            &&& key_le(keys[after[b]], keys[after[a]]) ==> after[a] < after[b]
        } by {
            if b < j {
                assert(after[a] == before[a] && after[b] == before[b]);
            } else if a > j {
                assert(after[a] == before[a - 1] && after[b] == before[b - 1]);
            } else if a < j && b > j {
                assert(after[a] == before[a] && after[b] == before[b - 1]);
            } else if b == j {
                assert(after[a] == before[a]);
                assert(after[b] == i);
                assert(0 <= before[a] < i);
                if a < j - 1 {
                    assert(key_le(keys[before[a]], keys[before[j - 1]]));
                    lemma_key_le_transitive(keys[before[a]], keys[before[j - 1]], keys[i]);
                }
            } else {
                assert(a == j);
                assert(after[a] == i);
                assert(after[b] == before[b - 1]);
                assert(0 <= before[b - 1] < i);
                assert(!key_le(keys[before[b - 1]], keys[i]));
                lemma_key_le_total(keys[before[b - 1]], keys[i]);
            }
        }
    }
}

/// Two orders that visit the same positions, each position once, and are
/// both sorted and stable are the same order.
proof fn lemma_same_order(first: Seq<int>, second: Seq<int>, keys: Seq<Seq<int>>)
    requires
        first.len() == second.len(),
        first.no_duplicates(),
        second.no_duplicates(),
        forall|v: int| first.contains(v) <==> second.contains(v),
        is_stably_sorted(first, keys),
        is_stably_sorted(second, keys),
    ensures
        first == second,
    decreases first.len(),
{
    if first.len() == 0 {
        assert(first =~= second);
    } else {
        let n = first.len() as int;
        let x = first[n - 1];
        let y = second[n - 1];
        assert(first.contains(x));
        let b = choose|b: int| 0 <= b < n && second[b] == x;
        if b < n - 1 {
            assert(second.contains(y));
            let a = choose|a: int| 0 <= a < n && first[a] == y;
            assert(x != y);
            assert(a < n - 1);
            assert(key_le(keys[first[a]], keys[first[n - 1]]));
            assert(key_le(keys[second[b]], keys[second[n - 1]]));
            assert(false);
        }
        let head = first.drop_last();
        let other = second.drop_last();
        assert forall|v: int| head.contains(v) <==> other.contains(v) by {
            if head.contains(v) {
                let a = choose|a: int| 0 <= a < head.len() && head[a] == v;
                assert(first[a] == v);
                assert(first.contains(v));
                let c = choose|c: int| 0 <= c < n && second[c] == v;
                assert(c != n - 1);
                assert(other[c] == v);
            }
            if other.contains(v) {
                let c = choose|c: int| 0 <= c < other.len() && other[c] == v;
                assert(second[c] == v);
                assert(second.contains(v));
                let a = choose|a: int| 0 <= a < n && first[a] == v;
                assert(a != n - 1);
                assert(head[a] == v);
            }
        }
        assert forall|a: int, c: int| 0 <= a < c < head.len() implies {
            &&& key_le(keys[#[trigger] head[a]], keys[#[trigger] head[c]])
            &&& key_le(keys[head[c]], keys[head[a]]) ==> head[a] < head[c]
        } by {
            assert(head[a] == first[a] && head[c] == first[c]);
        }
        assert forall|a: int, c: int| 0 <= a < c < other.len() implies {
            &&& key_le(keys[#[trigger] other[a]], keys[#[trigger] other[c]])
            &&& key_le(keys[other[c]], keys[other[a]]) ==> other[a] < other[c]
        } by {
            assert(other[a] == second[a] && other[c] == second[c]);
        }
        lemma_same_order(head, other, keys);
        assert(first =~= head.push(x));
        assert(second =~= other.push(y));
    }
}

/// The sorted order is the only order that visits each of the first `n`
/// positions once, never lets keys decrease and keeps ties in place.
pub proof fn lemma_stable_order_is_unique(keys: Seq<Seq<int>>, n: nat, order: Seq<int>)
    requires
        is_permutation(order, n),
        is_stably_sorted(order, keys),
    ensures
        order == sorted_order(keys, n),
{
    let sorted = sorted_order(keys, n);
    lemma_sorted_order(keys, n);
    assert forall|v: int| order.contains(v) <==> sorted.contains(v) by {
        if order.contains(v) {
            let a = choose|a: int| 0 <= a < order.len() && order[a] == v;
            assert(0 <= order[a] < n);
            assert(sorted.contains(v));
        }
        if sorted.contains(v) {
            let a = choose|a: int| 0 <= a < sorted.len() && sorted[a] == v;
            assert(0 <= sorted[a] < n);
            assert(order.contains(v));
        }
    }
    assert(order.no_duplicates()) by {
        assert forall|a: int, b: int|
            0 <= a < order.len() && 0 <= b < order.len() && a != b implies order[a]
            != order[b] by {
            if a < b {
                assert(order[a] != order[b]);
            } else {
                assert(order[b] != order[a]);
            }
        }
    }
    assert(sorted.no_duplicates()) by {
        assert forall|a: int, b: int|
            0 <= a < sorted.len() && 0 <= b < sorted.len() && a != b implies sorted[a]
            != sorted[b] by {
            if a < b {
                assert(sorted[a] != sorted[b]);
            } else {
                assert(sorted[b] != sorted[a]);
            }
        }
    }
    lemma_same_order(order, sorted, keys);
}

/// The first `n` items in the order in which the sort visits them.
spec fn arranged_first<T>(items: Seq<T>, keys: Seq<Seq<int>>, n: nat) -> Seq<T> {
    sorted_order(keys, n).map_values(|i: int| items[i])
}

/// Sorting the first `n` items rearranges them: each item stays as often as
/// it was there.
proof fn lemma_arranged_first_same_items<T>(items: Seq<T>, keys: Seq<Seq<int>>, n: nat)
    requires
        n <= items.len(),
    ensures
        arranged_first(items, keys, n).to_multiset() == items.take(n as int).to_multiset(),
    decreases n,
{
    broadcast use vstd::seq_lib::group_to_multiset_ensures;

    if n == 0 {
        assert(arranged_first(items, keys, n) =~= items.take(0));
    } else {
        let before = sorted_order(keys, (n - 1) as nat);
        lemma_arranged_first_same_items(items, keys, (n - 1) as nat);
        let j = lemma_insert_point(before, n - 1, keys);
        let smaller = arranged_first(items, keys, (n - 1) as nat);
        let larger = arranged_first(items, keys, n);
        let x = items[n - 1];
        assert(larger =~= smaller.insert(j, x));
        assert(larger.remove(j) =~= smaller);
        assert(larger[j] == x);
        assert(smaller.to_multiset() == larger.to_multiset().remove(x));
        assert(larger.contains(x));
        assert(larger.to_multiset() =~= smaller.to_multiset().insert(x));
        assert(items.take(n as int) =~= items.take(n - 1).push(x));
    }
}

/// Sorting rearranges the items: each stays as often as it was there.
pub proof fn lemma_arranged_same_items<T>(items: Seq<T>, keys: Seq<Seq<int>>)
    requires
        items.len() == keys.len(),
    ensures
        arranged(items, keys).len() == items.len(),
        arranged(items, keys).to_multiset() == items.to_multiset(),
{
    lemma_sorted_order(keys, keys.len());
    lemma_arranged_first_same_items(items, keys, keys.len());
    assert(items.take(items.len() as int) =~= items);
}

/// Compares two keys.
pub fn key_le_exec(a: &Vec<i128>, b: &Vec<i128>) -> (le: bool)
    ensures
        le == key_le(ints(a@), ints(b@)),
{
    let ghost ka = ints(a@);
    let ghost kb = ints(b@);
    let mut i: usize = 0;
    proof {
        assert(ka.skip(0) =~= ka);
        assert(kb.skip(0) =~= kb);
    }
    loop
        invariant
            i <= a.len(),
            i <= b.len(),
            ka == ints(a@),
            kb == ints(b@),
            key_le(ka, kb) == key_le(ka.skip(i as int), kb.skip(i as int)),
        decreases a.len() - i,
    {
        if i == a.len() {
            return true;
        }
        if i == b.len() {
            return false;
        }
        if a[i] != b[i] {
            return a[i] < b[i];
        }
        proof {
            assert(ka.skip(i as int).skip(1) =~= ka.skip(i + 1));
            assert(kb.skip(i as int).skip(1) =~= kb.skip(i + 1));
        }
        i = i + 1;
    }
}

/// The order in which a stable sort visits the positions of `entries`.
pub fn sort_order<T>(entries: &Vec<Keyed<T>>) -> (order: Vec<usize>)
    ensures
        order@.map_values(|i: usize| i as int) == sorted_order(
            entry_keys(entries@),
            entries@.len(),
        ),
{
    let ghost keys = entry_keys(entries@);
    let mut order: Vec<usize> = Vec::new();
    let mut i: usize = 0;
    while i < entries.len()
        invariant
            i <= entries.len(),
            keys == entry_keys(entries@),
            order@.map_values(|i: usize| i as int) == sorted_order(keys, i as nat),
            forall|t: int| 0 <= t < order.len() ==> #[trigger] order@[t] < i,
        decreases entries.len() - i,
    {
        let ghost before = order@.map_values(|i: usize| i as int);
        let mut j: usize = order.len();
        while j > 0 && !key_le_exec(&entries[order[j - 1]].key, &entries[i].key)
            invariant
                j <= order.len(),
                i < entries.len(),
                keys == entry_keys(entries@),
                before == order@.map_values(|i: usize| i as int),
                forall|t: int| 0 <= t < order.len() ==> #[trigger] order@[t] < i,
                forall|t: int|
                    j <= t < before.len() ==> !key_le(keys[#[trigger] before[t]], keys[i as int]),
            decreases j,
        {
            proof {
                assert(before[j - 1] == order@[j - 1] as int);
            }
            j = j - 1;
        }
        proof {
            if j > 0 {
                assert(before[j - 1] == order@[j - 1] as int);
            }
            lemma_insert_at(before, i as int, keys, j as int);
        }
        order.insert(j, i);
        proof {
            assert(order@.map_values(|i: usize| i as int) =~= before.insert(j as int, i as int));
        }
        i = i + 1;
    }
    order
}

} // verus!
