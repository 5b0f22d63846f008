//! Stable sorting by a rank and a byte string, the order in which listings
//! are shown: `sort_by` with a rank first and `String` order second.

use vstd::prelude::*;

verus! {

/// Byte strings in lexicographic order, the order of `[u8]` and `String`.
pub open spec fn bytes_lt(a: Seq<u8>, b: Seq<u8>) -> bool
    decreases a.len(),
{
    if a.len() == 0 {
        b.len() > 0
    } else if b.len() == 0 {
        false
    } else if a[0] != b[0] {
        a[0] < b[0]
    } else {
        bytes_lt(a.drop_first(), b.drop_first())
    }
}

/// A sort key: a rank, then a byte string.
pub open spec fn key_lt(a: (u8, Seq<u8>), b: (u8, Seq<u8>)) -> bool {
    a.0 < b.0 || (a.0 == b.0 && bytes_lt(a.1, b.1))
}

/// Whether item `i` comes before item `j` in a stable sort by `keys`.
pub open spec fn before(keys: Seq<(u8, Seq<u8>)>, i: int, j: int) -> bool {
    key_lt(keys[i], keys[j]) || (keys[i] == keys[j] && i < j)
}

/// `order` lists each position of `keys` once, in stable sorted order.
pub open spec fn stable_order(keys: Seq<(u8, Seq<u8>)>, order: Seq<usize>) -> bool {
    &&& order.len() == keys.len()
    &&& forall|k: int| 0 <= k < order.len() ==> #[trigger] order[k] < keys.len()
    &&& forall|k1: int, k2: int|
        0 <= k1 < k2 < order.len() ==> order[k1] != order[k2] && before(
            keys,
            #[trigger] order[k1] as int,
            #[trigger] order[k2] as int,
        )
}

/// The keys a vector of them stands for.
pub open spec fn key_views(keys: Seq<(u8, Vec<u8>)>) -> Seq<(u8, Seq<u8>)> {
    keys.map_values(|k: (u8, Vec<u8>)| (k.0, k.1@))
}

proof fn lemma_bytes_irreflexive(a: Seq<u8>)
    ensures
        !bytes_lt(a, a),
    decreases a.len(),
{
    if a.len() > 0 {
        lemma_bytes_irreflexive(a.drop_first());
    }
}

proof fn lemma_bytes_asymmetric(a: Seq<u8>, b: Seq<u8>)
    ensures
        !(bytes_lt(a, b) && bytes_lt(b, a)),
    decreases a.len(),
{
    if a.len() > 0 && b.len() > 0 && a[0] == b[0] {
        lemma_bytes_asymmetric(a.drop_first(), b.drop_first());
    }
}

proof fn lemma_bytes_transitive(a: Seq<u8>, b: Seq<u8>, c: Seq<u8>)
    requires
        bytes_lt(a, b),
        bytes_lt(b, c),
    ensures
        bytes_lt(a, c),
    decreases a.len(),
{
    if a.len() > 0 && b.len() > 0 && c.len() > 0 && a[0] == b[0] && b[0] == c[0] {
        lemma_bytes_transitive(a.drop_first(), b.drop_first(), c.drop_first());
    }
}

proof fn lemma_bytes_total(a: Seq<u8>, b: Seq<u8>)
    requires
        a != b,
    ensures
        bytes_lt(a, b) || bytes_lt(b, a),
    decreases a.len(),
{
    if a.len() > 0 && b.len() > 0 && a[0] == b[0] {
        if a.drop_first() == b.drop_first() {
            assert(a =~= seq![a[0]] + a.drop_first());
            assert(b =~= seq![b[0]] + b.drop_first());
        }
        lemma_bytes_total(a.drop_first(), b.drop_first());
    } else if a.len() == 0 && b.len() == 0 {
        assert(a =~= b);
    }
}

/// `before` is transitive.
proof fn lemma_before_transitive(keys: Seq<(u8, Seq<u8>)>, i: int, j: int, k: int)
    requires
        before(keys, i, j),
        before(keys, j, k),
    ensures
        before(keys, i, k),
{
    if keys[i].0 == keys[j].0 && keys[j].0 == keys[k].0 && bytes_lt(keys[i].1, keys[j].1)
        && bytes_lt(keys[j].1, keys[k].1) {
        lemma_bytes_transitive(keys[i].1, keys[j].1, keys[k].1);
    }
}

/// `before` orders any two different positions one way or the other.
proof fn lemma_before_total(keys: Seq<(u8, Seq<u8>)>, i: int, j: int)
    requires
        i != j,
    ensures
        before(keys, i, j) || before(keys, j, i),
        !(before(keys, i, j) && before(keys, j, i)),
{
    if keys[i].0 == keys[j].0 {
        if keys[i].1 != keys[j].1 {
            lemma_bytes_total(keys[i].1, keys[j].1);
            assert(keys[i] != keys[j]);
        } else {
            assert(keys[i] == keys[j]);
            lemma_bytes_irreflexive(keys[i].1);
        }
        lemma_bytes_asymmetric(keys[i].1, keys[j].1);
    }
}

/// How many entries of `s` are set.
pub open spec fn count_set(s: Seq<bool>) -> nat
    decreases s.len(),
{
    if s.len() == 0 {
        0
    } else {
        count_set(s.drop_last()) + if s.last() {
            1nat
        } else {
            0nat
        }
    }
}

proof fn lemma_count_update(s: Seq<bool>, i: int)
    requires
        0 <= i < s.len(),
        !s[i],
    ensures
        count_set(s.update(i, true)) == count_set(s) + 1,
    decreases s.len(),
{
    let t = s.update(i, true);
    if i == s.len() - 1 {
        assert(t.drop_last() =~= s.drop_last());
    } else {
        assert(t.drop_last() =~= s.drop_last().update(i, true));
        lemma_count_update(s.drop_last(), i);
    }
}

proof fn lemma_count_bound(s: Seq<bool>)
    ensures
        count_set(s) <= s.len(),
        count_set(s) == s.len() ==> forall|i: int| 0 <= i < s.len() ==> s[i],
    decreases s.len(),
{
    if s.len() > 0 {
        lemma_count_bound(s.drop_last());
        if count_set(s) == s.len() {
            assert forall|i: int| 0 <= i < s.len() implies s[i] by {
                if i < s.len() - 1 {
                    assert(s.drop_last()[i] == s[i]);
                }
            }
        }
    }
}

/// Whether `a` sorts before `b` as byte strings.
fn bytes_less(a: &[u8], b: &[u8]) -> (r: bool)
    ensures
        r == bytes_lt(a@, b@),
{
    let mut i: usize = 0;
    assert(a@.subrange(0, a@.len() as int) =~= a@);
    assert(b@.subrange(0, b@.len() as int) =~= b@);
    while i < a.len() && i < b.len()
        invariant
            i <= a@.len(),
            i <= b@.len(),
            bytes_lt(a@, b@) == bytes_lt(
                a@.subrange(i as int, a@.len() as int),
                b@.subrange(i as int, b@.len() as int),
            ),
        decreases a@.len() - i,
    {
        let ghost sa = a@.subrange(i as int, a@.len() as int);
        let ghost sb = b@.subrange(i as int, b@.len() as int);
        if a[i] != b[i] {
            return a[i] < b[i];
        }
        assert(sa.drop_first() =~= a@.subrange(i + 1, a@.len() as int));
        assert(sb.drop_first() =~= b@.subrange(i + 1, b@.len() as int));
        i += 1;
    }
    i == a.len() && i < b.len()
}

/// Whether two byte strings are equal.
fn bytes_equal(a: &[u8], b: &[u8]) -> (r: bool)
    ensures
        r == (a@ == b@),
{
    if a.len() != b.len() {
        return false;
    }
    let mut i: usize = 0;
    while i < a.len()
        invariant
            a@.len() == b@.len(),
            i <= a@.len(),
            forall|j: int| 0 <= j < i ==> a@[j] == b@[j],
        decreases a@.len() - i,
    {
        if a[i] != b[i] {
            return false;
        }
        i += 1;
    }
    assert(a@ =~= b@);
    true
}

/// Whether position `i` comes before position `j`.
fn comes_before(keys: &Vec<(u8, Vec<u8>)>, i: usize, j: usize) -> (r: bool)
    requires
        i < keys@.len(),
        j < keys@.len(),
    ensures
        r == before(key_views(keys@), i as int, j as int),
{
    let ki = &keys[i];
    let kj = &keys[j];
    if ki.0 < kj.0 {
        return true;
    }
    if ki.0 > kj.0 {
        return false;
    }
    if bytes_less(ki.1.as_slice(), kj.1.as_slice()) {
        return true;
    }
    bytes_equal(ki.1.as_slice(), kj.1.as_slice()) && i < j
}

/// The stable sorted order of the positions of `keys`.
pub fn stable_order_of(keys: &Vec<(u8, Vec<u8>)>) -> (order: Vec<usize>)
    ensures
        stable_order(key_views(keys@), order@),
{
    let ghost kv = key_views(keys@);
    let n: usize = keys.len();
    let mut used: Vec<bool> = Vec::new();
    let mut z: usize = 0;
    while z < n
        invariant
            z <= n,
            used@.len() == z,
            forall|u: int| 0 <= u < z ==> !used@[u],
        decreases n - z,
    {
        used.push(false);
        z += 1;
    }
    proof {
        assert forall|s: Seq<bool>| (forall|u: int| 0 <= u < s.len() ==> !s[u]) implies count_set(s) == 0 by {
            lemma_count_none(s);
        }
    }
    let mut order: Vec<usize> = Vec::new();
    while order.len() < n
        invariant
            kv == key_views(keys@),
            n == keys@.len(),
            used@.len() == n,
            order@.len() <= n,
            count_set(used@) == order@.len(),
            forall|k: int| 0 <= k < order@.len() ==> #[trigger] order@[k] < n && used@[order@[k] as int],
            forall|k1: int, k2: int|
                0 <= k1 < k2 < order@.len() ==> order@[k1] != order@[k2] && before(
                    kv,
                    #[trigger] order@[k1] as int,
                    #[trigger] order@[k2] as int,
                ),
            forall|k: int, u: int|
                #![trigger order@[k], used@[u]]
                0 <= k < order@.len() && 0 <= u < n && !used@[u] ==> before(
                    kv,
                    order@[k] as int,
                    u,
                ),
        decreases n - order@.len(),
    {
        let mut best: Option<usize> = None;
        let mut j: usize = 0;
        while j < n
            invariant
                kv == key_views(keys@),
                n == keys@.len(),
                used@.len() == n,
                j <= n,
                match best {
                    None => forall|u: int| 0 <= u < j ==> used@[u],
                    Some(c) => c < j && !used@[c as int] && forall|u: int|
                        0 <= u < j && !used@[u] && u != c ==> before(kv, c as int, u),
                },
            decreases n - j,
        {
            if !used[j] {
                match best {
                    None => {
                        best = Some(j);
                    },
                    Some(c) => {
                        if comes_before(keys, j, c) {
                            assert forall|u: int|
                                0 <= u < j + 1 && !used@[u] && u != j implies before(
                                kv,
                                j as int,
                                u,
                            ) by {
                                if u != c {
                                    lemma_before_transitive(kv, j as int, c as int, u);
                                }
                            }
                            best = Some(j);
                        } else {
                            proof {
                                lemma_before_total(kv, j as int, c as int);
                            }
                        }
                    },
                }
            }
            j += 1;
        }
        let c = match best {
            Some(c) => c,
            None => {
                proof {
                    lemma_count_bound(used@);
                    lemma_all_set(used@);
                }
                return order;
            },
        };
        proof {
            lemma_count_update(used@, c as int);
        }
        let ghost old_order = order@;
        let ghost old_used = used@;
        used.set(c, true);
        order.push(c);
        assert forall|k1: int, k2: int|
            0 <= k1 < k2 < order@.len() implies order@[k1] != order@[k2] && before(
            kv,
            #[trigger] order@[k1] as int,
            #[trigger] order@[k2] as int,
        ) by {
            if k2 == old_order.len() {
                assert(old_used[old_order[k1] as int]);
            }
        }
        assert forall|k: int, u: int|
            #![trigger order@[k], used@[u]]
            0 <= k < order@.len() && 0 <= u < n && !used@[u] implies before(
            kv,
            order@[k] as int,
            u,
        ) by {
            assert(!old_used[u]);
            assert(u != c);
        }
    }
    order
}

proof fn lemma_count_none(s: Seq<bool>)
    requires
        forall|u: int| 0 <= u < s.len() ==> !s[u],
    ensures
        count_set(s) == 0,
    decreases s.len(),
{
    if s.len() > 0 {
        lemma_count_none(s.drop_last());
    }
}

proof fn lemma_all_set(s: Seq<bool>)
    requires
        forall|u: int| 0 <= u < s.len() ==> s[u],
    ensures
        count_set(s) == s.len(),
    decreases s.len(),
{
    if s.len() > 0 {
        lemma_all_set(s.drop_last());
    }
}

/// The items in the given order: item `order[k]` at position `k`.
pub(crate) fn apply_order<T>(items: Vec<T>, order: &Vec<usize>) -> (out: Vec<T>)
    requires
        order@.len() == items@.len(),
        forall|k: int| 0 <= k < order@.len() ==> #[trigger] order@[k] < items@.len(),
        forall|k1: int, k2: int|
            0 <= k1 < k2 < order@.len() ==> #[trigger] order@[k1] != #[trigger] order@[k2],
    ensures
        out@.len() == items@.len(),
        forall|k: int| 0 <= k < out@.len() ==> #[trigger] out@[k] == items@[order@[k] as int],
{
    let n: usize = items.len();
    let ghost orig = items@;
    let mut items = items;
    let mut slots: Vec<Option<T>> = Vec::new();
    while items.len() > 0
        invariant
            items@.len() + slots@.len() == n,
            n == orig.len(),
            items@ == orig.subrange(0, items@.len() as int),
            forall|s: int| 0 <= s < slots@.len() ==> #[trigger] slots@[s] == Some(
                orig[n - 1 - s],
            ),
        decreases items@.len(),
    {
        let ghost before = items@;
        match items.pop() {
            Some(x) => {
                slots.push(Some(x));
            },
            None => {},
        }
        assert(items@ =~= orig.subrange(0, items@.len() as int));
    }
    let mut out: Vec<T> = Vec::new();
    let mut k: usize = 0;
    while k < n
        invariant
            n == orig.len(),
            order@.len() == n,
            slots@.len() == n,
            k <= n,
            out@.len() == k,
            forall|q: int| 0 <= q < order@.len() ==> #[trigger] order@[q] < n,
            forall|k1: int, k2: int|
                0 <= k1 < k2 < order@.len() ==> #[trigger] order@[k1] != #[trigger] order@[k2],
            forall|q: int| 0 <= q < k ==> #[trigger] out@[q] == orig[order@[q] as int],
            forall|q: int| k <= q < n ==> #[trigger] slots@[n - 1 - order@[q]] == Some(
                orig[order@[q] as int],
            ),
        decreases n - k,
    {
        let idx: usize = order[k];
        let slot: usize = n - 1 - idx;
        let taken = slots[slot].take();
        match taken {
            Some(x) => {
                out.push(x);
            },
            None => {
                assert(false);
            },
        }
        assert forall|q: int| k + 1 <= q < n implies #[trigger] slots@[n - 1 - order@[q]] == Some(
            orig[order@[q] as int],
        ) by {
            assert(order@[q] != order@[k as int]);
        }
        k += 1;
    }
    out
}

} // verus!

verus! {

/// A copy of a byte slice.
pub fn bytes_to_vec(b: &[u8]) -> (v: Vec<u8>)
    ensures
        v@ == b@,
{
    let mut v: Vec<u8> = Vec::new();
    let mut i: usize = 0;
    while i < b.len()
        invariant
            i <= b@.len(),
            v@ == b@.subrange(0, i as int),
        decreases b@.len() - i,
    {
        v.push(b[i]);
        assert(b@.subrange(0, i + 1) =~= b@.subrange(0, i as int).push(b@[i as int]));
        i += 1;
    }
    assert(b@.subrange(0, b@.len() as int) =~= b@);
    v
}


/// `before` never holds both ways.
proof fn lemma_before_asymmetric(keys: Seq<(u8, Seq<u8>)>, i: int, j: int)
    ensures
        !(before(keys, i, j) && before(keys, j, i)),
{
    lemma_bytes_asymmetric(keys[i].1, keys[j].1);
    lemma_bytes_irreflexive(keys[i].1);
}

/// Every position of `keys` appears somewhere in a stable order of them.
pub(crate) proof fn lemma_order_covers(keys: Seq<(u8, Seq<u8>)>, order: Seq<usize>, a: int)
    requires
        stable_order(keys, order),
        0 <= a < keys.len(),
    ensures
        exists|m: int| 0 <= m < order.len() && order[m] == a,
{
    let n = keys.len() as int;
    let s = order.map_values(|x: usize| x as int);
    assert(s.no_duplicates()) by {
        assert forall|i: int, j: int| 0 <= i < s.len() && 0 <= j < s.len() && i != j implies s[i]
            != s[j] by {
            if i < j {
                assert(order[i] != order[j]);
            } else {
                assert(order[j] != order[i]);
            }
        }
    }
    s.unique_seq_to_set();
    vstd::set_lib::lemma_int_range(0, n);
    let range = vstd::set_lib::set_int_range(0, n);
    assert(s.to_set().subset_of(range)) by {
        assert forall|x: int| s.to_set().contains(x) implies range.contains(x) by {
            assert(s.contains(x));
            let m = choose|m: int| 0 <= m < s.len() && s[m] == x;
            assert(order[m] < keys.len());
        }
    }
    vstd::set_lib::lemma_subset_equality(s.to_set(), range);
    assert(range.contains(a));
    assert(s.to_set().contains(a));
    assert(s.contains(a));
    let m = choose|m: int| 0 <= m < s.len() && s[m] == a;
    assert(order[m] == a);
}

/// Two stable orders of the same keys agree on their first `k` positions.
proof fn lemma_orders_agree(keys: Seq<(u8, Seq<u8>)>, o1: Seq<usize>, o2: Seq<usize>, k: int)
    requires
        stable_order(keys, o1),
        stable_order(keys, o2),
        0 <= k <= keys.len(),
    ensures
        forall|i: int| 0 <= i < k ==> o1[i] == o2[i],
    decreases k,
{
    if k > 0 {
        lemma_orders_agree(keys, o1, o2, k - 1);
        let p = k - 1;
        let a = o1[p] as int;
        let b = o2[p] as int;
        if a != b {
            lemma_before_total(keys, a, b);
            if before(keys, a, b) {
                lemma_order_covers(keys, o2, a);
                let m = choose|m: int| 0 <= m < o2.len() && o2[m] == a;
                if m < p {
                    assert(o1[m] == o2[m]);
                    assert(o1[m] != o1[p]);
                } else if m > p {
                    assert(before(keys, o2[p] as int, o2[m] as int));
                    lemma_before_asymmetric(keys, a, b);
                }
            } else {
                lemma_order_covers(keys, o1, b);
                let m = choose|m: int| 0 <= m < o1.len() && o1[m] == b;
                if m < p {
                    assert(o1[m] == o2[m]);
                    assert(o2[m] != o2[p]);
                } else if m > p {
                    assert(before(keys, o1[p] as int, o1[m] as int));
                    lemma_before_asymmetric(keys, a, b);
                }
            }
        }
    }
}

/// A stable sort has one outcome: any two stable orders of the same keys
/// are the same order, so the sorted listing is fully determined.
pub proof fn lemma_stable_order_unique(keys: Seq<(u8, Seq<u8>)>, o1: Seq<usize>, o2: Seq<usize>)
    requires
        stable_order(keys, o1),
        stable_order(keys, o2),
    ensures
        o1 == o2,
{
    lemma_orders_agree(keys, o1, o2, keys.len() as int);
    assert(o1 =~= o2);
}

} // verus!
