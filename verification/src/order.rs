//! The order in which the entries of a directory are archived: by name, byte by byte.

use vstd::prelude::*;

verus! {

/// Lexicographic order of byte sequences, strict.
pub open spec fn bytes_before(a: Seq<u8>, b: Seq<u8>) -> bool
    decreases a.len(),
{
    if b.len() == 0 {
        false
    } else if a.len() == 0 {
        true
    } else if a[0] != b[0] {
        a[0] < b[0]
    } else {
        bytes_before(a.drop_first(), b.drop_first())
    }
}

/// Entry `i` is archived before entry `j`: by name, and by position where names are equal.
pub open spec fn precedes(names: Seq<Seq<u8>>, i: int, j: int) -> bool {
    bytes_before(names[i], names[j]) || (names[i] == names[j] && i < j)
}

/// `order` lists the positions of `names` so that each precedes all that follow.
pub open spec fn is_name_order(order: Seq<int>, names: Seq<Seq<u8>>) -> bool {
    &&& order.len() == names.len()
    &&& forall|k: int| 0 <= k < order.len() ==> 0 <= #[trigger] order[k] < names.len()
    &&& forall|k: int, m: int|
        0 <= k < m < order.len() ==> precedes(names, #[trigger] order[k], #[trigger] order[m])
}

/// The one order of the positions of `names` that is a name order.
pub open spec fn name_order(names: Seq<Seq<u8>>) -> Seq<int> {
    choose|order: Seq<int>| is_name_order(order, names)
}

/// The order is irreflexive.
pub proof fn lemma_before_irreflexive(a: Seq<u8>)
    ensures
        !bytes_before(a, a),
    decreases a.len(),
{
    if a.len() > 0 {
        lemma_before_irreflexive(a.drop_first());
    }
}

/// The order is transitive.
pub proof fn lemma_before_transitive(a: Seq<u8>, b: Seq<u8>, c: Seq<u8>)
    requires
        bytes_before(a, b),
        bytes_before(b, c),
    ensures
        bytes_before(a, c),
    decreases a.len(),
{
    if a.len() > 0 && a[0] == b[0] && b[0] == c[0] {
        lemma_before_transitive(a.drop_first(), b.drop_first(), c.drop_first());
    }
}

/// Of two different sequences one comes before the other.
pub proof fn lemma_before_total(a: Seq<u8>, b: Seq<u8>)
    ensures
        a == b || bytes_before(a, b) || bytes_before(b, a),
    decreases a.len(),
{
    if a.len() == 0 || b.len() == 0 {
        if a.len() == 0 && b.len() == 0 {
            assert(a =~= b);
        }
    } else if a[0] == b[0] {
        lemma_before_total(a.drop_first(), b.drop_first());
        if a.drop_first() == b.drop_first() {
            assert(a =~= seq![a[0]] + a.drop_first());
            assert(b =~= seq![b[0]] + b.drop_first());
        }
    }
}

proof fn lemma_precedes_irreflexive(names: Seq<Seq<u8>>, i: int)
    ensures
        !precedes(names, i, i),
{
    lemma_before_irreflexive(names[i]);
}

proof fn lemma_precedes_transitive(names: Seq<Seq<u8>>, i: int, j: int, k: int)
    requires
        precedes(names, i, j),
        precedes(names, j, k),
    ensures
        precedes(names, i, k),
{
    if bytes_before(names[i], names[j]) && bytes_before(names[j], names[k]) {
        lemma_before_transitive(names[i], names[j], names[k]);
    }
}

proof fn lemma_precedes_total(names: Seq<Seq<u8>>, i: int, j: int)
    ensures
        i == j || precedes(names, i, j) || precedes(names, j, i),
{
    lemma_before_total(names[i], names[j]);
}

/// A name order holds every position.
pub proof fn lemma_name_order_covers(order: Seq<int>, names: Seq<Seq<u8>>, i: int)
    requires
        is_name_order(order, names),
        0 <= i < names.len(),
    ensures
        order.contains(i),
{
    let n = names.len() as int;
    assert(order.no_duplicates()) by {
        assert forall|k: int, m: int| 0 <= k < m < order.len() implies order[k] != order[m] by {
            assert(precedes(names, order[k], order[m]));
            lemma_precedes_irreflexive(names, order[k]);
        }
    }
    order.unique_seq_to_set();
    let range = vstd::set_lib::set_int_range(0, n);
    vstd::set_lib::lemma_int_range(0, n);
    assert(order.to_set().subset_of(range)) by {
        assert forall|x: int| order.to_set().contains(x) implies range.contains(x) by {
            let k = choose|k: int| 0 <= k < order.len() && order[k] == x;
        }
    }
    vstd::set_lib::lemma_subset_equality(order.to_set(), range);
    assert(range.contains(i));
    assert(order.to_set().contains(i));
}

/// There is only one name order.
pub proof fn lemma_name_order_unique(p: Seq<int>, q: Seq<int>, names: Seq<Seq<u8>>)
    requires
        is_name_order(p, names),
        is_name_order(q, names),
    ensures
        p == q,
{
    lemma_name_order_agree(p, q, names, names.len() as int);
    assert(p =~= q);
}

proof fn lemma_name_order_agree(p: Seq<int>, q: Seq<int>, names: Seq<Seq<u8>>, n: int)
    requires
        is_name_order(p, names),
        is_name_order(q, names),
        0 <= n <= names.len(),
    ensures
        forall|k: int| 0 <= k < n ==> p[k] == q[k],
    decreases n,
{
    if n > 0 {
        lemma_name_order_agree(p, q, names, n - 1);
        let k = n - 1;
        if p[k] != q[k] {
            lemma_precedes_total(names, p[k], q[k]);
            if precedes(names, p[k], q[k]) {
                lemma_no_gap(p, q, names, k);
            } else {
                lemma_no_gap(q, p, names, k);
            }
        }
    }
}

proof fn lemma_no_gap(p: Seq<int>, q: Seq<int>, names: Seq<Seq<u8>>, k: int)
    requires
        is_name_order(p, names),
        is_name_order(q, names),
        0 <= k < names.len(),
        forall|i: int| 0 <= i < k ==> p[i] == q[i],
    ensures
        !precedes(names, p[k], q[k]),
{
    if precedes(names, p[k], q[k]) {
        lemma_name_order_covers(q, names, p[k]);
        let m = choose|m: int| 0 <= m < q.len() && q[m] == p[k];
        lemma_precedes_irreflexive(names, p[k]);
        if m < k {
            assert(precedes(names, p[m], p[k]));
        } else if m > k {
            assert(precedes(names, q[k], q[m]));
            lemma_precedes_transitive(names, p[k], q[k], q[m]);
        }
    }
}

/// The place in an order at which one more position belongs.
proof fn lemma_place(order: Seq<int>, names: Seq<Seq<u8>>, n: int, k: int) -> (p: int)
    requires
        0 <= k <= order.len(),
        forall|i: int| 0 <= i < order.len() ==> #[trigger] order[i] != n,
        forall|i: int, j: int|
            0 <= i < j < order.len() ==> precedes(names, #[trigger] order[i], #[trigger] order[j]),
        forall|i: int| k <= i < order.len() ==> precedes(names, n, #[trigger] order[i]),
    ensures
        0 <= p <= order.len(),
        forall|i: int| 0 <= i < p ==> precedes(names, #[trigger] order[i], n),
        forall|i: int| p <= i < order.len() ==> precedes(names, n, #[trigger] order[i]),
    decreases k,
{
    if k == 0 {
        0
    } else {
        lemma_precedes_total(names, order[k - 1], n);
        if precedes(names, n, order[k - 1]) {
            lemma_place(order, names, n, k - 1)
        } else {
            assert forall|i: int| 0 <= i < k implies precedes(names, #[trigger] order[i], n) by {
                if i < k - 1 {
                    lemma_precedes_transitive(names, order[i], order[k - 1], n);
                }
            }
            k
        }
    }
}

/// Every list of names has a name order.
pub proof fn lemma_name_order_exists(names: Seq<Seq<u8>>)
    ensures
        is_name_order(name_order(names), names),
    decreases names.len(),
{
    if names.len() == 0 {
        assert(is_name_order(seq![], names));
    } else {
        let short = names.drop_last();
        let n = short.len() as int;
        lemma_name_order_exists(short);
        let order = name_order(short);
        assert forall|i: int, j: int| 0 <= i < j < order.len() implies precedes(
            names,
            #[trigger] order[i],
            #[trigger] order[j],
        ) by {
            assert(precedes(short, order[i], order[j]));
        }
        let p = lemma_place(order, names, n, n);
        let full = order.insert(p, n);
        assert forall|k: int| 0 <= k < full.len() implies 0 <= #[trigger] full[k] < names.len() by {
            if k < p {
                assert(full[k] == order[k]);
            } else if k > p {
                assert(full[k] == order[k - 1]);
            }
        }
        assert forall|k: int, m: int| 0 <= k < m < full.len() implies precedes(
            names,
            #[trigger] full[k],
            #[trigger] full[m],
        ) by {
            let a = if k < p {
                order[k]
            } else if k == p {
                n
            } else {
                order[k - 1]
            };
            let b = if m < p {
                order[m]
            } else if m == p {
                n
            } else {
                order[m - 1]
            };
            assert(full[k] == a);
            assert(full[m] == b);
        }
        assert(is_name_order(full, names));
    }
}

/// Whether `a` comes before `b`.
pub(crate) fn comes_before(a: &Vec<u8>, b: &Vec<u8>) -> (res: bool)
    ensures
        res == bytes_before(a@, b@),
{
    let mut i: usize = 0;
    assert(a@.skip(0) =~= a@);
    assert(b@.skip(0) =~= b@);
    while i < a.len() && i < b.len()
        invariant
            i <= a@.len(),
            i <= b@.len(),
            bytes_before(a@, b@) == bytes_before(a@.skip(i as int), b@.skip(i as int)),
        decreases a.len() - i,
    {
        if a[i] != b[i] {
            return a[i] < b[i];
        }
        assert(a@.skip(i as int).drop_first() =~= a@.skip(i + 1));
        assert(b@.skip(i as int).drop_first() =~= b@.skip(i + 1));
        i += 1;
    }
    i < b.len()
}

/// The byte sequences of a list of names.
pub open spec fn names_view(names: Seq<&Vec<u8>>) -> Seq<Seq<u8>> {
    names.map_values(|n: &Vec<u8>| n@)
}

/// Positions as mathematical integers.
pub open spec fn positions(order: Seq<usize>) -> Seq<int> {
    order.map_values(|p: usize| p as int)
}

spec fn is_partial_order(order: Seq<usize>, names: Seq<Seq<u8>>, n: int) -> bool {
    &&& order.len() == n
    &&& forall|k: int| 0 <= k < order.len() ==> 0 <= #[trigger] order[k] < n
    &&& forall|k: int, m: int|
        0 <= k < m < order.len() ==> precedes(
            names,
            (#[trigger] order[k]) as int,
            (#[trigger] order[m]) as int,
        )
}

/// The positions of `names` in the order of their names.
pub(crate) fn sort_names(names: &Vec<&Vec<u8>>) -> (res: Vec<usize>)
    ensures
        positions(res@) == name_order(names_view(names@)),
        is_name_order(positions(res@), names_view(names@)),
{
    let ghost all = names_view(names@);
    let mut order: Vec<usize> = Vec::new();
    let mut n: usize = 0;
    while n < names.len()
        invariant
            n <= names@.len(),
            all == names_view(names@),
            is_partial_order(order@, all, n as int),
        decreases names.len() - n,
    {
        let ghost before = order@;
        let mut p: usize = n;
        while p > 0 && comes_before(names[n], names[order[p - 1]])
            invariant
                p <= n < names@.len(),
                all == names_view(names@),
                order@ == before,
                is_partial_order(before, all, n as int),
                forall|k: int|
                    p <= k < n ==> bytes_before(all[n as int], all[(#[trigger] before[k]) as int]),
            decreases p,
        {
            assert(all[n as int] == names@[n as int]@);
            assert(all[before[p - 1] as int] == names@[before[p - 1] as int]@);
            p -= 1;
        }
        order.insert(p, n);
        proof {
            assert(order@ == before.insert(p as int, n));
            if p > 0 {
                assert(all[n as int] == names@[n as int]@);
                assert(all[before[p - 1] as int] == names@[before[p - 1] as int]@);
                lemma_before_total(all[n as int], all[before[p - 1] as int]);
                assert(precedes(all, before[p - 1] as int, n as int));
            }
            assert forall|k: int, m: int| 0 <= k < m < order@.len() implies precedes(
                all,
                (#[trigger] order@[k]) as int,
                (#[trigger] order@[m]) as int,
            ) by {
                if k < p && m < p {
                    assert(order@[k] == before[k] && order@[m] == before[m]);
                } else if k < p && m == p {
                    assert(order@[k] == before[k]);
                    if k < p - 1 {
                        assert(precedes(all, before[k] as int, before[p - 1] as int));
                        lemma_precedes_transitive(
                            all,
                            before[k] as int,
                            before[p - 1] as int,
                            n as int,
                        );
                    }
                } else if k < p && m > p {
                    assert(order@[k] == before[k] && order@[m] == before[m - 1]);
                } else if k == p {
                    assert(order@[m] == before[m - 1]);
                } else {
                    assert(order@[k] == before[k - 1] && order@[m] == before[m - 1]);
                }
            }
        }
        n += 1;
    }
    proof {
        let p = positions(order@);
        assert forall|k: int, m: int| 0 <= k < m < p.len() implies precedes(
            all,
            #[trigger] p[k],
            #[trigger] p[m],
        ) by {
            assert(p[k] == order@[k] as int && p[m] == order@[m] as int);
        }
        assert(is_name_order(p, all));
        lemma_name_order_unique(p, name_order(all), all);
    }
    order
}

} // verus!
