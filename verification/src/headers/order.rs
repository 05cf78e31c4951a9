//! The order in which the exported functions are written.

use crate::headers::text::chars_of;
use vstd::prelude::*;

verus! {

/// Whether `a` comes before `b` when names are ordered character by
/// character, a shorter name before each of its extensions. This is the
/// order of `str`.
pub open spec fn name_lt(a: Seq<char>, b: Seq<char>) -> bool
    decreases a.len(),
{
    if b.len() == 0 {
        false
    } else if a.len() == 0 {
        true
    } else if a.first() != b.first() {
        a.first() < b.first()
    } else {
        name_lt(a.drop_first(), b.drop_first())
    }
}

/// No name comes before itself.
pub proof fn lemma_name_lt_irreflexive(a: Seq<char>)
    ensures
        !name_lt(a, a),
    decreases a.len(),
{
    if a.len() > 0 {
        lemma_name_lt_irreflexive(a.drop_first());
    }
}

/// The order of names is transitive.
pub proof fn lemma_name_lt_transitive(a: Seq<char>, b: Seq<char>, c: Seq<char>)
    requires
        name_lt(a, b),
        name_lt(b, c),
    ensures
        name_lt(a, c),
    decreases a.len(),
{
    if a.len() > 0 && a.first() == b.first() && b.first() == c.first() {
        lemma_name_lt_transitive(a.drop_first(), b.drop_first(), c.drop_first());
    }
}

/// Of two different names one comes before the other.
pub proof fn lemma_name_lt_connected(a: Seq<char>, b: Seq<char>)
    ensures
        a == b || name_lt(a, b) || name_lt(b, a),
    decreases a.len(),
{
    if a.len() == 0 || b.len() == 0 {
        if a.len() == 0 && b.len() == 0 {
            assert(a =~= b);
        }
    } else if a.first() == b.first() {
        lemma_name_lt_connected(a.drop_first(), b.drop_first());
        if a.drop_first() == b.drop_first() {
            assert(a =~= seq![a.first()] + a.drop_first());
            assert(b =~= seq![b.first()] + b.drop_first());
        }
    }
}

/// Compares two names, given by their characters.
pub fn chars_less(a: &Vec<char>, b: &Vec<char>) -> (less: bool)
    ensures
        less == name_lt(a@, b@),
{
    let mut i: usize = 0;
    proof {
        assert(a@.skip(0) =~= a@);
        assert(b@.skip(0) =~= b@);
    }
    while i < a.len() && i < b.len() && a[i] == b[i]
        invariant
            i <= a.len(),
            i <= b.len(),
            name_lt(a@, b@) == name_lt(a@.skip(i as int), b@.skip(i as int)),
        decreases a.len() - i,
    {
        proof {
            assert(a@.skip(i as int).drop_first() =~= a@.skip(i + 1));
            assert(b@.skip(i as int).drop_first() =~= b@.skip(i + 1));
        }
        i += 1;
    }
    if i >= b.len() {
        false
    } else if i >= a.len() {
        true
    } else {
        a[i] < b[i]
    }
}

/// Every entry of `order` is the index of a function.
pub open spec fn in_range(names: Seq<Seq<char>>, order: Seq<usize>) -> bool {
    forall|k: int| 0 <= k < order.len() ==> (#[trigger] order[k]) < names.len()
}

/// `order` walks the names in strictly increasing order.
pub open spec fn increasing(names: Seq<Seq<char>>, order: Seq<usize>) -> bool {
    forall|j: int, k: int|
        #![trigger order[j], order[k]]
        0 <= j < k < order.len() ==> name_lt(names[order[j] as int], names[order[k] as int])
}

/// No function registered after an entry of `order` has the name of that
/// entry.
pub open spec fn latest(names: Seq<Seq<char>>, order: Seq<usize>) -> bool {
    forall|k: int, i: int|
        #![trigger order[k], names[i]]
        0 <= k < order.len() && order[k] < i < names.len() ==> names[i] != names[order[k] as int]
}

/// Whether `order` holds a function named `name`.
pub open spec fn holds(names: Seq<Seq<char>>, order: Seq<usize>, name: Seq<char>) -> bool {
    exists|k: int| 0 <= k < order.len() && names[(#[trigger] order[k]) as int] == name
}

/// `order` holds every name.
pub open spec fn complete(names: Seq<Seq<char>>, order: Seq<usize>) -> bool {
    forall|i: int| 0 <= i < names.len() ==> holds(names, order, #[trigger] names[i])
}

/// Whether `order` is the stable order of the functions named `names`: it
/// walks the names in strictly increasing order, holds every name, and of
/// two functions with one name it holds the one registered last.
pub open spec fn is_stable_order(names: Seq<Seq<char>>, order: Seq<usize>) -> bool {
    &&& in_range(names, order)
    &&& increasing(names, order)
    &&& latest(names, order)
    &&& complete(names, order)
}

/// The stable order of the functions named `names`, as indices into `names`.
pub open spec fn stable_order(names: Seq<Seq<char>>) -> Seq<usize> {
    choose|order: Seq<usize>| is_stable_order(names, order)
}

/// The registration order reversed, as indices into a snapshot of `len`
/// functions.
pub open spec fn reversed_order(len: nat) -> Seq<usize> {
    Seq::new(len, |k: int| (len - 1 - k) as usize)
}

/// The order in which a run writes the functions named `names`: the stable
/// one, or the registration order reversed.
pub open spec fn emission_order(names: Seq<Seq<char>>, stable: bool) -> Seq<usize> {
    if stable {
        stable_order(names)
    } else {
        reversed_order(names.len())
    }
}

/// The names that `order` walks.
pub open spec fn walked(names: Seq<Seq<char>>, order: Seq<usize>) -> Seq<Seq<char>> {
    Seq::new(order.len(), |k: int| names[order[k] as int])
}

/// Whether `keys` is strictly increasing.
pub open spec fn strictly_increasing(keys: Seq<Seq<char>>) -> bool {
    forall|j: int, k: int|
        #![trigger keys[j], keys[k]]
        0 <= j < k < keys.len() ==> name_lt(keys[j], keys[k])
}

/// Two strictly increasing sequences of names that hold the same names are
/// the same sequence.
pub proof fn lemma_increasing_unique(a: Seq<Seq<char>>, b: Seq<Seq<char>>)
    requires
        strictly_increasing(a),
        strictly_increasing(b),
        forall|x: Seq<char>| a.contains(x) <==> b.contains(x),
    ensures
        a == b,
    decreases a.len(),
{
    if a.len() == 0 {
        if b.len() > 0 {
            assert(b.contains(b[0]));
            assert(a.contains(b[0]));
        }
        assert(a =~= b);
    } else {
        let top = a.last();
        assert(a.contains(top));
        assert(b.contains(top));
        let j = choose|j: int| 0 <= j < b.len() && b[j] == top;
        assert(b.contains(b.last()));
        assert(a.contains(b.last()));
        let i = choose|i: int| 0 <= i < a.len() && a[i] == b.last();
        if j < b.len() - 1 {
            assert(name_lt(b[j], b[b.len() - 1]));
            if i < a.len() - 1 {
                assert(name_lt(a[i], a[a.len() - 1]));
                lemma_name_lt_transitive(top, b.last(), top);
            }
            lemma_name_lt_irreflexive(top);
        }
        assert(b.last() == top);
        let a0 = a.drop_last();
        let b0 = b.drop_last();
        assert forall|x: Seq<char>| a0.contains(x) <==> b0.contains(x) by {
            if a0.contains(x) {
                let m = choose|m: int| 0 <= m < a0.len() && a0[m] == x;
                assert(a[m] == x);
                assert(name_lt(a[m], a[a.len() - 1]));
                lemma_name_lt_irreflexive(top);
                assert(a.contains(x));
                assert(b.contains(x));
                let n = choose|n: int| 0 <= n < b.len() && b[n] == x;
                assert(b0[n] == x);
            }
            if b0.contains(x) {
                let n = choose|n: int| 0 <= n < b0.len() && b0[n] == x;
                assert(b[n] == x);
                assert(name_lt(b[n], b[b.len() - 1]));
                lemma_name_lt_irreflexive(top);
                assert(b.contains(x));
                assert(a.contains(x));
                let m = choose|m: int| 0 <= m < a.len() && a[m] == x;
                assert(a0[m] == x);
            }
        }
        assert(strictly_increasing(a0)) by {
            assert forall|j: int, k: int| 0 <= j < k < a0.len() implies name_lt(
                #[trigger] a0[j],
                #[trigger] a0[k],
            ) by {
                assert(name_lt(a[j], a[k]));
            }
        }
        assert(strictly_increasing(b0)) by {
            assert forall|j: int, k: int| 0 <= j < k < b0.len() implies name_lt(
                #[trigger] b0[j],
                #[trigger] b0[k],
            ) by {
                assert(name_lt(b[j], b[k]));
            }
        }
        lemma_increasing_unique(a0, b0);
        assert(a =~= a0.push(top));
        assert(b =~= b0.push(top));
    }
}

/// A stable order walks strictly increasing names, and exactly the names
/// that there are.
pub proof fn lemma_stable_order_walk(names: Seq<Seq<char>>, order: Seq<usize>)
    requires
        is_stable_order(names, order),
    ensures
        strictly_increasing(walked(names, order)),
        forall|x: Seq<char>| walked(names, order).contains(x) <==> names.contains(x),
{
    let w = walked(names, order);
    assert forall|j: int, k: int| 0 <= j < k < w.len() implies name_lt(
        #[trigger] w[j],
        #[trigger] w[k],
    ) by {
        assert(name_lt(names[order[j] as int], names[order[k] as int]));
    }
    assert forall|x: Seq<char>| w.contains(x) <==> names.contains(x) by {
        if w.contains(x) {
            let k = choose|k: int| 0 <= k < w.len() && w[k] == x;
            assert(order[k] < names.len());
            assert(names[order[k] as int] == x);
        }
        if names.contains(x) {
            let i = choose|i: int| 0 <= i < names.len() && names[i] == x;
            assert(holds(names, order, names[i]));
            let k = choose|k: int|
                0 <= k < order.len() && names[(#[trigger] order[k]) as int] == names[i];
            assert(w[k] == x);
        }
    }
}

/// A snapshot has one stable order.
pub proof fn lemma_stable_order_unique(names: Seq<Seq<char>>, first: Seq<usize>, second: Seq<usize>)
    requires
        is_stable_order(names, first),
        is_stable_order(names, second),
    ensures
        first == second,
{
    lemma_stable_order_walk(names, first);
    lemma_stable_order_walk(names, second);
    let w1 = walked(names, first);
    let w2 = walked(names, second);
    assert forall|x: Seq<char>| w1.contains(x) <==> w2.contains(x) by {
        assert(w1.contains(x) <==> names.contains(x));
        assert(w2.contains(x) <==> names.contains(x));
    }
    lemma_increasing_unique(w1, w2);
    assert(first.len() == w1.len());
    assert(second.len() == w2.len());
    assert forall|k: int| 0 <= k < first.len() implies first[k] == second[k] by {
        assert(w1[k] == w2[k]);
        assert(first[k] < names.len());
        assert(second[k] < names.len());
        let i1 = first[k] as int;
        let i2 = second[k] as int;
        if i1 < i2 {
            assert(names[i2] != names[first[k] as int]);
        }
        if i2 < i1 {
            assert(names[i1] != names[second[k] as int]);
        }
    }
    assert(first =~= second);
}

/// What a name that is already held relates to in the order.
spec fn held_at(names: Seq<Seq<char>>, order: Seq<usize>, i: int, p: int) -> bool {
    &&& 0 <= i < names.len()
    &&& i <= usize::MAX
    &&& 0 <= p < order.len()
    &&& forall|k: int| 0 <= k < order.len() ==> (#[trigger] order[k]) < i
    &&& names[order[p] as int] == names[i]
}

/// Replacing keeps the names increasing: the name at `p` stays what it was.
proof fn lemma_replace_increasing(names: Seq<Seq<char>>, order: Seq<usize>, i: int, p: int)
    requires
        held_at(names, order, i, p),
        increasing(names.take(i), order),
    ensures
        increasing(names.take(i + 1), order.update(p, i as usize)),
{
    let old_names = names.take(i);
    let new_names = names.take(i + 1);
    let updated = order.update(p, i as usize);
    assert forall|j: int, k: int|
        #![trigger updated[j], updated[k]]
        0 <= j < k < updated.len() implies name_lt(
        new_names[updated[j] as int],
        new_names[updated[k] as int],
    ) by {
        assert(order[j] < i && order[k] < i);
        assert(name_lt(old_names[order[j] as int], old_names[order[k] as int]));
    }
}

/// After replacing, every entry is still the last function of its name.
proof fn lemma_replace_latest(names: Seq<Seq<char>>, order: Seq<usize>, i: int, p: int)
    requires
        held_at(names, order, i, p),
        increasing(names.take(i), order),
        latest(names.take(i), order),
    ensures
        latest(names.take(i + 1), order.update(p, i as usize)),
{
    let old_names = names.take(i);
    let new_names = names.take(i + 1);
    let updated = order.update(p, i as usize);
    assert forall|k: int, m: int|
        #![trigger updated[k], new_names[m]]
        0 <= k < updated.len() && updated[k] < m < new_names.len() implies new_names[m]
        != new_names[updated[k] as int] by {
        if k != p {
            assert(order[k] < i);
            if m < i {
                assert(old_names[m] != old_names[order[k] as int]);
            } else {
                assert(order[p] < i);
                if k < p {
                    assert(name_lt(old_names[order[k] as int], old_names[order[p] as int]));
                } else {
                    assert(name_lt(old_names[order[p] as int], old_names[order[k] as int]));
                }
                lemma_name_lt_irreflexive(names[i]);
            }
        }
    }
}

/// After replacing, every name is still held.
proof fn lemma_replace_complete(names: Seq<Seq<char>>, order: Seq<usize>, i: int, p: int)
    requires
        held_at(names, order, i, p),
        complete(names.take(i), order),
    ensures
        complete(names.take(i + 1), order.update(p, i as usize)),
{
    let old_names = names.take(i);
    let new_names = names.take(i + 1);
    let updated = order.update(p, i as usize);
    assert forall|m: int| 0 <= m < new_names.len() implies holds(
        new_names,
        updated,
        #[trigger] new_names[m],
    ) by {
        if m < i {
            assert(old_names[m] == names[m]);
            assert(holds(old_names, order, old_names[m]));
            let k = choose|k: int|
                0 <= k < order.len() && old_names[(#[trigger] order[k]) as int] == old_names[m];
            assert(order[k] < i);
            assert(order[p] < i);
            assert(new_names[updated[k] as int] == new_names[m]);
        } else {
            assert(new_names[updated[p] as int] == new_names[m]);
        }
    }
}

/// One more function whose name is already held: it takes the place of the
/// function registered before it.
proof fn lemma_stable_replace(names: Seq<Seq<char>>, order: Seq<usize>, i: int, p: int)
    requires
        0 <= i < names.len(),
        i <= usize::MAX,
        is_stable_order(names.take(i), order),
        0 <= p < order.len(),
        names[order[p] as int] == names[i],
    ensures
        is_stable_order(names.take(i + 1), order.update(p, i as usize)),
{
    let old_names = names.take(i);
    let new_names = names.take(i + 1);
    let updated = order.update(p, i as usize);
    assert forall|k: int| 0 <= k < order.len() implies (#[trigger] order[k]) < i by {
        assert(order[k] < old_names.len());
    }
    assert(held_at(names, order, i, p));
    assert(in_range(new_names, updated)) by {
        assert forall|k: int| 0 <= k < updated.len() implies (#[trigger] updated[k])
            < new_names.len() by {
            if k != p {
                assert(updated[k] == order[k]);
            }
        }
    }
    lemma_replace_increasing(names, order, i, p);
    lemma_replace_latest(names, order, i, p);
    lemma_replace_complete(names, order, i, p);
}

/// What a new name relates to in the order that it is inserted into.
spec fn fits_at(names: Seq<Seq<char>>, order: Seq<usize>, i: int, p: int) -> bool {
    &&& 0 <= i < names.len()
    &&& i <= usize::MAX
    &&& 0 <= p <= order.len()
    &&& forall|k: int| 0 <= k < order.len() ==> (#[trigger] order[k]) < i
    &&& forall|k: int| 0 <= k < p ==> name_lt(names[(#[trigger] order[k]) as int], names[i])
    &&& forall|k: int|
        p <= k < order.len() ==> name_lt(names[i], names[(#[trigger] order[k]) as int])
}

/// The entry of the old order that stands at `k` in the new one.
spec fn origin(p: int, k: int) -> int {
    if k < p {
        k
    } else {
        k - 1
    }
}

/// Inserting at `p` keeps the names increasing.
proof fn lemma_insert_increasing(names: Seq<Seq<char>>, order: Seq<usize>, i: int, p: int)
    requires
        fits_at(names, order, i, p),
        increasing(names.take(i), order),
    ensures
        increasing(names.take(i + 1), order.insert(p, i as usize)),
{
    let old_names = names.take(i);
    let new_names = names.take(i + 1);
    let grown = order.insert(p, i as usize);
    assert forall|j: int, k: int|
        #![trigger grown[j], grown[k]]
        0 <= j < k < grown.len() implies name_lt(
        new_names[grown[j] as int],
        new_names[grown[k] as int],
    ) by {
        if j == p {
            assert(grown[k] == order[origin(p, k)]);
        } else if k == p {
            assert(grown[j] == order[origin(p, j)]);
        } else {
            assert(grown[j] == order[origin(p, j)]);
            assert(grown[k] == order[origin(p, k)]);
            assert(name_lt(
                old_names[order[origin(p, j)] as int],
                old_names[order[origin(p, k)] as int],
            ));
        }
    }
}

/// After inserting, every entry is still the last function of its name.
proof fn lemma_insert_latest(names: Seq<Seq<char>>, order: Seq<usize>, i: int, p: int)
    requires
        fits_at(names, order, i, p),
        latest(names.take(i), order),
    ensures
        latest(names.take(i + 1), order.insert(p, i as usize)),
{
    let old_names = names.take(i);
    let new_names = names.take(i + 1);
    let grown = order.insert(p, i as usize);
    assert forall|k: int, m: int|
        #![trigger grown[k], new_names[m]]
        0 <= k < grown.len() && grown[k] < m < new_names.len() implies new_names[m]
        != new_names[grown[k] as int] by {
        if k != p {
            let o = origin(p, k);
            assert(grown[k] == order[o]);
            if m < i {
                assert(old_names[m] != old_names[order[o] as int]);
            } else {
                lemma_name_lt_irreflexive(names[i]);
                if o >= p {
                    assert(name_lt(names[i], names[order[o] as int]));
                } else {
                    assert(name_lt(names[order[o] as int], names[i]));
                }
            }
        }
    }
}

/// After inserting, every name is held, the new one too.
proof fn lemma_insert_complete(names: Seq<Seq<char>>, order: Seq<usize>, i: int, p: int)
    requires
        fits_at(names, order, i, p),
        complete(names.take(i), order),
    ensures
        complete(names.take(i + 1), order.insert(p, i as usize)),
{
    let old_names = names.take(i);
    let new_names = names.take(i + 1);
    let grown = order.insert(p, i as usize);
    assert forall|m: int| 0 <= m < new_names.len() implies holds(
        new_names,
        grown,
        #[trigger] new_names[m],
    ) by {
        if m < i {
            assert(old_names[m] == names[m]);
            assert(holds(old_names, order, old_names[m]));
            let o = choose|o: int|
                0 <= o < order.len() && old_names[(#[trigger] order[o]) as int] == old_names[m];
            let k = if o < p {
                o
            } else {
                o + 1
            };
            assert(grown[k] == order[o]);
            assert(order[o] < i);
            assert(new_names[grown[k] as int] == new_names[m]);
        } else {
            assert(new_names[grown[p] as int] == new_names[m]);
        }
    }
}

/// One more function with a new name: it goes between the names that come
/// before its own and those that come after.
proof fn lemma_stable_insert(names: Seq<Seq<char>>, order: Seq<usize>, i: int, p: int)
    requires
        0 <= i < names.len(),
        i <= usize::MAX,
        is_stable_order(names.take(i), order),
        0 <= p <= order.len(),
        forall|j: int| 0 <= j < p ==> name_lt(names[(#[trigger] order[j]) as int], names[i]),
        p < order.len() ==> name_lt(names[i], names[order[p] as int]),
    ensures
        is_stable_order(names.take(i + 1), order.insert(p, i as usize)),
{
    let old_names = names.take(i);
    let new_names = names.take(i + 1);
    let grown = order.insert(p, i as usize);
    assert forall|k: int| 0 <= k < order.len() implies (#[trigger] order[k]) < i by {
        assert(order[k] < old_names.len());
    }
    assert forall|k: int| p <= k < order.len() implies name_lt(
        names[i],
        names[(#[trigger] order[k]) as int],
    ) by {
        if k > p {
            assert(name_lt(old_names[order[p] as int], old_names[order[k] as int]));
            lemma_name_lt_transitive(names[i], names[order[p] as int], names[order[k] as int]);
        }
    }
    assert(fits_at(names, order, i, p));
    assert(in_range(new_names, grown)) by {
        assert forall|k: int| 0 <= k < grown.len() implies (#[trigger] grown[k])
            < new_names.len() by {
            if k != p {
                assert(grown[k] == order[origin(p, k)]);
            }
        }
    }
    lemma_insert_increasing(names, order, i, p);
    lemma_insert_latest(names, order, i, p);
    lemma_insert_complete(names, order, i, p);
}

/// Where a name goes in an order: behind the names that come before it.
proof fn lemma_find_place(names: Seq<Seq<char>>, order: Seq<usize>, i: int, from: int) -> (p: int)
    requires
        0 <= i < names.len(),
        is_stable_order(names.take(i), order),
        0 <= from <= order.len(),
        forall|k: int|
            from <= k < order.len() ==> !name_lt(names[(#[trigger] order[k]) as int], names[i]),
    ensures
        0 <= p <= from,
        forall|k: int| 0 <= k < p ==> name_lt(names[(#[trigger] order[k]) as int], names[i]),
        p < order.len() ==> !name_lt(names[order[p] as int], names[i]),
    decreases from,
{
    if from == 0 {
        0
    } else if name_lt(names[order[from - 1] as int], names[i]) {
        let old_names = names.take(i);
        assert forall|k: int| 0 <= k < from implies name_lt(
            names[(#[trigger] order[k]) as int],
            names[i],
        ) by {
            assert(order[k] < old_names.len());
            assert(order[from - 1] < old_names.len());
            if k < from - 1 {
                assert(name_lt(old_names[order[k] as int], old_names[order[from - 1] as int]));
                lemma_name_lt_transitive(
                    names[order[k] as int],
                    names[order[from - 1] as int],
                    names[i],
                );
            }
        }
        from
    } else {
        lemma_find_place(names, order, i, from - 1)
    }
}

/// The first `upto` functions of a snapshot have a stable order.
proof fn lemma_stable_prefix(names: Seq<Seq<char>>, upto: int) -> (order: Seq<usize>)
    requires
        0 <= upto <= names.len(),
        upto <= usize::MAX,
    ensures
        is_stable_order(names.take(upto), order),
    decreases upto,
{
    if upto == 0 {
        let order = Seq::<usize>::empty();
        assert(is_stable_order(names.take(0), order));
        order
    } else {
        let i = upto - 1;
        let order = lemma_stable_prefix(names, i);
        let p = lemma_find_place(names, order, i, order.len() as int);
        assert(forall|k: int| 0 <= k < order.len() ==> (#[trigger] order[k]) < names.take(i).len());
        if p < order.len() && !name_lt(names[i], names[order[p] as int]) {
            lemma_name_lt_connected(names[order[p] as int], names[i]);
            lemma_stable_replace(names, order, i, p);
            order.update(p, i as usize)
        } else {
            if p < order.len() {
                lemma_name_lt_connected(names[order[p] as int], names[i]);
            }
            lemma_stable_insert(names, order, i, p);
            order.insert(p, i as usize)
        }
    }
}

/// Every snapshot has a stable order, and `stable_order` is it.
pub proof fn lemma_stable_order_exists(names: Seq<Seq<char>>)
    requires
        names.len() <= usize::MAX,
    ensures
        is_stable_order(names, stable_order(names)),
{
    let order = lemma_stable_prefix(names, names.len() as int);
    assert(names.take(names.len() as int) =~= names);
}

/// The names given by their characters.
pub open spec fn names_of_keys(keys: Seq<Vec<char>>) -> Seq<Seq<char>> {
    Seq::new(keys.len(), |i: int| keys[i]@)
}

/// Sorts the functions by name: the result holds, in increasing order of the
/// names, one index for each name, that of the function registered last
/// under it.
pub fn stable_indices(keys: &Vec<Vec<char>>) -> (order: Vec<usize>)
    ensures
        is_stable_order(names_of_keys(keys@), order@),
        order@ == stable_order(names_of_keys(keys@)),
{
    let ghost names = names_of_keys(keys@);
    let mut order: Vec<usize> = Vec::new();
    let mut i: usize = 0;
    proof {
        assert(is_stable_order(names.take(0), order@));
    }
    while i < keys.len()
        invariant
            i <= keys.len(),
            names == names_of_keys(keys@),
            is_stable_order(names.take(i as int), order@),
        decreases keys.len() - i,
    {
        let mut p: usize = 0;
        proof {
            assert forall|k: int| 0 <= k < order@.len() implies (#[trigger] order@[k]) < i by {
                assert(order@[k] < names.take(i as int).len());
            }
        }
        while p < order.len() && chars_less(&keys[order[p]], &keys[i])
            invariant
                p <= order.len(),
                i < keys.len(),
                names == names_of_keys(keys@),
                forall|k: int| 0 <= k < order@.len() ==> (#[trigger] order@[k]) < i,
                forall|j: int|
                    0 <= j < p ==> name_lt(names[(#[trigger] order@[j]) as int], names[i as int]),
            decreases order.len() - p,
        {
            p += 1;
        }
        if p < order.len() && !chars_less(&keys[i], &keys[order[p]]) {
            proof {
                lemma_name_lt_connected(names[order@[p as int] as int], names[i as int]);
                lemma_stable_replace(names, order@, i as int, p as int);
            }
            order.set(p, i);
        } else {
            proof {
                lemma_stable_insert(names, order@, i as int, p as int);
            }
            order.insert(p, i);
        }
        i += 1;
    }
    proof {
        assert(names.take(keys@.len() as int) =~= names);
        lemma_stable_order_unique(names, order@, stable_order(names));
    }
    order
}

/// The indices of a snapshot of `len` functions, last one first.
pub fn reversed_indices(len: usize) -> (order: Vec<usize>)
    ensures
        order@ == reversed_order(len as nat),
{
    let mut order: Vec<usize> = Vec::new();
    let mut i: usize = len;
    while i > 0
        invariant
            i <= len,
            order@.len() == len - i,
            forall|k: int| 0 <= k < order@.len() ==> (#[trigger] order@[k]) == len - 1 - k,
        decreases i,
    {
        i -= 1;
        order.push(i);
    }
    proof {
        assert(order@ =~= reversed_order(len as nat));
    }
    order
}

} // verus!
