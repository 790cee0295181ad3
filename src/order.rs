//! Ordering of handler names: ordinal comparison, character by character,
//! and the sort that puts a list of names in that order.
use vstd::prelude::*;
use vstd::relations::{sorted_by, total_ordering};
use vstd::seq_lib::group_to_multiset_ensures;

verus! {

/// `a` comes no later than `b` in ordinal order: compared by code point,
/// character by character, a proper prefix first.
pub open spec fn name_le(a: Seq<char>, b: Seq<char>) -> bool
    decreases a.len(),
{
    if a.len() == 0 {
        true
    } else if b.len() == 0 {
        false
    } else if a[0] != b[0] {
        (a[0] as int) < (b[0] as int)
    } else {
        name_le(a.drop_first(), b.drop_first())
    }
}

/// The ordinal order as a relation.
pub open spec fn name_order() -> spec_fn(Seq<char>, Seq<char>) -> bool {
    |a: Seq<char>, b: Seq<char>| name_le(a, b)
}

/// The text of each of `v`, in order.
pub open spec fn texts(v: Seq<String>) -> Seq<Seq<char>> {
    v.map_values(|s: String| s@)
}

/// `names` in ordinal order.
pub open spec fn sorted_names(names: Seq<Seq<char>>) -> Seq<Seq<char>> {
    names.sort_by(name_order())
}

proof fn lemma_name_le_reflexive(a: Seq<char>)
    ensures
        name_le(a, a),
    decreases a.len(),
{
    if a.len() > 0 {
        lemma_name_le_reflexive(a.drop_first());
    }
}

proof fn lemma_name_le_total(a: Seq<char>, b: Seq<char>)
    ensures
        name_le(a, b) || name_le(b, a),
    decreases a.len(),
{
    if a.len() > 0 && b.len() > 0 {
        if a[0] == b[0] {
            lemma_name_le_total(a.drop_first(), b.drop_first());
        } else {
            assert((a[0] as int) != (b[0] as int));
        }
    }
}

proof fn lemma_name_le_antisymmetric(a: Seq<char>, b: Seq<char>)
    requires
        name_le(a, b),
        name_le(b, a),
    ensures
        a == b,
    decreases a.len(),
{
    if a.len() > 0 {
        lemma_name_le_antisymmetric(a.drop_first(), b.drop_first());
        assert(a =~= seq![a[0]] + a.drop_first());
        assert(b =~= seq![b[0]] + b.drop_first());
    } else {
        assert(b.len() == 0);
        assert(a =~= b);
    }
}

proof fn lemma_name_le_transitive(a: Seq<char>, b: Seq<char>, c: Seq<char>)
    requires
        name_le(a, b),
        name_le(b, c),
    ensures
        name_le(a, c),
    decreases a.len(),
{
    if a.len() > 0 && b.len() > 0 && c.len() > 0 && a[0] == b[0] && b[0] == c[0] {
        lemma_name_le_transitive(a.drop_first(), b.drop_first(), c.drop_first());
    }
}

/// The ordinal order is a total order on names.
pub proof fn lemma_name_order_total()
    ensures
        total_ordering(name_order()),
{
    assert forall|a: Seq<char>| #[trigger] name_order()(a, a) by {
        lemma_name_le_reflexive(a);
    }
    assert forall|a: Seq<char>, b: Seq<char>|
        #[trigger] name_order()(a, b) && #[trigger] name_order()(b, a) implies a == b by {
        lemma_name_le_antisymmetric(a, b);
    }
    assert forall|a: Seq<char>, b: Seq<char>, c: Seq<char>|
        #[trigger] name_order()(a, b) && #[trigger] name_order()(b, c) implies name_order()(
        a,
        c,
    ) by {
        lemma_name_le_transitive(a, b, c);
    }
    assert forall|a: Seq<char>, b: Seq<char>|
        #[trigger] name_order()(a, b) || #[trigger] name_order()(b, a) by {
        lemma_name_le_total(a, b);
    }
}

proof fn lemma_multiset_insert<A>(s: Seq<A>, i: int, x: A)
    requires
        0 <= i <= s.len(),
    ensures
        s.insert(i, x).to_multiset() =~= s.to_multiset().insert(x),
{
    broadcast use group_to_multiset_ensures;

    let t = s.insert(i, x);
    assert(t.remove(i) =~= s);
    assert(t[i] == x);
    assert(t.contains(x));
    assert(t.to_multiset().count(x) > 0);
}

/// Two orderings of the same names agree once both are sorted.
proof fn lemma_sorted_unique(a: Seq<Seq<char>>, b: Seq<Seq<char>>)
    requires
        sorted_by(a, name_order()),
        sorted_by(b, name_order()),
        a.to_multiset() == b.to_multiset(),
    ensures
        a == b,
    decreases a.len(),
{
    broadcast use group_to_multiset_ensures;

    lemma_name_order_total();
    assert(a.len() == a.to_multiset().len());
    assert(b.len() == b.to_multiset().len());
    if a.len() == 0 {
        assert(a =~= b);
    } else {
        assert(a.contains(a[0]));
        assert(b.to_multiset().count(a[0]) > 0);
        let j = choose|j: int| 0 <= j < b.len() && b[j] == a[0];
        assert(name_order()(b[0], b[j]));
        assert(b.contains(b[0]));
        assert(a.to_multiset().count(b[0]) > 0);
        let k = choose|k: int| 0 <= k < a.len() && a[k] == b[0];
        assert(name_order()(a[0], a[k]));
        assert(a[0] == b[0]);
        assert(a.remove(0) =~= a.drop_first());
        assert(b.remove(0) =~= b.drop_first());
        assert(sorted_by(a.drop_first(), name_order())) by {
            assert forall|i: int, j: int| 0 <= i < j < a.drop_first().len() implies #[trigger] name_order()(
                a.drop_first()[i],
                a.drop_first()[j],
            ) by {
                assert(name_order()(a[i + 1], a[j + 1]));
            }
        }
        assert(sorted_by(b.drop_first(), name_order())) by {
            assert forall|i: int, j: int| 0 <= i < j < b.drop_first().len() implies #[trigger] name_order()(
                b.drop_first()[i],
                b.drop_first()[j],
            ) by {
                assert(name_order()(b[i + 1], b[j + 1]));
            }
        }
        lemma_sorted_unique(a.drop_first(), b.drop_first());
        assert(a =~= seq![a[0]] + a.drop_first());
        assert(b =~= seq![b[0]] + b.drop_first());
    }
}

/// What sorting gives: the same names, as often each, in ordinal order.
pub proof fn lemma_sorted_names_ensures(names: Seq<Seq<char>>)
    ensures
        sorted_names(names).to_multiset() == names.to_multiset(),
        sorted_names(names).len() == names.len(),
        sorted_by(sorted_names(names), name_order()),
{
    broadcast use group_to_multiset_ensures;

    lemma_name_order_total();
    names.lemma_sort_by_ensures(name_order());
    assert(sorted_names(names).len() == sorted_names(names).to_multiset().len());
}

/// Sorting depends only on which names there are, not on the order in
/// which they arrive.
pub proof fn lemma_sorted_names_order_independent(a: Seq<Seq<char>>, b: Seq<Seq<char>>)
    requires
        a.to_multiset() == b.to_multiset(),
    ensures
        sorted_names(a) == sorted_names(b),
{
    lemma_name_order_total();
    a.lemma_sort_by_ensures(name_order());
    b.lemma_sort_by_ensures(name_order());
    lemma_sorted_unique(sorted_names(a), sorted_names(b));
}

proof fn lemma_name_le_skip(a: Seq<char>, b: Seq<char>, i: int)
    requires
        0 <= i <= a.len(),
        i <= b.len(),
        a.subrange(0, i) == b.subrange(0, i),
    ensures
        name_le(a, b) == name_le(a.subrange(i, a.len() as int), b.subrange(i, b.len() as int)),
    decreases i,
{
    if i > 0 {
        assert(a[0] == a.subrange(0, i)[0]);
        assert(b[0] == b.subrange(0, i)[0]);
        assert(a.drop_first().subrange(0, i - 1) =~= a.subrange(1, i));
        assert(b.drop_first().subrange(0, i - 1) =~= b.subrange(1, i));
        assert(a.subrange(1, i) =~= a.subrange(0, i).drop_first());
        assert(b.subrange(1, i) =~= b.subrange(0, i).drop_first());
        lemma_name_le_skip(a.drop_first(), b.drop_first(), i - 1);
        assert(a.drop_first().subrange(i - 1, a.len() - 1) =~= a.subrange(i, a.len() as int));
        assert(b.drop_first().subrange(i - 1, b.len() - 1) =~= b.subrange(i, b.len() as int));
    } else {
        assert(a.subrange(0, a.len() as int) =~= a);
        assert(b.subrange(0, b.len() as int) =~= b);
    }
}

/// Whether `a` comes no later than `b` in ordinal order.
pub fn name_precedes(a: &str, b: &str) -> (r: bool)
    ensures
        r == name_le(a@, b@),
{
    let la = a.unicode_len();
    let lb = b.unicode_len();
    let mut i: usize = 0;
    while i < la && i < lb && a.get_char(i) == b.get_char(i)
        invariant
            i <= la,
            i <= lb,
            la == a@.len(),
            lb == b@.len(),
            a@.subrange(0, i as int) == b@.subrange(0, i as int),
        decreases la - i,
    {
        assert(a@.subrange(0, i + 1) =~= a@.subrange(0, i as int).push(a@[i as int]));
        assert(b@.subrange(0, i + 1) =~= b@.subrange(0, i as int).push(b@[i as int]));
        i = i + 1;
    }
    proof {
        lemma_name_le_skip(a@, b@, i as int);
    }
    let ghost ta = a@.subrange(i as int, a@.len() as int);
    let ghost tb = b@.subrange(i as int, b@.len() as int);
    if i == la {
        true
    } else if i == lb {
        false
    } else {
        let ca = a.get_char(i);
        let cb = b.get_char(i);
        assert(ta[0] == ca && tb[0] == cb);
        (ca as u32) < (cb as u32)
    }
}

/// `names`, put in ordinal order; equal names keep their relative order.
pub fn sort_names(names: &Vec<String>) -> (r: Vec<String>)
    ensures
        texts(r@) == sorted_names(texts(names@)),
        texts(r@).to_multiset() == texts(names@).to_multiset(),
        sorted_by(texts(r@), name_order()),
{
    let mut out: Vec<String> = Vec::new();
    let mut i: usize = 0;
    proof {
        lemma_name_order_total();
        assert(texts(out@) =~= Seq::empty());
        assert(texts(names@.subrange(0, 0)) =~= Seq::empty());
    }
    while i < names.len()
        invariant
            i <= names.len(),
            total_ordering(name_order()),
            sorted_by(texts(out@), name_order()),
            texts(out@).to_multiset() == texts(names@.subrange(0, i as int)).to_multiset(),
        decreases names.len() - i,
    {
        let x = names[i].clone();
        let mut j: usize = 0;
        while j < out.len() && name_precedes(out[j].as_str(), x.as_str())
            invariant
                j <= out.len(),
                forall|k: int| 0 <= k < j ==> name_le(#[trigger] out@[k]@, x@),
            decreases out.len() - j,
        {
            j = j + 1;
        }
        let ghost before = out@;
        out.insert(j, x);
        proof {
            let tb = texts(before);
            assert(texts(out@) =~= tb.insert(j as int, x@));
            lemma_multiset_insert(tb, j as int, x@);
            assert(texts(names@.subrange(0, i + 1)) =~= texts(names@.subrange(0, i as int)).push(
                x@,
            ));
            assert(texts(names@.subrange(0, i as int)).push(x@) =~= texts(
                names@.subrange(0, i as int),
            ).insert(i as int, x@));
            lemma_multiset_insert(texts(names@.subrange(0, i as int)), i as int, x@);
            if j < before.len() {
                assert(!name_le(before[j as int]@, x@));
                lemma_name_le_total(before[j as int]@, x@);
            }
            let t = texts(out@);
            assert forall|p: int, q: int| 0 <= p < q < t.len() implies #[trigger] name_order()(
                t[p],
                t[q],
            ) by {
                if q < j {
                    assert(name_order()(tb[p], tb[q]));
                } else if q == j {
                    assert(name_le(before[p]@, x@));
                } else if p == j {
                    if q - 1 > j {
                        assert(name_order()(tb[j as int], tb[q - 1]));
                    } else {
                        lemma_name_le_reflexive(tb[j as int]);
                    }
                    lemma_name_le_transitive(x@, tb[j as int], tb[q - 1]);
                } else if p < j {
                    assert(name_order()(tb[p], tb[q - 1]));
                } else {
                    assert(name_order()(tb[p - 1], tb[q - 1]));
                }
            }
        }
        i = i + 1;
    }
    proof {
        assert(names@.subrange(0, names@.len() as int) =~= names@);
        let s = texts(names@);
        s.lemma_sort_by_ensures(name_order());
        lemma_sorted_unique(texts(out@), sorted_names(s));
    }
    out
}

} // verus!
