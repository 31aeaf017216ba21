use crate::text::{rows, texts, to_rows, to_texts};
use vstd::prelude::*;
use vstd::relations::{sorted_by, total_ordering};
use vstd::seq_lib::lemma_sorted_unique;

verus! {

/// The first index at or after `i` where `a` and `b` differ or one of them
/// ends.
pub open spec fn first_diff(a: Seq<char>, b: Seq<char>, i: int) -> int
    decreases a.len() - i,
{
    if 0 <= i < a.len() && i < b.len() && a[i] == b[i] {
        first_diff(a, b, i + 1)
    } else {
        i
    }
}

/// Whether `a` stands before `b`, or is `b`, in the order of a dictionary
/// whose alphabet is the code points: `a` is a prefix of `b`, or where the
/// two first differ `a` holds the lesser code point.
pub open spec fn text_le(a: Seq<char>, b: Seq<char>) -> bool {
    let k = first_diff(a, b, 0);
    k >= a.len() || (k < b.len() && (a[k] as u32) < (b[k] as u32))
}

/// The order of `text_le`, as a relation.
pub open spec fn by_text() -> spec_fn(Seq<char>, Seq<char>) -> bool {
    |a: Seq<char>, b: Seq<char>| text_le(a, b)
}

/// `s` in the order of `text_le`.
pub open spec fn sorted_texts(s: Seq<Seq<char>>) -> Seq<Seq<char>> {
    s.sort_by(by_text())
}

/// `first_diff` is the one index up to which the two agree and at which
/// they differ or one ends.
pub proof fn lemma_first_diff(a: Seq<char>, b: Seq<char>, i: int, p: int)
    requires
        0 <= i <= p,
        p <= a.len(),
        p <= b.len(),
        forall|j: int| i <= j < p ==> a[j] == b[j],
        p == a.len() || p == b.len() || a[p] != b[p],
    ensures
        first_diff(a, b, i) == p,
    decreases p - i,
{
    if i < p {
        lemma_first_diff(a, b, i + 1, p);
    }
}

/// What `first_diff` gives: the two agree before it, and differ at it
/// unless one of them ends there.
pub proof fn lemma_first_diff_is(a: Seq<char>, b: Seq<char>, i: int)
    requires
        0 <= i <= a.len(),
        i <= b.len(),
    ensures
        i <= first_diff(a, b, i) <= a.len(),
        first_diff(a, b, i) <= b.len(),
        forall|j: int| i <= j < first_diff(a, b, i) ==> a[j] == b[j],
        first_diff(a, b, i) == a.len() || first_diff(a, b, i) == b.len() || a[first_diff(a, b, i)]
            != b[first_diff(a, b, i)],
    decreases a.len() - i,
{
    if i < a.len() && i < b.len() && a[i] == b[i] {
        lemma_first_diff_is(a, b, i + 1);
    }
}

/// `text_le` orders all texts: any two compare, equal ones are the same,
/// and the order carries over a middle term.
pub proof fn lemma_text_order()
    ensures
        total_ordering(by_text()),
{
    assert forall|a: Seq<char>| #[trigger] text_le(a, a) by {
        lemma_first_diff_is(a, a, 0);
    }
    assert forall|a: Seq<char>, b: Seq<char>| #[trigger] text_le(a, b) || #[trigger] text_le(b, a) by {
        lemma_text_le_total(a, b);
    }
    assert forall|a: Seq<char>, b: Seq<char>| #[trigger]
        text_le(a, b) && #[trigger] text_le(b, a) implies a == b by {
        lemma_first_diff_is(a, b, 0);
        lemma_first_diff(b, a, 0, first_diff(a, b, 0));
        assert(a =~= b);
    }
    assert forall|a: Seq<char>, b: Seq<char>, c: Seq<char>| #[trigger]
        text_le(a, b) && #[trigger] text_le(b, c) implies text_le(a, c) by {
        lemma_text_le_transitive(a, b, c);
    }
    assert(vstd::relations::reflexive(by_text()));
    assert(vstd::relations::antisymmetric(by_text()));
    assert(vstd::relations::transitive(by_text()));
    assert(vstd::relations::strongly_connected(by_text()));
}

/// Two characters that differ have different code points.
pub proof fn lemma_code_differs(x: char, y: char)
    requires
        x != y,
    ensures
        x as u32 != y as u32,
{
}

/// Of two texts one is at or before the other.
pub proof fn lemma_text_le_total(a: Seq<char>, b: Seq<char>)
    ensures
        text_le(a, b) || text_le(b, a),
{
    lemma_first_diff_is(a, b, 0);
    let k = first_diff(a, b, 0);
    lemma_first_diff(b, a, 0, k);
    if k < a.len() && k < b.len() {
        lemma_code_differs(a[k], b[k]);
    }
}

/// Whether `s` stands in the order of `text_le`.
pub open spec fn ordered(s: Seq<Seq<char>>) -> bool {
    forall|i: int, j: int| 0 <= i < j < s.len() ==> text_le(#[trigger] s[i], #[trigger] s[j])
}

/// If `a` is at or before `b`, and `b` at or before `c`, then `a` is at or
/// before `c`.
pub proof fn lemma_text_le_transitive(a: Seq<char>, b: Seq<char>, c: Seq<char>)
    requires
        text_le(a, b),
        text_le(b, c),
    ensures
        text_le(a, c),
{
    lemma_first_diff_is(a, b, 0);
    lemma_first_diff_is(b, c, 0);
    let k1 = first_diff(a, b, 0);
    let k2 = first_diff(b, c, 0);
    if k1 < k2 {
        lemma_first_diff(a, c, 0, k1);
    } else if k1 == k2 {
        lemma_first_diff(a, c, 0, k1);
    } else {
        lemma_first_diff(a, c, 0, k2);
    }
}

/// Whether `a` stands at or before `b` in the order of `text_le`.
pub fn le_chars(a: &Vec<char>, b: &Vec<char>) -> (r: bool)
    ensures
        r == text_le(a@, b@),
{
    let mut k: usize = 0;
    while k < a.len() && k < b.len() && a[k] == b[k]
        invariant
            k <= a.len(),
            k <= b.len(),
            first_diff(a@, b@, 0) == first_diff(a@, b@, k as int),
        decreases a.len() - k,
    {
        k += 1;
    }
    k >= a.len() || (k < b.len() && (a[k] as u32) < (b[k] as u32))
}

/// The character vectors of `v` in the order of `text_le`.
pub fn sort_rows(v: Vec<Vec<char>>) -> (r: Vec<Vec<char>>)
    ensures
        rows(r@) == sorted_texts(rows(v@)),
{
    let ghost input = rows(v@);
    let mut out: Vec<Vec<char>> = Vec::new();
    let mut v = v;
    let mut taken: usize = 0;
    let n = v.len();
    assert(rows(out@) =~= Seq::<Seq<char>>::empty());
    assert(input.take(0) =~= Seq::<Seq<char>>::empty());
    while taken < n
        invariant
            taken <= n,
            n == v.len(),
            rows(v@) == input,
            ordered(rows(out@)),
            rows(out@).to_multiset() == input.take(taken as int).to_multiset(),
        decreases n - taken,
    {
        let item = crate::text::copy_chars(&v[taken]);
        let mut p: usize = 0;
        while p < out.len() && le_chars(&out[p], &item)
            invariant
                p <= out.len(),
                forall|k: int| 0 <= k < p ==> text_le(#[trigger] rows(out@)[k], item@),
            decreases out.len() - p,
        {
            p += 1;
        }
        proof {
            let before = rows(out@);
            let after = before.insert(p as int, item@);
            assert forall|i: int, j: int| 0 <= i < j < after.len() implies text_le(
                #[trigger] after[i],
                #[trigger] after[j],
            ) by {
                if j == p {
                    assert(after[i] == before[i]);
                } else if i == p {
                    assert(after[j] == before[j - 1]);
                    assert(!text_le(before[p as int], item@));
                    lemma_text_le_total(item@, before[p as int]);
                    lemma_first_diff_is(before[p as int], before[p as int], 0);
                    if j - 1 > p {
                        assert(text_le(before[p as int], before[j - 1]));
                    }
                    lemma_text_le_transitive(item@, before[p as int], before[j - 1]);
                } else {
                    let x = if i < p { i } else { i - 1 };
                    let y = if j < p { j } else { j - 1 };
                    assert(after[i] == before[x]);
                    assert(after[j] == before[y]);
                    assert(text_le(before[x], before[y]));
                }
            }
            assert(after.remove(p as int) =~= before);
            vstd::seq_lib::to_multiset_remove(after, p as int);
            assert(input.take(taken + 1) =~= input.take(taken as int).push(item@));
            vstd::seq_lib::to_multiset_build(input.take(taken as int), item@);
            broadcast use vstd::seq_lib::group_to_multiset_ensures;
            assert(after.contains(item@)) by {
                assert(after[p as int] == item@);
            }
            assert(after.to_multiset() =~= before.to_multiset().insert(item@));
        }
        let ghost before = rows(out@);
        out.insert(p, item);
        assert(rows(out@) =~= before.insert(p as int, item@));
        taken += 1;
    }
    proof {
        lemma_text_order();
        assert(input.take(n as int) =~= input);
        assert(sorted_by(rows(out@), by_text())) by {
            assert forall|i: int, j: int| 0 <= i < j < rows(out@).len() implies #[trigger] by_text()(
                rows(out@)[i],
                rows(out@)[j],
            ) by {
                assert(text_le(rows(out@)[i], rows(out@)[j]));
            }
        }
        input.lemma_sort_by_ensures(by_text());
        lemma_sorted_unique(rows(out@), input.sort_by(by_text()), by_text());
    }
    out
}

/// The strings of `v` in the order of `text_le`.
pub fn sort_texts(v: &Vec<String>) -> (r: Vec<String>)
    ensures
        texts(r@) == sorted_texts(texts(v@)),
{
    to_texts(&sort_rows(to_rows(v)))
}

/// Whether the item at index `i` goes before the item at index `j` once
/// the items are put in the order of their keys, rising or, with
/// `descending`, falling: the one with the key that comes first, and of two
/// with the same key the one that stood first.
pub open spec fn goes_before(keys: Seq<Seq<char>>, descending: bool, i: int, j: int) -> bool {
    if keys[i] == keys[j] {
        i < j
    } else if descending {
        text_le(keys[j], keys[i])
    } else {
        text_le(keys[i], keys[j])
    }
}

/// Whether `order` lists the indices of `keys` in the order of the keys,
/// items with the same key in the order in which they stood.
pub open spec fn is_stable_order(keys: Seq<Seq<char>>, descending: bool, order: Seq<int>) -> bool {
    &&& order.len() == keys.len()
    &&& forall|a: int| 0 <= a < order.len() ==> 0 <= #[trigger] order[a] < keys.len()
    &&& forall|a: int, b: int|
        0 <= a < b < order.len() ==> goes_before(
            keys,
            descending,
            #[trigger] order[a],
            #[trigger] order[b],
        )
}

/// The indices that `v` holds, as mathematical integers.
pub open spec fn indices(v: Seq<usize>) -> Seq<int> {
    Seq::new(v.len(), |i: int| v[i] as int)
}

/// If `i` goes before `j` and `j` before `k`, then `i` goes before `k`.
pub proof fn lemma_goes_before_transitive(
    keys: Seq<Seq<char>>,
    descending: bool,
    i: int,
    j: int,
    k: int,
)
    requires
        goes_before(keys, descending, i, j),
        goes_before(keys, descending, j, k),
    ensures
        goes_before(keys, descending, i, k),
{
    lemma_text_order();
    let a = keys[i];
    let b = keys[j];
    let c = keys[k];
    assert(by_text()(a, b) == text_le(a, b));
    assert(by_text()(b, a) == text_le(b, a));
    assert(by_text()(b, c) == text_le(b, c));
    assert(by_text()(c, b) == text_le(c, b));
    assert(by_text()(a, c) == text_le(a, c));
    assert(by_text()(c, a) == text_le(c, a));
    if descending {
        if a != b && b != c {
            lemma_text_le_transitive(c, b, a);
            if a == c {
                assert(a == b);
            }
        }
    } else {
        if a != b && b != c {
            lemma_text_le_transitive(a, b, c);
            if a == c {
                assert(a == b);
            }
        }
    }
}

/// Whether the key at index `k` comes strictly before the key at index `j`
/// in the order asked for.
fn overtakes(keys: &Vec<Vec<char>>, descending: bool, k: usize, j: usize) -> (r: bool)
    requires
        k < keys.len(),
        j < keys.len(),
    ensures
        r == if descending {
            !text_le(rows(keys@)[k as int], rows(keys@)[j as int])
        } else {
            !text_le(rows(keys@)[j as int], rows(keys@)[k as int])
        },
{
    if descending {
        !le_chars(&keys[k], &keys[j])
    } else {
        !le_chars(&keys[j], &keys[k])
    }
}

/// The indices of `keys` in the order of the keys, rising or, with
/// `descending`, falling; items with the same key keep their order.
pub fn stable_order(keys: &Vec<Vec<char>>, descending: bool) -> (r: Vec<usize>)
    ensures
        is_stable_order(rows(keys@), descending, indices(r@)),
{
    let ghost ks = rows(keys@);
    let mut order: Vec<usize> = Vec::new();
    let mut k: usize = 0;
    while k < keys.len()
        invariant
            k <= keys.len(),
            ks == rows(keys@),
            order.len() == k,
            forall|a: int| 0 <= a < k ==> 0 <= #[trigger] order@[a] < k,
            forall|a: int, b: int|
                0 <= a < b < k ==> goes_before(
                    ks,
                    descending,
                    #[trigger] order@[a] as int,
                    #[trigger] order@[b] as int,
                ),
        decreases keys.len() - k,
    {
        let mut p: usize = order.len();
        while p > 0 && overtakes(keys, descending, k, order[p - 1])
            invariant
                p <= order.len(),
                order.len() == k,
                k < keys.len(),
                ks == rows(keys@),
                forall|a: int| 0 <= a < k ==> 0 <= #[trigger] order@[a] < k,
                forall|a: int|
                    p <= a < k ==> goes_before(ks, descending, k as int, #[trigger] order@[a] as int),
            decreases p,
        {
            proof {
                let prev = order@[p - 1] as int;
                lemma_text_le_total(ks[k as int], ks[prev]);
            }
            p -= 1;
        }
        proof {
            let before = order@;
            let after = before.insert(p as int, k);
            assert forall|a: int, b: int| 0 <= a < b < after.len() implies goes_before(
                ks,
                descending,
                #[trigger] after[a] as int,
                #[trigger] after[b] as int,
            ) by {
                if b == p {
                    assert(after[a] == before[a]);
                    let prev = before[p - 1] as int;
                    assert(goes_before(ks, descending, prev, k as int));
                    if a < p - 1 {
                        assert(goes_before(ks, descending, before[a] as int, prev));
                        lemma_goes_before_transitive(ks, descending, before[a] as int, prev, k as int);
                    }
                } else if a == p {
                    assert(after[b] == before[b - 1]);
                } else {
                    let x = if a < p { a } else { a - 1 };
                    let y = if b < p { b } else { b - 1 };
                    assert(after[a] == before[x]);
                    assert(after[b] == before[y]);
                }
            }
            assert forall|a: int| 0 <= a < after.len() implies 0 <= #[trigger] after[a] < k + 1 by {
                if a < p {
                    assert(after[a] == before[a]);
                } else if a > p {
                    assert(after[a] == before[a - 1]);
                }
            }
        }
        order.insert(p, k);
        k += 1;
    }
    assert(indices(order@).len() == ks.len());
    order
}

/// In a stable order no index stands twice.
pub proof fn lemma_order_distinct(keys: Seq<Seq<char>>, descending: bool, order: Seq<int>)
    requires
        is_stable_order(keys, descending, order),
    ensures
        forall|a: int, b: int| 0 <= a < b < order.len() ==> order[a] != order[b],
{
    assert forall|a: int, b: int| 0 <= a < b < order.len() implies order[a] != order[b] by {
        assert(goes_before(keys, descending, order[a], order[b]));
        lemma_first_diff_is(keys[order[a]], keys[order[a]], 0);
    }
}

/// The items of `items` that `order` names, in the order of `order`, and
/// no more than `limit` of them.
pub fn pick_in_order<T>(items: Vec<T>, order: &Vec<usize>, limit: usize) -> (r: Vec<T>)
    requires
        forall|a: int| 0 <= a < order.len() ==> #[trigger] order@[a] < items.len(),
        forall|a: int, b: int| 0 <= a < b < order.len() ==> order@[a] != order@[b],
    ensures
        r.len() == if limit < order.len() {
            limit as int
        } else {
            order.len() as int
        },
        forall|a: int| 0 <= a < r.len() ==> #[trigger] r@[a] == items@[order@[a] as int],
{
    let ghost all = items@;
    let mut slots: Vec<Option<T>> = Vec::new();
    for item in it: items
        invariant
            it.seq() == all,
            slots.len() == it.index(),
            forall|i: int| 0 <= i < slots.len() ==> #[trigger] slots@[i] == Some(all[i]),
    {
        slots.push(Some(item));
    }
    let mut out: Vec<T> = Vec::new();
    let mut a: usize = 0;
    while a < order.len() && a < limit
        invariant
            a <= order.len(),
            a <= limit,
            out.len() == a,
            slots.len() == all.len(),
            forall|i: int| 0 <= i < order.len() ==> #[trigger] order@[i] < all.len(),
            forall|i: int, j: int| 0 <= i < j < order.len() ==> order@[i] != order@[j],
            forall|i: int| 0 <= i < a ==> #[trigger] out@[i] == all[order@[i] as int],
            forall|i: int|
                a <= i < order.len() ==> slots@[#[trigger] order@[i] as int] == Some(
                    all[order@[i] as int],
                ),
        decreases order.len() - a,
    {
        let at = order[a];
        slots.push(None);
        let taken = slots.swap_remove(at);
        match taken {
            Some(item) => {
                out.push(item);
            },
            None => {
                assert(false);
            },
        }
        a += 1;
    }
    out
}

/// Whether `r` holds the items of `items` in the order of their keys
/// `keys`, rising or falling, items with the same key in the order in
/// which they stood.
pub open spec fn is_arranged<T>(r: Seq<T>, items: Seq<T>, keys: Seq<Seq<char>>, descending: bool) -> bool {
    &&& r.len() == items.len()
    &&& exists|order: Seq<int>|
        {
            &&& is_stable_order(keys, descending, order)
            &&& forall|a: int| 0 <= a < r.len() ==> #[trigger] r[a] == items[order[a]]
        }
}

/// The items of `items` in the order of their keys `keys`, rising or, with
/// `descending`, falling; items with the same key keep their order.
pub fn arrange<T>(items: Vec<T>, keys: &Vec<Vec<char>>, descending: bool) -> (r: Vec<T>)
    requires
        keys.len() == items.len(),
    ensures
        is_arranged(r@, items@, rows(keys@), descending),
{
    let order = stable_order(keys, descending);
    let ghost all = items@;
    proof {
        lemma_order_distinct(rows(keys@), descending, indices(order@));
        assert forall|a: int, b: int| 0 <= a < b < order.len() implies order@[a] != order@[b] by {
            assert(indices(order@)[a] != indices(order@)[b]);
        }
        assert forall|a: int| 0 <= a < order.len() implies #[trigger] order@[a] < all.len() by {
            assert(0 <= indices(order@)[a] < keys.len());
        }
    }
    let out = pick_in_order(items, &order, order.len());
    proof {
        let witness = indices(order@);
        assert forall|a: int| 0 <= a < out.len() implies #[trigger] out@[a] == all[witness[a]] by {
            assert(out@[a] == all[order@[a] as int]);
        }
    }
    out
}

} // verus!
