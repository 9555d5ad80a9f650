//! The sort engine: a stable sort of names by their lowercase form.

use crate::order::{chars_of, key_less, key_lt, lemma_key_lt_asymmetric, lemma_key_lt_total, lemma_key_lt_transitive};
use crate::text::{lowercase_of, texts};
use vstd::prelude::*;
use vstd::set_lib::{lemma_int_range, lemma_subset_equality, set_int_range};

verus! {

/// The keys by which names are ordered: their lowercase forms.
pub open spec fn lowercase_keys(names: Seq<Seq<char>>) -> Seq<Seq<char>> {
    Seq::new(names.len(), |i: int| lowercase_of(names[i]))
}

/// Position `a` is listed before position `b`: its key is smaller, or the
/// keys are equal and `a` stood first.
pub open spec fn goes_before(keys: Seq<Seq<char>>, a: int, b: int) -> bool {
    key_lt(keys[a], keys[b]) || (keys[a] == keys[b] && a < b)
}

/// `order` holds positions from `lo` up to `hi`, as many as there are, each
/// listed before all that follow it.
pub open spec fn is_ordered_run(order: Seq<usize>, keys: Seq<Seq<char>>, lo: int, hi: int) -> bool {
    &&& order.len() == hi - lo
    &&& forall|i: int| 0 <= i < order.len() ==> lo <= #[trigger] order[i] < hi
    &&& forall|i: int, j: int|
        #![trigger order[i], order[j]]
        0 <= i < j < order.len() ==> goes_before(keys, order[i] as int, order[j] as int)
}

/// `order` is the stable sort of the positions of `keys`: it lists every
/// position once, by ascending key, and positions with equal keys in
/// ascending order.
pub open spec fn is_stable_order(order: Seq<usize>, keys: Seq<Seq<char>>) -> bool {
    is_ordered_run(order, keys, 0, keys.len() as int)
}

/// `order` holds position `v` at some place.
pub open spec fn lists_position(order: Seq<usize>, v: int) -> bool {
    exists|i: int| 0 <= i < order.len() && #[trigger] order[i] == v
}

/// `sorted` holds, at each place, the name that `order` picks for it.
pub open spec fn arranged_by(sorted: Seq<Seq<char>>, names: Seq<Seq<char>>, order: Seq<usize>) -> bool {
    &&& sorted.len() == order.len()
    &&& forall|i: int| 0 <= i < sorted.len() ==> #[trigger] sorted[i] == names[order[i] as int]
}

/// `sorted` is `names` in listing order: sorted by lowercase form, names
/// with the same lowercase form in the order in which `names` holds them.
pub open spec fn is_sorted_listing(sorted: Seq<Seq<char>>, names: Seq<Seq<char>>) -> bool {
    exists|order: Seq<usize>|
        is_stable_order(order, lowercase_keys(names)) && arranged_by(sorted, names, order)
}

/// Of two different positions exactly one goes before the other, and none
/// goes before itself.
pub proof fn lemma_goes_before_total(keys: Seq<Seq<char>>, a: int, b: int)
    ensures
        a != b ==> (goes_before(keys, a, b) <==> !goes_before(keys, b, a)),
        !goes_before(keys, a, a),
{
    lemma_key_lt_asymmetric(keys[a], keys[b]);
    lemma_key_lt_asymmetric(keys[a], keys[a]);
    lemma_key_lt_asymmetric(keys[b], keys[b]);
    lemma_key_lt_total(keys[a], keys[b]);
}

/// A position listed before a second that is listed before a third is
/// listed before the third.
pub proof fn lemma_goes_before_transitive(keys: Seq<Seq<char>>, a: int, b: int, c: int)
    requires
        goes_before(keys, a, b),
        goes_before(keys, b, c),
    ensures
        goes_before(keys, a, c),
{
    if key_lt(keys[a], keys[b]) && key_lt(keys[b], keys[c]) {
        lemma_key_lt_transitive(keys[a], keys[b], keys[c]);
    }
}

/// The keys stand in `chars` as they stand in `keys`.
spec fn holds_keys(chars: Seq<Vec<char>>, keys: Seq<Seq<char>>) -> bool {
    &&& chars.len() == keys.len()
    &&& forall|i: int| 0 <= i < chars.len() ==> (#[trigger] chars[i])@ == keys[i]
}

/// Merges two ordered runs of neighbouring ranges into one.
fn merge_runs(
    chars: &Vec<Vec<char>>,
    left: &Vec<usize>,
    right: &Vec<usize>,
    Ghost(keys): Ghost<Seq<Seq<char>>>,
    Ghost(lo): Ghost<int>,
    Ghost(mid): Ghost<int>,
    Ghost(hi): Ghost<int>,
) -> (merged: Vec<usize>)
    requires
        holds_keys(chars@, keys),
        0 <= lo <= mid <= hi <= keys.len(),
        is_ordered_run(left@, keys, lo, mid),
        is_ordered_run(right@, keys, mid, hi),
    ensures
        is_ordered_run(merged@, keys, lo, hi),
{
    let mut merged: Vec<usize> = Vec::new();
    let mut i: usize = 0;
    let mut j: usize = 0;
    while i < left.len() || j < right.len()
        invariant
            holds_keys(chars@, keys),
            0 <= lo <= mid <= hi <= keys.len(),
            is_ordered_run(left@, keys, lo, mid),
            is_ordered_run(right@, keys, mid, hi),
            i <= left.len(),
            j <= right.len(),
            merged.len() == i + j,
            forall|p: int| 0 <= p < merged.len() ==> lo <= #[trigger] merged[p] < hi,
            forall|p: int, q: int|
                #![trigger merged[p], merged[q]]
                0 <= p < q < merged.len() ==> goes_before(keys, merged[p] as int, merged[q] as int),
            forall|p: int, r: int|
                #![trigger merged[p], left[r]]
                0 <= p < merged.len() && i <= r < left.len() ==> goes_before(
                    keys,
                    merged[p] as int,
                    left[r] as int,
                ),
            forall|p: int, r: int|
                #![trigger merged[p], right[r]]
                0 <= p < merged.len() && j <= r < right.len() ==> goes_before(
                    keys,
                    merged[p] as int,
                    right[r] as int,
                ),
        decreases left.len() - i + right.len() - j,
    {
        let from_left = if j == right.len() {
            true
        } else if i == left.len() {
            false
        } else {
            !key_less(&chars[right[j]], &chars[left[i]])
        };
        let ghost before = merged@;
        if from_left {
            let x = left[i];
            proof {
                assert forall|r: int| j <= r < right.len() implies goes_before(
                    keys,
                    x as int,
                    #[trigger] right[r] as int,
                ) by {
                    let y = right[j as int];
                    assert(x < mid <= y);
                    lemma_goes_before_total(keys, x as int, y as int);
                    if r > j {
                        lemma_goes_before_transitive(keys, x as int, y as int, right[r] as int);
                    }
                }
            }
            merged.push(x);
            i += 1;
        } else {
            let y = right[j];
            proof {
                assert forall|r: int| i <= r < left.len() implies goes_before(
                    keys,
                    y as int,
                    #[trigger] left[r] as int,
                ) by {
                    let x = left[i as int];
                    if r > i {
                        lemma_goes_before_transitive(keys, y as int, x as int, left[r] as int);
                    }
                }
            }
            merged.push(y);
            j += 1;
        }
        proof {
            let last = merged.len() - 1;
            assert forall|p: int| 0 <= p < merged.len() implies lo <= #[trigger] merged[p] < hi by {
                if p < last {
                    assert(merged[p] == before[p]);
                }
            }
            assert forall|p: int, q: int|
                #![trigger merged[p], merged[q]]
                0 <= p < q < merged.len() implies goes_before(
                keys,
                merged[p] as int,
                merged[q] as int,
            ) by {
                assert(merged[p] == before[p]);
                if q < last {
                    assert(merged[q] == before[q]);
                }
            }
            assert forall|p: int, r: int|
                #![trigger merged[p], left[r]]
                0 <= p < merged.len() && i <= r < left.len() implies goes_before(
                keys,
                merged[p] as int,
                left[r] as int,
            ) by {
                if p < last {
                    assert(merged[p] == before[p]);
                }
            }
            assert forall|p: int, r: int|
                #![trigger merged[p], right[r]]
                0 <= p < merged.len() && j <= r < right.len() implies goes_before(
                keys,
                merged[p] as int,
                right[r] as int,
            ) by {
                if p < last {
                    assert(merged[p] == before[p]);
                }
            }
        }
    }
    merged
}

/// The positions from `lo` up to `hi`, in listing order.
fn sort_range(chars: &Vec<Vec<char>>, lo: usize, hi: usize, Ghost(keys): Ghost<Seq<Seq<char>>>) -> (order:
    Vec<usize>)
    requires
        holds_keys(chars@, keys),
        lo <= hi <= keys.len(),
    ensures
        is_ordered_run(order@, keys, lo as int, hi as int),
    decreases hi - lo,
{
    if hi - lo <= 1 {
        let mut order: Vec<usize> = Vec::new();
        if lo < hi {
            order.push(lo);
        }
        order
    } else {
        let mid = lo + (hi - lo) / 2;
        let left = sort_range(chars, lo, mid, Ghost(keys));
        let right = sort_range(chars, mid, hi, Ghost(keys));
        merge_runs(chars, &left, &right, Ghost(keys), Ghost(lo as int), Ghost(mid as int), Ghost(hi as int))
    }
}

/// The order in which a stable sort lists the positions of `keys`: by
/// ascending key, and positions with equal keys in ascending order.
pub fn stable_order(keys: &Vec<String>) -> (order: Vec<usize>)
    ensures
        is_stable_order(order@, texts(keys@)),
{
    let mut chars: Vec<Vec<char>> = Vec::new();
    let mut i: usize = 0;
    while i < keys.len()
        invariant
            i <= keys.len(),
            chars.len() == i,
            forall|k: int| 0 <= k < i ==> (#[trigger] chars[k])@ == keys[k]@,
        decreases keys.len() - i,
    {
        chars.push(chars_of(keys[i].as_str()));
        i += 1;
    }
    sort_range(&chars, 0, keys.len(), Ghost(texts(keys@)))
}

/// The names of `names` in listing order: sorted by lowercase form, code
/// point by code point, names with the same lowercase form in the order in
/// which `names` holds them.
pub fn sort_names(names: Vec<String>) -> (sorted: Vec<String>)
    ensures
        is_sorted_listing(texts(sorted@), texts(names@)),
        sorted.len() == names.len(),
{
    let mut keys: Vec<String> = Vec::new();
    let mut i: usize = 0;
    while i < names.len()
        invariant
            i <= names.len(),
            keys.len() == i,
            forall|k: int| 0 <= k < i ==> (#[trigger] keys[k])@ == lowercase_of(names[k]@),
        decreases names.len() - i,
    {
        keys.push(names[i].as_str().to_lowercase());
        i += 1;
    }
    assert(texts(keys@) =~= lowercase_keys(texts(names@)));
    let order = stable_order(&keys);
    let mut sorted: Vec<String> = Vec::new();
    let mut k: usize = 0;
    while k < order.len()
        invariant
            k <= order.len(),
            order.len() == names.len(),
            is_stable_order(order@, lowercase_keys(texts(names@))),
            sorted.len() == k,
            forall|t: int| 0 <= t < k ==> (#[trigger] sorted[t])@ == names[order[t] as int]@,
        decreases order.len() - k,
    {
        sorted.push(names[order[k]].clone());
        k += 1;
    }
    assert(arranged_by(texts(sorted@), texts(names@), order@));
    sorted
}

/// A stable order lists every position: no position twice, and none left
/// out.
pub proof fn lemma_stable_order_is_permutation(order: Seq<usize>, keys: Seq<Seq<char>>)
    requires
        is_stable_order(order, keys),
    ensures
        forall|i: int, j: int|
            #![trigger order[i], order[j]]
            0 <= i < j < order.len() ==> order[i] != order[j],
        forall|v: int| 0 <= v < keys.len() ==> #[trigger] lists_position(order, v),
{
    let n = keys.len() as int;
    let places = Seq::new(order.len(), |i: int| order[i] as int);
    assert forall|i: int, j: int|
        #![trigger order[i], order[j]]
        0 <= i < j < order.len() implies order[i] != order[j] by {
        lemma_goes_before_total(keys, order[i] as int, order[i] as int);
    }
    assert(places.no_duplicates()) by {
        assert forall|i: int, j: int|
            0 <= i < places.len() && 0 <= j < places.len() && i != j implies places[i]
            != places[j] by {
            if i < j {
                assert(order[i] != order[j]);
            } else {
                assert(order[j] != order[i]);
            }
        }
    }
    places.unique_seq_to_set();
    lemma_int_range(0, n);
    assert(places.to_set().subset_of(set_int_range(0, n))) by {
        assert forall|v: int| places.to_set().contains(v) implies set_int_range(0, n).contains(
            v,
        ) by {
            let i = choose|i: int| 0 <= i < places.len() && places[i] == v;
            assert(0 <= order[i] < n);
        }
    }
    vstd::seq_lib::seq_to_set_is_finite(places);
    lemma_subset_equality(places.to_set(), set_int_range(0, n));
    assert forall|v: int| 0 <= v < n implies #[trigger] lists_position(order, v) by {
        assert(set_int_range(0, n).contains(v));
        assert(places.to_set().contains(v));
        let i = choose|i: int| 0 <= i < places.len() && places[i] == v;
        assert(order[i] == v);
    }
}

/// Two stable orders of the same keys agree at every place below `m`.
proof fn lemma_orders_agree_below(p: Seq<usize>, q: Seq<usize>, keys: Seq<Seq<char>>, m: int)
    requires
        is_stable_order(p, keys),
        is_stable_order(q, keys),
        0 <= m <= keys.len(),
    ensures
        forall|i: int| 0 <= i < m ==> p[i] == q[i],
    decreases m,
{
    if m > 0 {
        lemma_orders_agree_below(p, q, keys, m - 1);
        let i = m - 1;
        let v = p[i] as int;
        let w = q[i] as int;
        if v != w {
            lemma_stable_order_is_permutation(p, keys);
            lemma_stable_order_is_permutation(q, keys);
            assert(lists_position(q, v));
            assert(lists_position(p, w));
            let j = choose|j: int| 0 <= j < q.len() && q[j] == v;
            let k = choose|k: int| 0 <= k < p.len() && p[k] == w;
            if j < i {
                assert(p[j] == q[j]);
                assert(p[j] != p[i]);
            }
            if k < i {
                assert(q[k] == p[k]);
                assert(q[k] != q[i]);
            }
            assert(goes_before(keys, q[i] as int, q[j] as int));
            assert(goes_before(keys, p[i] as int, p[k] as int));
            lemma_goes_before_total(keys, v, w);
        }
    }
}

/// The keys decide the stable order: there is only one.
pub proof fn lemma_stable_order_unique(p: Seq<usize>, q: Seq<usize>, keys: Seq<Seq<char>>)
    requires
        is_stable_order(p, keys),
        is_stable_order(q, keys),
    ensures
        p == q,
{
    lemma_orders_agree_below(p, q, keys, keys.len() as int);
    assert(p =~= q);
}

/// In a stable order the keys ascend, and positions with equal keys keep
/// the order in which the keys were given.
pub proof fn lemma_stable_order_ascends(order: Seq<usize>, keys: Seq<Seq<char>>)
    requires
        is_stable_order(order, keys),
    ensures
        forall|i: int, j: int|
            #![trigger order[i], order[j]]
            0 <= i < j < order.len() ==> !key_lt(keys[order[j] as int], keys[order[i] as int]),
        forall|i: int, j: int|
            #![trigger order[i], order[j]]
            0 <= i < j < order.len() && keys[order[i] as int] == keys[order[j] as int]
                ==> order[i] < order[j],
{
    assert forall|i: int, j: int|
        #![trigger order[i], order[j]]
        0 <= i < j < order.len() implies !key_lt(keys[order[j] as int], keys[order[i] as int])
        && (keys[order[i] as int] == keys[order[j] as int] ==> order[i] < order[j]) by {
        assert(goes_before(keys, order[i] as int, order[j] as int));
        lemma_key_lt_asymmetric(keys[order[i] as int], keys[order[j] as int]);
        lemma_key_lt_asymmetric(keys[order[i] as int], keys[order[i] as int]);
    }
}

/// Sorting decides its result: two listings of the same names are the same.
pub proof fn lemma_sorted_listing_unique(a: Seq<Seq<char>>, b: Seq<Seq<char>>, names: Seq<Seq<char>>)
    requires
        is_sorted_listing(a, names),
        is_sorted_listing(b, names),
    ensures
        a == b,
{
    let keys = lowercase_keys(names);
    let p = choose|p: Seq<usize>| is_stable_order(p, keys) && arranged_by(a, names, p);
    let q = choose|q: Seq<usize>| is_stable_order(q, keys) && arranged_by(b, names, q);
    lemma_stable_order_unique(p, q, keys);
    assert(a =~= b);
}

/// A sorted listing is in ascending order of lowercase forms: of any two of
/// its names, the later one never has the smaller lowercase form. How the
/// names are capitalised plays no part.
pub proof fn lemma_sorted_listing_ascends(sorted: Seq<Seq<char>>, names: Seq<Seq<char>>)
    requires
        is_sorted_listing(sorted, names),
    ensures
        sorted.len() == names.len(),
        forall|i: int, j: int|
            0 <= i < j < sorted.len() ==> !key_lt(
                #[trigger] lowercase_of(sorted[j]),
                #[trigger] lowercase_of(sorted[i]),
            ),
{
    let keys = lowercase_keys(names);
    let order = choose|p: Seq<usize>| is_stable_order(p, keys) && arranged_by(sorted, names, p);
    lemma_stable_order_ascends(order, keys);
    assert forall|i: int, j: int| 0 <= i < j < sorted.len() implies !key_lt(
        #[trigger] lowercase_of(sorted[j]),
        #[trigger] lowercase_of(sorted[i]),
    ) by {
        assert(!key_lt(keys[order[j] as int], keys[order[i] as int]));
        assert(sorted[i] == names[order[i] as int]);
        assert(sorted[j] == names[order[j] as int]);
    }
}

/// Sorting is idempotent: sorting a sorted listing gives the same listing.
pub proof fn lemma_sort_idempotent(names: Seq<Seq<char>>, once: Seq<Seq<char>>, twice: Seq<Seq<char>>)
    requires
        is_sorted_listing(once, names),
        is_sorted_listing(twice, once),
    ensures
        twice == once,
{
    lemma_sorted_listing_ascends(once, names);
    let keys = lowercase_keys(once);
    let second = choose|p: Seq<usize>| is_stable_order(p, keys) && arranged_by(twice, once, p);
    assert(once.len() <= usize::MAX + 1) by {
        if once.len() > 0 {
            lemma_stable_order_is_permutation(second, keys);
            assert(lists_position(second, once.len() - 1));
        }
    }
    let same = Seq::new(once.len(), |i: int| i as usize);
    assert(is_stable_order(same, keys)) by {
        assert forall|i: int, j: int|
            #![trigger same[i], same[j]]
            0 <= i < j < same.len() implies goes_before(keys, same[i] as int, same[j] as int) by {
            assert(!key_lt(lowercase_of(once[j]), lowercase_of(once[i])));
            lemma_key_lt_total(keys[i], keys[j]);
        }
    }
    assert(arranged_by(once, once, same));
    lemma_sorted_listing_unique(twice, once, once);
}

} // verus!
