//! Orders: the order of texts, and the stable arrangement of items by key.

use crate::text::chars_of;
use vstd::prelude::*;

verus! {

/// The text `a` stands before the text `b` in the order of texts: at the
/// first place where they differ `a` has the smaller character, or `a` ends
/// there and `b` goes on. This is the order of strings by their bytes.
pub open spec fn text_before(a: Seq<char>, b: Seq<char>) -> bool
    decreases a.len(),
{
    if b.len() == 0 {
        false
    } else if a.len() == 0 {
        true
    } else if a[0] != b[0] {
        a[0] < b[0]
    } else {
        text_before(a.drop_first(), b.drop_first())
    }
}

/// Texts that agree on their first `n` characters stand as what follows
/// those characters stands.
pub proof fn lemma_text_before_skip(a: Seq<char>, b: Seq<char>, n: int)
    requires
        0 <= n <= a.len(),
        n <= b.len(),
        forall|j: int| 0 <= j < n ==> a[j] == b[j],
    ensures
        text_before(a, b) == text_before(a.skip(n), b.skip(n)),
    decreases n,
{
    if n == 0 {
        assert(a.skip(0) =~= a);
        assert(b.skip(0) =~= b);
    } else {
        assert(a[0] == b[0]);
        let a1 = a.drop_first();
        let b1 = b.drop_first();
        assert forall|j: int| 0 <= j < n - 1 implies a1[j] == b1[j] by {
            assert(a1[j] == a[j + 1] && b1[j] == b[j + 1]);
        }
        lemma_text_before_skip(a1, b1, n - 1);
        assert(a1.skip(n - 1) =~= a.skip(n));
        assert(b1.skip(n - 1) =~= b.skip(n));
    }
}

/// Whether the characters `a` stand before the characters `b`.
pub fn chars_before(a: &Vec<char>, b: &Vec<char>) -> (before: bool)
    ensures
        before == text_before(a@, b@),
{
    let mut i: usize = 0;
    while i < a.len() && i < b.len() && a[i] == b[i]
        invariant
            i <= a.len(),
            i <= b.len(),
            forall|j: int| 0 <= j < i ==> a@[j] == b@[j],
        decreases a.len() - i,
    {
        i += 1;
    }
    proof {
        lemma_text_before_skip(a@, b@, i as int);
        let x = a@.skip(i as int);
        let y = b@.skip(i as int);
        if i < a.len() && i < b.len() {
            assert(x[0] == a@[i as int] && y[0] == b@[i as int]);
        }
    }
    if i >= b.len() {
        false
    } else if i >= a.len() {
        true
    } else {
        a[i] < b[i]
    }
}

/// The order of texts is strict: of two texts at most one stands before the
/// other, and what stands before a text stands before all that the text
/// stands before.
pub proof fn lemma_text_order(a: Seq<char>, b: Seq<char>, c: Seq<char>)
    ensures
        !(text_before(a, b) && text_before(b, a)),
        text_before(a, b) && text_before(b, c) ==> text_before(a, c),
    decreases a.len(),
{
    if a.len() > 0 && b.len() > 0 {
        if c.len() > 0 {
            lemma_text_order(a.drop_first(), b.drop_first(), c.drop_first());
        } else {
            lemma_text_order(a.drop_first(), b.drop_first(), c);
        }
    }
}

/// A key by which items are arranged, with a strict order on its view.
pub trait Ordered: View {
    /// The key with view `a` stands before the key with view `b`.
    spec fn before(a: Self::V, b: Self::V) -> bool;

    /// Whether this key stands before the other.
    fn is_before(&self, other: &Self) -> (b: bool)
        ensures
            b == Self::before(self@, other@),
    ;

    /// The order is strict.
    proof fn lemma_strict(a: Self::V, b: Self::V, c: Self::V)
        ensures
            !(Self::before(a, b) && Self::before(b, a)),
            Self::before(a, b) && Self::before(b, c) ==> Self::before(a, c),
    ;
}

impl Ordered for String {
    open spec fn before(a: Seq<char>, b: Seq<char>) -> bool {
        text_before(a, b)
    }

    fn is_before(&self, other: &Self) -> (b: bool) {
        let a = chars_of(self.as_str());
        let c = chars_of(other.as_str());
        chars_before(&a, &c)
    }

    proof fn lemma_strict(a: Seq<char>, b: Seq<char>, c: Seq<char>) {
        lemma_text_order(a, b, c);
    }
}

impl Ordered for usize {
    open spec fn before(a: usize, b: usize) -> bool {
        a < b
    }

    fn is_before(&self, other: &Self) -> (b: bool) {
        *self < *other
    }

    proof fn lemma_strict(a: usize, b: usize, c: usize) {
    }
}

/// The views of a list of keys.
pub open spec fn key_views<K: Ordered>(keys: Seq<K>) -> Seq<K::V> {
    keys.map_values(|k: K| k@)
}

/// The key `a` goes ahead of the key `b` in the arrangement: it stands
/// before it, or behind it when the arrangement descends.
pub open spec fn goes_ahead<K: Ordered>(a: K::V, b: K::V, descending: bool) -> bool {
    if descending {
        K::before(b, a)
    } else {
        K::before(a, b)
    }
}

/// Where the item `i` goes into the arrangement `order`: before the first
/// item that it goes ahead of, so behind its equals.
pub open spec fn place_of<K: Ordered>(
    keys: Seq<K::V>,
    order: Seq<usize>,
    i: int,
    descending: bool,
) -> int
    decreases order.len(),
{
    if order.len() == 0 {
        0
    } else if goes_ahead::<K>(keys[i], keys[order[0] as int], descending) {
        0
    } else {
        1 + place_of::<K>(keys, order.drop_first(), i, descending)
    }
}

/// The arrangement of the first `n` items by key: their indices, each item
/// ahead of those that it goes ahead of, equals in their first order.
pub open spec fn arrangement<K: Ordered>(keys: Seq<K::V>, n: nat, descending: bool) -> Seq<usize>
    decreases n,
{
    if n == 0 {
        Seq::<usize>::empty()
    } else {
        let order = arrangement::<K>(keys, (n - 1) as nat, descending);
        order.insert(place_of::<K>(keys, order, n - 1, descending), (n - 1) as usize)
    }
}

/// The place lies behind the items that the new one does not go ahead of,
/// and before one that it does go ahead of.
pub proof fn lemma_place_of<K: Ordered>(
    keys: Seq<K::V>,
    order: Seq<usize>,
    i: int,
    descending: bool,
)
    ensures
        0 <= place_of::<K>(keys, order, i, descending) <= order.len(),
        forall|j: int|
            0 <= j < place_of::<K>(keys, order, i, descending) ==> !goes_ahead::<K>(
                keys[i],
                keys[#[trigger] order[j] as int],
                descending,
            ),
        place_of::<K>(keys, order, i, descending) < order.len() ==> goes_ahead::<K>(
            keys[i],
            keys[order[place_of::<K>(keys, order, i, descending)] as int],
            descending,
        ),
    decreases order.len(),
{
    if order.len() > 0 && !goes_ahead::<K>(keys[i], keys[order[0] as int], descending) {
        let rest = order.drop_first();
        lemma_place_of::<K>(keys, rest, i, descending);
        assert forall|j: int|
            0 <= j < place_of::<K>(keys, order, i, descending) implies !goes_ahead::<K>(
            keys[i],
            keys[#[trigger] order[j] as int],
            descending,
        ) by {
            if j > 0 {
                assert(order[j] == rest[j - 1]);
            }
        }
    }
}

/// An index behind items that the new one does not go ahead of, which is
/// the length or holds one that it goes ahead of, is the place.
pub proof fn lemma_place_of_is<K: Ordered>(
    keys: Seq<K::V>,
    order: Seq<usize>,
    i: int,
    descending: bool,
    p: int,
)
    requires
        0 <= p <= order.len(),
        forall|j: int|
            0 <= j < p ==> !goes_ahead::<K>(keys[i], keys[#[trigger] order[j] as int], descending),
        p < order.len() ==> goes_ahead::<K>(keys[i], keys[order[p] as int], descending),
    ensures
        place_of::<K>(keys, order, i, descending) == p,
{
    lemma_place_of::<K>(keys, order, i, descending);
    let k = place_of::<K>(keys, order, i, descending);
    if k < p {
        assert(!goes_ahead::<K>(keys[i], keys[order[k] as int], descending));
    } else if k > p {
        assert(!goes_ahead::<K>(keys[i], keys[order[p] as int], descending));
    }
}

/// The arrangement of `n` items holds each index below `n` once and no
/// other, and none of its items goes ahead of one that stands before it.
pub proof fn lemma_arrangement<K: Ordered>(keys: Seq<K::V>, n: nat, descending: bool)
    requires
        n <= usize::MAX,
    ensures
        arrangement::<K>(keys, n, descending).len() == n,
        forall|j: int| 0 <= j < n ==> (#[trigger] arrangement::<K>(keys, n, descending)[j]) < n,
        arrangement::<K>(keys, n, descending).no_duplicates(),
        forall|i: usize| i < n ==> #[trigger] arrangement::<K>(keys, n, descending).contains(i),
        forall|a: int, b: int|
            0 <= a < b < n ==> !goes_ahead::<K>(
                keys[#[trigger] arrangement::<K>(keys, n, descending)[b] as int],
                keys[#[trigger] arrangement::<K>(keys, n, descending)[a] as int],
                descending,
            ),
    decreases n,
{
    if n > 0 {
        let m = (n - 1) as nat;
        let order = arrangement::<K>(keys, m, descending);
        lemma_arrangement::<K>(keys, m, descending);
        lemma_place_of::<K>(keys, order, m as int, descending);
        let p = place_of::<K>(keys, order, m as int, descending);
        let out = order.insert(p, m as usize);
        order.insert_ensures(p, m as usize);
        assert(out == arrangement::<K>(keys, n, descending));
        // Where each item of the new arrangement comes from.
        assert forall|j: int| 0 <= j < n implies #[trigger] out[j] == (if j < p {
            order[j]
        } else if j == p {
            m as usize
        } else {
            order[j - 1]
        }) by {}
        assert forall|j: int| 0 <= j < n implies (#[trigger] out[j]) < n by {
            if j < p {
                assert(order[j] < m);
            } else if j > p {
                assert(order[j - 1] < m);
            }
        }
        assert forall|a: int, b: int|
            0 <= a < out.len() && 0 <= b < out.len() && a != b implies out[a] != out[b] by {
            let a0 = if a < p {
                a
            } else {
                a - 1
            };
            let b0 = if b < p {
                b
            } else {
                b - 1
            };
            if a != p && b != p {
                assert(order[a0] != order[b0]);
            } else if a == p {
                assert(order[b0] < m);
            } else {
                assert(order[a0] < m);
            }
        }
        assert forall|i: usize| i < n implies #[trigger] out.contains(i) by {
            if i == m {
                assert(out[p] == i);
            } else {
                assert(order.contains(i));
                let j = choose|j: int| 0 <= j < order.len() && order[j] == i;
                if j < p {
                    assert(out[j] == i);
                } else {
                    assert(out[j + 1] == i);
                }
            }
        }
        assert forall|a: int, b: int| 0 <= a < b < n implies !goes_ahead::<K>(
            keys[#[trigger] out[b] as int],
            keys[#[trigger] out[a] as int],
            descending,
        ) by {
            let new = keys[m as int];
            if b < p {
                assert(out[a] == order[a] && out[b] == order[b]);
            } else if b == p {
                assert(out[a] == order[a]);
            } else if a < p {
                assert(out[a] == order[a] && out[b] == order[b - 1]);
            } else if a == p {
                // The new item goes ahead of the one at its place, and that
                // one is not behind any later one.
                let at = keys[order[p] as int];
                let later = keys[order[b - 1] as int];
                assert(out[b] == order[b - 1]);
                assert(goes_ahead::<K>(new, at, descending));
                if p < b - 1 {
                    assert(!goes_ahead::<K>(later, at, descending));
                }
                if descending {
                    K::lemma_strict(at, new, later);
                    K::lemma_strict(new, later, at);
                } else {
                    K::lemma_strict(later, new, at);
                    K::lemma_strict(new, at, later);
                }
            } else {
                assert(out[a] == order[a - 1] && out[b] == order[b - 1]);
            }
        }
    }
}

/// Whether the key `a` goes ahead of the key `b` in the arrangement.
pub fn is_ahead<K: Ordered>(a: &K, b: &K, descending: bool) -> (ahead: bool)
    ensures
        ahead == goes_ahead::<K>(a@, b@, descending),
{
    if descending {
        b.is_before(a)
    } else {
        a.is_before(b)
    }
}

/// The indices of the items, arranged by key: ascending, or descending when
/// asked so. Items with keys of which neither stands before the other keep
/// their order.
pub fn stable_order<K: Ordered>(keys: &Vec<K>, descending: bool) -> (order: Vec<usize>)
    ensures
        order@ == arrangement::<K>(key_views(keys@), keys@.len(), descending),
        order.len() == keys.len(),
        forall|j: int| 0 <= j < order.len() ==> (#[trigger] order[j]) < keys.len(),
        order@.no_duplicates(),
        forall|i: usize| i < keys.len() ==> #[trigger] order@.contains(i),
        forall|a: int, b: int|
            0 <= a < b < order.len() ==> !goes_ahead::<K>(
                keys[#[trigger] order[b] as int]@,
                keys[#[trigger] order[a] as int]@,
                descending,
            ),
{
    let ghost views = key_views(keys@);
    let mut order: Vec<usize> = Vec::new();
    let mut i: usize = 0;
    while i < keys.len()
        invariant
            i <= keys.len(),
            views == key_views(keys@),
            order@ == arrangement::<K>(views, i as nat, descending),
            order.len() == i,
            forall|j: int| 0 <= j < order.len() ==> (#[trigger] order[j]) < i,
        decreases keys.len() - i,
    {
        let mut p: usize = 0;
        while p < order.len() && !is_ahead(&keys[i], &keys[order[p]], descending)
            invariant
                p <= order.len(),
                i < keys.len(),
                views == key_views(keys@),
                forall|j: int| 0 <= j < order.len() ==> (#[trigger] order[j]) < i,
                forall|j: int|
                    0 <= j < p ==> !goes_ahead::<K>(
                        views[i as int],
                        views[#[trigger] order@[j] as int],
                        descending,
                    ),
            decreases order.len() - p,
        {
            p += 1;
        }
        proof {
            lemma_place_of_is::<K>(views, order@, i as int, descending, p as int);
            lemma_arrangement::<K>(views, i as nat + 1, descending);
        }
        order.insert(p, i);
        i += 1;
    }
    proof {
        lemma_arrangement::<K>(views, keys@.len(), descending);
        assert forall|a: int, b: int| 0 <= a < b < order.len() implies !goes_ahead::<K>(
            keys[#[trigger] order[b] as int]@,
            keys[#[trigger] order[a] as int]@,
            descending,
        ) by {
            assert(views[order[b] as int] == keys[order[b] as int]@);
            assert(views[order[a] as int] == keys[order[a] as int]@);
        }
    }
    order
}

} // verus!
