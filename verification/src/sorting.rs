//! A stable merge sort on two-part text keys.
//!
//! Texts are ordered character by character, by character code; a proper
//! prefix comes before the longer text. Keys are ordered by their first part,
//! then by their second. The sort returns the order as a permutation of
//! positions, so that callers can arrange whatever the keys stand for.

use vstd::prelude::*;

verus! {

/// Result of comparing two values.
#[derive(Clone, Copy, Debug, PartialEq, Eq, Structural)]
pub enum Order {
    Less,
    Equal,
    Greater,
}

/// `a` comes strictly before `b`: they agree on the first `k` characters, and
/// there `a` ends or holds the smaller character.
pub open spec fn text_lt_at(a: Seq<char>, b: Seq<char>, k: int) -> bool {
    &&& 0 <= k <= a.len()
    &&& k <= b.len()
    &&& a.take(k) == b.take(k)
    &&& if k == a.len() {
        k < b.len()
    } else {
        k < b.len() && (a[k] as u32) < (b[k] as u32)
    }
}

/// `a` comes strictly before `b` in the order of texts.
pub open spec fn text_lt(a: Seq<char>, b: Seq<char>) -> bool {
    exists|k: int| text_lt_at(a, b, k)
}

/// A text is not before itself, and of two texts at most one is before the
/// other.
pub proof fn lemma_text_lt_asymmetric(a: Seq<char>, b: Seq<char>)
    ensures
        !(text_lt(a, b) && text_lt(b, a)),
        text_lt(a, b) ==> a != b,
{
    if text_lt(a, b) {
        let k = choose|k: int| text_lt_at(a, b, k);
        if a == b {
            assert(false);
        }
        if text_lt(b, a) {
            let m = choose|m: int| text_lt_at(b, a, m);
            if k < m {
                assert(b.take(m)[k] == a.take(m)[k]);
            } else if m < k {
                assert(a.take(k)[m] == b.take(k)[m]);
            }
            assert(false);
        }
    }
}

/// The order of texts is transitive.
pub proof fn lemma_text_lt_transitive(a: Seq<char>, b: Seq<char>, c: Seq<char>)
    requires
        text_lt(a, b),
        text_lt(b, c),
    ensures
        text_lt(a, c),
{
    let k = choose|k: int| text_lt_at(a, b, k);
    let m = choose|m: int| text_lt_at(b, c, m);
    let n = if k <= m {
        k
    } else {
        m
    };
    assert(a.take(n) =~= c.take(n)) by {
        assert forall|i: int| 0 <= i < n implies a[i] == c[i] by {
            assert(a.take(k)[i] == b.take(k)[i]);
            assert(b.take(m)[i] == c.take(m)[i]);
        }
    }
    if k < m {
        assert(b.take(m)[k] == c.take(m)[k]);
    } else if m < k {
        assert(a.take(k)[m] == b.take(k)[m]);
    }
    assert(text_lt_at(a, c, n));
}

/// Compares two texts.
pub fn compare_text(a: &[char], b: &[char]) -> (r: Order)
    ensures
        r == Order::Less <==> text_lt(a@, b@),
        r == Order::Equal <==> a@ == b@,
        r == Order::Greater <==> text_lt(b@, a@),
{
    proof {
        lemma_text_lt_asymmetric(a@, b@);
        lemma_text_lt_asymmetric(b@, a@);
    }
    let mut i: usize = 0;
    while i < a.len() && i < b.len()
        invariant
            i <= a.len(),
            i <= b.len(),
            a@.take(i as int) == b@.take(i as int),
        decreases a.len() - i,
    {
        if a[i] != b[i] {
            let x = a[i] as u32;
            let y = b[i] as u32;
            proof {
                vstd::utf8::char_u32_cast(a@[i as int], x);
                vstd::utf8::char_u32_cast(b@[i as int], y);
                lemma_text_lt_asymmetric(a@, b@);
                lemma_text_lt_asymmetric(b@, a@);
            }
            if x < y {
                assert(text_lt_at(a@, b@, i as int));
                return Order::Less;
            } else {
                assert(text_lt_at(b@, a@, i as int));
                return Order::Greater;
            }
        }
        assert(a@.take(i + 1) =~= a@.take(i as int).push(a@[i as int]));
        assert(b@.take(i + 1) =~= b@.take(i as int).push(b@[i as int]));
        i += 1;
    }
    if i < b.len() {
        assert(text_lt_at(a@, b@, i as int));
        Order::Less
    } else if i < a.len() {
        assert(text_lt_at(b@, a@, i as int));
        Order::Greater
    } else {
        assert(a@ =~= a@.take(i as int));
        assert(b@ =~= b@.take(i as int));
        Order::Equal
    }
}

/// A sort key of two texts; the first part weighs more.
pub struct SortKey {
    pub major: Vec<char>,
    pub minor: Vec<char>,
}

/// Mathematical model of a [`SortKey`].
pub struct SortKeyView {
    pub major: Seq<char>,
    pub minor: Seq<char>,
}

impl View for SortKey {
    type V = SortKeyView;

    open spec fn view(&self) -> SortKeyView {
        SortKeyView { major: self.major@, minor: self.minor@ }
    }
}

impl DeepView for SortKey {
    type V = SortKeyView;

    open spec fn deep_view(&self) -> SortKeyView {
        self@
    }
}

/// `a` comes strictly before `b` in the order of keys.
pub open spec fn key_lt(a: SortKeyView, b: SortKeyView) -> bool {
    text_lt(a.major, b.major) || (a.major == b.major && text_lt(a.minor, b.minor))
}

/// Position `x` belongs before position `y`, or is `y`: its key is the
/// smaller one, or the keys are equal and `x` is not the later position.
pub open spec fn precedes(keys: Seq<SortKeyView>, x: int, y: int) -> bool {
    key_lt(keys[x], keys[y]) || (keys[x] == keys[y] && x <= y)
}

/// `precedes` is transitive.
pub proof fn lemma_precedes_transitive(keys: Seq<SortKeyView>, x: int, y: int, z: int)
    requires
        precedes(keys, x, y),
        precedes(keys, y, z),
    ensures
        precedes(keys, x, z),
{
    let (a, b, c) = (keys[x], keys[y], keys[z]);
    if key_lt(a, b) && key_lt(b, c) {
        if text_lt(a.major, b.major) && text_lt(b.major, c.major) {
            lemma_text_lt_transitive(a.major, b.major, c.major);
        } else if a.major == b.major && b.major == c.major {
            lemma_text_lt_transitive(a.minor, b.minor, c.minor);
        }
    }
}

/// The positions `order` lists are in stable sorted order.
pub open spec fn ordered(keys: Seq<SortKeyView>, order: Seq<usize>) -> bool {
    forall|i: int, j: int|
        0 <= i < j < order.len() ==> precedes(keys, #[trigger] order[i] as int, #[trigger] order[j] as int)
}

/// Every position that `order` lists exists.
pub open spec fn in_range(order: Seq<usize>, n: nat) -> bool {
    forall|i: int| 0 <= i < order.len() ==> #[trigger] order[i] < n
}

/// The positions `0, 1, .., n - 1`.
pub open spec fn positions(n: nat) -> Seq<usize> {
    Seq::new(n, |i: int| i as usize)
}

/// `order` is the stable sorted order of `keys`: it lists every position
/// once, keys never decrease along it, and positions with equal keys keep
/// their order.
pub open spec fn is_stable_order(keys: Seq<SortKeyView>, order: Seq<usize>) -> bool {
    &&& order.len() == keys.len()
    &&& in_range(order, keys.len())
    &&& order.to_multiset() == positions(keys.len()).to_multiset()
    &&& ordered(keys, order)
}

/// Whether position `x` belongs before position `y` or is `y`.
fn position_precedes(keys: &Vec<SortKey>, x: usize, y: usize) -> (r: bool)
    requires
        x < keys.len(),
        y < keys.len(),
    ensures
        r == precedes(keys.deep_view(), x as int, y as int),
        !r ==> precedes(keys.deep_view(), y as int, x as int),
{
    let a = &keys[x];
    let b = &keys[y];
    proof {
        lemma_text_lt_asymmetric(a.major@, b.major@);
        lemma_text_lt_asymmetric(b.major@, a.major@);
        lemma_text_lt_asymmetric(a.minor@, b.minor@);
        lemma_text_lt_asymmetric(b.minor@, a.minor@);
        assert(keys.deep_view()[x as int] == a@);
        assert(keys.deep_view()[y as int] == b@);
    }
    match compare_text(a.major.as_slice(), b.major.as_slice()) {
        Order::Less => true,
        Order::Greater => false,
        Order::Equal => match compare_text(a.minor.as_slice(), b.minor.as_slice()) {
            Order::Less => true,
            Order::Greater => false,
            Order::Equal => x <= y,
        },
    }
}

/// Merges two sorted lists of positions into one.
fn merge(keys: &Vec<SortKey>, left: &Vec<usize>, right: &Vec<usize>) -> (out: Vec<usize>)
    requires
        in_range(left@, keys.len() as nat),
        in_range(right@, keys.len() as nat),
        ordered(keys.deep_view(), left@),
        ordered(keys.deep_view(), right@),
        left.len() + right.len() <= usize::MAX,
    ensures
        in_range(out@, keys.len() as nat),
        ordered(keys.deep_view(), out@),
        out@.to_multiset() == left@.to_multiset().add(right@.to_multiset()),
        out.len() == left.len() + right.len(),
{
    broadcast use vstd::seq_lib::group_to_multiset_ensures;

    let ghost k = keys.deep_view();
    let mut out: Vec<usize> = Vec::new();
    let mut i: usize = 0;
    let mut j: usize = 0;
    assert(left@.take(0) =~= Seq::empty());
    assert(right@.take(0) =~= Seq::empty());
    while i < left.len() || j < right.len()
        invariant
            i <= left.len(),
            j <= right.len(),
            k == keys.deep_view(),
            in_range(left@, keys.len() as nat),
            in_range(right@, keys.len() as nat),
            ordered(k, left@),
            ordered(k, right@),
            in_range(out@, keys.len() as nat),
            ordered(k, out@),
            out.len() == i + j,
            out@.to_multiset() == left@.take(i as int).to_multiset().add(
                right@.take(j as int).to_multiset(),
            ),
            forall|p: int, q: int|
                0 <= p < out.len() && i <= q < left.len() ==> precedes(
                    k,
                    #[trigger] out@[p] as int,
                    #[trigger] left@[q] as int,
                ),
            forall|p: int, q: int|
                0 <= p < out.len() && j <= q < right.len() ==> precedes(
                    k,
                    #[trigger] out@[p] as int,
                    #[trigger] right@[q] as int,
                ),
        decreases left.len() - i + right.len() - j,
    {
        let take_left = if i == left.len() {
            false
        } else if j == right.len() {
            true
        } else {
            position_precedes(keys, left[i], right[j])
        };
        let ghost before = out@;
        if take_left {
            let x = left[i];
            out.push(x);
            proof {
                assert(left@.take(i + 1) =~= left@.take(i as int).push(x));
                vstd::seq_lib::to_multiset_build(before, x);
                vstd::seq_lib::to_multiset_build(left@.take(i as int), x);
                assert(out@.to_multiset() =~= left@.take(i + 1).to_multiset().add(
                    right@.take(j as int).to_multiset(),
                ));
                assert forall|p: int, q: int|
                    0 <= p < out.len() && j <= q < right.len() implies precedes(
                    k,
                    #[trigger] out@[p] as int,
                    #[trigger] right@[q] as int,
                ) by {
                    if p == before.len() {
                        if q > j {
                            lemma_precedes_transitive(
                                k,
                                x as int,
                                right@[j as int] as int,
                                right@[q] as int,
                            );
                        }
                    }
                }
                assert forall|p: int, q: int|
                    0 <= p < out.len() && i + 1 <= q < left.len() implies precedes(
                    k,
                    #[trigger] out@[p] as int,
                    #[trigger] left@[q] as int,
                ) by {
                    if p == before.len() {
                        assert(precedes(k, left@[i as int] as int, left@[q] as int));
                    }
                }
            }
            i += 1;
        } else {
            let y = right[j];
            out.push(y);
            proof {
                assert(right@.take(j + 1) =~= right@.take(j as int).push(y));
                vstd::seq_lib::to_multiset_build(before, y);
                vstd::seq_lib::to_multiset_build(right@.take(j as int), y);
                assert(out@.to_multiset() =~= left@.take(i as int).to_multiset().add(
                    right@.take(j + 1).to_multiset(),
                ));
                assert forall|p: int, q: int|
                    0 <= p < out.len() && i <= q < left.len() implies precedes(
                    k,
                    #[trigger] out@[p] as int,
                    #[trigger] left@[q] as int,
                ) by {
                    if p == before.len() {
                        if q > i {
                            lemma_precedes_transitive(
                                k,
                                y as int,
                                left@[i as int] as int,
                                left@[q] as int,
                            );
                        }
                    }
                }
                assert forall|p: int, q: int|
                    0 <= p < out.len() && j + 1 <= q < right.len() implies precedes(
                    k,
                    #[trigger] out@[p] as int,
                    #[trigger] right@[q] as int,
                ) by {
                    if p == before.len() {
                        assert(precedes(k, right@[j as int] as int, right@[q] as int));
                    }
                }
            }
            j += 1;
        }
    }
    assert(left@.take(left.len() as int) =~= left@);
    assert(right@.take(right.len() as int) =~= right@);
    out
}

/// Sorts the positions `lo .. hi`.
fn sort_range(keys: &Vec<SortKey>, lo: usize, hi: usize) -> (out: Vec<usize>)
    requires
        lo <= hi <= keys.len(),
    ensures
        in_range(out@, keys.len() as nat),
        ordered(keys.deep_view(), out@),
        out@.to_multiset() == positions(keys.len() as nat).subrange(
            lo as int,
            hi as int,
        ).to_multiset(),
        out.len() == hi - lo,
    decreases hi - lo,
{
    broadcast use vstd::seq_lib::group_to_multiset_ensures;

    let ghost all = positions(keys.len() as nat);
    if hi - lo == 0 {
        let out: Vec<usize> = Vec::new();
        assert(all.subrange(lo as int, hi as int) =~= Seq::empty());
        out
    } else if hi - lo == 1 {
        let mut out: Vec<usize> = Vec::new();
        out.push(lo);
        assert(all.subrange(lo as int, hi as int) =~= out@);
        out
    } else {
        let mid = lo + (hi - lo) / 2;
        let left = sort_range(keys, lo, mid);
        let right = sort_range(keys, mid, hi);
        proof {
            assert(all.subrange(lo as int, hi as int) =~= all.subrange(lo as int, mid as int)
                + all.subrange(mid as int, hi as int));
            vstd::seq_lib::lemma_multiset_commutative(
                all.subrange(lo as int, mid as int),
                all.subrange(mid as int, hi as int),
            );
        }
        merge(keys, &left, &right)
    }
}

/// The stable sorted order of `keys`.
pub fn stable_order(keys: &Vec<SortKey>) -> (order: Vec<usize>)
    ensures
        is_stable_order(keys.deep_view(), order@),
{
    let order = sort_range(keys, 0, keys.len());
    assert(positions(keys.len() as nat).subrange(0, keys.len() as int) =~= positions(
        keys.len() as nat,
    ));
    order
}

proof fn lemma_text_compare_from(a: Seq<char>, b: Seq<char>, k: int)
    requires
        0 <= k <= a.len(),
        k <= b.len(),
        a.take(k) == b.take(k),
    ensures
        text_lt(a, b) || a == b || text_lt(b, a),
    decreases a.len() - k,
{
    if k == a.len() {
        if k == b.len() {
            assert(a =~= a.take(k));
            assert(b =~= b.take(k));
        } else {
            assert(text_lt_at(a, b, k));
        }
    } else if k == b.len() {
        assert(text_lt_at(b, a, k));
    } else if a[k] == b[k] {
        assert(a.take(k + 1) =~= a.take(k).push(a[k]));
        assert(b.take(k + 1) =~= b.take(k).push(b[k]));
        lemma_text_compare_from(a, b, k + 1);
    } else {
        let x = a[k] as u32;
        let y = b[k] as u32;
        vstd::utf8::char_u32_cast(a[k], x);
        vstd::utf8::char_u32_cast(b[k], y);
        if x < y {
            assert(text_lt_at(a, b, k));
        } else {
            assert(text_lt_at(b, a, k));
        }
    }
}

/// Of two different texts one comes before the other.
pub proof fn lemma_text_lt_total(a: Seq<char>, b: Seq<char>)
    ensures
        text_lt(a, b) || a == b || text_lt(b, a),
{
    assert(a.take(0) =~= b.take(0));
    lemma_text_compare_from(a, b, 0);
}

/// Positions in the order of their keys, equal keys in the order of the
/// positions, are totally ordered.
pub proof fn lemma_precedes_is_total_order(keys: Seq<SortKeyView>)
    ensures
        vstd::relations::total_ordering(|x: usize, y: usize| precedes(keys, x as int, y as int)),
{
    let leq = |x: usize, y: usize| precedes(keys, x as int, y as int);
    assert forall|x: usize, y: usize| #[trigger] leq(x, y) && #[trigger] leq(y, x) implies x
        == y by {
        let (a, b) = (keys[x as int], keys[y as int]);
        lemma_text_lt_asymmetric(a.major, b.major);
        lemma_text_lt_asymmetric(b.major, a.major);
        lemma_text_lt_asymmetric(a.minor, b.minor);
        lemma_text_lt_asymmetric(b.minor, a.minor);
    }
    assert forall|x: usize, y: usize, z: usize| #[trigger] leq(x, y) && #[trigger] leq(
        y,
        z,
    ) implies leq(x, z) by {
        lemma_precedes_transitive(keys, x as int, y as int, z as int);
    }
    assert forall|x: usize, y: usize| #[trigger] leq(x, y) || #[trigger] leq(y, x) by {
        let (a, b) = (keys[x as int], keys[y as int]);
        lemma_text_lt_total(a.major, b.major);
        lemma_text_lt_total(a.minor, b.minor);
    }
    assert forall|x: usize| #[trigger] leq(x, x) by {}
}

/// The stable sorted order of a list of keys is unique.
pub proof fn lemma_stable_order_is_unique(
    keys: Seq<SortKeyView>,
    first: Seq<usize>,
    second: Seq<usize>,
)
    requires
        is_stable_order(keys, first),
        is_stable_order(keys, second),
    ensures
        first == second,
{
    let leq = |x: usize, y: usize| precedes(keys, x as int, y as int);
    lemma_precedes_is_total_order(keys);
    assert(vstd::relations::sorted_by(first, leq));
    assert(vstd::relations::sorted_by(second, leq));
    vstd::seq_lib::lemma_sorted_unique(first, second, leq);
}

} // verus!
