//! Stable sorting of a list by rearranging the positions of its items.

use vstd::prelude::*;

verus! {

/// A list whose items can be compared by their positions.
pub trait Ranked {
    /// How many items there are.
    spec fn size(&self) -> nat;

    /// Whether the item at `i` may stand before the item at `j`.
    spec fn may_precede(&self, i: int, j: int) -> bool;

    proof fn order_is_total(&self, i: int, j: int)
        ensures
            self.may_precede(i, j) || self.may_precede(j, i),
    ;

    proof fn order_is_transitive(&self, i: int, j: int, k: int)
        requires
            self.may_precede(i, j),
            self.may_precede(j, k),
        ensures
            self.may_precede(i, k),
    ;

    fn count(&self) -> (n: usize)
        ensures
            n == self.size(),
    ;

    fn goes_first(&self, i: usize, j: usize) -> (yes: bool)
        requires
            i < self.size(),
            j < self.size(),
        ensures
            yes == self.may_precede(i as int, j as int),
    ;
}

/// Whether a stable sort puts the item at `i` before the item at `j`: by the
/// order, and by position where the order lets either stand first.
pub open spec fn precedes<L: Ranked>(list: &L, i: int, j: int) -> bool {
    list.may_precede(i, j) && (list.may_precede(j, i) ==> i < j)
}

/// Whether `places` holds positions in the order of a stable sort.
pub open spec fn ordered<L: Ranked>(list: &L, places: Seq<usize>) -> bool {
    forall|a: int, b: int|
        0 <= a < b < places.len() ==> precedes(list, #[trigger] places[a] as int, #[trigger] places[b] as int)
}

/// Whether `places` holds each position from `lo` up to but without `hi`, once.
pub open spec fn arranges(places: Seq<usize>, lo: int, hi: int) -> bool {
    &&& places.len() == hi - lo
    &&& forall|a: int| 0 <= a < places.len() ==> lo <= #[trigger] places[a] < hi
    &&& forall|p: usize| lo <= p < hi ==> #[trigger] places.contains(p)
}

/// Whether `places` is what a stable sort makes of the positions of `list`.
pub open spec fn sorts<L: Ranked>(list: &L, places: Seq<usize>) -> bool {
    ordered(list, places) && arranges(places, 0, list.size() as int)
}

proof fn lemma_precedes_is_transitive<L: Ranked>(list: &L, i: int, j: int, k: int)
    requires
        precedes(list, i, j),
        precedes(list, j, k),
    ensures
        precedes(list, i, k),
{
    list.order_is_transitive(i, j, k);
    if list.may_precede(k, i) {
        list.order_is_transitive(k, i, j);
        list.order_is_transitive(j, k, i);
    }
}

proof fn lemma_precedes_is_total<L: Ranked>(list: &L, i: int, j: int)
    requires
        i != j,
    ensures
        precedes(list, i, j) != precedes(list, j, i),
{
    list.order_is_total(i, j);
}

fn merge<L: Ranked>(list: &L, left: &Vec<usize>, right: &Vec<usize>, lo: usize, mid: usize, hi: usize) -> (out: Vec<
    usize,
>)
    requires
        lo <= mid <= hi <= list.size(),
        ordered(list, left@),
        ordered(list, right@),
        arranges(left@, lo as int, mid as int),
        arranges(right@, mid as int, hi as int),
    ensures
        ordered(list, out@),
        arranges(out@, lo as int, hi as int),
{
    let mut out: Vec<usize> = Vec::new();
    let mut i: usize = 0;
    let mut j: usize = 0;
    while i < left.len() || j < right.len()
        invariant
            lo <= mid <= hi <= list.size(),
            ordered(list, left@),
            ordered(list, right@),
            arranges(left@, lo as int, mid as int),
            arranges(right@, mid as int, hi as int),
            i <= left.len(),
            j <= right.len(),
            out.len() == i + j,
            ordered(list, out@),
            forall|a: int| 0 <= a < out.len() ==> lo <= #[trigger] out@[a] < hi,
            forall|a: int| 0 <= a < i ==> out@.contains(#[trigger] left@[a]),
            forall|a: int| 0 <= a < j ==> out@.contains(#[trigger] right@[a]),
            forall|a: int, b: int|
                0 <= a < out.len() && i <= b < left.len() ==> precedes(
                    list,
                    #[trigger] out@[a] as int,
                    #[trigger] left@[b] as int,
                ),
            forall|a: int, b: int|
                0 <= a < out.len() && j <= b < right.len() ==> precedes(
                    list,
                    #[trigger] out@[a] as int,
                    #[trigger] right@[b] as int,
                ),
        decreases left.len() - i + right.len() - j,
    {
        let from_left: bool = if i == left.len() {
            false
        } else if j == right.len() {
            true
        } else {
            list.goes_first(left[i], right[j])
        };
        let ghost before = out@;
        let next: usize = if from_left {
            left[i]
        } else {
            right[j]
        };
        proof {
            if i < left.len() && j < right.len() {
                let l = left@[i as int] as int;
                let r = right@[j as int] as int;
                list.order_is_total(l, r);
                assert(l < r);
                if from_left {
                    assert(precedes(list, l, r));
                } else {
                    assert(precedes(list, r, l));
                }
                assert forall|b: int| i <= b < left.len() && !from_left implies precedes(
                    list,
                    r,
                    #[trigger] left@[b] as int,
                ) by {
                    if b > i {
                        lemma_precedes_is_transitive(list, r, l, left@[b] as int);
                    }
                }
                assert forall|b: int| j <= b < right.len() && from_left implies precedes(
                    list,
                    l,
                    #[trigger] right@[b] as int,
                ) by {
                    if b > j {
                        lemma_precedes_is_transitive(list, l, r, right@[b] as int);
                    }
                }
            }
        }
        out.push(next);
        proof {
            assert(out@[before.len() as int] == next);
            assert forall|x: usize| before.contains(x) implies #[trigger] out@.contains(x) by {
                let a = choose|a: int| 0 <= a < before.len() && before[a] == x;
                assert(out@[a] == x);
            }
            assert(out@.contains(next));
        }
        if from_left {
            i += 1;
        } else {
            j += 1;
        }
    }
    proof {
        assert forall|p: usize| lo <= p < hi implies #[trigger] out@.contains(p) by {
            if p < mid {
                assert(left@.contains(p));
                let a = choose|a: int| 0 <= a < left@.len() && left@[a] == p;
                assert(out@.contains(left@[a]));
            } else {
                assert(right@.contains(p));
                let a = choose|a: int| 0 <= a < right@.len() && right@[a] == p;
                assert(out@.contains(right@[a]));
            }
        }
    }
    out
}

fn sort_range<L: Ranked>(list: &L, lo: usize, hi: usize) -> (out: Vec<usize>)
    requires
        lo <= hi <= list.size(),
    ensures
        ordered(list, out@),
        arranges(out@, lo as int, hi as int),
    decreases hi - lo,
{
    if hi - lo == 0 {
        Vec::new()
    } else if hi - lo == 1 {
        let mut out: Vec<usize> = Vec::new();
        out.push(lo);
        assert(out@[0] == lo);
        out
    } else {
        let mid: usize = lo + (hi - lo) / 2;
        let left: Vec<usize> = sort_range(list, lo, mid);
        let right: Vec<usize> = sort_range(list, mid, hi);
        merge(list, &left, &right, lo, mid, hi)
    }
}

/// The positions of `list` in the order of a stable sort.
pub fn sort_places<L: Ranked>(list: &L) -> (places: Vec<usize>)
    ensures
        sorts(list, places@),
{
    sort_range(list, 0, list.count())
}

/// Two stable sorts of one list agree.
pub proof fn sorting_is_determined<L: Ranked>(list: &L, a: Seq<usize>, b: Seq<usize>)
    requires
        sorts(list, a),
        sorts(list, b),
        list.size() <= usize::MAX,
    ensures
        a == b,
{
    lemma_same_prefix(list, a, b, list.size() as int);
    assert(a.take(list.size() as int) == a);
    assert(b.take(list.size() as int) == b);
}

proof fn lemma_same_prefix<L: Ranked>(list: &L, a: Seq<usize>, b: Seq<usize>, n: int)
    requires
        sorts(list, a),
        sorts(list, b),
        list.size() <= usize::MAX,
        0 <= n <= list.size(),
    ensures
        a.take(n) == b.take(n),
    decreases n,
{
    if n > 0 {
        let k = n - 1;
        lemma_same_prefix(list, a, b, k);
        lemma_next_not_after(list, a, b, k);
        lemma_next_not_after(list, b, a, k);
        if a[k] != b[k] {
            lemma_precedes_is_total(list, a[k] as int, b[k] as int);
        }
        assert(a.take(n) =~= b.take(n)) by {
            assert forall|i: int| 0 <= i < n implies a[i] == b[i] by {
                if i < k {
                    assert(a.take(k)[i] == b.take(k)[i]);
                }
            }
        }
    }
}

/// Where two sorts agree up to position `k`, the item of the second at `k`
/// is the item of the first, or stands after it.
proof fn lemma_next_not_after<L: Ranked>(list: &L, a: Seq<usize>, b: Seq<usize>, k: int)
    requires
        sorts(list, a),
        sorts(list, b),
        0 <= k < list.size(),
        list.size() <= usize::MAX,
        a.take(k) == b.take(k),
    ensures
        a[k] == b[k] || precedes(list, a[k] as int, b[k] as int),
{
    assert(a.contains(b[k]));
    let i = choose|i: int| 0 <= i < a.len() && a[i] == b[k];
    if i < k {
        assert(a.take(k)[i] == a[i]);
        assert(b.take(k)[i] == b[i]);
        assert(precedes(list, b[i] as int, b[k] as int));
        assert(false);
    }
    if i > k {
        assert(precedes(list, a[k] as int, a[i] as int));
    }
}

/// Whole numbers, in ascending order.
pub struct Ascending {
    pub keys: Vec<i64>,
}

impl Ranked for Ascending {
    open spec fn size(&self) -> nat {
        self.keys@.len()
    }

    open spec fn may_precede(&self, i: int, j: int) -> bool {
        self.keys@[i] <= self.keys@[j]
    }

    proof fn order_is_total(&self, i: int, j: int) {
    }

    proof fn order_is_transitive(&self, i: int, j: int, k: int) {
    }

    fn count(&self) -> (n: usize) {
        self.keys.len()
    }

    fn goes_first(&self, i: usize, j: usize) -> (yes: bool) {
        self.keys[i] <= self.keys[j]
    }
}

/// Whole numbers, in descending order.
pub struct Descending {
    pub keys: Vec<i64>,
}

impl Ranked for Descending {
    open spec fn size(&self) -> nat {
        self.keys@.len()
    }

    open spec fn may_precede(&self, i: int, j: int) -> bool {
        self.keys@[i] >= self.keys@[j]
    }

    proof fn order_is_total(&self, i: int, j: int) {
    }

    proof fn order_is_transitive(&self, i: int, j: int, k: int) {
    }

    fn count(&self) -> (n: usize) {
        self.keys.len()
    }

    fn goes_first(&self, i: usize, j: usize) -> (yes: bool) {
        self.keys[i] >= self.keys[j]
    }
}

/// Sorting rearranges: every position is there, once. Of two items the one that stands first
/// may precede the other, and where either may, they stand as they did.
pub proof fn sorting_rearranges<L: Ranked>(list: &L, places: Seq<usize>, a: int, b: int, p: usize)
    requires
        sorts(list, places),
        0 <= a < b < places.len(),
        p < list.size(),
    ensures
        places.len() == list.size(),
        places.contains(p),
        places[a] < list.size() && places[b] < list.size(),
        places[a] != places[b],
        list.may_precede(places[a] as int, places[b] as int),
        list.may_precede(places[b] as int, places[a] as int) ==> places[a] < places[b],
{
    assert(precedes(list, places[a] as int, places[b] as int));
    list.order_is_total(places[a] as int, places[a] as int);
}

} // verus!
