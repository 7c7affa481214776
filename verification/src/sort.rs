//! `qsort` and `bsearch` over arrays of fixed-size elements held in a byte
//! buffer, ordered by a caller-supplied comparison.

use vstd::prelude::*;
use vstd::seq_lib::to_multiset_update;

verus! {

/// The comparison a caller hands to `qsort` and `bsearch`: negative, zero or
/// positive as the first element sorts before, with or after the second.
/// An order that computes `order` makes `compare` a function of the
/// elements' bytes; one that obeys the order laws also makes `order` a total
/// preorder. The searching results are stated for the first kind, the
/// sorting results for the second.
pub trait ElementOrder {
    /// `compare` computes `order`.
    spec fn computes_order(&self) -> bool;

    /// `compare` computes `order`, and `order` obeys the two laws below.
    spec fn obeys_order(&self) -> bool;

    /// The value `compare` returns for two elements.
    spec fn order(&self, a: Seq<u8>, b: Seq<u8>) -> int;

    /// An order that obeys the laws computes `order`.
    proof fn lemma_obeys_computes(&self)
        ensures
            self.obeys_order() ==> self.computes_order(),
    ;

    /// Swapping the operands flips the sign of the result.
    proof fn lemma_antisymmetric(&self, a: Seq<u8>, b: Seq<u8>)
        ensures
            self.obeys_order() ==> (self.order(a, b) < 0) == (self.order(b, a) > 0),
            self.obeys_order() ==> (self.order(a, b) == 0) == (self.order(b, a) == 0),
    ;

    /// "Sorts no later than" is transitive.
    proof fn lemma_transitive(&self, a: Seq<u8>, b: Seq<u8>, c: Seq<u8>)
        requires
            self.order(a, b) <= 0,
            self.order(b, c) <= 0,
        ensures
            self.obeys_order() ==> self.order(a, c) <= 0,
    ;

    fn compare(&self, a: &[u8], b: &[u8]) -> (r: i32)
        ensures
            self.computes_order() ==> r == self.order(a@, b@),
    ;
}

/// `f` gives one result for each pair of byte contents.
pub open spec fn deterministic<F: Fn(&[u8], &[u8]) -> i32>(f: F) -> bool {
    forall|x1: &[u8], y1: &[u8], x2: &[u8], y2: &[u8], r1: i32, r2: i32|
        #![trigger call_ensures(f, (x1, y1), r1), call_ensures(f, (x2, y2), r2)]
        x1@ == x2@ && y1@ == y2@ && call_ensures(f, (x1, y1), r1) && call_ensures(f, (x2, y2), r2)
            ==> r1 == r2
}

/// Orders elements by a comparison closure, such as one that calls a
/// function supplied by a C caller. A closure that gives one result for
/// each pair of contents computes an order; it obeys the order laws when
/// that order is also a total preorder. Whatever the closure does, sorting
/// by it permutes the elements and searching by it answers with an element.
pub struct ByComparator<F: Fn(&[u8], &[u8]) -> i32>(F);

impl<F: Fn(&[u8], &[u8]) -> i32> ByComparator<F> {
    /// The closure accepts every pair of elements.
    #[verifier::type_invariant]
    spec fn accepts_all(self) -> bool {
        forall|a: &[u8], b: &[u8]| #[trigger] call_requires(self.0, (a, b))
    }

    /// Wraps a closure that may be called on any two elements.
    pub fn new(f: F) -> (r: Self)
        requires
            forall|a: &[u8], b: &[u8]| #[trigger] call_requires(f, (a, b)),
        ensures
            r.comparison() == f,
    {
        ByComparator(f)
    }

    /// The closure the elements are compared with.
    pub closed spec fn comparison(&self) -> F {
        self.0
    }

    /// The order is a total preorder.
    pub open spec fn order_is_preorder(&self) -> bool {
        &&& forall|a: Seq<u8>, b: Seq<u8>|
            (#[trigger] self.order(a, b) < 0) == (self.order(b, a) > 0) && (self.order(a, b) == 0)
                == (self.order(b, a) == 0)
        &&& forall|a: Seq<u8>, b: Seq<u8>, c: Seq<u8>|
            #[trigger] self.order(a, b) <= 0 && #[trigger] self.order(b, c) <= 0 ==> self.order(a, c)
                <= 0
    }
}

impl<F: Fn(&[u8], &[u8]) -> i32> ElementOrder for ByComparator<F> {
    open spec fn computes_order(&self) -> bool {
        deterministic(self.comparison())
    }

    open spec fn obeys_order(&self) -> bool {
        self.computes_order() && self.order_is_preorder()
    }

    /// A result the closure gives for elements with these contents.
    open spec fn order(&self, a: Seq<u8>, b: Seq<u8>) -> int {
        let (x, y, r) = choose|x: &[u8], y: &[u8], r: i32|
            x@ == a && y@ == b && #[trigger] call_ensures(self.comparison(), (x, y), r);
        r as int
    }

    proof fn lemma_obeys_computes(&self) {
    }

    proof fn lemma_antisymmetric(&self, a: Seq<u8>, b: Seq<u8>) {
    }

    proof fn lemma_transitive(&self, a: Seq<u8>, b: Seq<u8>, c: Seq<u8>) {
    }

    /// What the closure returns for the two elements.
    fn compare(&self, a: &[u8], b: &[u8]) -> (r: i32)
        ensures
            call_ensures(self.comparison(), (a, b), r),
    {
        proof {
            use_type_invariant(self);
        }
        let r = (self.0)(a, b);
        proof {
            let f = self.comparison();
            assert(call_ensures(f, (a, b), r));
            let (x, y, c) = choose|x: &[u8], y: &[u8], c: i32|
                x@ == a@ && y@ == b@ && #[trigger] call_ensures(f, (x, y), c);
            assert(call_ensures(f, (x, y), c));
        }
        r
    }
}

/// Element `k` of an array of `size`-byte elements.
pub open spec fn elem(b: Seq<u8>, size: int, k: int) -> Seq<u8> {
    b.subrange(k * size, k * size + size)
}

/// The first `n` elements of the array held in `b`.
pub open spec fn elems(b: Seq<u8>, n: int, size: int) -> Seq<Seq<u8>> {
    Seq::new(n as nat, |k: int| elem(b, size, k))
}

pub open spec fn sorted_by<C: ElementOrder>(ord: &C, e: Seq<Seq<u8>>) -> bool {
    forall|p: int, q: int| 0 <= p < q < e.len() ==> ord.order(#[trigger] e[p], #[trigger] e[q]) <= 0
}

proof fn lemma_mul_step(m: int, j: int, size: int)
    requires
        0 <= m < j,
        0 <= size,
    ensures
        m * size + size <= j * size,
        (j - 1) * size + size == j * size,
        0 <= m * size,
{
    assert(m * size + size <= j * size) by (nonlinear_arith)
        requires
            0 <= m < j,
            0 <= size,
    ;
    assert((j - 1) * size + size == j * size) by (nonlinear_arith);
    assert(0 <= m * size) by (nonlinear_arith)
        requires
            0 <= m,
            0 <= size,
    ;
}

/// Exchanges the two adjacent `size`-byte blocks starting at `a`.
fn swap_adjacent(base: &mut [u8], a: usize, size: usize)
    requires
        a + 2 * size <= old(base)@.len(),
    ensures
        final(base)@.len() == old(base)@.len(),
        forall|k: int| a <= k < a + size ==> final(base)@[k] == old(base)@[k + size],
        forall|k: int| a + size <= k < a + 2 * size ==> final(base)@[k] == old(base)@[k - size],
        forall|k: int|
            0 <= k < old(base)@.len() && !(a <= k < a + 2 * size) ==> final(base)@[k] == old(
                base,
            )@[k],
{
    assert(base@.len() == base.len());
    let mut k: usize = 0;
    while k < size
        invariant
            k <= size,
            old(base)@.len() <= usize::MAX,
            a + 2 * size <= old(base)@.len(),
            base@.len() == old(base)@.len(),
            forall|t: int| a <= t < a + k ==> base@[t] == old(base)@[t + size],
            forall|t: int| a + size <= t < a + size + k ==> base@[t] == old(base)@[t - size],
            forall|t: int|
                0 <= t < old(base)@.len() && !(a <= t < a + k) && !(a + size <= t < a + size + k)
                    ==> base@[t] == old(base)@[t],
        decreases size - k,
    {
        let t = base[a + k];
        base[a + k] = base[a + size + k];
        base[a + size + k] = t;
        k += 1;
    }
}

/// Swapping the blocks of elements `j - 1` and `j` swaps those elements.
proof fn lemma_swap_elems(old_b: Seq<u8>, new_b: Seq<u8>, n: int, size: int, j: int)
    requires
        1 <= j < n,
        0 <= size,
        n * size <= old_b.len(),
        new_b.len() == old_b.len(),
        forall|k: int|
            (j - 1) * size <= k < (j - 1) * size + size ==> new_b[k] == old_b[k + size],
        forall|k: int|
            (j - 1) * size + size <= k < (j - 1) * size + 2 * size ==> new_b[k] == old_b[k
                - size],
        forall|k: int|
            0 <= k < old_b.len() && !((j - 1) * size <= k < (j - 1) * size + 2 * size)
                ==> new_b[k] == old_b[k],
    ensures
        elems(new_b, n, size) == elems(old_b, n, size).update(
            j - 1,
            elems(old_b, n, size)[j],
        ).update(j, elems(old_b, n, size)[j - 1]),
{
    let e = elems(old_b, n, size);
    let f = elems(new_b, n, size);
    let g = e.update(j - 1, e[j]).update(j, e[j - 1]);
    lemma_mul_step(j - 1, j, size);
    lemma_mul_step(j, n, size);
    assert forall|m: int| 0 <= m < n implies #[trigger] f[m] == g[m] by {
        if m < j - 1 {
            lemma_mul_step(m, j - 1, size);
            assert(elem(new_b, size, m) =~= elem(old_b, size, m));
        } else if m == j - 1 {
            assert(elem(new_b, size, m) =~= elem(old_b, size, j));
        } else if m == j {
            assert(elem(new_b, size, m) =~= elem(old_b, size, j - 1));
        } else {
            lemma_mul_step(j, m, size);
            lemma_mul_step(m, n, size);
            assert(elem(new_b, size, m) =~= elem(old_b, size, m));
        }
    }
    assert(f =~= g);
}

/// The elements `0..=i` of `e`, with the one at `j` set aside, are in order,
/// and the one at `j` sorts no later than every element after it.
pub open spec fn insertion_state<C: ElementOrder>(ord: &C, e: Seq<Seq<u8>>, i: int, j: int) -> bool {
    &&& forall|p: int, q: int|
        0 <= p < q <= i && p != j && q != j ==> ord.order(#[trigger] e[p], #[trigger] e[q]) <= 0
    &&& forall|q: int| j < q <= i ==> ord.order(e[j], #[trigger] e[q]) <= 0
}

/// `qsort`: sorts the first `nmemb` elements of `size` bytes in `base` by
/// `order` (an insertion sort). The elements end up in order and are a
/// permutation of those given; bytes past the array are left alone, and
/// with fewer than two elements or zero-sized ones nothing changes.
pub fn qsort<C: ElementOrder>(base: &mut [u8], nmemb: usize, size: usize, order: &C)
    requires
        nmemb * size <= old(base)@.len(),
    ensures
        final(base)@.len() == old(base)@.len(),
        elems(final(base)@, nmemb as int, size as int).to_multiset() == elems(
            old(base)@,
            nmemb as int,
            size as int,
        ).to_multiset(),
        order.obeys_order() ==> sorted_by(order, elems(final(base)@, nmemb as int, size as int)),
        final(base)@.skip(nmemb * size) == old(base)@.skip(nmemb * size),
        nmemb < 2 || size == 0 ==> final(base)@ == old(base)@,
{
    let ghost n = nmemb as int;
    let ghost sz = size as int;
    proof {
        order.lemma_obeys_computes();
    }
    if nmemb < 2 || size == 0 {
        proof {
            if size == 0 && order.obeys_order() {
                assert forall|p: int, q: int| 0 <= p < q < n implies order.order(
                    #[trigger] elems(base@, n, sz)[p],
                    #[trigger] elems(base@, n, sz)[q],
                ) <= 0 by {
                    assert(elems(base@, n, sz)[p] =~= elems(base@, n, sz)[q]);
                    order.lemma_antisymmetric(elems(base@, n, sz)[p], elems(base@, n, sz)[q]);
                }
            }
        }
        return;
    }
    assert(base@.len() == base.len());
    let mut i: usize = 1;
    while i < nmemb
        invariant
            1 <= i <= nmemb,
            order.obeys_order() ==> order.computes_order(),
            n == nmemb,
            sz == size,
            size > 0,
            nmemb * size <= base@.len(),
            base@.len() == old(base)@.len(),
            base@.len() <= usize::MAX,
            elems(base@, n, sz).to_multiset() == elems(old(base)@, n, sz).to_multiset(),
            base@.skip(n * sz) == old(base)@.skip(n * sz),
            order.obeys_order() ==> forall|p: int, q: int|
                0 <= p < q < i ==> order.order(
                    #[trigger] elems(base@, n, sz)[p],
                    #[trigger] elems(base@, n, sz)[q],
                ) <= 0,
        decreases nmemb - i,
    {
        let mut j: usize = i;
        while j > 0
            invariant_except_break
                0 <= j <= i < nmemb,
                order.obeys_order() ==> order.computes_order(),
                n == nmemb,
                sz == size,
                size > 0,
                nmemb * size <= base@.len(),
                base@.len() == old(base)@.len(),
                base@.len() <= usize::MAX,
                elems(base@, n, sz).to_multiset() == elems(old(base)@, n, sz).to_multiset(),
                base@.skip(n * sz) == old(base)@.skip(n * sz),
                order.obeys_order() ==> insertion_state(order, elems(base@, n, sz), i as int, j as int),
            ensures
                nmemb * size <= base@.len(),
                base@.len() == old(base)@.len(),
                elems(base@, n, sz).to_multiset() == elems(old(base)@, n, sz).to_multiset(),
                base@.skip(n * sz) == old(base)@.skip(n * sz),
                order.obeys_order() ==> forall|p: int, q: int|
                    0 <= p < q <= i ==> order.order(
                        #[trigger] elems(base@, n, sz)[p],
                        #[trigger] elems(base@, n, sz)[q],
                    ) <= 0,
            decreases j,
        {
            proof {
                lemma_mul_step(j - 1, j as int, sz);
                lemma_mul_step(j as int, n, sz);
            }
            let a = (j - 1) * size;
            let b = a + size;
            let c = order.compare(&base[a..b], &base[b..b + size]);
            let ghost e = elems(base@, n, sz);
            assert(base@.subrange(a as int, b as int) == e[j - 1]);
            assert(base@.subrange(b as int, b + size) == e[j as int]);
            if c <= 0 {
                proof {
                    if order.obeys_order() {
                    assert forall|p: int, q: int| 0 <= p < q <= i implies order.order(
                        #[trigger] e[p],
                        #[trigger] e[q],
                    ) <= 0 by {
                        if q == j && p < j - 1 {
                            order.lemma_transitive(e[p], e[j - 1], e[q]);
                        }
                    }
                    }
                }
                break;
            }
            let ghost before = base@;
            swap_adjacent(base, a, size);
            proof {
                lemma_swap_elems(before, base@, n, sz, j as int);
                let f = elems(base@, n, sz);
                to_multiset_update(e, j - 1, e[j as int]);
                to_multiset_update(e.update(j - 1, e[j as int]), j as int, e[j - 1]);
                assert(e.to_multiset().count(e[j - 1]) > 0) by {
                    broadcast use vstd::seq_lib::group_to_multiset_ensures;
                    assert(e.contains(e[j - 1]));
                }
                assert(f.to_multiset() =~= e.to_multiset()) by {
                    broadcast use vstd::multiset::group_multiset_axioms;
                }
                if order.obeys_order() {
                    order.lemma_antisymmetric(e[j - 1], e[j as int]);
                    assert(insertion_state(order, f, i as int, j - 1));
                }
                assert forall|k: int| 0 <= k < base@.len() - n * sz implies #[trigger] base@.skip(n * sz)[k]
                    == old(base)@.skip(n * sz)[k] by {
                    assert(base@[n * sz + k] == before[n * sz + k]);
                    assert(before.skip(n * sz)[k] == before[n * sz + k]);
                }
                assert(base@.skip(n * sz) =~= old(base)@.skip(n * sz));
            }
            j -= 1;
        }
        i += 1;
    }
}

/// The binary search `bsearch` performs over the elements `lo..=hi` of `e`:
/// probe the middle one, continue left of it when the key sorts before it,
/// right of it when after, and stop when they compare equal.
pub open spec fn bsearch_probe<C: ElementOrder>(
    ord: &C,
    key: Seq<u8>,
    e: Seq<Seq<u8>>,
    lo: int,
    hi: int,
) -> Option<int>
    decreases hi - lo + 1,
{
    if lo > hi || lo < 0 || hi >= e.len() {
        None
    } else {
        let mid = (lo + hi) / 2;
        if ord.order(key, e[mid]) < 0 {
            bsearch_probe(ord, key, e, lo, mid - 1)
        } else if ord.order(key, e[mid]) > 0 {
            bsearch_probe(ord, key, e, mid + 1, hi)
        } else {
            Some(mid)
        }
    }
}

/// Every element that sorts after `key` comes after every element that
/// sorts before it or with it, and every element that sorts before `key`
/// comes before every one that sorts with it or after it: the array is split
/// around the key.
pub open spec fn key_partitioned<C: ElementOrder>(ord: &C, key: Seq<u8>, e: Seq<Seq<u8>>) -> bool {
    forall|i: int, j: int|
        0 <= i < j < e.len() ==> (#[trigger] ord.order(key, e[i]) < 0 ==> #[trigger] ord.order(
            key,
            e[j],
        ) < 0) && (ord.order(key, e[j]) > 0 ==> ord.order(key, e[i]) > 0)
}

/// Some element of `e` sorts with `key`.
pub open spec fn holds_equal<C: ElementOrder>(ord: &C, key: Seq<u8>, e: Seq<Seq<u8>>) -> bool {
    exists|m: int| 0 <= m < e.len() && #[trigger] ord.order(key, e[m]) == 0
}

/// `bsearch`: the index of the element of the first `nmemb` that the binary
/// search finds equal to `key`, or `None`. When the comparison computes an
/// order, the result is the one the search defined by `bsearch_probe`
/// gives; when the array is moreover split around the key, an element is
/// found exactly when one compares equal to the key, and it does.
pub fn bsearch<C: ElementOrder>(
    key: &[u8],
    base: &[u8],
    nmemb: usize,
    size: usize,
    order: &C,
) -> (r: Option<usize>)
    requires
        nmemb * size <= base@.len(),
    ensures
        order.computes_order() ==> r == (match bsearch_probe(
            order,
            key@,
            elems(base@, nmemb as int, size as int),
            0,
            nmemb - 1,
        ) {
            Some(m) => Some(m as usize),
            None => None::<usize>,
        }),
        order.computes_order() && key_partitioned(order, key@, elems(base@, nmemb as int, size as int))
            ==> {
            &&& (r is Some) == holds_equal(order, key@, elems(base@, nmemb as int, size as int))
            &&& (r matches Some(k) ==> order.order(key@, elems(base@, nmemb as int, size as int)[k as int]) == 0)
        },
        r matches Some(k) ==> k < nmemb,
        nmemb == 0 ==> r is None,
{
    let ghost e = elems(base@, nmemb as int, size as int);
    let ghost target = bsearch_probe(order, key@, e, 0, nmemb - 1);
    proof {
        if order.computes_order() && key_partitioned(order, key@, e) && nmemb > 0 {
            lemma_bsearch_finds(order, key@, e, 0, nmemb - 1);
        }
    }
    assert(base@.len() == base.len());
    let mut lo: usize = 0;
    let mut hi: usize = nmemb;
    while lo < hi
        invariant
            lo <= hi <= nmemb,
            nmemb * size <= base@.len(),
            base@.len() <= usize::MAX,
            e == elems(base@, nmemb as int, size as int),
            target == bsearch_probe(order, key@, e, 0, nmemb - 1),
            order.computes_order() ==> target == bsearch_probe(order, key@, e, lo as int, hi - 1),
        decreases hi - lo,
    {
        let mid = lo + (hi - lo - 1) / 2;
        assert(mid == (lo + (hi - 1)) / 2);
        proof {
            lemma_mul_step(mid as int, nmemb as int, size as int);
        }
        let start = mid * size;
        let elem_bytes = &base[start..start + size];
        assert(elem_bytes@ == e[mid as int]);
        let ord = order.compare(key, elem_bytes);
        if ord < 0 {
            hi = mid;
        } else if ord > 0 {
            lo = mid + 1;
        } else {
            return Some(mid);
        }
    }
    None
}

/// In an array split around the key, the binary search finds an element
/// equal to the key whenever one exists, and what it finds is equal to the
/// key.
pub proof fn lemma_bsearch_finds<C: ElementOrder>(
    ord: &C,
    key: Seq<u8>,
    e: Seq<Seq<u8>>,
    lo: int,
    hi: int,
)
    requires
        key_partitioned(ord, key, e),
        0 <= lo,
        hi < e.len(),
    ensures
        (exists|m: int| lo <= m <= hi && #[trigger] ord.order(key, e[m]) == 0) ==> bsearch_probe(
            ord,
            key,
            e,
            lo,
            hi,
        ) is Some,
        bsearch_probe(ord, key, e, lo, hi) matches Some(m) ==> lo <= m <= hi && ord.order(
            key,
            e[m],
        ) == 0,
    decreases hi - lo + 1,
{
    if lo <= hi {
        let mid = (lo + hi) / 2;
        if ord.order(key, e[mid]) < 0 {
            lemma_bsearch_finds(ord, key, e, lo, mid - 1);
            if exists|m: int| lo <= m <= hi && #[trigger] ord.order(key, e[m]) == 0 {
                let m = choose|m: int| lo <= m <= hi && #[trigger] ord.order(key, e[m]) == 0;
                if m > mid {
                    assert(ord.order(key, e[m]) < 0);
                }
            }
        } else if ord.order(key, e[mid]) > 0 {
            lemma_bsearch_finds(ord, key, e, mid + 1, hi);
            if exists|m: int| lo <= m <= hi && #[trigger] ord.order(key, e[m]) == 0 {
                let m = choose|m: int| lo <= m <= hi && #[trigger] ord.order(key, e[m]) == 0;
                if m < mid {
                    assert(ord.order(key, e[m]) > 0);
                }
            }
        }
    }
}

/// An array sorted by an order that obeys the laws is split around every
/// key.
pub proof fn lemma_sorted_is_partitioned<C: ElementOrder>(ord: &C, key: Seq<u8>, e: Seq<Seq<u8>>)
    requires
        ord.obeys_order(),
        sorted_by(ord, e),
    ensures
        key_partitioned(ord, key, e),
{
    assert forall|i: int, j: int| 0 <= i < j < e.len() implies (#[trigger] ord.order(key, e[i]) < 0
        ==> #[trigger] ord.order(key, e[j]) < 0) && (ord.order(key, e[j]) > 0 ==> ord.order(
        key,
        e[i],
    ) > 0) by {
        assert(ord.order(e[i], e[j]) <= 0);
        ord.lemma_antisymmetric(key, e[i]);
        ord.lemma_antisymmetric(key, e[j]);
        if ord.order(key, e[i]) < 0 && ord.order(key, e[j]) >= 0 {
            ord.lemma_transitive(e[i], e[j], key);
        }
        if ord.order(key, e[j]) > 0 && ord.order(key, e[i]) <= 0 {
            ord.lemma_transitive(key, e[i], e[j]);
        }
    }
}

/// After `qsort`, `bsearch` with the same order finds an equal element
/// whenever the array holds one.
pub proof fn lemma_sorted_search_complete<C: ElementOrder>(
    ord: &C,
    key: Seq<u8>,
    e: Seq<Seq<u8>>,
    m: int,
)
    requires
        ord.obeys_order(),
        sorted_by(ord, e),
        0 <= m < e.len(),
        ord.order(key, e[m]) == 0,
    ensures
        bsearch_probe(ord, key, e, 0, e.len() - 1) matches Some(k) && ord.order(key, e[k]) == 0,
{
    lemma_sorted_is_partitioned(ord, key, e);
    lemma_bsearch_finds(ord, key, e, 0, e.len() - 1);
}

/// The `int` stored little-endian in the first four bytes of `b` (0 when `b`
/// is shorter).
pub open spec fn le_i32(b: Seq<u8>) -> int {
    if b.len() < 4 {
        0
    } else {
        let u = b[0] + 0x100 * b[1] + 0x1_0000 * b[2] + 0x100_0000 * b[3];
        if u >= 0x8000_0000 {
            u - 0x1_0000_0000
        } else {
            u
        }
    }
}

/// Compares elements that are native (little-endian) `int`s by value.
pub struct I32Order;

impl ElementOrder for I32Order {
    open spec fn computes_order(&self) -> bool {
        true
    }

    open spec fn obeys_order(&self) -> bool {
        true
    }

    proof fn lemma_obeys_computes(&self) {
    }

    open spec fn order(&self, a: Seq<u8>, b: Seq<u8>) -> int {
        if le_i32(a) < le_i32(b) {
            -1
        } else if le_i32(a) > le_i32(b) {
            1
        } else {
            0
        }
    }

    proof fn lemma_antisymmetric(&self, a: Seq<u8>, b: Seq<u8>) {
    }

    proof fn lemma_transitive(&self, a: Seq<u8>, b: Seq<u8>, c: Seq<u8>) {
    }

    fn compare(&self, a: &[u8], b: &[u8]) -> (r: i32) {
        let x = read_le_i32(a);
        let y = read_le_i32(b);
        if x < y {
            -1
        } else if x > y {
            1
        } else {
            0
        }
    }
}

/// Reads the little-endian `int` at the start of `b` (0 when `b` is shorter).
pub fn read_le_i32(b: &[u8]) -> (r: i64)
    ensures
        r == le_i32(b@),
{
    if b.len() < 4 {
        return 0;
    }
    let u: i64 = b[0] as i64 + 0x100 * (b[1] as i64) + 0x1_0000 * (b[2] as i64) + 0x100_0000 * (
    b[3] as i64);
    if u >= 0x8000_0000 {
        u - 0x1_0000_0000
    } else {
        u
    }
}

} // verus!
