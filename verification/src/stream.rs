//! The state of a future that finds the least item of a stream by a
//! comparison that the caller supplies.
use vstd::prelude::*;
use core::cmp::Ordering;

verus! {

/// The least item of a stream, by the stream's comparison: the stream, the
/// comparison, and the least item seen so far.
pub struct MinByFuture<S, F, T> {
    stream: S,
    compare: F,
    min: Option<T>,
}

impl<S, F, T: Copy> MinByFuture<S, F, T> {
    /// The least item seen so far.
    pub closed spec fn current(&self) -> Option<T> {
        self.min
    }

    /// A future over `stream` comparing by `compare`, having seen nothing.
    pub fn new(stream: S, compare: F) -> (f: Self)
        ensures
            f.current() is None,
    {
        MinByFuture { stream, compare, min: None }
    }

    /// The item seen so far that the next item is compared with, if any.
    pub fn pending_old(&self) -> (r: Option<T>)
        ensures
            r == self.current(),
    {
        self.min
    }

    /// Takes the next item `new` of the stream: the first item becomes the
    /// least; a later one replaces the least only when the comparison of
    /// `new` with it, `order`, is `Less`, so the earliest of equal items
    /// stays.
    pub fn absorb(&mut self, new: T, order: Ordering)
        ensures
            final(self).current() == match old(self).current() {
                None => Some(new),
                Some(old_min) => match order {
                    Ordering::Less => Some(new),
                    _ => Some(old_min),
                },
            },
    {
        self.min = match self.min {
            None => Some(new),
            Some(old_min) => match order {
                Ordering::Less => Some(new),
                _ => Some(old_min),
            },
        };
    }

    /// The result once the stream has ended: the least item, if any.
    pub fn finish(&self) -> (r: Option<T>)
        ensures
            r == self.current(),
    {
        self.min
    }
}

impl<S, F, T: Copy> MinByFuture<S, F, T> {
    /// The comparison the future was made with.
    pub closed spec fn comparison(&self) -> F {
        self.compare
    }

    /// Takes the next item `new` of the stream, comparing it with the least
    /// item so far by the future's own comparison: the first item becomes
    /// the least; a later one replaces it only when the comparison of `new`
    /// with it gives `Less`.
    pub fn take_item(&mut self, new: T)
        where
            F: Fn(&T, &T) -> Ordering,
        requires
            forall|a: &T, b: &T| #[trigger] call_requires(old(self).comparison(), (a, b)),
        ensures
            final(self).comparison() == old(self).comparison(),
            old(self).current() is None ==> final(self).current() == Some(new),
            old(self).current() matches Some(m) ==> exists|o: Ordering|
                call_ensures(old(self).comparison(), (&new, &m), o) && final(self).current() == match o {
                    Ordering::Less => Some(new),
                    _ => Some(m),
                },
    {
        match self.min {
            None => {
                self.min = Some(new);
            },
            Some(old_min) => {
                assert(call_requires(old(self).comparison(), (&new, &old_min)));
                assert(self.compare == old(self).comparison());
                let o = (self.compare)(&new, &old_min);
                self.min = match o {
                    Ordering::Less => Some(new),
                    _ => Some(old_min),
                };
            },
        }
    }
}

/// The least item found after taking `items` one by one from `m`, where
/// `less(a, b)` says the comparison of `a` with `b` gives `Less`.
pub open spec fn fold_min<T>(m: Option<T>, items: Seq<T>, less: spec_fn(T, T) -> bool) -> Option<T>
    decreases items.len(),
{
    if items.len() == 0 {
        m
    } else {
        let m2 = fold_min(m, items.drop_last(), less);
        let x = items.last();
        match m2 {
            None => Some(x),
            Some(y) => if less(x, y) { Some(x) } else { Some(y) },
        }
    }
}

/// Whether `less` is a strict order whose incomparability is transitive:
/// the comparisons of a total preorder.
pub open spec fn strict_weak(less: spec_fn(int, int) -> bool) -> bool {
    &&& forall|a: int| !(#[trigger] less(a, a))
    &&& forall|a: int, b: int, c: int| #[trigger] less(a, b) && #[trigger] less(b, c) ==> less(a, c)
    &&& forall|a: int, b: int, c: int| !(#[trigger] less(a, b)) && !(#[trigger] less(b, c)) ==> !less(a, c)
}

/// Taking a whole stream of items gives its first least item: the item at
/// the least index `k` such that no item compares `Less` than it, and
/// nothing for an empty stream.
pub proof fn lemma_fold_min_first_least(items: Seq<int>, less: spec_fn(int, int) -> bool)
    requires
        strict_weak(less),
    ensures
        items.len() == 0 ==> fold_min(None, items, less) is None,
        items.len() > 0 ==> exists|k: int| #![trigger items[k]] 0 <= k < items.len()
            && fold_min(None, items, less) == Some(items[k])
            && (forall|j: int| 0 <= j < items.len() ==> !less(#[trigger] items[j], items[k]))
            && (forall|j: int| 0 <= j < k ==> less(items[k], #[trigger] items[j])),
    decreases items.len(),
{
    if items.len() > 0 {
        let init = items.drop_last();
        let x = items.last();
        lemma_fold_min_first_least(init, less);
        if init.len() == 0 {
            assert(fold_min(None, items, less) == Some(items[0]));
            assert(items[0] == x);
        } else {
            let k = choose|k: int| #![trigger init[k]] 0 <= k < init.len()
                && fold_min(None, init, less) == Some(init[k])
                && (forall|j: int| 0 <= j < init.len() ==> !less(#[trigger] init[j], init[k]))
                && (forall|j: int| 0 <= j < k ==> less(init[k], #[trigger] init[j]));
            let y = init[k];
            assert(items[k] == y);
            if less(x, y) {
                let n = items.len() - 1;
                assert(items[n] == x);
                assert forall|j: int| 0 <= j < items.len() implies !less(#[trigger] items[j], items[n]) by {
                    if j < n {
                        assert(items[j] == init[j]);
                        assert(!less(init[j], y));
                        if less(items[j], x) {
                            assert(less(items[j], y));
                        }
                    }
                }
                assert forall|j: int| 0 <= j < n implies less(items[n], #[trigger] items[j]) by {
                    assert(items[j] == init[j]);
                    assert(!less(init[j], y));
                    if !less(x, init[j]) {
                        assert(!less(x, y));
                    }
                }
            } else {
                assert forall|j: int| 0 <= j < items.len() implies !less(#[trigger] items[j], items[k]) by {
                    if j < items.len() - 1 {
                        assert(items[j] == init[j]);
                    } else {
                        assert(items[j] == x);
                    }
                }
                assert forall|j: int| 0 <= j < k implies less(items[k], #[trigger] items[j]) by {
                    assert(items[j] == init[j]);
                }
            }
        }
    }
}

} // verus!
