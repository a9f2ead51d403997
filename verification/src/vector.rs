//! The fixed-capacity sequence container.

use vstd::prelude::*;

verus! {

/// A sequence container with a fixed capacity of `N` elements.
///
/// The backing store always holds exactly `N` slots. Slots below `len` each
/// hold one live element; slots at or above `len` hold none. Every operation
/// moves this boundary and never reads a slot outside the live prefix.
/// The store is sized once, at construction; no operation changes its size.
pub struct StaticVector<T, const N: usize> {
    storage: Vec<Option<T>>,
    len: usize,
}

impl<T, const N: usize> View for StaticVector<T, N> {
    type V = Seq<T>;

    closed spec fn view(&self) -> Seq<T> {
        Seq::new(self.len as nat, |i: int| self.storage@[i]->0)
    }
}

impl<T, const N: usize> StaticVector<T, N> {
    /// Well-formedness: the store is exactly `N` slots long, slots `[0, len)`
    /// hold live elements, and slots `[len, N)` hold none.
    pub closed spec fn wf(&self) -> bool {
        &&& self.storage@.len() == N
        &&& self.len <= N
        &&& forall|i: int| 0 <= i < self.len ==> (#[trigger] self.storage@[i]) is Some
        &&& forall|i: int| self.len <= i < N ==> (#[trigger] self.storage@[i]) is None
    }

    /// Creates an empty container; all `N` slots start without a value.
    pub fn new() -> (v: Self)
        ensures
            v.wf(),
            v@ == Seq::<T>::empty(),
    {
        let mut storage: Vec<Option<T>> = Vec::new();
        while storage.len() < N
            invariant
                storage@.len() <= N,
                forall|i: int| 0 <= i < storage@.len() ==> (#[trigger] storage@[i]) is None,
            decreases N - storage@.len(),
        {
            storage.push(None);
        }
        let v = StaticVector { storage, len: 0 };
        proof {
            assert(v@ =~= Seq::<T>::empty());
        }
        v
    }

    /// The fixed maximum number of elements this container can hold.
    pub fn capacity(&self) -> (c: usize)
        ensures
            c == N,
    {
        N
    }

    /// The current number of live elements.
    pub fn len(&self) -> (n: usize)
        ensures
            n == self@.len(),
    {
        self.len
    }

    /// Whether the container holds no elements.
    pub fn is_empty(&self) -> (e: bool)
        ensures
            e <==> self@.len() == 0,
    {
        self.len == 0
    }

    /// Appends `value` after the last live element.
    pub fn push(&mut self, value: T)
        requires
            old(self).wf(),
            old(self)@.len() < N,
        ensures
            final(self).wf(),
            final(self)@ == old(self)@.push(value),
    {
        let idx: usize = self.len;
        self.storage[idx] = Some(value);
        self.len = idx + 1;
        proof {
            assert(self@ =~= old(self)@.push(value));
        }
    }

    /// Removes and returns the last live element, or `None` when empty.
    pub fn pop(&mut self) -> (r: Option<T>)
        requires
            old(self).wf(),
        ensures
            final(self).wf(),
            old(self)@.len() == 0 ==> r is None && final(self)@ == old(self)@,
            old(self)@.len() > 0 ==> r == Some(old(self)@.last()) && final(self)@ == old(
                self,
            )@.drop_last(),
    {
        if self.len == 0 {
            proof {
                assert(self@ =~= old(self)@);
            }
            None
        } else {
            let idx: usize = self.len - 1;
            let taken = self.storage[idx].take();
            self.len = idx;
            proof {
                assert(self@ =~= old(self)@.drop_last());
            }
            Some(taken.unwrap())
        }
    }

    /// A reference to the last live element, or `None` when empty.
    pub fn last(&self) -> (r: Option<&T>)
        requires
            self.wf(),
        ensures
            self@.len() == 0 ==> r is None,
            self@.len() > 0 ==> r is Some && r.unwrap() == self@.last(),
    {
        if self.len == 0 {
            None
        } else {
            self.storage[self.len - 1].as_ref()
        }
    }

    /// A mutable reference to the last live element, or `None` when empty.
    pub fn last_mut(&mut self) -> (r: Option<&mut T>)
        requires
            old(self).wf(),
        ensures
            final(self).wf(),
            old(self)@.len() == 0 ==> r is None && final(self)@ == old(self)@,
            old(self)@.len() > 0 ==> r is Some && *r.unwrap() == old(self)@.last()
                && final(self)@ == old(self)@.update(old(self)@.len() - 1, *final(r.unwrap())),
    {
        if self.len == 0 {
            None
        } else {
            let idx: usize = self.len - 1;
            self.storage[idx].as_mut()
        }
    }

    /// A mutable reference to the live element at index `i`.
    pub fn get_mut(&mut self, i: usize) -> (r: &mut T)
        requires
            old(self).wf(),
            i < old(self)@.len(),
        ensures
            final(self).wf(),
            *r == old(self)@[i as int],
            final(self)@ == old(self)@.update(i as int, *final(r)),
    {
        self.storage[i].as_mut().unwrap()
    }

    /// Hands the last live element, mutably, to `predicate` and pops it when
    /// the predicate holds; returns `None` when the container is empty or the
    /// predicate fails, keeping the element (with whatever the predicate did
    /// to it) in place.
    pub fn pop_if<F: FnOnce(&mut T) -> bool>(&mut self, predicate: F) -> (r: Option<T>)
        requires
            old(self).wf(),
            old(self)@.len() > 0 ==> forall|m: &mut T|
                *m == old(self)@.last() ==> call_requires(predicate, (m,)),
        ensures
            final(self).wf(),
            old(self)@.len() == 0 ==> r is None && final(self)@ == old(self)@,
            old(self)@.len() > 0 ==> exists|m: &mut T, b: bool|
                {
                    &&& #[trigger] call_ensures(predicate, (m,), b)
                    &&& *m == old(self)@.last()
                    &&& b == (r is Some)
                    &&& r is Some ==> r == Some(*final(m)) && final(self)@ == old(
                        self,
                    )@.drop_last()
                    &&& r is None ==> final(self)@ == old(self)@.update(
                        old(self)@.len() - 1,
                        *final(m),
                    )
                },
    {
        if self.len == 0 {
            proof {
                assert(self@ =~= old(self)@);
            }
            None
        } else {
            let idx: usize = self.len - 1;
            let element = self.storage[idx].as_mut().unwrap();
            let ghost witness = element;
            let hit = predicate(element);
            if hit {
                let taken = self.pop();
                proof {
                    assert(*witness == old(self)@.last());
                    assert(taken == Some(*final(witness)));
                    assert(self@ =~= old(self)@.drop_last());
                }
                taken
            } else {
                proof {
                    assert(*witness == old(self)@.last());
                    assert(self@ =~= old(self)@.update(old(self)@.len() - 1, *final(witness)));
                }
                None
            }
        }
    }

    /// A reference to the live element at index `i`.
    pub fn get(&self, i: usize) -> (r: &T)
        requires
            self.wf(),
            i < self@.len(),
        ensures
            *r == self@[i as int],
    {
        self.storage[i].as_ref().unwrap()
    }

    /// Drops the live elements at indices `[new_len, len)`; a no-op when
    /// `new_len` is not below the current length.
    pub fn truncate(&mut self, new_len: usize)
        requires
            old(self).wf(),
        ensures
            final(self).wf(),
            new_len >= old(self)@.len() ==> final(self)@ == old(self)@,
            new_len < old(self)@.len() ==> final(self)@ == old(self)@.take(new_len as int),
    {
        if new_len < self.len {
            while self.len > new_len
                invariant
                    self.wf(),
                    new_len <= self@.len() <= old(self)@.len(),
                    self@ == old(self)@.take(self@.len() as int),
                decreases self@.len(),
            {
                let _ = self.pop();
                proof {
                    assert(self@ =~= old(self)@.take(self@.len() as int));
                }
            }
            proof {
                assert(self@ == old(self)@.take(new_len as int));
            }
        } else {
            proof {
                assert(self@ =~= old(self)@.take(self@.len() as int));
            }
        }
    }

    /// Removes and returns the element at index `i`, shifting the elements
    /// at `[i + 1, len)` left by one; the relative order of the remaining
    /// elements is preserved.
    pub fn remove(&mut self, i: usize) -> (r: T)
        requires
            old(self).wf(),
            i < old(self)@.len(),
        ensures
            final(self).wf(),
            r == old(self)@[i as int],
            final(self)@ == old(self)@.remove(i as int),
    {
        let ghost orig = old(self)@;
        let out = self.storage[i].take().unwrap();
        let mut j: usize = i;
        while j + 1 < self.len
            invariant
                self.storage@.len() == N,
                self.len == orig.len(),
                self.len <= N,
                i <= j < self.len,
                forall|k: int| 0 <= k < i ==> (#[trigger] self.storage@[k]) == Some(orig[k]),
                forall|k: int| i <= k < j ==> (#[trigger] self.storage@[k]) == Some(orig[k + 1]),
                self.storage@[j as int] is None,
                forall|k: int|
                    j < k < self.len ==> (#[trigger] self.storage@[k]) == Some(orig[k]),
                forall|k: int| self.len <= k < N ==> (#[trigger] self.storage@[k]) is None,
            decreases self.len - j,
        {
            let t = self.storage[j + 1].take();
            self.storage[j] = t;
            j += 1;
        }
        self.len = self.len - 1;
        proof {
            assert(self@ =~= orig.remove(i as int));
        }
        out
    }

    /// Removes and returns the element at index `i` by moving the last live
    /// element into its slot; constant-time, but the order of the remaining
    /// elements is not preserved.
    pub fn remove_swap(&mut self, i: usize) -> (r: T)
        requires
            old(self).wf(),
            i < old(self)@.len(),
        ensures
            final(self).wf(),
            r == old(self)@[i as int],
            final(self)@ == old(self)@.update(i as int, old(self)@.last()).drop_last(),
    {
        let out = self.storage[i].take().unwrap();
        let idx_last: usize = self.len - 1;
        let t = self.storage[idx_last].take();
        self.storage[i] = t;
        self.len = idx_last;
        proof {
            assert(self@ =~= old(self)@.update(i as int, old(self)@.last()).drop_last());
        }
        out
    }

    /// Inserts `value` at index `i`, shifting the elements at `[i, len)`
    /// right by one; the relative order of the other elements is preserved.
    pub fn insert(&mut self, i: usize, value: T)
        requires
            old(self).wf(),
            i <= old(self)@.len(),
            old(self)@.len() < N,
        ensures
            final(self).wf(),
            final(self)@ == old(self)@.insert(i as int, value),
    {
        let ghost orig = old(self)@;
        let mut j: usize = self.len;
        while j > i
            invariant
                self.storage@.len() == N,
                self.len == orig.len(),
                self.len < N,
                i <= j <= self.len,
                forall|k: int| 0 <= k < j ==> (#[trigger] self.storage@[k]) == Some(orig[k]),
                self.storage@[j as int] is None,
                forall|k: int|
                    j < k <= self.len ==> (#[trigger] self.storage@[k]) == Some(orig[k - 1]),
                forall|k: int|
                    self.len + 1 <= k < N ==> (#[trigger] self.storage@[k]) is None,
            decreases j,
        {
            let t = self.storage[j - 1].take();
            self.storage[j] = t;
            j -= 1;
        }
        self.storage[i] = Some(value);
        self.len = self.len + 1;
        proof {
            assert(self@ =~= orig.insert(i as int, value));
        }
    }

    /// Sets the length to `new_len`: shrinking drops the elements past
    /// `new_len` exactly as [`Self::truncate`] does, growing fills the slots
    /// `[len, new_len)` with clones of `value`.
    pub fn resize(&mut self, new_len: usize, value: T) where T: Clone
        requires
            old(self).wf(),
            new_len <= N,
        ensures
            final(self).wf(),
            new_len <= old(self)@.len() ==> final(self)@ == old(self)@.take(new_len as int),
            new_len > old(self)@.len() ==> {
                &&& final(self)@.len() == new_len
                &&& final(self)@.take(old(self)@.len() as int) == old(self)@
                &&& forall|k: int|
                    old(self)@.len() <= k < new_len ==> cloned::<T>(
                        value,
                        #[trigger] final(self)@[k],
                    )
            },
    {
        if new_len < self.len {
            self.truncate(new_len);
        } else {
            let ghost orig = old(self)@;
            proof {
                assert(self@.take(orig.len() as int) =~= orig);
            }
            while self.len < new_len
                invariant
                    self.wf(),
                    new_len <= N,
                    orig.len() <= self@.len() <= new_len,
                    self@.take(orig.len() as int) == orig,
                    forall|k: int|
                        orig.len() <= k < self@.len() ==> cloned::<T>(value, #[trigger] self@[k]),
                decreases new_len - self@.len(),
            {
                let ghost prev = self@;
                let idx: usize = self.len;
                let c = value.clone();
                proof {
                    assert(cloned::<T>(value, c));
                }
                self.storage[idx] = Some(c);
                self.len = idx + 1;
                proof {
                    assert(self@.drop_last() =~= prev);
                    assert forall|k: int|
                        orig.len() <= k < self@.len() implies cloned::<T>(
                        value,
                        #[trigger] self@[k],
                    ) by {
                        if k < self@.len() - 1 {
                            assert(self@[k] == self@.drop_last()[k]);
                        } else {
                            assert(self@[k] == c);
                        }
                    }
                    assert(self@.take(orig.len() as int) =~= orig);
                }
            }
            proof {
                if new_len <= orig.len() {
                    assert(self@ =~= orig.take(new_len as int));
                }
            }
        }
    }

    /// Drops every live element, leaving the container empty.
    pub fn clear(&mut self)
        requires
            old(self).wf(),
        ensures
            final(self).wf(),
            final(self)@ == Seq::<T>::empty(),
    {
        self.truncate(0);
        proof {
            assert(self@ =~= Seq::<T>::empty());
        }
    }

    /// Builds a container from an explicit list of values; the number of
    /// values must not exceed the capacity.
    pub fn from_values(values: Vec<T>) -> (v: Self)
        requires
            values@.len() <= N,
        ensures
            v.wf(),
            v@ == values@,
    {
        let ghost vals = values@;
        let mut rest = values;
        let mut v = Self::new();
        proof {
            assert(v.len == 0) by {
                assert(v@.len() == 0);
            }
        }
        let n: usize = rest.len();
        let mut i: usize = n;
        while i > 0
            invariant
                i <= n == vals.len() <= N,
                rest@ == vals.take(i as int),
                v.storage@.len() == N,
                v.len == 0,
                forall|k: int| 0 <= k < i ==> (#[trigger] v.storage@[k]) is None,
                forall|k: int| i <= k < n ==> (#[trigger] v.storage@[k]) == Some(vals[k]),
                forall|k: int| n <= k < N ==> (#[trigger] v.storage@[k]) is None,
            decreases i,
        {
            i = i - 1;
            let x = rest.pop().unwrap();
            proof {
                assert(rest@ =~= vals.take(i as int));
                assert(x == vals[i as int]);
            }
            v.storage[i] = Some(x);
        }
        v.len = n;
        proof {
            assert(v@ =~= vals);
        }
        v
    }

    /// Copies elements from `source` into a fresh container: as many as fit,
    /// up to the smaller of the capacity and the source length. Extra source
    /// elements are silently left behind; the call never fails.
    pub fn from_slice(source: &[T]) -> (v: Self) where T: Clone
        ensures
            v.wf(),
            v@.len() == if source@.len() < N { source@.len() as int } else { N as int },
            forall|k: int| 0 <= k < v@.len() ==> cloned::<T>(source@[k], #[trigger] v@[k]),
    {
        let mut v = Self::new();
        let limit: usize = if source.len() < N {
            source.len()
        } else {
            N
        };
        let mut i: usize = 0;
        while i < limit
            invariant
                i <= limit <= source@.len(),
                limit <= N,
                v.wf(),
                v@.len() == i,
                forall|k: int| 0 <= k < i ==> cloned::<T>(source@[k], #[trigger] v@[k]),
            decreases limit - i,
        {
            let x = vstd::slice::slice_index_get(source, i).clone();
            v.push(x);
            i = i + 1;
        }
        v
    }

    /// A fresh vector holding a clone of each live element, in order: the
    /// read-only image of the live prefix.
    pub fn to_vec(&self) -> (out: Vec<T>) where T: Clone
        requires
            self.wf(),
        ensures
            out@.len() == self@.len(),
            forall|k: int| 0 <= k < self@.len() ==> cloned::<T>(self@[k], #[trigger] out@[k]),
    {
        let mut out: Vec<T> = Vec::new();
        let mut i: usize = 0;
        while i < self.len()
            invariant
                self.wf(),
                i <= self@.len(),
                out@.len() == i,
                forall|k: int| 0 <= k < i ==> cloned::<T>(self@[k], #[trigger] out@[k]),
            decreases self@.len() - i,
        {
            out.push(self.get(i).clone());
            i = i + 1;
        }
        out
    }

    /// The capacity/length invariant: a well-formed container never holds
    /// fewer than zero or more than `N` elements. Every operation requires
    /// and re-establishes well-formedness, so this bound holds at every
    /// observation point of any sequence of operations.
    pub proof fn lemma_capacity_invariant(&self)
        requires
            self.wf(),
        ensures
            0 <= self@.len() <= N,
    {
    }

    /// Consumes the container and turns it into an iterator that yields each
    /// live element exactly once, in order. Ownership of the elements moves
    /// to the iterator; the container is gone afterwards.
    pub fn into_iter(self) -> (it: IntoIter<T, N>)
        requires
            self.wf(),
        ensures
            it.wf(),
            it@ == self@,
    {
        let ghost contents = self@;
        let it = IntoIter { storage: self.storage, len: self.len, cursor: 0 };
        proof {
            assert(it@ =~= contents);
        }
        it
    }
}

/// Relies on std's `impl From<[T; N]> for Vec<T>`: the returned vector holds
/// exactly the array's elements, in their original order.
#[verifier::external_body]
fn array_into_vec<T, const N: usize>(a: [T; N]) -> (v: Vec<T>)
    ensures
        v@ == a@,
{
    Vec::from(a)
}

impl<T, const N: usize> From<[T; N]> for StaticVector<T, N> {
    /// Moves every element of an array of exactly `N` values into a full
    /// container.
    fn from(a: [T; N]) -> (v: Self)
        ensures
            v.wf(),
            v@ == a@,
    {
        Self::from_values(array_into_vec(a))
    }
}

impl<T, const N: usize> vstd::std_specs::convert::FromSpecImpl<[T; N]> for StaticVector<T, N> {
    open spec fn obeys_from_spec() -> bool {
        false
    }

    open spec fn from_spec(a: [T; N]) -> Self {
        arbitrary()
    }
}

impl<T: Clone, const N: usize> From<&[T]> for StaticVector<T, N> {
    /// Copies elements from a slice, as many as fit; see
    /// [`StaticVector::from_slice`].
    fn from(source: &[T]) -> (v: Self)
        ensures
            v.wf(),
            v@.len() == if source@.len() < N { source@.len() as int } else { N as int },
            forall|k: int| 0 <= k < v@.len() ==> cloned::<T>(source@[k], #[trigger] v@[k]),
    {
        Self::from_slice(source)
    }
}

impl<T: Clone, const N: usize> vstd::std_specs::convert::FromSpecImpl<&[T]> for StaticVector<T, N> {
    open spec fn obeys_from_spec() -> bool {
        false
    }

    open spec fn from_spec(source: &[T]) -> Self {
        arbitrary()
    }
}

impl<T: Clone, const N: usize> From<&[T; N]> for StaticVector<T, N> {
    /// Copies every element of an array of exactly `N` values into a full
    /// container.
    fn from(a: &[T; N]) -> (v: Self)
        ensures
            v.wf(),
            v@.len() == N,
            forall|k: int| 0 <= k < N ==> cloned::<T>(a@[k], #[trigger] v@[k]),
    {
        Self::from_slice(a.as_slice())
    }
}

impl<T: Clone, const N: usize> vstd::std_specs::convert::FromSpecImpl<&[T; N]> for StaticVector<T, N> {
    open spec fn obeys_from_spec() -> bool {
        false
    }

    open spec fn from_spec(a: &[T; N]) -> Self {
        arbitrary()
    }
}

impl<T: Clone, const N: usize> From<&mut [T; N]> for StaticVector<T, N> {
    /// Copies every element of an array of exactly `N` values into a full
    /// container; the array is left unchanged.
    fn from(a: &mut [T; N]) -> (v: Self)
        ensures
            v.wf(),
            v@.len() == N,
            forall|k: int| 0 <= k < N ==> cloned::<T>(old(a)@[k], #[trigger] v@[k]),
            final(a)@ == old(a)@,
    {
        Self::from_slice((&*a).as_slice())
    }
}

impl<T: Clone, const N: usize> vstd::std_specs::convert::FromSpecImpl<&mut [T; N]> for StaticVector<T, N> {
    open spec fn obeys_from_spec() -> bool {
        false
    }

    open spec fn from_spec(a: &mut [T; N]) -> Self {
        arbitrary()
    }
}

impl<T, const N: usize> Default for StaticVector<T, N> {
    /// An empty container, exactly as [`StaticVector::new`] returns.
    fn default() -> (v: Self)
        ensures
            v.wf(),
            v@ == Seq::<T>::empty(),
    {
        Self::new()
    }
}

impl<T: Clone, const N: usize> Clone for StaticVector<T, N> {
    /// Clones each live element into a fresh container of the same capacity.
    fn clone(&self) -> (res: Self)
        ensures
            self.wf() ==> res.wf() && res@.len() == self@.len() && forall|k: int|
                0 <= k < self@.len() ==> cloned::<T>(self@[k], #[trigger] res@[k]),
    {
        let res = StaticVector { storage: self.storage.clone(), len: self.len };
        proof {
            if self.wf() {
                assert forall|k: int| 0 <= k < N implies (self.storage@[k] is Some
                    <==> #[trigger] res.storage@[k] is Some) && (self.storage@[k] is Some
                    ==> cloned::<T>(self.storage@[k]->0, res.storage@[k]->0)) by {
                    assert(cloned::<Option<T>>(self.storage@[k], res.storage@[k]));
                }
            }
        }
        res
    }
}

/// An iterator that owns the elements a [`StaticVector`] held and yields
/// them one by one, in their original order.
///
/// Slots `[0, cursor)` have already been moved out to the caller; slots
/// `[cursor, len)` still hold live elements owned by the iterator. When the
/// iterator is dropped early, the remaining live elements are dropped with
/// the backing store, each exactly once.
pub struct IntoIter<T, const N: usize> {
    storage: Vec<Option<T>>,
    len: usize,
    cursor: usize,
}

impl<T, const N: usize> View for IntoIter<T, N> {
    type V = Seq<T>;

    /// The elements that have not been yielded yet, in the order they will
    /// be yielded.
    closed spec fn view(&self) -> Seq<T> {
        Seq::new((self.len - self.cursor) as nat, |i: int| self.storage@[self.cursor + i]->0)
    }
}

impl<T, const N: usize> IntoIter<T, N> {
    /// Well-formedness: the store is exactly `N` slots long, slots
    /// `[cursor, len)` hold the elements still owed to the caller, and every
    /// other slot holds none.
    pub closed spec fn wf(&self) -> bool {
        &&& self.storage@.len() == N
        &&& self.cursor <= self.len <= N
        &&& forall|i: int|
            self.cursor <= i < self.len ==> (#[trigger] self.storage@[i]) is Some
        &&& forall|i: int| 0 <= i < self.cursor ==> (#[trigger] self.storage@[i]) is None
        &&& forall|i: int| self.len <= i < N ==> (#[trigger] self.storage@[i]) is None
    }

    /// Moves the next element out and returns it, or signals exhaustion with
    /// `None` once every element has been yielded.
    pub fn next(&mut self) -> (r: Option<T>)
        requires
            old(self).wf(),
        ensures
            final(self).wf(),
            old(self)@.len() == 0 ==> r is None && final(self)@ == old(self)@,
            old(self)@.len() > 0 ==> r == Some(old(self)@.first()) && final(self)@ == old(
                self,
            )@.drop_first(),
    {
        if self.cursor == self.len {
            proof {
                assert(self@ =~= old(self)@);
            }
            None
        } else {
            let taken = self.storage[self.cursor].take();
            self.cursor = self.cursor + 1;
            proof {
                assert(self@ =~= old(self)@.drop_first());
            }
            Some(taken.unwrap())
        }
    }
}

} // verus!
