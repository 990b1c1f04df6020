//! An indexed store that assigns each inserted value a stable, monotonically
//! increasing index, and allows removal by index without shifting or
//! renumbering the remaining entries.

use vstd::prelude::*;

verus! {

/// A container mapping indices to values.
///
/// Each appended value receives the next index from a monotonic counter;
/// removing an entry never renumbers the others, so an index, once handed
/// out, keeps referring to the same value until that value is removed
/// (or the whole store is hard-reset).
///
/// The entries are held in ascending index order; the view of the store is
/// that ordered sequence of `(index, value)` pairs.
#[derive(Debug, Hash, PartialEq, Eq, PartialOrd, Ord)]
pub struct FixedIndexVec<T> {
    entries: Vec<(usize, T)>,
    next_index: usize,
}

impl<T: Clone> Clone for FixedIndexVec<T> {
    /// The clone keeps every index and the counter; each value is related to
    /// the original value as `T::clone`'s own contract states.
    fn clone(&self) -> (r: Self)
        ensures
            r@.len() == self@.len(),
            r.spec_next_index() == self.spec_next_index(),
            forall|k: int|
                0 <= k < self@.len() ==> (#[trigger] r@[k]).0 == self@[k].0 && cloned::<T>(
                    self@[k].1,
                    r@[k].1,
                ),
    {
        proof {
            use_type_invariant(self);
        }
        let n = self.entries.len();
        let mut entries: Vec<(usize, T)> = Vec::new();
        let mut k: usize = 0;
        while k < n
            invariant
                0 <= k <= n,
                n == self@.len(),
                self.well_formed(),
                entries@.len() == k,
                forall|j: int|
                    0 <= j < k ==> (#[trigger] entries@[j]).0 == self@[j].0 && cloned::<T>(
                        self@[j].1,
                        entries@[j].1,
                    ),
            decreases n - k,
        {
            entries.push((self.entries[k].0, self.entries[k].1.clone()));
            k += 1;
        }
        FixedIndexVec { entries, next_index: self.next_index }
    }
}

impl<T> Default for FixedIndexVec<T> {
    /// The default store is empty, with the counter at zero.
    fn default() -> (r: Self)
        ensures
            r@ == Seq::<(usize, T)>::empty(),
            r.spec_next_index() == 0,
    {
        FixedIndexVec::new()
    }
}

impl<T> View for FixedIndexVec<T> {
    type V = Seq<(usize, T)>;

    closed spec fn view(&self) -> Seq<(usize, T)> {
        self.entries@
    }
}

/// Whether `(index, value)` pairs form a valid store content for the given
/// counter: indices strictly ascend and every index is below the counter.
pub open spec fn valid_pairs<T>(pairs: Seq<(usize, T)>, next_index: usize) -> bool {
    &&& forall|k1: int, k2: int|
        0 <= k1 < k2 < pairs.len() ==> (#[trigger] pairs[k1]).0 < (#[trigger] pairs[k2]).0
    &&& forall|k: int| 0 <= k < pairs.len() ==> (#[trigger] pairs[k]).0 < next_index
}

impl<T> FixedIndexVec<T> {
    /// Indices strictly ascend, and every index is below the counter. This
    /// holds of every store; `use_type_invariant` recovers it for a value in
    /// hand.
    #[verifier::type_invariant]
    pub open spec fn well_formed(self) -> bool {
        valid_pairs(self@, self.spec_next_index())
    }

    /// The index the next appended value will receive.
    pub closed spec fn spec_next_index(&self) -> usize {
        self.next_index
    }

    /// Whether some entry currently has the given index.
    pub open spec fn contains_index(&self, index: usize) -> bool {
        exists|k: int| 0 <= k < self@.len() && (#[trigger] self@[k]).0 == index
    }

    /// The value stored at the given index, if any.
    pub open spec fn spec_get(&self, index: usize) -> Option<T> {
        if self.contains_index(index) {
            let k = choose|k: int| 0 <= k < self@.len() && (#[trigger] self@[k]).0 == index;
            Some(self@[k].1)
        } else {
            None
        }
    }

    /// Creates an empty store with the counter at zero.
    pub fn new() -> (r: FixedIndexVec<T>)
        ensures
            r@ == Seq::<(usize, T)>::empty(),
            r.spec_next_index() == 0,
    {
        FixedIndexVec { entries: Vec::new(), next_index: 0 }
    }

    /// Returns the number of entries currently present.
    pub fn len(&self) -> (r: usize)
        ensures
            r == self@.len(),
    {
        self.entries.len()
    }

    /// Returns true iff the store holds no entries.
    pub fn is_empty(&self) -> (r: bool)
        ensures
            r <==> self@.len() == 0,
    {
        self.entries.len() == 0
    }

    /// Returns the index that the next append will assign.
    pub fn next_index(&self) -> (r: usize)
        ensures
            r == self.spec_next_index(),
    {
        self.next_index
    }

    /// Appends a value at the end of the store: it is stored under the
    /// current counter value, and the counter then advances by one.
    ///
    /// Exhaustion of the index space is a fatal condition, not an ordinary
    /// error, so a caller must not append once the counter has reached the
    /// top of its range.
    pub fn push(&mut self, value: T)
        requires
            old(self).spec_next_index() < usize::MAX,
        ensures
            final(self)@ == old(self)@.push((old(self).spec_next_index(), value)),
            final(self).spec_next_index() == old(self).spec_next_index() + 1,
    {
        proof {
            use_type_invariant(&*self);
        }
        let idx = self.next_index;
        self.next_index = idx + 1;
        let mut entries: Vec<(usize, T)> = Vec::new();
        core::mem::swap(&mut entries, &mut self.entries);
        entries.push((idx, value));
        core::mem::swap(&mut entries, &mut self.entries);
    }

    /// Alias for [`Self::push`]: appends a value at the counter's current
    /// index and advances the counter.
    pub fn insert(&mut self, value: T)
        requires
            old(self).spec_next_index() < usize::MAX,
        ensures
            final(self)@ == old(self)@.push((old(self).spec_next_index(), value)),
            final(self).spec_next_index() == old(self).spec_next_index() + 1,
    {
        self.push(value);
    }

    /// Returns a reference to the value at the given index, or `None` if no
    /// entry has that index.
    pub fn get(&self, index: usize) -> (r: Option<&T>)
        ensures
            match r {
                Some(v) => self.spec_get(index) == Some(*v),
                None => self.spec_get(index) is None,
            },
    {
        proof {
            use_type_invariant(self);
        }
        let n = self.entries.len();
        let mut k: usize = 0;
        while k < n
            invariant
                0 <= k <= n,
                n == self@.len(),
                self.well_formed(),
                forall|j: int| 0 <= j < k ==> (#[trigger] self@[j]).0 != index,
            decreases n - k,
        {
            if self.entries[k].0 == index {
                return Some(&self.entries[k].1);
            }
            k += 1;
        }
        None
    }

    /// Direct indexed access: returns a reference to the value at the given
    /// index. The index must be present; accessing an absent index is a
    /// contract violation, not an ordinary failure, so it is ruled out by
    /// the precondition.
    pub fn index(&self, index: usize) -> (r: &T)
        requires
            self.contains_index(index),
        ensures
            self.spec_get(index) == Some(*r),
    {
        proof {
            use_type_invariant(self);
        }
        let n = self.entries.len();
        let mut k: usize = 0;
        while k < n
            invariant
                0 <= k <= n,
                n == self@.len(),
                self.well_formed(),
                self.contains_index(index),
                forall|j: int| 0 <= j < k ==> (#[trigger] self@[j]).0 != index,
            decreases n - k,
        {
            if self.entries[k].0 == index {
                return &self.entries[k].1;
            }
            k += 1;
        }
        proof {
            assert(false);
        }
        unreached()
    }

    /// Removes the entry at the given index, returning its value, or `None`
    /// (leaving the store unchanged) if no entry has that index. The counter
    /// and every other entry's index are unaffected.
    pub fn remove(&mut self, index: usize) -> (r: Option<T>)
        ensures
            final(self).spec_next_index() == old(self).spec_next_index(),
            r == old(self).spec_get(index),
            !old(self).contains_index(index) ==> final(self)@ == old(self)@,
            old(self).contains_index(index) ==> final(self)@ == old(self)@.remove(
                choose|k: int| 0 <= k < old(self)@.len() && (#[trigger] old(self)@[k]).0 == index,
            ),
    {
        proof {
            use_type_invariant(&*self);
        }
        let n = self.entries.len();
        let mut k: usize = 0;
        while k < n
            invariant
                0 <= k <= n,
                n == self@.len(),
                self == old(self),
                self.well_formed(),
                forall|j: int| 0 <= j < k ==> (#[trigger] self@[j]).0 != index,
            decreases n - k,
        {
            if self.entries[k].0 == index {
                proof {
                    let c = choose|c: int|
                        0 <= c < old(self)@.len() && (#[trigger] old(self)@[c]).0 == index;
                    assert(old(self).contains_index(index));
                    assert(c == k) by {
                        if c < k {
                            assert(old(self)@[c].0 < old(self)@[k as int].0);
                        } else if c > k {
                            assert(old(self)@[k as int].0 < old(self)@[c].0);
                        }
                    }
                }
                let mut entries: Vec<(usize, T)> = Vec::new();
                core::mem::swap(&mut entries, &mut self.entries);
                let pair = entries.remove(k);
                core::mem::swap(&mut entries, &mut self.entries);
                return Some(pair.1);
            }
            k += 1;
        }
        None
    }

    /// Soft clear: removes every entry while leaving the counter where it
    /// is, so that later appends never reuse a previously issued index.
    pub fn clear(&mut self)
        ensures
            final(self)@ == Seq::<(usize, T)>::empty(),
            final(self).spec_next_index() == old(self).spec_next_index(),
    {
        self.entries = Vec::new();
    }

    /// Hard reset: removes every entry and rewinds the counter to zero.
    /// Later appends may reuse index values issued before the reset, so
    /// indices held across a reset no longer identify their old values.
    pub fn reset(&mut self)
        ensures
            final(self)@ == Seq::<(usize, T)>::empty(),
            final(self).spec_next_index() == 0,
    {
        self.entries = Vec::new();
        self.next_index = 0;
    }

    /// Returns the entry at the smallest currently-present index, or `None`
    /// if the store is empty. This is the first pair of the ordered
    /// traversal.
    pub fn first(&self) -> (r: Option<(usize, &T)>)
        ensures
            match r {
                Some(p) => self@.len() > 0 && p.0 == self@[0].0 && *p.1 == self@[0].1,
                None => self@.len() == 0,
            },
    {
        if self.entries.len() == 0 {
            None
        } else {
            Some((self.entries[0].0, &self.entries[0].1))
        }
    }

    /// Returns the entry at the largest currently-present index, or `None`
    /// if the store is empty. This is the last pair of the ordered
    /// traversal.
    pub fn last(&self) -> (r: Option<(usize, &T)>)
        ensures
            match r {
                Some(p) => {
                    let q = self@[self@.len() - 1];
                    self@.len() > 0 && p.0 == q.0 && *p.1 == q.1
                },
                None => self@.len() == 0,
            },
    {
        let n = self.entries.len();
        if n == 0 {
            None
        } else {
            Some((self.entries[n - 1].0, &self.entries[n - 1].1))
        }
    }

    /// Ordered traversal: returns every `(index, value)` pair, in strictly
    /// ascending index order, skipping indices that hold no entry.
    pub fn iter(&self) -> (r: Vec<(usize, &T)>)
        ensures
            r@.len() == self@.len(),
            forall|k: int|
                0 <= k < self@.len() ==> (#[trigger] r@[k]).0 == self@[k].0 && *r@[k].1
                    == self@[k].1,
    {
        let n = self.entries.len();
        let mut out: Vec<(usize, &T)> = Vec::new();
        let mut k: usize = 0;
        while k < n
            invariant
                0 <= k <= n,
                n == self@.len(),
                out@.len() == k,
                forall|j: int|
                    0 <= j < k ==> (#[trigger] out@[j]).0 == self@[j].0 && *out@[j].1
                        == self@[j].1,
            decreases n - k,
        {
            out.push((self.entries[k].0, &self.entries[k].1));
            k += 1;
        }
        out
    }

    /// The entry at position `k` of the ordered traversal is what lookup at
    /// its index returns: `spec_get` and the view agree.
    pub proof fn lemma_get_at(&self, k: int)
        requires
            self.well_formed(),
            0 <= k < self@.len(),
        ensures
            self.spec_get(self@[k].0) == Some(self@[k].1),
    {
        assert(self.contains_index(self@[k].0));
        let c = choose|c: int| 0 <= c < self@.len() && (#[trigger] self@[c]).0 == self@[k].0;
        if c < k {
            assert(self@[c].0 < self@[k].0);
        } else if c > k {
            assert(self@[k].0 < self@[c].0);
        }
    }

    /// Bulk construction: the `i`-th value of the sequence is stored at
    /// index `i`, and the counter is set to the sequence's length.
    pub fn from_vec(values: Vec<T>) -> (r: FixedIndexVec<T>)
        ensures
            r.spec_next_index() == values@.len(),
            r@.len() == values@.len(),
            forall|k: int| 0 <= k < values@.len() ==> r@[k] == (k as usize, values@[k]),
            forall|k: int|
                0 <= k < values@.len() ==> r.spec_get(k as usize) == Some(values@[k]),
    {
        let ghost orig = values@;
        let mut values = values;
        let n = values.len();
        let mut entries: Vec<(usize, T)> = Vec::new();
        let mut i: usize = 0;
        while i < n
            invariant
                0 <= i <= n,
                n == orig.len(),
                values@ == orig.subrange(i as int, n as int),
                entries@.len() == i,
                forall|k: int| 0 <= k < i ==> entries@[k] == (k as usize, orig[k]),
            decreases n - i,
        {
            let v = values.remove(0);
            proof {
                assert(values@ =~= orig.subrange(i + 1, n as int));
            }
            entries.push((i, v));
            i += 1;
        }
        let r = FixedIndexVec { entries, next_index: n };
        proof {
            use_type_invariant(&r);
            assert forall|k: int| 0 <= k < orig.len() implies r.spec_get(k as usize) == Some(
                orig[k],
            ) by {
                r.lemma_get_at(k);
            }
        }
        r
    }

    /// Rebuilds a store from explicit `(index, value)` pairs and a counter,
    /// e.g. when restoring from an interchange representation. Succeeds iff
    /// the pairs are in strictly ascending index order with every index
    /// below the counter; otherwise the input is rejected.
    pub fn from_pairs(pairs: Vec<(usize, T)>, next_index: usize) -> (r: Option<FixedIndexVec<T>>)
        ensures
            r is Some <==> valid_pairs(pairs@, next_index),
            match r {
                Some(s) => s@ == pairs@ && s.spec_next_index() == next_index,
                None => true,
            },
    {
        let n = pairs.len();
        let mut k: usize = 0;
        while k < n
            invariant
                0 <= k <= n,
                n == pairs@.len(),
                forall|k1: int, k2: int|
                    0 <= k1 < k2 < k ==> (#[trigger] pairs@[k1]).0 < (#[trigger] pairs@[k2]).0,
                forall|j: int| 0 <= j < k ==> (#[trigger] pairs@[j]).0 < next_index,
            decreases n - k,
        {
            if pairs[k].0 >= next_index {
                return None;
            }
            if k > 0 && pairs[k - 1].0 >= pairs[k].0 {
                return None;
            }
            k += 1;
        }
        Some(FixedIndexVec { entries: pairs, next_index })
    }

    /// Every index below the counter currently holds an entry: no removal
    /// has left a gap since the store was built or hard-reset.
    pub open spec fn is_dense(&self) -> bool {
        forall|j: usize| j < self.spec_next_index() ==> self.contains_index(j)
    }

    /// The entry at position `k` of the ordered traversal has index at
    /// least `k`: indices strictly ascend from a non-negative start.
    proof fn lemma_position_lower_bound(&self, k: int)
        requires
            self.well_formed(),
            0 <= k < self@.len(),
        ensures
            self@[k].0 >= k,
        decreases k,
    {
        if k > 0 {
            self.lemma_position_lower_bound(k - 1);
            assert(self@[k - 1].0 < self@[k].0);
        }
    }

    /// In a dense store, index `j` sits at position `j` of the traversal.
    proof fn lemma_dense_at(&self, j: usize)
        requires
            self.well_formed(),
            self.is_dense(),
            j < self.spec_next_index(),
        ensures
            j < self@.len(),
            self@[j as int].0 == j,
        decreases j,
    {
        assert(self.contains_index(j));
        let k = choose|k: int| 0 <= k < self@.len() && (#[trigger] self@[k]).0 == j;
        self.lemma_position_lower_bound(k);
        if j > 0 {
            self.lemma_dense_at((j - 1) as usize);
            if k <= j - 1 {
                if k < j - 1 {
                    assert(self@[k].0 < self@[j - 1].0);
                }
                assert(false);
            }
        }
    }

    /// In a store whose length equals its counter, position `k` holds
    /// index `k`.
    proof fn lemma_full_at(&self, k: int)
        requires
            self.well_formed(),
            self@.len() == self.spec_next_index(),
            0 <= k < self@.len(),
        ensures
            self@[k].0 == k,
        decreases self@.len() - k,
    {
        self.lemma_position_lower_bound(k);
        if k == self@.len() - 1 {
            assert(self@[k].0 < self.spec_next_index());
        } else {
            self.lemma_full_at(k + 1);
            assert(self@[k].0 < self@[k + 1].0);
        }
    }

    /// The number of present entries never exceeds the counter, and the two
    /// are equal exactly when the store is dense, i.e. when no index issued
    /// since the last hard reset or construction is missing.
    pub proof fn lemma_len_next_index(&self)
        requires
            self.well_formed(),
        ensures
            self@.len() <= self.spec_next_index(),
            self@.len() == self.spec_next_index() <==> self.is_dense(),
    {
        if self@.len() > 0 {
            self.lemma_position_lower_bound(self@.len() - 1);
        }
        if self.is_dense() {
            if self.spec_next_index() > 0 {
                self.lemma_dense_at((self.spec_next_index() - 1) as usize);
            }
        }
        if self@.len() == self.spec_next_index() {
            assert forall|j: usize| j < self.spec_next_index() implies self.contains_index(
                j,
            ) by {
                self.lemma_full_at(j as int);
            }
        }
    }

    /// Every present index lies between the first and the last entry of the
    /// ordered traversal: `first` and `last` name the smallest and largest
    /// populated indices.
    pub proof fn lemma_first_last_bounds(&self)
        requires
            self.well_formed(),
        ensures
            forall|j: usize|
                self.contains_index(j) ==> self@.len() > 0 && self@[0].0 <= j && j <= self@[self@.len() - 1].0,
    {
        assert forall|j: usize| self.contains_index(j) implies self@.len() > 0 && self@[0].0 <= j
            && j <= self@[self@.len() - 1].0 by {
            let k = choose|k: int| 0 <= k < self@.len() && (#[trigger] self@[k]).0 == j;
            if k > 0 {
                assert(self@[0].0 < self@[k].0);
            }
            if k < self@.len() - 1 {
                assert(self@[k].0 < self@[self@.len() - 1].0);
            }
        }
    }

    /// Appending assigns the counter's index to the new value and touches
    /// nothing else: after an append, lookup at the old counter value yields
    /// the appended value, and lookup at every other index is unchanged.
    pub proof fn lemma_append_get(pre: &FixedIndexVec<T>, post: &FixedIndexVec<T>, value: T)
        requires
            pre.well_formed(),
            post.well_formed(),
            post@ == pre@.push((pre.spec_next_index(), value)),
        ensures
            post.spec_get(pre.spec_next_index()) == Some(value),
            forall|j: usize|
                j != pre.spec_next_index() ==> post.spec_get(j) == pre.spec_get(j),
            post@.len() == pre@.len() + 1,
    {
        post.lemma_get_at(pre@.len() as int);
        assert forall|j: usize| j != pre.spec_next_index() implies post.spec_get(j)
            == pre.spec_get(j) by {
            if pre.contains_index(j) {
                let k = choose|k: int| 0 <= k < pre@.len() && (#[trigger] pre@[k]).0 == j;
                pre.lemma_get_at(k);
                assert(post@[k].0 == j);
                post.lemma_get_at(k);
            } else {
                if post.contains_index(j) {
                    let k = choose|k: int| 0 <= k < post@.len() && (#[trigger] post@[k]).0 == j;
                    assert(k == pre@.len());
                    assert(false);
                }
            }
        }
    }

    /// Removal affects exactly the removed index: afterwards lookup there is
    /// empty, lookup at every other index is unchanged, and the length drops
    /// by one if the index was present (and nothing changes if it was not).
    pub proof fn lemma_remove_effect(pre: &FixedIndexVec<T>, post: &FixedIndexVec<T>, index: usize)
        requires
            pre.well_formed(),
            post.well_formed(),
            !pre.contains_index(index) ==> post@ == pre@,
            pre.contains_index(index) ==> post@ == pre@.remove(
                choose|k: int| 0 <= k < pre@.len() && (#[trigger] pre@[k]).0 == index,
            ),
        ensures
            post.spec_get(index) is None,
            forall|j: usize| j != index ==> post.spec_get(j) == pre.spec_get(j),
            pre.contains_index(index) ==> post@.len() == pre@.len() - 1,
            !pre.contains_index(index) ==> post@ == pre@,
    {
        if !pre.contains_index(index) {
            assert(!post.contains_index(index));
        } else {
            let p = choose|k: int| 0 <= k < pre@.len() && (#[trigger] pre@[k]).0 == index;
            assert forall|k: int| 0 <= k < post@.len() implies (#[trigger] post@[k]).0
                != index by {
                if k < p {
                    assert(post@[k] == pre@[k]);
                    if pre@[k].0 == index {
                        assert(pre@[k].0 < pre@[p].0);
                    }
                } else {
                    assert(post@[k] == pre@[k + 1]);
                    if pre@[k + 1].0 == index {
                        assert(pre@[p].0 < pre@[k + 1].0);
                    }
                }
            }
            assert(!post.contains_index(index));
            assert forall|j: usize| j != index implies post.spec_get(j) == pre.spec_get(j) by {
                if pre.contains_index(j) {
                    let k = choose|k: int| 0 <= k < pre@.len() && (#[trigger] pre@[k]).0 == j;
                    pre.lemma_get_at(k);
                    if k < p {
                        assert(post@[k] == pre@[k]);
                        post.lemma_get_at(k);
                    } else {
                        assert(k != p);
                        assert(post@[k - 1] == pre@[k]);
                        post.lemma_get_at(k - 1);
                    }
                } else {
                    if post.contains_index(j) {
                        let k = choose|k: int|
                            0 <= k < post@.len() && (#[trigger] post@[k]).0 == j;
                        if k < p {
                            assert(post@[k] == pre@[k]);
                        } else {
                            assert(post@[k] == pre@[k + 1]);
                        }
                        assert(false);
                    }
                }
            }
        }
    }
}

} // verus!
