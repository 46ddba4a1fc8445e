//! Snapshots of a table's contents, handed out one item at a time.
use vstd::prelude::*;

verus! {

/// A finite sequence of items taken from a table, consumed from either end.
pub struct Items<T> {
    items: Vec<T>,
    front: usize,
    back: usize,
}

impl<T> View for Items<T> {
    type V = Seq<T>;

    /// The items not yet handed out.
    closed spec fn view(&self) -> Seq<T> {
        if self.front <= self.back && self.back <= self.items@.len() {
            self.items@.subrange(self.front as int, self.back as int)
        } else {
            Seq::empty()
        }
    }
}

impl<T: Copy> Items<T> {
    /// A cursor over all of `items`.
    pub fn new(items: Vec<T>) -> (r: Self)
        ensures
            r@ == items@,
    {
        let back = items.len();
        let r = Items { items, front: 0, back };
        proof {
            assert(r.items@.subrange(0, back as int) =~= r.items@);
        }
        r
    }

    /// The next item from the front, if any is left.
    pub fn next(&mut self) -> (r: Option<T>)
        ensures
            old(self)@.len() == 0 ==> r.is_none() && final(self)@ == old(self)@,
            old(self)@.len() > 0 ==> r == Some(old(self)@[0]) && final(self)@ == old(self)@.drop_first(),
    {
        if self.front < self.back && self.back <= self.items.len() {
            let item = self.items[self.front];
            self.front = self.front + 1;
            proof {
                assert(self@ =~= old(self)@.drop_first());
            }
            Some(item)
        } else {
            None
        }
    }

    /// The next item from the back, if any is left.
    pub fn next_back(&mut self) -> (r: Option<T>)
        ensures
            old(self)@.len() == 0 ==> r.is_none() && final(self)@ == old(self)@,
            old(self)@.len() > 0 ==> r == Some(old(self)@.last()) && final(self)@ == old(self)@.drop_last(),
    {
        if self.front < self.back && self.back <= self.items.len() {
            self.back = self.back - 1;
            let item = self.items[self.back];
            proof {
                assert(self@ =~= old(self)@.drop_last());
            }
            Some(item)
        } else {
            None
        }
    }

    /// How many items are left.
    pub fn len(&self) -> (r: usize)
        ensures
            r == self@.len(),
    {
        if self.front <= self.back && self.back <= self.items.len() {
            self.back - self.front
        } else {
            0
        }
    }

    /// The items left, as a vector.
    pub fn into_vec(self) -> (r: Vec<T>)
        ensures
            r@ == self@,
    {
        let mut out: Vec<T> = Vec::new();
        if self.front <= self.back && self.back <= self.items.len() {
            let mut i = self.front;
            while i < self.back
                invariant
                    self.front <= i <= self.back,
                    self.back <= self.items@.len(),
                    out@ == self.items@.subrange(self.front as int, i as int),
                decreases self.back - i,
            {
                out.push(self.items[i]);
                i = i + 1;
                proof {
                    assert(out@ =~= self.items@.subrange(self.front as int, i as int));
                }
            }
        }
        out
    }
}

/// The `(key, value)` pairs of a table in insertion order.
pub struct Iter {
    inner: Items<(usize, usize)>,
}

impl View for Iter {
    type V = Seq<(usize, usize)>;

    /// The items not yet handed out.
    closed spec fn view(&self) -> Seq<(usize, usize)> {
        self.inner@
    }
}

impl Iter {
    /// A cursor at the front of `items`.
    pub fn new(items: Vec<(usize, usize)>) -> (r: Self)
        ensures
            r@ == items@,
    {
        Iter { inner: Items::new(items) }
    }

    /// The next item, if any is left.
    pub fn next(&mut self) -> (r: Option<(usize, usize)>)
        ensures
            old(self)@.len() == 0 ==> r.is_none() && final(self)@ == old(self)@,
            old(self)@.len() > 0 ==> r == Some(old(self)@[0]) && final(self)@ == old(self)@.drop_first(),
    {
        self.inner.next()
    }

    /// The next item from the back, if any is left.
    pub fn next_back(&mut self) -> (r: Option<(usize, usize)>)
        ensures
            old(self)@.len() == 0 ==> r.is_none() && final(self)@ == old(self)@,
            old(self)@.len() > 0 ==> r == Some(old(self)@.last()) && final(self)@ == old(self)@.drop_last(),
    {
        self.inner.next_back()
    }

    /// How many items are left.
    pub fn len(&self) -> (r: usize)
        ensures
            r == self@.len(),
    {
        self.inner.len()
    }

    /// The items left, as a vector.
    pub fn into_vec(self) -> (r: Vec<(usize, usize)>)
        ensures
            r@ == self@,
    {
        self.inner.into_vec()
    }
}

/// The keys of a table in insertion order.
pub struct Keys {
    inner: Items<usize>,
}

impl View for Keys {
    type V = Seq<usize>;

    /// The items not yet handed out.
    closed spec fn view(&self) -> Seq<usize> {
        self.inner@
    }
}

impl Keys {
    /// A cursor at the front of `items`.
    pub fn new(items: Vec<usize>) -> (r: Self)
        ensures
            r@ == items@,
    {
        Keys { inner: Items::new(items) }
    }

    /// The next item, if any is left.
    pub fn next(&mut self) -> (r: Option<usize>)
        ensures
            old(self)@.len() == 0 ==> r.is_none() && final(self)@ == old(self)@,
            old(self)@.len() > 0 ==> r == Some(old(self)@[0]) && final(self)@ == old(self)@.drop_first(),
    {
        self.inner.next()
    }

    /// The next item from the back, if any is left.
    pub fn next_back(&mut self) -> (r: Option<usize>)
        ensures
            old(self)@.len() == 0 ==> r.is_none() && final(self)@ == old(self)@,
            old(self)@.len() > 0 ==> r == Some(old(self)@.last()) && final(self)@ == old(self)@.drop_last(),
    {
        self.inner.next_back()
    }

    /// How many items are left.
    pub fn len(&self) -> (r: usize)
        ensures
            r == self@.len(),
    {
        self.inner.len()
    }

    /// The items left, as a vector.
    pub fn into_vec(self) -> (r: Vec<usize>)
        ensures
            r@ == self@,
    {
        self.inner.into_vec()
    }
}

/// The values of a table in insertion order.
pub struct Values {
    inner: Items<usize>,
}

impl View for Values {
    type V = Seq<usize>;

    /// The items not yet handed out.
    closed spec fn view(&self) -> Seq<usize> {
        self.inner@
    }
}

impl Values {
    /// A cursor at the front of `items`.
    pub fn new(items: Vec<usize>) -> (r: Self)
        ensures
            r@ == items@,
    {
        Values { inner: Items::new(items) }
    }

    /// The next item, if any is left.
    pub fn next(&mut self) -> (r: Option<usize>)
        ensures
            old(self)@.len() == 0 ==> r.is_none() && final(self)@ == old(self)@,
            old(self)@.len() > 0 ==> r == Some(old(self)@[0]) && final(self)@ == old(self)@.drop_first(),
    {
        self.inner.next()
    }

    /// The next item from the back, if any is left.
    pub fn next_back(&mut self) -> (r: Option<usize>)
        ensures
            old(self)@.len() == 0 ==> r.is_none() && final(self)@ == old(self)@,
            old(self)@.len() > 0 ==> r == Some(old(self)@.last()) && final(self)@ == old(self)@.drop_last(),
    {
        self.inner.next_back()
    }

    /// How many items are left.
    pub fn len(&self) -> (r: usize)
        ensures
            r == self@.len(),
    {
        self.inner.len()
    }

    /// The items left, as a vector.
    pub fn into_vec(self) -> (r: Vec<usize>)
        ensures
            r@ == self@,
    {
        self.inner.into_vec()
    }
}

/// Live insertion ranks in increasing order.
pub struct InsertRanks {
    inner: Items<usize>,
}

impl View for InsertRanks {
    type V = Seq<usize>;

    /// The items not yet handed out.
    closed spec fn view(&self) -> Seq<usize> {
        self.inner@
    }
}

impl InsertRanks {
    /// A cursor at the front of `items`.
    pub fn new(items: Vec<usize>) -> (r: Self)
        ensures
            r@ == items@,
    {
        InsertRanks { inner: Items::new(items) }
    }

    /// The next item, if any is left.
    pub fn next(&mut self) -> (r: Option<usize>)
        ensures
            old(self)@.len() == 0 ==> r.is_none() && final(self)@ == old(self)@,
            old(self)@.len() > 0 ==> r == Some(old(self)@[0]) && final(self)@ == old(self)@.drop_first(),
    {
        self.inner.next()
    }

    /// The next item from the back, if any is left.
    pub fn next_back(&mut self) -> (r: Option<usize>)
        ensures
            old(self)@.len() == 0 ==> r.is_none() && final(self)@ == old(self)@,
            old(self)@.len() > 0 ==> r == Some(old(self)@.last()) && final(self)@ == old(self)@.drop_last(),
    {
        self.inner.next_back()
    }

    /// How many items are left.
    pub fn len(&self) -> (r: usize)
        ensures
            r == self@.len(),
    {
        self.inner.len()
    }

    /// The items left, as a vector.
    pub fn into_vec(self) -> (r: Vec<usize>)
        ensures
            r@ == self@,
    {
        self.inner.into_vec()
    }
}

} // verus!
