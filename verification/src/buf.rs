//! The buffer abstraction: a fixed-capacity sink that tracks how much of its
//! backing storage holds valid data (`filled`) and how much has been
//! constructed at all (the initialized prefix), and that hands out capped
//! windows over the same storage.

use vstd::prelude::*;
use vstd::slice::slice_subrange;

pub use crate::slice::DataReaderSlice;

verus! {

/// A fixed-capacity sink for read operations.
///
/// The backing storage has logical capacity `cap`; `data` holds the
/// constructed prefix of that storage (its length is the initialized
/// watermark), and `filled` counts the leading elements that hold valid,
/// readable values.  `filled <= data.len() <= cap` always holds.
pub struct DataReadBufImpl<T> {
    pub data: Vec<T>,
    pub filled: usize,
    pub cap: usize,
}

impl<T: Copy> DataReadBufImpl<T> {
    /// The buffer invariant: the valid prefix never exceeds the constructed
    /// prefix, which never exceeds the capacity.
    pub open spec fn wf(&self) -> bool {
        self.filled <= self.data@.len() <= self.cap
    }

    /// The valid prefix, as a sequence.
    pub open spec fn filled_seq(&self) -> Seq<T> {
        self.data@.take(self.filled as int)
    }

    /// The initialized watermark: how many leading storage slots have been
    /// constructed and must be torn down with the buffer.
    pub open spec fn inited(&self) -> nat {
        self.data@.len()
    }

    /// The total number of backing slots.
    pub open spec fn spec_capacity(&self) -> nat {
        self.cap as nat
    }

    /// How many more items the buffer can hold.
    pub open spec fn avail(&self) -> nat {
        (self.cap - self.filled) as nat
    }

    /// Creates an empty buffer with `cap` backing slots.
    pub fn with_capacity(cap: usize) -> (r: Self)
        ensures
            r.wf(),
            r.filled_seq() == Seq::<T>::empty(),
            r.inited() == 0,
            r.spec_capacity() == cap,
    {
        let r = DataReadBufImpl { data: Vec::new(), filled: 0, cap };
        proof {
            assert(r.filled_seq() =~= Seq::<T>::empty());
        }
        r
    }

    /// Total backing slots.
    pub fn capacity(&self) -> (r: usize)
        ensures
            r == self.spec_capacity(),
    {
        self.cap
    }

    /// The valid prefix as a contiguous view.
    pub fn filled(&self) -> (r: &[T])
        requires
            self.wf(),
        ensures
            r@ == self.filled_seq(),
    {
        let r = slice_subrange(self.data.as_slice(), 0, self.filled);
        proof {
            assert(r@ =~= self.filled_seq());
        }
        r
    }

    /// The valid prefix as a contiguous mutable view.
    ///
    /// Relies on the std mutable range index on `Vec`, which vstd does not
    /// specify: `&mut v[..n]` borrows the first `n` elements in place, so
    /// what the caller writes through the view lands in the prefix and the
    /// rest of the storage is untouched.
    #[verifier::external_body]
    pub fn filled_mut(&mut self) -> (r: &mut [T])
        requires
            old(self).wf(),
        ensures
            r@ == old(self).filled_seq(),
            final(r)@.len() == old(self).filled,
            final(self).filled == old(self).filled,
            final(self).cap == old(self).cap,
            final(self).data@ == final(r)@ + old(self).data@.skip(old(self).filled as int),
    {
        &mut self.data[..self.filled]
    }

    /// Appends one item past the initialized watermark, constructing a new
    /// storage slot for it.
    fn push_uninit(&mut self, item: T)
        requires
            old(self).wf(),
            old(self).filled == old(self).inited(),
            old(self).inited() < old(self).spec_capacity(),
        ensures
            final(self).wf(),
            final(self).cap == old(self).cap,
            final(self).filled == old(self).filled + 1,
            final(self).inited() == old(self).inited() + 1,
            final(self).filled_seq() == old(self).filled_seq().push(item),
    {
        self.data.push(item);
        self.filled = self.filled + 1;
        proof {
            assert(final(self).filled_seq() =~= old(self).filled_seq().push(item));
        }
    }

    /// Appends `data` after the current valid prefix, growing the initialized
    /// watermark as needed.  The caller guarantees that enough capacity
    /// remains; the capacity-safe variant is [`Self::put_slice_guard`].
    ///
    /// Storage between the old valid prefix and the initialized watermark is
    /// overwritten in place; storage past the watermark is freshly
    /// constructed.
    pub fn put_slice(&mut self, data: &[T])
        requires
            old(self).wf(),
            data@.len() <= old(self).avail(),
        ensures
            final(self).wf(),
            final(self).cap == old(self).cap,
            final(self).filled == old(self).filled + data@.len(),
            final(self).filled_seq() == old(self).filled_seq() + data@,
            final(self).inited() == vstd::math::max(
                old(self).inited() as int,
                old(self).filled + data@.len(),
            ),
    {
        let n = data.len();
        let mut written: usize = 0;

        proof {
            assert(self.filled_seq() =~= old(self).filled_seq() + data@.take(0));
        }

        while written < n && self.filled < self.data.len()
            invariant
                self.wf(),
                written <= n,
                n == data@.len(),
                self.cap == old(self).cap,
                self.filled == old(self).filled + written,
                n <= old(self).avail() == self.cap - old(self).filled,
                self.inited() == old(self).inited(),
                self.filled_seq() == old(self).filled_seq() + data@.take(written as int),
            decreases n - written,
        {
            let ghost prev = self.filled_seq();
            self.data[self.filled] = data[written];
            proof {
                assert(self.filled_seq() =~= prev);
            }
            self.filled = self.filled + 1;
            proof {
                assert(self.filled_seq() =~= prev.push(data@[written as int]));
            }
            written = written + 1;
            proof {
                assert(prev.push(data@[written - 1]) =~= old(self).filled_seq() + data@.take(
                    written as int,
                ));
            }
        }

        while written < n
            invariant
                self.wf(),
                written <= n,
                n == data@.len(),
                self.cap == old(self).cap,
                self.filled == old(self).filled + written,
                n <= old(self).avail() == self.cap - old(self).filled,
                written < n ==> self.filled == self.data@.len(),
                self.inited() == vstd::math::max(
                    old(self).inited() as int,
                    old(self).filled + written,
                ),
                self.filled_seq() == old(self).filled_seq() + data@.take(written as int),
            decreases n - written,
        {
            self.push_uninit(data[written]);
            written = written + 1;
            proof {
                assert(self.filled_seq() =~= old(self).filled_seq() + data@.take(
                    written as int,
                ));
            }
        }

        proof {
            assert(data@.take(n as int) =~= data@);
        }
    }

    /// Capacity-safe write: writes only as many leading items of `data` as
    /// fit in the remaining capacity and returns the count actually written,
    /// which is exactly `min(remaining, data.len())`.
    pub fn put_slice_guard(&mut self, data: &[T]) -> (written: usize)
        requires
            old(self).wf(),
        ensures
            final(self).wf(),
            final(self).cap == old(self).cap,
            written == vstd::math::min(old(self).avail() as int, data@.len() as int),
            final(self).filled == old(self).filled + written,
            final(self).filled_seq() == old(self).filled_seq() + data@.take(written as int),
    {
        let remaining = self.cap - self.filled;
        let writable = if remaining < data.len() { remaining } else { data.len() };
        self.put_slice(slice_subrange(data, 0, writable));
        writable
    }

    /// Reduces the valid prefix by `count`, giving back items written
    /// speculatively.  The initialized watermark is unchanged.
    pub fn shrink(&mut self, count: usize)
        requires
            old(self).wf(),
            count <= old(self).filled,
        ensures
            final(self).wf(),
            final(self).cap == old(self).cap,
            final(self).data@ == old(self).data@,
            final(self).filled == old(self).filled - count,
            final(self).filled_seq() == old(self).filled_seq().take(
                old(self).filled - count,
            ),
    {
        self.filled = self.filled - count;
        proof {
            assert(final(self).filled_seq() =~= old(self).filled_seq().take(
                old(self).filled - count,
            ));
        }
    }

    /// Returns a window of length at most `n` anchored at the current valid
    /// prefix.  The initialized watermark is first pulled back to the valid
    /// prefix, so the window never treats storage past the buffer's own
    /// guarantee as constructed.
    pub fn take(&mut self, n: usize) -> (win: DataReaderSlice)
        requires
            old(self).wf(),
        ensures
            final(self).cap == old(self).cap,
            final(self).filled == old(self).filled,
            final(self).filled_seq() == old(self).filled_seq(),
            final(self).inited() == old(self).filled,
            win.wf(*final(self)),
            win.pos == old(self).filled,
            win.len == vstd::math::min(n as int, old(self).avail() as int),
            win.avail(*final(self)) == win.len,
    {
        self.data.truncate(self.filled);
        let remaining = self.cap - self.filled;
        let len = if n < remaining { n } else { remaining };
        proof {
            assert(final(self).filled_seq() =~= old(self).filled_seq());
        }
        DataReaderSlice { pos: self.filled, len }
    }
}

/// Creates an empty buffer with `N` backing slots.
pub fn new<const N: usize, T: Copy>() -> (r: DataReadBufImpl<T>)
    ensures
        r.wf(),
        r.filled_seq() == Seq::<T>::empty(),
        r.inited() == 0,
        r.spec_capacity() == N,
{
    DataReadBufImpl::with_capacity(N)
}

/// Creates an empty buffer with `size` backing slots chosen at run time.
pub fn new_boxed<T: Copy>(size: usize) -> (r: DataReadBufImpl<T>)
    ensures
        r.wf(),
        r.filled_seq() == Seq::<T>::empty(),
        r.inited() == 0,
        r.spec_capacity() == size,
{
    DataReadBufImpl::with_capacity(size)
}

} // verus!
