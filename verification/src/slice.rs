//! Bounded windows into a buffer: a zero-copy, offset-translating view that
//! lets a nested read write into a capped region of the caller's buffer
//! without re-exposing already-written data as overwritable.

use vstd::prelude::*;
use vstd::slice::slice_subrange;

use crate::buf::DataReadBufImpl;

verus! {

/// A window `[pos, pos + len)` into a parent buffer.
///
/// The window itself is a plain pair of bounds; every operation takes the
/// parent buffer alongside it and translates by `pos` while clamping to
/// `len`.  A window is created anchored at the parent's valid prefix, so
/// `pos <= parent.filled <= pos + len` holds while it is in use.
#[derive(Clone, Copy)]
pub struct DataReaderSlice {
    pub pos: usize,
    pub len: usize,
}

impl DataReaderSlice {
    /// The window is well-formed for `buf`: it lies within the capacity and
    /// brackets the current valid prefix.
    pub open spec fn wf<T: Copy>(&self, buf: DataReadBufImpl<T>) -> bool {
        &&& buf.wf()
        &&& self.pos <= buf.filled
        &&& buf.filled <= self.pos + self.len
        &&& self.pos + self.len <= buf.cap
    }

    /// How many more items fit in the window.
    pub open spec fn avail<T: Copy>(&self, buf: DataReadBufImpl<T>) -> nat {
        (self.pos + self.len - buf.filled) as nat
    }

    /// The part of the parent's valid prefix that lies inside the window.
    pub open spec fn filled_seq<T: Copy>(&self, buf: DataReadBufImpl<T>) -> Seq<T> {
        buf.filled_seq().skip(self.pos as int)
    }

    /// Creates a window with the given bounds.
    pub fn new(pos: usize, len: usize) -> (r: Self)
        ensures
            r.pos == pos,
            r.len == len,
    {
        DataReaderSlice { pos, len }
    }

    /// The window's own capacity.
    pub fn capacity(&self) -> (r: usize)
        ensures
            r == self.len,
    {
        self.len
    }

    /// How many items of the window are filled.
    pub fn filled_len<T: Copy>(&self, buf: &DataReadBufImpl<T>) -> (r: usize)
        requires
            self.wf(*buf),
        ensures
            r == self.filled_seq(*buf).len(),
            r == buf.filled - self.pos,
    {
        buf.filled - self.pos
    }

    /// The filled part of the window as a contiguous view.
    pub fn filled<'a, T: Copy>(&self, buf: &'a DataReadBufImpl<T>) -> (r: &'a [T])
        requires
            self.wf(*buf),
        ensures
            r@ == self.filled_seq(*buf),
    {
        let r = slice_subrange(buf.data.as_slice(), self.pos, buf.filled);
        proof {
            assert(r@ =~= self.filled_seq(*buf));
        }
        r
    }

    /// The filled part of the window as a contiguous mutable view.
    ///
    /// Relies on the std mutable range index on `Vec`, which vstd does not
    /// specify: `&mut v[i..j]` borrows exactly those elements in place, so
    /// what the caller writes through the view lands inside the window and
    /// the rest of the storage is untouched.
    #[verifier::external_body]
    pub fn filled_mut<'a, T: Copy>(&self, buf: &'a mut DataReadBufImpl<T>) -> (r: &'a mut [T])
        requires
            self.wf(*old(buf)),
        ensures
            r@ == self.filled_seq(*old(buf)),
            final(r)@.len() == r@.len(),
            final(buf).filled == old(buf).filled,
            final(buf).cap == old(buf).cap,
            final(buf).data@ == old(buf).data@.take(self.pos as int) + final(r)@ + old(
                buf,
            ).data@.skip(old(buf).filled as int),
    {
        &mut buf.data[self.pos..buf.filled]
    }

    /// Appends `data` inside the window.  The caller guarantees that the
    /// write fits; the capacity-safe variant is [`Self::put_slice_guard`].
    pub fn put_slice<T: Copy>(&self, buf: &mut DataReadBufImpl<T>, data: &[T])
        requires
            self.wf(*old(buf)),
            data@.len() <= self.avail(*old(buf)),
        ensures
            self.wf(*final(buf)),
            final(buf).cap == old(buf).cap,
            final(buf).filled == old(buf).filled + data@.len(),
            final(buf).filled_seq() == old(buf).filled_seq() + data@,
            self.filled_seq(*final(buf)) == self.filled_seq(*old(buf)) + data@,
    {
        buf.put_slice(data);
        proof {
            assert(self.filled_seq(*final(buf)) =~= self.filled_seq(*old(buf)) + data@);
        }
    }

    /// Capacity-safe write into the window: writes exactly
    /// `min(window remaining, data.len())` leading items of `data` and
    /// returns that count.
    pub fn put_slice_guard<T: Copy>(&self, buf: &mut DataReadBufImpl<T>, data: &[T]) -> (written:
        usize)
        requires
            self.wf(*old(buf)),
        ensures
            self.wf(*final(buf)),
            final(buf).cap == old(buf).cap,
            written == vstd::math::min(self.avail(*old(buf)) as int, data@.len() as int),
            final(buf).filled == old(buf).filled + written,
            final(buf).filled_seq() == old(buf).filled_seq() + data@.take(written as int),
            self.filled_seq(*final(buf)) == self.filled_seq(*old(buf)) + data@.take(
                written as int,
            ),
    {
        let remaining = self.pos + self.len - buf.filled;
        let writable = if remaining < data.len() { remaining } else { data.len() };
        self.put_slice(buf, slice_subrange(data, 0, writable));
        writable
    }

    /// Reduces the window's filled part by `count`, translating to the
    /// parent.
    pub fn shrink<T: Copy>(&self, buf: &mut DataReadBufImpl<T>, count: usize)
        requires
            self.wf(*old(buf)),
            count <= self.filled_seq(*old(buf)).len(),
        ensures
            self.wf(*final(buf)),
            final(buf).cap == old(buf).cap,
            final(buf).filled == old(buf).filled - count,
            self.filled_seq(*final(buf)) == self.filled_seq(*old(buf)).take(
                self.filled_seq(*old(buf)).len() - count,
            ),
    {
        buf.shrink(count);
        proof {
            assert(self.filled_seq(*final(buf)) =~= self.filled_seq(*old(buf)).take(
                self.filled_seq(*old(buf)).len() - count,
            ));
        }
    }

    /// Returns a sub-window of length at most `n` anchored at the current
    /// fill point, clamped so that it never extends past this window.
    pub fn take<T: Copy>(&self, buf: &DataReadBufImpl<T>, n: usize) -> (win: DataReaderSlice)
        requires
            self.wf(*buf),
        ensures
            win.wf(*buf),
            win.pos == buf.filled,
            win.len == vstd::math::min(n as int, self.avail(*buf) as int),
            win.avail(*buf) == win.len,
    {
        let remaining = self.pos + self.len - buf.filled;
        let len = if n < remaining { n } else { remaining };
        DataReaderSlice { pos: buf.filled, len }
    }
}

} // verus!
