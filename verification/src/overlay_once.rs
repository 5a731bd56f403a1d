//! The leaf source: a fixed dataset anchored at a fixed offset.

use vstd::prelude::*;
use vstd::slice::slice_subrange;

use crate::buf::DataReadBufImpl;
use crate::reader::{AsyncDataRead, ReadOutcome};
use crate::slice::DataReaderSlice;

verus! {

/// A single patch: serves `data` at positions `[pos, pos + data.len())` and
/// nothing anywhere else.  Never suspends and never fails.
pub struct OverlayOnce<T> {
    pub pos: usize,
    pub data: Vec<T>,
}

impl<T: Copy> OverlayOnce<T> {
    /// Creates a patch anchored at `pos`.
    pub fn new(pos: usize, data: Vec<T>) -> (r: Self)
        ensures
            r.pos == pos,
            r.data == data,
    {
        OverlayOnce { pos, data }
    }
}

impl<T: Copy> AsyncDataRead for OverlayOnce<T> {
    type Item = T;

    type Err = ();

    open spec fn wf(&self) -> bool {
        true
    }

    open spec fn poll_ok(&self, avail: nat, pos: int) -> bool {
        true
    }

    /// Reading at `pos`: before the anchor nothing is reachable yet and the
    /// anchor is the next position; past the dataset the source is
    /// exhausted; inside it, as much of the tail of the dataset as fits is
    /// written, and the resume point is the offset into the dataset just
    /// past the write, or exhaustion when the write drains the dataset.
    open spec fn read_spec(&self, avail: nat, pos: int) -> Result<ReadOutcome<T>, ()> {
        if pos < self.pos {
            Ok(ReadOutcome { items: Seq::empty(), next: Some(self.pos as int) })
        } else {
            let idx = pos - self.pos;
            if idx >= self.data@.len() {
                Ok(ReadOutcome { items: Seq::empty(), next: None })
            } else {
                let w = vstd::math::min(avail as int, self.data@.len() - idx);
                Ok(
                    ReadOutcome {
                        items: self.data@.subrange(idx, idx + w),
                        next: if idx + w == self.data@.len() {
                            None
                        } else {
                            Some(idx + w)
                        },
                    },
                )
            }
        }
    }

    proof fn read_spec_bounds(&self, avail: nat, pos: int) {
        vstd::std_specs::vec::axiom_spec_len(&self.data);
    }

    fn poll_read(
        &self,
        buf: &mut DataReadBufImpl<T>,
        win: DataReaderSlice,
        pos: usize,
    ) -> (r: Result<Option<usize>, ()>) {
        if self.pos > pos {
            proof {
                assert(final(buf).filled_seq() =~= old(buf).filled_seq() + Seq::<T>::empty());
            }
            return Ok(Some(self.pos));
        }
        let idx = pos - self.pos;
        if idx >= self.data.len() {
            proof {
                assert(final(buf).filled_seq() =~= old(buf).filled_seq() + Seq::<T>::empty());
            }
            return Ok(None);
        }
        let tail = slice_subrange(self.data.as_slice(), idx, self.data.len());
        let wb = win.put_slice_guard(buf, tail);
        proof {
            let w = vstd::math::min(win.avail(*old(buf)) as int, self.data@.len() - idx);
            assert(tail@.take(wb as int) =~= self.data@.subrange(idx as int, idx + w));
        }
        let rt = if idx + wb == self.data.len() {
            None
        } else {
            Some(idx + wb)
        };
        Ok(rt)
    }
}

/// The value a patch holds at position `p`, if any: patches cover exactly
/// the positions `[pos, pos + data.len())`.
pub open spec fn patch_value<T>(src: OverlayOnce<T>, p: int) -> Option<T> {
    if src.pos <= p < src.pos + src.data@.len() {
        Some(src.data@[p - src.pos])
    } else {
        None
    }
}

/// Leaf source determinism: a patch anchored at `src.pos` with a dataset of
/// length `L`, read at position `pos`, yields nothing and the anchor while
/// `pos` is before the anchor; nothing and exhaustion once `pos` is at or
/// past `src.pos + L`; and otherwise exactly the tail of the dataset from
/// offset `pos - src.pos`, as far as the window allows, with the resume
/// offset unless the write drains the dataset.
pub proof fn lemma_overlay_once_cases<T: Copy>(src: OverlayOnce<T>, avail: nat, pos: int)
    requires
        0 <= pos,
    ensures
        pos < src.pos ==> src.read_spec(avail, pos) == Ok::<ReadOutcome<T>, ()>(
            ReadOutcome { items: Seq::<T>::empty(), next: Some(src.pos as int) },
        ),
        pos >= src.pos + src.data@.len() ==> src.read_spec(avail, pos) == Ok::<
            ReadOutcome<T>,
            (),
        >(ReadOutcome { items: Seq::<T>::empty(), next: None }),
        src.pos <= pos < src.pos + src.data@.len() ==> {
            let idx = pos - src.pos;
            let w = vstd::math::min(avail as int, src.data@.len() - idx);
            src.read_spec(avail, pos) == Ok::<ReadOutcome<T>, ()>(
                ReadOutcome {
                    items: src.data@.subrange(idx, idx + w),
                    next: if idx + w == src.data@.len() {
                        None
                    } else {
                        Some(idx + w)
                    },
                },
            )
        },
{
}

} // verus!
