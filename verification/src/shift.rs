//! Offset remapping: address a sub-range of an inner source as if it began
//! at a different absolute offset.

use vstd::prelude::*;

use crate::buf::DataReadBufImpl;
use crate::reader::{AsyncDataRead, ReadOutcome};
use crate::slice::DataReaderSlice;

verus! {

/// Remaps `pos` to `pos + n` before delegating, and pulls every reported
/// next position back by `n`, saturating at zero.
pub struct ShiftLeft<S>(pub S, pub usize);

impl<S> ShiftLeft<S> {
    /// Wraps `data`, shifting its position space left by `n`.
    pub fn new(data: S, n: usize) -> (r: Self)
        ensures
            r == (ShiftLeft(data, n)),
    {
        ShiftLeft(data, n)
    }
}

impl<S: AsyncDataRead> AsyncDataRead for ShiftLeft<S> {
    type Item = S::Item;

    type Err = S::Err;

    open spec fn wf(&self) -> bool {
        self.0.wf()
    }

    open spec fn poll_ok(&self, avail: nat, pos: int) -> bool {
        pos + self.1 <= usize::MAX && self.0.poll_ok(avail, pos + self.1)
    }

    open spec fn read_spec(&self, avail: nat, pos: int) -> Result<
        ReadOutcome<S::Item>,
        S::Err,
    > {
        match self.0.read_spec(avail, pos + self.1) {
            Err(e) => Err(e),
            Ok(out) => Ok(
                ReadOutcome {
                    items: out.items,
                    next: match out.next {
                        Some(p) => Some(vstd::math::max(p - self.1, 0)),
                        None => None,
                    },
                },
            ),
        }
    }

    proof fn read_spec_bounds(&self, avail: nat, pos: int) {
        self.0.read_spec_bounds(avail, pos + self.1);
    }

    fn poll_read(
        &self,
        buf: &mut DataReadBufImpl<S::Item>,
        win: DataReaderSlice,
        pos: usize,
    ) -> (r: Result<Option<usize>, S::Err>) {
        let rr = match self.0.poll_read(buf, win, pos + self.1) {
            Err(e) => return Err(e),
            Ok(x) => x,
        };
        let mapped = match rr {
            Some(p) => Some(if p >= self.1 {
                p - self.1
            } else {
                0
            }),
            None => None,
        };
        Ok(mapped)
    }
}

/// Reports `Some(n - pos)` without delegating while `pos < n`; otherwise
/// delegates at `pos - n` and pushes every reported next position forward
/// by `n`.
pub struct ShiftRight<S>(pub S, pub usize);

impl<S> ShiftRight<S> {
    /// Wraps `data`, shifting its position space right by `n`.
    pub fn new(data: S, n: usize) -> (r: Self)
        ensures
            r == (ShiftRight(data, n)),
    {
        ShiftRight(data, n)
    }
}

impl<S: AsyncDataRead> AsyncDataRead for ShiftRight<S> {
    type Item = S::Item;

    type Err = S::Err;

    open spec fn wf(&self) -> bool {
        self.0.wf()
    }

    open spec fn poll_ok(&self, avail: nat, pos: int) -> bool {
        pos >= self.1 ==> (self.0.poll_ok(avail, pos - self.1) && (match self.0.read_spec(
            avail,
            pos - self.1,
        ) {
            Ok(out) => out.next matches Some(p) ==> p + self.1 <= usize::MAX,
            Err(_) => true,
        }))
    }

    open spec fn read_spec(&self, avail: nat, pos: int) -> Result<
        ReadOutcome<S::Item>,
        S::Err,
    > {
        if pos < self.1 {
            Ok(ReadOutcome { items: Seq::empty(), next: Some(self.1 - pos) })
        } else {
            match self.0.read_spec(avail, pos - self.1) {
                Err(e) => Err(e),
                Ok(out) => Ok(
                    ReadOutcome {
                        items: out.items,
                        next: match out.next {
                            Some(p) => Some(p + self.1),
                            None => None,
                        },
                    },
                ),
            }
        }
    }

    proof fn read_spec_bounds(&self, avail: nat, pos: int) {
        if pos >= self.1 {
            self.0.read_spec_bounds(avail, pos - self.1);
        }
    }

    fn poll_read(
        &self,
        buf: &mut DataReadBufImpl<S::Item>,
        win: DataReaderSlice,
        pos: usize,
    ) -> (r: Result<Option<usize>, S::Err>) {
        if pos < self.1 {
            proof {
                assert(final(buf).filled_seq() =~= old(buf).filled_seq()
                    + Seq::<S::Item>::empty());
            }
            return Ok(Some(self.1 - pos));
        }
        let rr = match self.0.poll_read(buf, win, pos - self.1) {
            Err(e) => return Err(e),
            Ok(x) => x,
        };
        let mapped = match rr {
            Some(p) => Some(p + self.1),
            None => None,
        };
        Ok(mapped)
    }
}

/// Shift round-trip: shifting a source's position space left by `n` and then
/// right by `n` reads identically to the source itself, at every position at
/// or past `n`; the next-position signal agrees whenever the source reports
/// exhaustion or a next position at or past `n`.
pub proof fn lemma_shift_round_trip<S: AsyncDataRead>(s: S, n: usize, avail: nat, pos: int)
    requires
        n <= pos,
    ensures
        (match ((ShiftRight(ShiftLeft(s, n), n)).read_spec(avail, pos), s.read_spec(
            avail,
            pos,
        )) {
            (Ok(rt), Ok(out)) => rt.items == out.items && ((match out.next {
                Some(p) => p >= n,
                None => true,
            }) ==> rt.next == out.next),
            (Err(e1), Err(e2)) => e1 == e2,
            _ => false,
        }),
{
}

} // verus!
