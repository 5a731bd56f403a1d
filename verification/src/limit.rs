//! Range bounding: cap how much of an inner source is visible past a
//! threshold.

use vstd::prelude::*;

use crate::buf::DataReadBufImpl;
use crate::reader::{read_all_spec, AsyncDataRead, ReadOutcome};
use crate::shift::ShiftLeft;
use crate::slice::DataReaderSlice;

verus! {

/// Delegates each pass into a sub-window capped to `n` slots and treats any
/// reported next position at or past `n` as exhaustion, since positions past
/// the limit are out of the exposed range.
pub struct Limit<S>(pub S, pub usize);

impl<S> Limit<S> {
    /// Wraps `data`, exposing at most `n` positions of it.
    pub fn new(data: S, n: usize) -> (r: Self)
        ensures
            r == (Limit(data, n)),
    {
        Limit(data, n)
    }
}

impl<S: AsyncDataRead> AsyncDataRead for Limit<S> {
    type Item = S::Item;

    type Err = S::Err;

    open spec fn wf(&self) -> bool {
        self.0.wf()
    }

    open spec fn poll_ok(&self, avail: nat, pos: int) -> bool {
        self.0.poll_ok(vstd::math::min(avail as int, self.1 as int) as nat, pos)
    }

    open spec fn read_spec(&self, avail: nat, pos: int) -> Result<
        ReadOutcome<S::Item>,
        S::Err,
    > {
        match self.0.read_spec(vstd::math::min(avail as int, self.1 as int) as nat, pos) {
            Err(e) => Err(e),
            Ok(out) => Ok(
                ReadOutcome {
                    items: out.items,
                    next: match out.next {
                        Some(p) => if p < self.1 {
                            Some(p)
                        } else {
                            None
                        },
                        None => None,
                    },
                },
            ),
        }
    }

    proof fn read_spec_bounds(&self, avail: nat, pos: int) {
        self.0.read_spec_bounds(vstd::math::min(avail as int, self.1 as int) as nat, pos);
    }

    fn poll_read(
        &self,
        buf: &mut DataReadBufImpl<S::Item>,
        win: DataReaderSlice,
        pos: usize,
    ) -> (r: Result<Option<usize>, S::Err>) {
        let nwin = win.take(buf, self.1);
        let rr = match self.0.poll_read(buf, nwin, pos) {
            Err(e) => return Err(e),
            Ok(x) => x,
        };
        let filtered = match rr {
            Some(p) => if p < self.1 {
                Some(p)
            } else {
                None
            },
            None => None,
        };
        Ok(filtered)
    }
}

/// Slice composition, per pass: the sub-range `[start, end)` of a source,
/// exposed as a zero-based stream by shifting left and limiting, reads from
/// position `0` exactly what the source itself holds from position `start`,
/// for every window that fits in the slice.
pub proof fn lemma_slice_composition<S: AsyncDataRead>(s: S, start: usize, end: usize, avail: nat)
    requires
        start <= end,
        avail <= end - start,
    ensures
        (match ((Limit(ShiftLeft(s, start), (end - start) as usize)).read_spec(avail, 0),
        s.read_spec(avail, start as int)) {
            (Ok(sl), Ok(out)) => sl.items == out.items,
            (Err(e1), Err(e2)) => e1 == e2,
            _ => false,
        }),
{
}

/// Slice composition, read to completion: reading the slice `[start, end)`
/// of a source from position `pos` until full or stuck yields item for item
/// what reading the source itself from position `start + pos` yields, for
/// every buffer that fits in the slice.
pub proof fn lemma_slice_read_to_completion<S: AsyncDataRead>(
    s: S,
    start: usize,
    end: usize,
    avail: nat,
    pos: int,
)
    requires
        start <= end,
        avail <= end - start,
        0 <= pos,
    ensures
        (match (read_all_spec(Limit(ShiftLeft(s, start), (end - start) as usize), avail, pos),
        read_all_spec(s, avail, start + pos)) {
            (Ok(sl), Ok(out)) => sl.items == out.items,
            (Err(e1), Err(e2)) => e1 == e2,
            _ => false,
        }),
    decreases avail,
{
    let composite = Limit(ShiftLeft(s, start), (end - start) as usize);
    match composite.read_spec(avail, pos) {
        Err(_) => {},
        Ok(out) => {
            if 0 < out.items.len() <= avail {
                lemma_slice_read_to_completion(
                    s,
                    start,
                    end,
                    (avail - out.items.len()) as nat,
                    pos + out.items.len(),
                );
            }
        },
    }
}

} // verus!
