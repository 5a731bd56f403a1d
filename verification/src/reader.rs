//! The read contract: a position-addressed read operation that reports the
//! next known position with data, or exhaustion, together with the drivers
//! that issue one pass or read to completion.

use vstd::prelude::*;

use crate::buf::DataReadBufImpl;
use crate::limit::Limit;
use crate::overlay::OverlaySource;
use crate::overlay_once::OverlayOnce;
use crate::shift::{ShiftLeft, ShiftRight};
use crate::slice::DataReaderSlice;

verus! {

/// What one pass of a read denotes: the items written starting at the
/// requested position, and the next-position signal.  `next` is `Some(p)`
/// when position `p` is the next place data might resume, and `None` when
/// the source is exhausted from here onward.
pub struct ReadOutcome<T> {
    pub items: Seq<T>,
    pub next: Option<int>,
}

/// The mathematical value of an executable next-position signal.
pub open spec fn opt_view(o: Option<usize>) -> Option<int> {
    match o {
        Some(p) => Some(p as int),
        None => None,
    }
}

/// The tighter of two next-position constraints, where `None` means
/// "no constraint".
pub open spec fn opt_min(a: Option<int>, b: Option<int>) -> Option<int> {
    match (a, b) {
        (Option::None, x) => x,
        (x, Option::None) => x,
        (Option::Some(x), Option::Some(y)) => Some(vstd::math::min(x, y)),
    }
}

/// A position-addressed, suspendable read operation.
///
/// A source denotes, for every window size `avail` and position `pos`, the
/// outcome of one pass: [`AsyncDataRead::read_spec`].  One executable pass
/// ([`AsyncDataRead::poll_read`]) writes exactly those items after the
/// buffer's valid prefix and returns exactly that signal.  Sources are
/// stateless with respect to position: a pass is parameterized by the
/// position explicitly and leaves the source unchanged.
pub trait AsyncDataRead: Sized {
    type Item: Copy;

    type Err;

    /// Structural well-formedness of the source.
    spec fn wf(&self) -> bool;

    /// The denotation of one pass with `avail` window slots at position
    /// `pos`: either the items written together with the next-position
    /// signal, or the error the pass reports.
    spec fn read_spec(&self, avail: nat, pos: int) -> Result<
        ReadOutcome<Self::Item>,
        Self::Err,
    >;

    /// The inputs on which one pass is defined; excludes only inputs whose
    /// position arithmetic would exceed the machine word.
    spec fn poll_ok(&self, avail: nat, pos: int) -> bool;

    /// One pass never writes more than the window holds, and every reported
    /// next position fits in a machine word.
    proof fn read_spec_bounds(&self, avail: nat, pos: int)
        requires
            self.wf(),
            self.poll_ok(avail, pos),
            0 <= pos <= usize::MAX,
        ensures
            (match self.read_spec(avail, pos) {
                Ok(out) => out.items.len() <= avail && (out.next matches Some(p) ==> 0 <= p
                    <= usize::MAX),
                Err(_) => true,
            }),
    ;

    /// One pass: writes zero or more items into the window starting at the
    /// buffer's current fill point and reports the next known position with
    /// data, or exhaustion.  On an error nothing is written.
    fn poll_read(
        &self,
        buf: &mut DataReadBufImpl<Self::Item>,
        win: DataReaderSlice,
        pos: usize,
    ) -> (r: Result<Option<usize>, Self::Err>)
        requires
            self.wf(),
            win.wf(*old(buf)),
            self.poll_ok(win.avail(*old(buf)), pos as int),
        ensures
            win.wf(*final(buf)),
            final(buf).cap == old(buf).cap,
            (match (r, self.read_spec(win.avail(*old(buf)), pos as int)) {
                (Ok(rn), Ok(out)) => final(buf).filled_seq() == old(buf).filled_seq()
                    + out.items && opt_view(rn) == out.next,
                (Err(e), Err(se)) => e == se && final(buf).filled_seq() == old(
                    buf,
                ).filled_seq(),
                _ => false,
            }),
    ;

    /// Issues exactly one pass against the buffer's unfilled remainder.
    fn read_single_pass(&self, pos: usize, buf: &mut DataReadBufImpl<Self::Item>) -> (r: Result<
        Option<usize>,
        Self::Err,
    >)
        requires
            self.wf(),
            old(buf).wf(),
            self.poll_ok(old(buf).avail(), pos as int),
        ensures
            final(buf).wf(),
            final(buf).cap == old(buf).cap,
            (match (r, self.read_spec(old(buf).avail(), pos as int)) {
                (Ok(rn), Ok(out)) => final(buf).filled_seq() == old(buf).filled_seq()
                    + out.items && opt_view(rn) == out.next,
                (Err(e), Err(se)) => e == se && final(buf).filled_seq() == old(
                    buf,
                ).filled_seq(),
                _ => false,
            }),
    {
        let remaining = buf.capacity() - buf.filled().len();
        let win = buf.take(remaining);
        self.poll_read(buf, win, pos)
    }

    /// Composes this source as the base under `other`, which takes
    /// priority.
    fn overlay<O>(self, other: O) -> (r: OverlaySource<Self, O>)
        ensures
            r == (OverlaySource { base: self, overlay: other }),
    {
        OverlaySource::new(self, other)
    }

    /// Overlays a single fixed patch of `data` anchored at `pos` on top of
    /// this source.
    fn overlay_once(self, pos: usize, data: Vec<Self::Item>) -> (r: OverlaySource<
        Self,
        OverlayOnce<Self::Item>,
    >)
        ensures
            r == (OverlaySource { base: self, overlay: OverlayOnce { pos, data } }),
    {
        OverlaySource::new(self, OverlayOnce::new(pos, data))
    }

    /// Shifts this source's position space left by `n`.
    fn shift_left(self, n: usize) -> (r: ShiftLeft<Self>)
        ensures
            r == (ShiftLeft(self, n)),
    {
        ShiftLeft::new(self, n)
    }

    /// Shifts this source's position space right by `n`.
    fn shift_right(self, n: usize) -> (r: ShiftRight<Self>)
        ensures
            r == (ShiftRight(self, n)),
    {
        ShiftRight::new(self, n)
    }

    /// Exposes at most the first `n` positions of this source.
    fn limit(self, n: usize) -> (r: Limit<Self>)
        ensures
            r == (Limit(self, n)),
    {
        Limit::new(self, n)
    }

    /// Exposes exactly `[start, end)` of this source as a self-contained
    /// zero-based stream.
    fn slice(self, start: usize, end: usize) -> (r: Limit<ShiftLeft<Self>>)
        requires
            start <= end,
        ensures
            r == (Limit(ShiftLeft(self, start), (end - start) as usize)),
    {
        let len = end - start;
        Limit::new(ShiftLeft::new(self, start), len)
    }
}

/// Reads to completion or to a hole: repeatedly issues single passes, each
/// against the buffer's unfilled remainder at the position just past what has
/// accumulated, and stops when a pass writes nothing or the buffer is full.
pub fn read_to_hole0<R: AsyncDataRead>(
    reader: &R,
    buf: &mut DataReadBufImpl<R::Item>,
    pos: usize,
) -> (r: Result<Option<usize>, R::Err>)
    requires
        reader.wf(),
        old(buf).wf(),
        pos + old(buf).avail() <= usize::MAX,
        forall|k: int|
            0 <= k <= old(buf).avail() ==> #[trigger] reader.poll_ok(
                (old(buf).avail() - k) as nat,
                pos + k,
            ),
    ensures
        final(buf).wf(),
        final(buf).cap == old(buf).cap,
        (match (r, read_all_spec(*reader, old(buf).avail(), pos as int)) {
            (Ok(rn), Ok(out)) => final(buf).filled_seq() == old(buf).filled_seq() + out.items
                && opt_view(rn) == out.next,
            (Err(e), Err(se)) => e == se && old(buf).filled_seq().is_prefix_of(
                final(buf).filled_seq(),
            ),
            _ => false,
        }),
{
    let ghost avail0 = old(buf).avail();
    proof {
        lemma_read_all_ok(*reader, avail0, pos as int);
    }
    let mut written: usize = 0;
    loop
        invariant
            reader.wf(),
            buf.wf(),
            buf.cap == old(buf).cap,
            written <= avail0,
            pos + avail0 <= usize::MAX,
            avail0 == old(buf).avail(),
            buf.filled == old(buf).filled + written,
            buf.filled_seq() == old(buf).filled_seq() + buf.filled_seq().skip(
                old(buf).filled as int,
            ),
            read_all_ok(*reader, (avail0 - written) as nat, pos + written),
            (match read_all_spec(*reader, (avail0 - written) as nat, pos + written) {
                Ok(rest) => read_all_spec(*reader, avail0, pos as int) matches Ok(out)
                    && out.items == buf.filled_seq().skip(old(buf).filled as int) + rest.items
                    && out.next == rest.next,
                Err(e) => read_all_spec(*reader, avail0, pos as int) == Err::<
                    ReadOutcome<R::Item>,
                    R::Err,
                >(e),
            }),
        decreases avail0 - written,
    {
        let remaining = buf.capacity() - buf.filled().len();
        let win = buf.take(remaining);
        let ghost pre = buf.filled_seq();
        proof {
            reveal_read_all(*reader, (avail0 - written) as nat, pos + written);
        }
        let rr = reader.poll_read(buf, win, pos + written);
        let wb = win.filled_len(buf);
        match rr {
            Err(e) => {
                proof {
                    assert(buf.filled_seq().skip(old(buf).filled as int) =~= pre.skip(
                        old(buf).filled as int,
                    ));
                    assert(old(buf).filled_seq().is_prefix_of(buf.filled_seq()));
                }
                return Err(e);
            },
            Ok(next) => {
                proof {
                    reader.read_spec_bounds((avail0 - written) as nat, pos + written);
                    assert(buf.filled_seq().skip(old(buf).filled as int) =~= pre.skip(
                        old(buf).filled as int,
                    ) + buf.filled_seq().skip(pre.len() as int));
                }
                written = written + wb;
                if wb == 0 {
                    proof {
                        assert(buf.filled_seq() =~= old(buf).filled_seq() + buf.filled_seq().skip(
                            old(buf).filled as int,
                        ));
                    }
                    return Ok(next);
                }
            },
        }
    }
}

/// A read-to-completion loop stays on inputs where the source's pass is
/// defined whenever the source's pass is defined at every window and
/// position the loop can visit.
pub proof fn lemma_read_all_ok<R: AsyncDataRead>(r: R, avail: nat, pos: int)
    requires
        forall|k: int| 0 <= k <= avail ==> #[trigger] r.poll_ok((avail - k) as nat, pos + k),
    ensures
        read_all_ok(r, avail, pos),
    decreases avail,
{
    assert(r.poll_ok((avail - 0) as nat, pos + 0));
    match r.read_spec(avail, pos) {
        Err(_) => {},
        Ok(out) => {
            let w = out.items.len() as int;
            if 0 < w <= avail {
                assert forall|k: int| 0 <= k <= avail - w implies #[trigger] r.poll_ok(
                    ((avail - w) - k) as nat,
                    (pos + w) + k,
                ) by {
                    assert(r.poll_ok((avail - (k + w)) as nat, pos + (k + w)));
                }
                lemma_read_all_ok(r, (avail - w) as nat, pos + w);
            }
        },
    }
}

/// Whether every pass of a read-to-completion loop stays on inputs where the
/// source's pass is defined.
pub open spec fn read_all_ok<R: AsyncDataRead>(r: R, avail: nat, pos: int) -> bool
    decreases avail,
{
    r.poll_ok(avail, pos) && (match r.read_spec(avail, pos) {
        Err(_) => true,
        Ok(out) => 0 < out.items.len() <= avail ==> read_all_ok(
            r,
            (avail - out.items.len()) as nat,
            pos + out.items.len(),
        ),
    })
}

/// The denotation of reading to completion or to a hole: accumulates passes
/// until one writes nothing, and reports that pass's signal.
pub open spec fn read_all_spec<R: AsyncDataRead>(r: R, avail: nat, pos: int) -> Result<
    ReadOutcome<R::Item>,
    R::Err,
>
    decreases avail,
{
    match r.read_spec(avail, pos) {
        Err(e) => Err(e),
        Ok(out) => {
            if out.items.len() == 0 || out.items.len() > avail {
                Ok(out)
            } else {
                match read_all_spec(r, (avail - out.items.len()) as nat, pos + out.items.len()) {
                    Err(e) => Err(e),
                    Ok(rest) => Ok(
                        ReadOutcome { items: out.items + rest.items, next: rest.next },
                    ),
                }
            }
        },
    }
}

/// Unfolds one step of [`read_all_spec`] and [`read_all_ok`].
pub proof fn reveal_read_all<R: AsyncDataRead>(r: R, avail: nat, pos: int)
    ensures
        read_all_ok(r, avail, pos) == (r.poll_ok(avail, pos) && (match r.read_spec(avail, pos) {
            Err(_) => true,
            Ok(out) => 0 < out.items.len() <= avail ==> read_all_ok(
                r,
                (avail - out.items.len()) as nat,
                pos + out.items.len(),
            ),
        })),
        read_all_spec(r, avail, pos) == (match r.read_spec(avail, pos) {
            Err(e) => Err(e),
            Ok(out) => {
                if out.items.len() == 0 || out.items.len() > avail {
                    Ok(out)
                } else {
                    match read_all_spec(
                        r,
                        (avail - out.items.len()) as nat,
                        pos + out.items.len(),
                    ) {
                        Err(e) => Err(e),
                        Ok(rest) => Ok(
                            ReadOutcome { items: out.items + rest.items, next: rest.next },
                        ),
                    }
                }
            },
        }),
{
}

} // verus!
