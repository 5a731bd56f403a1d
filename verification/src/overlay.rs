//! The two-source merge: composes a base and an overlay, where the overlay
//! wins at every position it covers and the base fills the overlay's holes.

use vstd::prelude::*;

use crate::buf::DataReadBufImpl;
use crate::or::Or;
use crate::overlay_once::{patch_value, OverlayOnce};
use crate::reader::{opt_min, opt_view, AsyncDataRead, ReadOutcome};
use crate::slice::DataReaderSlice;

verus! {

/// A base source read through an overlay.  Each pass first offers the
/// window to the overlay; if the overlay writes anything the pass resolves
/// immediately, and otherwise the base reads into a sub-window capped to the
/// overlay's hole, so the base can never claim a region the overlay covers.
pub struct OverlaySource<B, O> {
    pub base: B,
    pub overlay: O,
}

impl<B, O> OverlaySource<B, O> {
    /// Composes `base` and `overlay`, with the overlay taking priority.
    pub fn new(base: B, overlay: O) -> (r: Self)
        ensures
            r.base == base,
            r.overlay == overlay,
    {
        OverlaySource { base, overlay }
    }
}

/// The widest span starting at `pos` that is guaranteed free of overlay
/// data, given the overlay's next-position signal.
pub open spec fn hole_width(next: Option<int>, avail: nat, pos: int) -> nat {
    match next {
        Some(p) => vstd::math::min(vstd::math::max(p - pos, 0), avail as int) as nat,
        None => avail,
    }
}

impl<B: AsyncDataRead, O: AsyncDataRead<Item = B::Item>> AsyncDataRead for OverlaySource<B, O> {
    type Item = B::Item;

    type Err = Or<B::Err, O::Err>;

    open spec fn wf(&self) -> bool {
        self.base.wf() && self.overlay.wf()
    }

    open spec fn poll_ok(&self, avail: nat, pos: int) -> bool {
        &&& pos + avail <= usize::MAX
        &&& self.overlay.poll_ok(avail, pos)
        &&& (match self.overlay.read_spec(avail, pos) {
            Ok(oout) => oout.items.len() == 0 ==> self.base.poll_ok(
                hole_width(oout.next, avail, pos),
                pos,
            ),
            Err(_) => true,
        })
    }

    open spec fn read_spec(&self, avail: nat, pos: int) -> Result<
        ReadOutcome<B::Item>,
        Or<B::Err, O::Err>,
    > {
        match self.overlay.read_spec(avail, pos) {
            Err(e) => Err(Or::R(e)),
            Ok(oout) => {
                if oout.items.len() > 0 {
                    Ok(ReadOutcome { items: oout.items, next: Some(pos + oout.items.len()) })
                } else {
                    match self.base.read_spec(hole_width(oout.next, avail, pos), pos) {
                        Err(e) => Err(Or::L(e)),
                        Ok(bout) => {
                            if bout.items.len() > 0 {
                                Ok(
                                    ReadOutcome {
                                        items: bout.items,
                                        next: Some(pos + bout.items.len()),
                                    },
                                )
                            } else {
                                Ok(
                                    ReadOutcome {
                                        items: Seq::empty(),
                                        next: opt_min(oout.next, bout.next),
                                    },
                                )
                            }
                        },
                    }
                }
            },
        }
    }

    proof fn read_spec_bounds(&self, avail: nat, pos: int) {
        self.overlay.read_spec_bounds(avail, pos);
        match self.overlay.read_spec(avail, pos) {
            Ok(oout) => {
                if oout.items.len() == 0 {
                    self.base.read_spec_bounds(hole_width(oout.next, avail, pos), pos);
                }
            },
            Err(_) => {},
        }
    }

    fn poll_read(
        &self,
        buf: &mut DataReadBufImpl<B::Item>,
        win: DataReaderSlice,
        pos: usize,
    ) -> (r: Result<Option<usize>, Or<B::Err, O::Err>>) {
        let prev = win.filled_len(buf);
        let onext = match self.overlay.poll_read(buf, win, pos) {
            Err(e) => return Err(Or::R(e)),
            Ok(x) => x,
        };
        let wb = win.filled_len(buf) - prev;
        proof {
            self.overlay.read_spec_bounds(win.avail(*old(buf)), pos as int);
        }
        if wb > 0 {
            return Ok(Some(pos + wb));
        }
        let wavail = win.capacity() - win.filled_len(buf);
        let width = match onext {
            Some(p) => if p > pos {
                p - pos
            } else {
                0
            },
            None => wavail,
        };
        let nwin = win.take(buf, width);
        let ghost bavail = hole_width(opt_view(onext), win.avail(*old(buf)), pos as int);
        let bnext = match self.base.poll_read(buf, nwin, pos) {
            Err(e) => return Err(Or::L(e)),
            Ok(x) => x,
        };
        let wb2 = nwin.filled_len(buf);
        proof {
            self.base.read_spec_bounds(bavail, pos as int);
        }
        if wb2 > 0 {
            return Ok(Some(pos + wb2));
        }
        let next = match (onext, bnext) {
            (Option::None, x) => x,
            (x, Option::None) => x,
            (Option::Some(a), Option::Some(b)) => Some(
                if a < b {
                    a
                } else {
                    b
                },
            ),
        };
        proof {
            assert(final(buf).filled_seq() =~= old(buf).filled_seq() + Seq::<B::Item>::empty());
        }
        Ok(next)
    }
}

/// Overlay priority, both halves of it: whenever the overlay has data at the
/// requested position, one pass of the merge returns exactly the overlay's
/// items; and whenever it has none, the base's contribution never exceeds
/// the overlay's reported hole, so the base cannot claim a region the
/// overlay covers.
pub proof fn lemma_overlay_priority<B: AsyncDataRead, O: AsyncDataRead<Item = B::Item>>(
    src: OverlaySource<B, O>,
    avail: nat,
    pos: int,
)
    requires
        src.wf(),
        src.poll_ok(avail, pos),
        0 <= pos <= usize::MAX,
    ensures
        (match (src.read_spec(avail, pos), src.overlay.read_spec(avail, pos)) {
            (Ok(res), Ok(oout)) => {
                &&& oout.items.len() > 0 ==> res.items == oout.items
                &&& (oout.items.len() == 0 ==> res.items.len() <= hole_width(
                    oout.next,
                    avail,
                    pos,
                ))
            },
            (Err(_), _) => true,
            _ => false,
        }),
{
    src.overlay.read_spec_bounds(avail, pos);
    match src.overlay.read_spec(avail, pos) {
        Ok(oout) => {
            if oout.items.len() == 0 {
                src.base.read_spec_bounds(hole_width(oout.next, avail, pos), pos);
            }
        },
        Err(_) => {},
    }
}

/// Overlay priority, pointwise, for a merge of two fixed patches: each item
/// one pass writes carries the overlay's value wherever the overlay covers
/// that position, and the base's value everywhere else — the overlay
/// strictly wins on its interval, the base fills elsewhere.
pub proof fn lemma_overlay_patch_union<T: Copy>(
    base: OverlayOnce<T>,
    ov: OverlayOnce<T>,
    avail: nat,
    pos: int,
)
    requires
        0 <= pos,
    ensures
        (match (OverlaySource { base, overlay: ov }).read_spec(avail, pos) {
            Ok(out) => forall|j: int|
                0 <= j < out.items.len() ==> out.items[j] == (match patch_value(ov, pos + j) {
                    Some(v) => v,
                    None => patch_value(base, pos + j)->Some_0,
                }) && (patch_value(ov, pos + j) is None ==> patch_value(base, pos + j) is Some),
            Err(_) => false,
        }),
{
    let src = OverlaySource { base, overlay: ov };
    let oout = ov.read_spec(avail, pos)->Ok_0;
    if oout.items.len() > 0 {
        let idx = pos - ov.pos;
        assert forall|j: int| 0 <= j < oout.items.len() implies #[trigger] oout.items[j]
            == patch_value(ov, pos + j)->Some_0 && patch_value(ov, pos + j) is Some by {
            assert(oout.items[j] == ov.data@[idx + j]);
        }
    } else {
        let width = hole_width(oout.next, avail, pos);
        let bout = base.read_spec(width, pos)->Ok_0;
        if bout.items.len() > 0 {
            let idx = pos - base.pos;
            assert forall|j: int| 0 <= j < bout.items.len() implies #[trigger] bout.items[j]
                == patch_value(base, pos + j)->Some_0 && patch_value(base, pos + j) is Some
                && patch_value(ov, pos + j) is None by {
                assert(bout.items[j] == base.data@[idx + j]);
            }
        }
    }
}

} // verus!
