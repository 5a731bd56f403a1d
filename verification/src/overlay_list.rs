//! The N-source priority merge: an ordered collection of sources where
//! later-registered sources win at overlapping offsets.

use vstd::prelude::*;

use crate::buf::DataReadBufImpl;
use crate::overlay::hole_width;
use crate::overlay_once::{patch_value, OverlayOnce};
use crate::reader::{opt_min, opt_view, AsyncDataRead, ReadOutcome};
use crate::slice::DataReaderSlice;

verus! {

/// An ordered list of sources merged with last-registered-wins priority.
///
/// Each pass walks the list from highest to lowest priority, capping every
/// read to the tightest hole bound seen so far, so a lower-priority source
/// can never claim a region a higher-priority one covers.  The first source
/// that writes anything wins the pass.
pub struct OverlayList<S> {
    pub list: Vec<S>,
}

impl<S: AsyncDataRead> OverlayList<S> {
    /// Wraps an ordered list of sources; the last entry has the highest
    /// priority.
    pub fn new(list: Vec<S>) -> (r: Self)
        ensures
            r.list == list,
    {
        OverlayList { list }
    }

    /// Registers one more source, with priority over every source already
    /// registered.
    pub fn push(&mut self, source: S)
        ensures
            final(self).list@ == old(self).list@.push(source),
    {
        self.list.push(source);
    }
}

/// The denotation of one pass over the sources in `sources`, highest
/// priority (the last entry) first, with `acc` the tightest next-position
/// bound seen so far.  Each source reads at most the hole `acc` allows; the
/// first one with items wins, and the pass reports the accumulated bound.
pub open spec fn list_read_spec<S: AsyncDataRead>(
    sources: Seq<S>,
    avail: nat,
    pos: int,
    acc: Option<int>,
) -> Result<ReadOutcome<S::Item>, S::Err>
    decreases sources.len(),
{
    if sources.len() == 0 {
        Ok(ReadOutcome { items: Seq::empty(), next: acc })
    } else {
        let s = sources.last();
        let capi = hole_width(acc, avail, pos);
        match s.read_spec(capi, pos) {
            Err(e) => Err(e),
            Ok(out) => {
                let acc2 = opt_min(acc, out.next);
                if out.items.len() > 0 {
                    Ok(ReadOutcome { items: out.items, next: acc2 })
                } else {
                    list_read_spec(sources.drop_last(), avail, pos, acc2)
                }
            },
        }
    }
}

/// Whether every source visited by one pass is on inputs where its own pass
/// is defined.
pub open spec fn list_poll_ok<S: AsyncDataRead>(
    sources: Seq<S>,
    avail: nat,
    pos: int,
    acc: Option<int>,
) -> bool
    decreases sources.len(),
{
    sources.len() == 0 || {
        let s = sources.last();
        let capi = hole_width(acc, avail, pos);
        s.poll_ok(capi, pos) && (match s.read_spec(capi, pos) {
            Err(_) => true,
            Ok(out) => out.items.len() == 0 ==> list_poll_ok(
                sources.drop_last(),
                avail,
                pos,
                opt_min(acc, out.next),
            ),
        })
    }
}

/// One pass over a source list never writes more than the window holds, and
/// every reported next position fits in a machine word.
pub proof fn lemma_list_read_spec_bounds<S: AsyncDataRead>(
    sources: Seq<S>,
    avail: nat,
    pos: int,
    acc: Option<int>,
)
    requires
        forall|i: int| #![auto] 0 <= i < sources.len() ==> sources[i].wf(),
        list_poll_ok(sources, avail, pos, acc),
        0 <= pos <= usize::MAX,
        acc matches Some(p) ==> 0 <= p <= usize::MAX,
    ensures
        (match list_read_spec(sources, avail, pos, acc) {
            Ok(out) => out.items.len() <= avail && (out.next matches Some(p) ==> 0 <= p
                <= usize::MAX),
            Err(_) => true,
        }),
    decreases sources.len(),
{
    if sources.len() > 0 {
        let s = sources.last();
        let capi = hole_width(acc, avail, pos);
        s.read_spec_bounds(capi, pos);
        match s.read_spec(capi, pos) {
            Ok(out) => {
                if out.items.len() == 0 {
                    lemma_list_read_spec_bounds(
                        sources.drop_last(),
                        avail,
                        pos,
                        opt_min(acc, out.next),
                    );
                }
            },
            Err(_) => {},
        }
    }
}

/// No clobbering: one pass over a source list, entered with next-position
/// bound `acc`, never writes past the hole that bound allows, so a
/// lower-priority source can never claim a region a higher-priority one has
/// already announced data for.
pub proof fn lemma_list_hole_bound<S: AsyncDataRead>(
    sources: Seq<S>,
    avail: nat,
    pos: int,
    acc: Option<int>,
)
    requires
        forall|i: int| #![auto] 0 <= i < sources.len() ==> sources[i].wf(),
        list_poll_ok(sources, avail, pos, acc),
        0 <= pos <= usize::MAX,
    ensures
        (match list_read_spec(sources, avail, pos, acc) {
            Ok(out) => out.items.len() <= hole_width(acc, avail, pos),
            Err(_) => true,
        }),
    decreases sources.len(),
{
    if sources.len() > 0 {
        let s = sources.last();
        let capi = hole_width(acc, avail, pos);
        s.read_spec_bounds(capi, pos);
        match s.read_spec(capi, pos) {
            Ok(out) => {
                if out.items.len() == 0 {
                    lemma_list_hole_bound(
                        sources.drop_last(),
                        avail,
                        pos,
                        opt_min(acc, out.next),
                    );
                }
            },
            Err(_) => {},
        }
    }
}

/// The value the priority union of a list of patches holds at `p`: the
/// last-registered patch covering `p` wins.
pub open spec fn priority_value<T>(sources: Seq<OverlayOnce<T>>, p: int) -> Option<T>
    decreases sources.len(),
{
    if sources.len() == 0 {
        None
    } else {
        match patch_value(sources.last(), p) {
            Some(v) => Some(v),
            None => priority_value(sources.drop_last(), p),
        }
    }
}

/// A pass over a list of fixed patches is defined at every window and
/// position.
proof fn lemma_patch_list_poll_ok<T: Copy>(
    sources: Seq<OverlayOnce<T>>,
    avail: nat,
    pos: int,
    acc: Option<int>,
)
    ensures
        list_poll_ok(sources, avail, pos, acc),
    decreases sources.len(),
{
    if sources.len() > 0 {
        let s = sources.last();
        let capi = hole_width(acc, avail, pos);
        match s.read_spec(capi, pos) {
            Ok(out) => {
                lemma_patch_list_poll_ok(sources.drop_last(), avail, pos, opt_min(acc, out.next));
            },
            Err(_) => {},
        }
    }
}

proof fn lemma_list_patch_union_at<T: Copy>(
    sources: Seq<OverlayOnce<T>>,
    avail: nat,
    pos: int,
    acc: Option<int>,
)
    requires
        0 <= pos <= usize::MAX,
    ensures
        (match list_read_spec(sources, avail, pos, acc) {
            Ok(out) => forall|j: int|
                0 <= j < out.items.len() ==> priority_value(sources, pos + j) == Some(
                    #[trigger] out.items[j],
                ),
            Err(_) => false,
        }),
    decreases sources.len(),
{
    if sources.len() > 0 {
        let s = sources.last();
        let capi = hole_width(acc, avail, pos);
        let out = s.read_spec(capi, pos)->Ok_0;
        let acc2 = opt_min(acc, out.next);
        if out.items.len() > 0 {
            let idx = pos - s.pos;
            assert forall|j: int| 0 <= j < out.items.len() implies priority_value(sources, pos + j)
                == Some(#[trigger] out.items[j]) by {
                assert(out.items[j] == s.data@[idx + j]);
                assert(patch_value(s, pos + j) == Some(s.data@[idx + j]));
            }
        } else {
            lemma_list_patch_union_at(sources.drop_last(), avail, pos, acc2);
            lemma_patch_list_poll_ok(sources.drop_last(), avail, pos, acc2);
            lemma_list_hole_bound(sources.drop_last(), avail, pos, acc2);
            match list_read_spec(sources.drop_last(), avail, pos, acc2) {
                Ok(rest) => {
                    assert forall|j: int| 0 <= j < rest.items.len() implies priority_value(
                        sources,
                        pos + j,
                    ) == Some(#[trigger] rest.items[j]) by {
                        assert(rest.items.len() <= hole_width(acc2, avail, pos));
                        assert(patch_value(s, pos + j) is None);
                    }
                },
                Err(_) => {},
            }
        }
    }
}

/// The N-way merge computes the priority union: every item one pass over a
/// list of fixed patches writes carries the value of the last-registered
/// patch covering its position.
pub proof fn lemma_overlay_list_patch_union<T: Copy>(
    src: OverlayList<OverlayOnce<T>>,
    avail: nat,
    pos: int,
)
    requires
        0 <= pos <= usize::MAX,
    ensures
        (match src.read_spec(avail, pos) {
            Ok(out) => forall|j: int|
                0 <= j < out.items.len() ==> priority_value(src.list@, pos + j) == Some(
                    #[trigger] out.items[j],
                ),
            Err(_) => false,
        }),
{
    lemma_list_patch_union_at(src.list@, avail, pos, None);
}

impl<S: AsyncDataRead> AsyncDataRead for OverlayList<S> {
    type Item = S::Item;

    type Err = S::Err;

    open spec fn wf(&self) -> bool {
        forall|i: int| #![auto] 0 <= i < self.list@.len() ==> self.list@[i].wf()
    }

    open spec fn poll_ok(&self, avail: nat, pos: int) -> bool {
        list_poll_ok(self.list@, avail, pos, None)
    }

    open spec fn read_spec(&self, avail: nat, pos: int) -> Result<ReadOutcome<S::Item>, S::Err> {
        list_read_spec(self.list@, avail, pos, None)
    }

    proof fn read_spec_bounds(&self, avail: nat, pos: int) {
        lemma_list_read_spec_bounds(self.list@, avail, pos, None);
    }

    fn poll_read(
        &self,
        buf: &mut DataReadBufImpl<S::Item>,
        win: DataReaderSlice,
        pos: usize,
    ) -> (r: Result<Option<usize>, S::Err>) {
        let ghost avail0 = win.avail(*old(buf));
        let mut i = self.list.len();
        let mut acc: Option<usize> = None;
        proof {
            assert(self.list@.take(i as int) =~= self.list@);
        }
        while i > 0
            invariant
                self.wf(),
                i <= self.list@.len(),
                win.wf(*old(buf)),
                buf.cap == old(buf).cap,
                buf.filled == old(buf).filled,
                buf.filled_seq() == old(buf).filled_seq(),
                win.wf(*buf),
                avail0 == win.avail(*buf),
                avail0 == win.avail(*old(buf)),
                list_poll_ok(self.list@.take(i as int), avail0, pos as int, opt_view(acc)),
                list_read_spec(self.list@, avail0, pos as int, None) == list_read_spec(
                    self.list@.take(i as int),
                    avail0,
                    pos as int,
                    opt_view(acc),
                ),
            decreases i,
        {
            i = i - 1;
            let ghost acc_pre = opt_view(acc);
            let ghost srcs = self.list@.take(i + 1);
            proof {
                assert(srcs.drop_last() =~= self.list@.take(i as int));
                assert(srcs.last() == self.list@[i as int]);
            }
            let s = &self.list[i];
            let wavail = win.capacity() - win.filled_len(buf);
            let width = match acc {
                Some(p) => if p > pos {
                    p - pos
                } else {
                    0
                },
                None => wavail,
            };
            let nwin = win.take(buf, width);
            let ghost bpre = *buf;
            let ghost capi = hole_width(acc_pre, avail0, pos as int);
            proof {
                assert(nwin.avail(bpre) == capi);
            }
            let rr = match s.poll_read(buf, nwin, pos) {
                Err(e) => {
                    proof {
                        assert(list_read_spec(srcs, avail0, pos as int, acc_pre) == Err::<
                            ReadOutcome<S::Item>,
                            S::Err,
                        >(e));
                    }
                    return Err(e);
                },
                Ok(x) => x,
            };
            let wb = nwin.filled_len(buf);
            let acc2 = match (acc, rr) {
                (Option::None, x) => x,
                (x, Option::None) => x,
                (Option::Some(a), Option::Some(b)) => Some(
                    if a < b {
                        a
                    } else {
                        b
                    },
                ),
            };
            acc = acc2;
            if wb > 0 {
                proof {
                    let out = s.read_spec(capi, pos as int)->Ok_0;
                    assert(wb == out.items.len());
                    assert(opt_view(acc) == opt_min(acc_pre, out.next));
                    assert(list_read_spec(srcs, avail0, pos as int, acc_pre) == Ok::<
                        ReadOutcome<S::Item>,
                        S::Err,
                    >(ReadOutcome { items: out.items, next: opt_min(acc_pre, out.next) }));
                }
                return Ok(acc);
            }
            proof {
                let out = s.read_spec(capi, pos as int)->Ok_0;
                assert(out.items.len() == 0);
                assert(buf.filled_seq() =~= bpre.filled_seq());
                assert(list_read_spec(srcs, avail0, pos as int, acc_pre) == list_read_spec(
                    self.list@.take(i as int),
                    avail0,
                    pos as int,
                    opt_min(acc_pre, out.next),
                ));
                assert(opt_view(acc) == opt_min(acc_pre, out.next));
            }
        }
        proof {
            assert(final(buf).filled_seq() =~= old(buf).filled_seq() + Seq::<S::Item>::empty());
        }
        Ok(acc)
    }
}

} // verus!
