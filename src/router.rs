//! The decisions of the bridge's event loop: what to do with a frame from the bus and with
//! a datagram from the host. The loop itself, which waits on the two sources and performs
//! the actions, lives with the I/O.
use vstd::prelude::*;

use crate::com_item::ComItem;
use crate::config::{image_result, pre_items, save_config};
use crate::error::Error;
use crate::filter::{nfilters_check, pfilters_check, Id, NFilter, NFilters, PFilters, PrePFilter, TInstant};

verus! {

/// The answer of the positive filters: everything passes where there is none.
pub open spec fn accepts(fs: Seq<(PrePFilter, Seq<(u32, u32)>)>, id: Id, now: TInstant) -> (
    bool,
    Seq<(PrePFilter, Seq<(u32, u32)>)>,
) {
    if fs.len() == 0 {
        (true, fs)
    } else {
        pfilters_check(fs, id, now)
    }
}

/// What the loop is to do after a datagram from the host.
#[derive(Debug, PartialEq)]
pub enum Action {
    /// Send a datagram to the host.
    ToHost(ComItem),
    /// Send a frame on the bus.
    ToCan(ComItem),
    /// Write a configuration image at the start of the flash partition.
    Store(Vec<u8>),
}

/// The filter sets of the bridge, each of at most `CAP` filters.
pub struct Router<const CAP: usize> {
    pfilters: PFilters<CAP>,
    nfilters: NFilters<CAP>,
}

impl<const CAP: usize> Router<CAP> {
    pub closed spec fn pview(&self) -> Seq<(PrePFilter, Seq<(u32, u32)>)> {
        self.pfilters@
    }

    pub closed spec fn nview(&self) -> Seq<NFilter> {
        self.nfilters@
    }

    /// A router with no filter: everything is forwarded.
    pub fn new() -> (r: Self)
        ensures
            r.pview() == Seq::<(PrePFilter, Seq<(u32, u32)>)>::empty(),
            r.nview() == Seq::<NFilter>::empty(),
    {
        Router { pfilters: PFilters::new(), nfilters: NFilters::new() }
    }

    /// A datagram from the bus: a received frame goes to the host where no negative filter
    /// rejects its identifier and the positive filters accept it at `now`; the positive
    /// filters are only asked where no negative one rejects. Anything else is dropped.
    pub fn on_can_rx(&mut self, item: ComItem, now: TInstant) -> (r: Option<ComItem>)
        ensures
            final(self).nview() == old(self).nview(),
            match item {
                ComItem::ReceivedFrame(f) => {
                    let id = f@.ident();
                    if nfilters_check(old(self).nview(), id) {
                        r is None && final(self).pview() == old(self).pview()
                    } else {
                        let (ok, ps) = accepts(old(self).pview(), id, now);
                        &&& r == (if ok {
                            Some(item)
                        } else {
                            None
                        })
                        &&& final(self).pview() == ps
                    }
                },
                _ => r is None && final(self).pview() == old(self).pview(),
            },
    {
        match item {
            ComItem::ReceivedFrame(f) => {
                let id = f.id();
                if !self.nfilters.check(id) && self.pfilters.check(id, now) {
                    Some(item)
                } else {
                    None
                }
            },
            _ => None,
        }
    }

    /// A datagram from the host, and what is to be done about it.
    #[verifier::spinoff_prover]
    pub fn on_tcp_rx(&mut self, item: ComItem) -> (r: Vec<Action>)
        ensures
            match item {
                ComItem::ClearFilters => {
                    &&& r@.len() == 0
                    &&& final(self).pview() == Seq::<(PrePFilter, Seq<(u32, u32)>)>::empty()
                    &&& final(self).nview() == Seq::<NFilter>::empty()
                },
                ComItem::Echo | ComItem::Error(_) => {
                    &&& r@ == seq![Action::ToHost(item)]
                    &&& final(self).pview() == old(self).pview()
                    &&& final(self).nview() == old(self).nview()
                },
                ComItem::FrameToSend(_) => {
                    &&& r@ == seq![Action::ToCan(item)]
                    &&& final(self).pview() == old(self).pview()
                    &&& final(self).nview() == old(self).nview()
                },
                ComItem::NFilter(f) => {
                    &&& final(self).pview() == old(self).pview()
                    &&& if old(self).nview().len() < CAP {
                        r@.len() == 0 && final(self).nview() == old(self).nview().push(f)
                    } else {
                        r@ == seq![Action::ToHost(ComItem::Error(Error::BufIsFull))]
                            && final(self).nview() == old(self).nview()
                    }
                },
                ComItem::PFilter(f) => {
                    &&& final(self).nview() == old(self).nview()
                    &&& if old(self).pview().len() < CAP {
                        r@.len() == 0 && final(self).pview() == old(self).pview().push(
                            (f, Seq::new(16, |i: int| (crate::filter::EMPTY_ID, 0u32))),
                        )
                    } else {
                        r@ == seq![Action::ToHost(ComItem::Error(Error::BufIsFull))]
                            && final(self).pview() == old(self).pview()
                    }
                },
                ComItem::Save => {
                    &&& final(self).pview() == old(self).pview()
                    &&& final(self).nview() == old(self).nview()
                    &&& r@.len() == 1
                    &&& match image_result(pre_items(old(self).pview(), old(self).nview())) {
                        Ok(img) => r@[0] is Store && r@[0]->Store_0@ == img,
                        Err(e) => r@[0] == Action::ToHost(ComItem::Error(e)),
                    }
                },
                ComItem::ShowFilters => {
                    &&& final(self).pview() == old(self).pview()
                    &&& final(self).nview() == old(self).nview()
                    &&& r@.len() == old(self).nview().len() + old(self).pview().len()
                    &&& forall|i: int|
                        0 <= i < old(self).nview().len() ==> #[trigger] r@[i] == Action::ToHost(
                            ComItem::NFilter(old(self).nview()[i]),
                        )
                    &&& forall|i: int|
                        0 <= i < old(self).pview().len() ==> #[trigger] r@[old(self).nview().len()
                            + i] == Action::ToHost(ComItem::PFilter(old(self).pview()[i].0))
                },
                ComItem::End | ComItem::Magic(_) | ComItem::ReceivedFrame(_) => {
                    &&& r@.len() == 0
                    &&& final(self).pview() == old(self).pview()
                    &&& final(self).nview() == old(self).nview()
                },
            },
    {
        let mut out: Vec<Action> = Vec::new();
        match item {
            ComItem::ClearFilters => {
                self.pfilters.clear();
                self.nfilters.clear();
            },
            ComItem::Echo | ComItem::Error(_) => {
                out.push(Action::ToHost(item));
            },
            ComItem::FrameToSend(_) => {
                out.push(Action::ToCan(item));
            },
            ComItem::NFilter(f) => {
                match self.nfilters.add(f) {
                    Ok(()) => {},
                    Err(e) => {
                        out.push(Action::ToHost(ComItem::Error(e)));
                    },
                }
            },
            ComItem::PFilter(f) => {
                match self.pfilters.add(f) {
                    Ok(()) => {},
                    Err(e) => {
                        out.push(Action::ToHost(ComItem::Error(e)));
                    },
                }
            },
            ComItem::Save => {
                match save_config(&self.pfilters, &self.nfilters) {
                    Ok(img) => out.push(Action::Store(img)),
                    Err(e) => out.push(Action::ToHost(ComItem::Error(e))),
                }
            },
            ComItem::ShowFilters => {
                let mut i: usize = 0;
                while i < self.nfilters.len()
                    invariant
                        self.nview() == old(self).nview(),
                        self.pview() == old(self).pview(),
                        i <= self.nview().len(),
                        out@.len() == i,
                        forall|k: int|
                            0 <= k < i ==> #[trigger] out@[k] == Action::ToHost(
                                ComItem::NFilter(self.nview()[k]),
                            ),
                    decreases self.nview().len() - i,
                {
                    out.push(Action::ToHost(ComItem::NFilter(self.nfilters.get(i))));
                    i += 1;
                }
                let n = self.nfilters.len();
                let mut j: usize = 0;
                while j < self.pfilters.len()
                    invariant
                        self.nview() == old(self).nview(),
                        self.pview() == old(self).pview(),
                        n == self.nview().len(),
                        j <= self.pview().len(),
                        out@.len() == n + j,
                        forall|k: int|
                            0 <= k < n ==> #[trigger] out@[k] == Action::ToHost(
                                ComItem::NFilter(self.nview()[k]),
                            ),
                        forall|k: int|
                            0 <= k < j ==> #[trigger] out@[n + k] == Action::ToHost(
                                ComItem::PFilter(self.pview()[k].0),
                            ),
                    decreases self.pview().len() - j,
                {
                    out.push(Action::ToHost(ComItem::PFilter(self.pfilters.get_pre(j))));
                    proof {
                        assert(out@[n + j] == Action::ToHost(ComItem::PFilter(self.pview()[j as int].0)));
                    }
                    j += 1;
                }
            },
            ComItem::End | ComItem::Magic(_) | ComItem::ReceivedFrame(_) => {},
        }
        out
    }
}

impl<const CAP: usize> Default for Router<CAP> {
    fn default() -> (r: Self)
        ensures
            r.pview() == Seq::<(PrePFilter, Seq<(u32, u32)>)>::empty(),
            r.nview() == Seq::<NFilter>::empty(),
    {
        Router::new()
    }
}

/// With no filter at all, as after `ClearFilters`, every frame is forwarded, whatever its
/// identifier and whenever it comes, and nothing is recorded.
pub proof fn lemma_no_filters_forward_all(id: Id, now: TInstant)
    ensures
        !nfilters_check(Seq::<NFilter>::empty(), id),
        accepts(Seq::<(PrePFilter, Seq<(u32, u32)>)>::empty(), id, now) == (
            true,
            Seq::<(PrePFilter, Seq<(u32, u32)>)>::empty(),
        ),
{
}

} // verus!
