//! The stored configuration: a block of 128 bytes that holds the `$magic` datagram, the
//! filters as datagrams, and `$end`.
use vstd::prelude::*;
use vstd::string::*;

use crate::codec::{bytes_eq, hex_bytes, DeSer, DeSerState};
use crate::com_item::{
    item_parse, item_wire, lemma_item_framed, lemma_item_round_trip, magic_bytes, round_trippable,
    ComItem, Item,
};
use crate::ingress::framed;
use crate::pattern::masks_ok;
use crate::error::Error;
use crate::filter::{NFilter, NFilters, PFilters, PrePFilter};
use crate::rx_buffer::{first_of, lemma_first_of_at, lemma_rx_read_ok, rx_read, RxBuffer};

verus! {

broadcast use vstd::string::is_ascii_spec_bytes;

/// The size of the stored block.
pub const CONF_BUFFER_SIZE: usize = 128;

/// The largest datagram that goes into the block.
pub const ITEM_SIZE: usize = 50;

pub open spec fn zero_fill(n: int) -> Seq<u8> {
    Seq::new(n as nat, |i: int| 0u8)
}

/// The datagrams that store a set of filters: the positive ones, then the negative ones,
/// each in the order in which they were added.
pub open spec fn pre_items(ps: Seq<(PrePFilter, Seq<(u32, u32)>)>, ns: Seq<NFilter>) -> Seq<Item> {
    ps.map_values(|p: (PrePFilter, Seq<(u32, u32)>)| Item::PFilter(p.0)) + ns.map_values(
        |n: NFilter| Item::NFilter(n),
    )
}

/// Appends each datagram to `acc`: one over 50 bytes gives `SerializeError`, one that does
/// not fit in the block gives `BufIsFull`.
pub open spec fn append_items(items: Seq<Item>, acc: Seq<u8>) -> Result<Seq<u8>, Error>
    decreases items.len(),
{
    if items.len() == 0 {
        Ok(acc)
    } else {
        let w = item_wire(items[0]);
        if w.len() > ITEM_SIZE {
            Err(Error::SerializeError)
        } else if acc.len() + w.len() > CONF_BUFFER_SIZE {
            Err(Error::BufIsFull)
        } else {
            append_items(items.drop_first(), acc + w)
        }
    }
}

/// The block that stores `items`: `$magic`, the datagrams and `$end`, then zeros.
pub open spec fn image_result(items: Seq<Item>) -> Result<Seq<u8>, Error> {
    match append_items(items.push(Item::End), item_wire(Item::Magic(true))) {
        Ok(b) => Ok(b + zero_fill(CONF_BUFFER_SIZE - b.len())),
        Err(e) => Err(e),
    }
}

pub proof fn lemma_hex_bytes_len(s: Seq<u8>)
    ensures
        hex_bytes(s).len() == 2 * s.len(),
    decreases s.len(),
{
    if s.len() > 0 {
        lemma_hex_bytes_len(s.drop_last());
    }
}

/// The start sentinel is 24 bytes long.
pub proof fn lemma_magic_len()
    ensures
        item_wire(Item::Magic(true)).len() == 24,
{
    reveal_strlit("$magic");
    assert(is_ascii("$magic"));
    lemma_hex_bytes_len(magic_bytes());
}

/// A block being filled with datagrams.
pub struct ConfigBuffer {
    buf: RxBuffer<CONF_BUFFER_SIZE>,
}

impl View for ConfigBuffer {
    type V = Seq<u8>;

    /// The datagrams written so far.
    closed spec fn view(&self) -> Seq<u8> {
        self.buf@.bytes.subrange(0, self.buf@.head)
    }
}

impl ConfigBuffer {
    pub closed spec fn wf(&self) -> bool {
        &&& self.buf.wf()
        &&& self.buf@.tail == 0
        &&& self.buf@.bytes == self@ + zero_fill(CONF_BUFFER_SIZE - self@.len())
    }

    /// A block that starts with the `$magic` datagram.
    pub fn new() -> (r: Self)
        ensures
            r.wf(),
            r@ == item_wire(Item::Magic(true)),
    {
        let mut buf = RxBuffer::<CONF_BUFFER_SIZE>::new();
        proof {
            lemma_magic_len();
            assert(buf@.bytes =~= zero_fill(128));
        }
        let magic = ComItem::Magic(true).serialize();
        match magic {
            Ok(ser) => {
                let _ = buf.write(&ser);
            },
            Err(_) => {},
        }
        let r = ConfigBuffer { buf };
        proof {
            assert(r@ =~= item_wire(Item::Magic(true)));
            assert(r.buf@.bytes =~= r@ + zero_fill(CONF_BUFFER_SIZE - r@.len()));
        }
        r
    }

    /// Appends a datagram: one over 50 bytes gives `SerializeError`, one that does not fit
    /// gives `BufIsFull`; either way the block is left as it is.
    pub fn add_item(&mut self, item: &ComItem) -> (r: Result<(), Error>)
        requires
            old(self).wf(),
        ensures
            final(self).wf(),
            ({
                let w = item_wire(item@);
                if w.len() > ITEM_SIZE {
                    r == Err::<(), Error>(Error::SerializeError) && final(self)@ == old(self)@
                } else if old(self)@.len() + w.len() > CONF_BUFFER_SIZE {
                    r == Err::<(), Error>(Error::BufIsFull) && final(self)@ == old(self)@
                } else {
                    r is Ok && final(self)@ == old(self)@ + w
                }
            }),
    {
        let ser = item.serialize()?;
        let ghost before = self.buf@.bytes;
        let r = self.buf.write(&ser);
        proof {
            if r is Ok {
                assert(self@ =~= old(self)@ + item_wire(item@));
                assert(self.buf@.bytes =~= self@ + zero_fill(CONF_BUFFER_SIZE - self@.len()));
            }
        }
        r
    }

    /// Appends the `$end` datagram.
    pub fn finish(&mut self) -> (r: Result<(), Error>)
        requires
            old(self).wf(),
        ensures
            final(self).wf(),
            old(self)@.len() + 5 > CONF_BUFFER_SIZE ==> r == Err::<(), Error>(Error::BufIsFull)
                && final(self)@ == old(self)@,
            old(self)@.len() + 5 <= CONF_BUFFER_SIZE ==> r is Ok && final(self)@ == old(self)@
                + item_wire(Item::End),
    {
        proof {
            reveal_strlit("$end");
            assert(is_ascii("$end"));
        }
        self.add_item(&ComItem::End)
    }

    /// The whole block, as it is to be stored.
    pub fn block(&self) -> (r: Vec<u8>)
        requires
            self.wf(),
        ensures
            r@ == self@ + zero_fill(CONF_BUFFER_SIZE - self@.len()),
    {
        self.buf.block()
    }
}

impl Default for ConfigBuffer {
    fn default() -> (r: Self)
        ensures
            r.wf(),
            r@ == item_wire(Item::Magic(true)),
    {
        ConfigBuffer::new()
    }
}

/// The block that stores the filters: positive ones, then negative ones, in the order in
/// which they were added.
#[verifier::spinoff_prover]
pub fn save_config<const CAP: usize>(pfilters: &PFilters<CAP>, nfilters: &NFilters<CAP>) -> (r:
    Result<Vec<u8>, Error>)
    ensures
        match image_result(pre_items(pfilters@, nfilters@)) {
            Ok(img) => r is Ok && r->Ok_0@ == img,
            Err(e) => r is Err && r->Err_0 == e,
        },
{
    let ghost items = pre_items(pfilters@, nfilters@).push(Item::End);
    let ghost np = pfilters@.len();
    let mut buf = ConfigBuffer::new();
    let mut i: usize = 0;
    assert(items.subrange(0, items.len() as int) =~= items);
    while i < pfilters.len()
        invariant
            buf.wf(),
            np == pfilters@.len(),
            items == pre_items(pfilters@, nfilters@).push(Item::End),
            i <= np,
            append_items(items, item_wire(Item::Magic(true))) == append_items(
                items.subrange(i as int, items.len() as int),
                buf@,
            ),
        decreases np - i,
    {
        let item = ComItem::PFilter(pfilters.get_pre(i));
        let ghost rest = items.subrange(i as int, items.len() as int);
        assert(rest[0] == item@);
        assert(rest.drop_first() =~= items.subrange(i + 1, items.len() as int));
        buf.add_item(&item)?;
        i += 1;
    }
    let mut j: usize = 0;
    while j < nfilters.len()
        invariant
            buf.wf(),
            np == pfilters@.len(),
            items == pre_items(pfilters@, nfilters@).push(Item::End),
            j <= nfilters@.len(),
            append_items(items, item_wire(Item::Magic(true))) == append_items(
                items.subrange(np + j, items.len() as int),
                buf@,
            ),
        decreases nfilters@.len() - j,
    {
        let item = ComItem::NFilter(nfilters.get(j));
        let ghost rest = items.subrange(np + j, items.len() as int);
        assert(rest[0] == item@);
        assert(rest.drop_first() =~= items.subrange(np + j + 1, items.len() as int));
        buf.add_item(&item)?;
        j += 1;
    }
    let ghost rest = items.subrange(np + j, items.len() as int);
    proof {
        reveal_strlit("$end");
        assert(is_ascii("$end"));
        assert(rest[0] == Item::End);
        assert(rest.drop_first() =~= Seq::<Item>::empty());
        assert(item_wire(Item::End).len() == 5);
    }
    let ghost acc = buf@;
    buf.finish()?;
    proof {
        let w = item_wire(Item::End);
        assert(append_items(rest, acc) == append_items(rest.drop_first(), acc + w));
        assert(append_items(Seq::<Item>::empty(), acc + w) == Ok::<Seq<u8>, Error>(acc + w));
    }
    Ok(buf.block())
}

/// The datagram that `p` holds, where the start sentinel has been seen and it parses.
pub open spec fn take_item(p: Seq<u8>, latch: bool) -> Seq<Item> {
    if latch {
        match item_parse(DeSerState::fresh(p)).0 {
            Ok(it) => seq![it],
            Err(_) => Seq::empty(),
        }
    } else {
        Seq::empty()
    }
}

/// The datagrams that loading a stored block yields, starting from `tail`: nothing is taken
/// before the `$magic` datagram; from it on, each datagram that parses is taken, up to
/// `$end` or the first datagram that cannot be framed.
pub open spec fn load_spec(bytes: Seq<u8>, head: int, tail: int, latch: bool) -> Seq<Item>
    decreases head - tail,
{
    let (r, t, p) = rx_read(bytes, CONF_BUFFER_SIZE as nat, head, tail, ITEM_SIZE as int);
    if r is Err {
        Seq::empty()
    } else {
        let latch2 = latch || p == item_wire(Item::Magic(true));
        let here = take_item(p, latch2);
        if p == item_wire(Item::End) || !(tail < t <= head) {
            here
        } else {
            here + load_spec(bytes, head, t, latch2)
        }
    }
}

/// The datagrams of a stored block, read from its start to its end.
#[verifier::rlimit(50)]
#[verifier::spinoff_prover]
pub fn load_items(buf: &mut RxBuffer<CONF_BUFFER_SIZE>) -> (r: Vec<ComItem>)
    requires
        old(buf).wf(),
    ensures
        final(buf).wf(),
        r@.map_values(|c: ComItem| c@) == load_spec(
            old(buf)@.bytes,
            old(buf)@.head,
            old(buf)@.tail,
            false,
        ),
{
    let magic = ComItem::Magic(true).wire_bytes();
    let end = ComItem::End.wire_bytes();
    let ghost b0 = buf@;
    let mut out: Vec<ComItem> = Vec::new();
    let mut latch = false;
    let mut go_on = true;
    proof {
        assert(out@.map_values(|c: ComItem| c@) + load_spec(b0.bytes, b0.head, b0.tail, false)
            =~= load_spec(b0.bytes, b0.head, b0.tail, false));
    }
    while go_on
        invariant
            buf.wf(),
            buf@.bytes == b0.bytes,
            buf@.head == b0.head,
            magic@ == item_wire(Item::Magic(true)),
            end@ == item_wire(Item::End),
            load_spec(b0.bytes, b0.head, b0.tail, false) == out@.map_values(|c: ComItem| c@) + (
            if go_on {
                load_spec(b0.bytes, b0.head, buf@.tail, latch)
            } else {
                Seq::empty()
            }),
        decreases (if go_on { buf@.head - buf@.tail + 1 } else { 0int }),
    {
        let ghost t0 = buf@.tail;
        let ghost spec_here = load_spec(b0.bytes, b0.head, t0, latch);
        let ghost before = out@.map_values(|c: ComItem| c@);
        let mut de = DeSer::<ITEM_SIZE>::new();
        match buf.read(&mut de) {
            Ok(()) => {
                proof {
                    lemma_rx_read_ok(b0.bytes, CONF_BUFFER_SIZE as nat, b0.head, t0, ITEM_SIZE as int);
                }
                let ghost p = de@.bytes;
                assert(p =~= Seq::<u8>::empty() + p);
                let stop = bytes_eq(de.as_slice(), end.as_slice());
                if bytes_eq(de.as_slice(), magic.as_slice()) {
                    latch = true;
                }
                let ghost here: Seq<Item> = take_item(p, latch);
                if latch {
                    match ComItem::deserialize(&mut de) {
                        Ok(item) => {
                            out.push(item);
                        },
                        Err(_) => {},
                    }
                }
                assert(out@.map_values(|c: ComItem| c@) =~= before + here);
                if stop {
                    go_on = false;
                }
                proof {
                    if go_on {
                        assert(spec_here == here + load_spec(b0.bytes, b0.head, buf@.tail, latch));
                    } else {
                        assert(spec_here == here);
                    }
                    assert(out@.map_values(|c: ComItem| c@) + (if go_on {
                        load_spec(b0.bytes, b0.head, buf@.tail, latch)
                    } else {
                        Seq::empty()
                    }) =~= before + spec_here);
                }
            },
            Err(_) => {
                go_on = false;
                proof {
                    assert(spec_here == Seq::<Item>::empty());
                    assert(before + Seq::<Item>::empty() =~= before);
                }
            },
        }
    }
    proof {
        assert(out@.map_values(|c: ComItem| c@) + Seq::<Item>::empty() =~= out@.map_values(
            |c: ComItem| c@,
        ));
    }
    out
}

/// The wire forms of `items`, one after another.
pub open spec fn wires(items: Seq<Item>) -> Seq<u8>
    decreases items.len(),
{
    if items.len() == 0 {
        Seq::empty()
    } else {
        item_wire(items[0]) + wires(items.drop_first())
    }
}

/// Appending that succeeds appends every wire form, each at most 50 bytes, within the block.
proof fn lemma_append_items(items: Seq<Item>, acc: Seq<u8>)
    requires
        append_items(items, acc) is Ok,
        acc.len() <= CONF_BUFFER_SIZE,
    ensures
        append_items(items, acc) == Ok::<Seq<u8>, Error>(acc + wires(items)),
        acc.len() + wires(items).len() <= CONF_BUFFER_SIZE,
        forall|j: int| 0 <= j < items.len() ==> #[trigger] item_wire(items[j]).len() <= ITEM_SIZE,
    decreases items.len(),
{
    if items.len() == 0 {
        assert(acc + Seq::<u8>::empty() =~= acc);
    } else {
        let w = item_wire(items[0]);
        let rest = items.drop_first();
        lemma_append_items(rest, acc + w);
        assert(acc + w + wires(rest) =~= acc + wires(items));
        assert forall|j: int| 0 <= j < items.len() implies #[trigger] item_wire(items[j]).len()
            <= ITEM_SIZE by {
            if j > 0 {
                assert(items[j] == rest[j - 1]);
            }
        }
    }
}

/// A whole datagram at `off` is taken whole.
proof fn lemma_rx_framed(bytes: Seq<u8>, off: int, d: Seq<u8>)
    requires
        0 <= off,
        off + d.len() <= bytes.len(),
        bytes.subrange(off, off + d.len()) == d,
        framed(d),
    ensures
        rx_read(bytes, CONF_BUFFER_SIZE as nat, bytes.len() as int, off, ITEM_SIZE as int) == (
            Ok::<(), Error>(()),
            off + d.len(),
            d,
        ),
{
    let n = d.len() as int;
    assert forall|j: int| off <= j < off + n - 1 implies bytes[j] != '\n' as u8 by {
        assert(bytes[j] == bytes.subrange(off, off + n)[j - off]);
    }
    assert(bytes[off + n - 1] == bytes.subrange(off, off + n)[n - 1]);
    assert(bytes[off] == bytes.subrange(off, off + n)[0]);
    lemma_first_of_at(bytes, off, bytes.len() as int, '\n' as u8, off + n - 1);
    assert(first_of(bytes, off, off + n, '$' as u8) == off);
}

/// From `off` on, a block that holds the wire forms of `items` and then `$end` loads as
/// `items` and `End`, once the start sentinel has been seen.
#[verifier::spinoff_prover]
#[verifier::rlimit(100)]
proof fn lemma_load_from(bytes: Seq<u8>, items: Seq<Item>, off: int)
    requires
        bytes.len() == CONF_BUFFER_SIZE,
        0 < off,
        off + wires(items.push(Item::End)).len() <= bytes.len(),
        bytes.subrange(off, off + wires(items.push(Item::End)).len()) == wires(
            items.push(Item::End),
        ),
        forall|j: int| 0 <= j < items.len() ==> round_trippable(#[trigger] items[j]) && items[j]
            != Item::End,
        forall|j: int|
            0 <= j < items.push(Item::End).len() ==> #[trigger] item_wire(
                items.push(Item::End)[j],
            ).len() <= ITEM_SIZE,
    ensures
        load_spec(bytes, CONF_BUFFER_SIZE as int, off, true) == items.push(
            Item::End,
        ),
    decreases items.len(),
{
    let all = items.push(Item::End);
    let it0 = all[0];
    let d = item_wire(it0);
    let rest = all.drop_first();
    assert(wires(all) == d + wires(rest));
    assert(item_wire(all[0]).len() <= ITEM_SIZE);
    if items.len() > 0 {
        assert(it0 == items[0]);
        assert(round_trippable(items[0]));
    }
    lemma_item_framed(it0);
    lemma_item_round_trip(it0);
    assert(bytes.subrange(off, off + d.len()) =~= d) by {
        assert forall|j: int| 0 <= j < d.len() implies bytes.subrange(off, off + d.len())[j]
            == d[j] by {
            assert(bytes[off + j] == bytes.subrange(off, off + wires(all).len())[j]);
        }
    }
    lemma_rx_framed(bytes, off, d);
    assert(crate::config::take_item(d, true) == seq![it0]);
    if items.len() == 0 {
        assert(it0 == Item::End);
        assert(seq![it0] =~= all);
    } else {
        lemma_item_round_trip(Item::End);
        assert(d != item_wire(Item::End));
        let items2 = items.drop_first();
        assert(rest =~= items2.push(Item::End));
        assert(bytes.subrange(off + d.len(), off + d.len() + wires(rest).len()) =~= wires(rest))
            by {
            assert forall|j: int| 0 <= j < wires(rest).len() implies bytes.subrange(
                off + d.len(),
                off + d.len() + wires(rest).len(),
            )[j] == wires(rest)[j] by {
                assert(bytes[off + d.len() + j] == bytes.subrange(off, off + wires(all).len())[d.len()
                    + j]);
            }
        }
        assert forall|j: int| 0 <= j < items2.len() implies round_trippable(#[trigger] items2[j])
            && items2[j] != Item::End by {
            assert(items2[j] == items[j + 1]);
        }
        assert forall|j: int| 0 <= j < items2.push(Item::End).len() implies #[trigger] item_wire(
            items2.push(Item::End)[j],
        ).len() <= ITEM_SIZE by {
            assert(items2.push(Item::End)[j] == all[j + 1]);
        }
        lemma_load_from(bytes, items2, off + d.len());
        assert(seq![it0] + items2.push(Item::End) =~= all);
    }
}

/// Saving a set of filters and loading the stored block gives back the start sentinel,
/// the positive filters, then the negative ones, each as it was stored, and the end.
#[verifier::spinoff_prover]
#[verifier::rlimit(100)]
pub proof fn lemma_save_reload(
    ps: Seq<(PrePFilter, Seq<(u32, u32)>)>,
    ns: Seq<NFilter>,
)
    requires
        forall|i: int| 0 <= i < ps.len() ==> masks_ok(#[trigger] ps[i].0.extended, ps[i].0.ones, ps[i].0.zeros),
        forall|i: int| 0 <= i < ns.len() ==> masks_ok(#[trigger] ns[i].extended, ns[i].ones, ns[i].zeros),
        image_result(pre_items(ps, ns)) is Ok,
    ensures
        load_spec(
            image_result(pre_items(ps, ns))->Ok_0,
            CONF_BUFFER_SIZE as int,
            0,
            false,
        ) == seq![Item::Magic(true)] + pre_items(ps, ns).push(Item::End),
{
    let items = pre_items(ps, ns);
    let all = items.push(Item::End);
    let m = item_wire(Item::Magic(true));
    lemma_magic_len();
    lemma_append_items(all, m);
    let b = m + wires(all);
    let img = b + zero_fill(CONF_BUFFER_SIZE - b.len());
    assert(image_result(items) == Ok::<Seq<u8>, Error>(img));
    assert forall|j: int| 0 <= j < items.len() implies round_trippable(#[trigger] items[j])
        && items[j] != Item::End by {
        if j < ps.len() {
            assert(items[j] == Item::PFilter(ps[j].0));
        } else {
            assert(items[j] == Item::NFilter(ns[j - ps.len()]));
        }
    }
    lemma_item_framed(Item::Magic(true));
    lemma_item_round_trip(Item::Magic(true));
    lemma_item_round_trip(Item::End);
    assert(img.subrange(0, m.len() as int) =~= m);
    lemma_rx_framed(img, 0, m);
    assert(take_item(m, true) == seq![Item::Magic(true)]);
    assert(m != item_wire(Item::End));
    assert(img.subrange(m.len() as int, (m.len() + wires(all).len()) as int) =~= wires(all));
    lemma_load_from(img, items, m.len() as int);
}

} // verus!
