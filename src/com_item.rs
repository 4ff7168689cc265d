//! The datagrams of the bridge protocol: `$<tag>[,<field>...]\n`.
use vstd::prelude::*;
use vstd::string::*;

use crate::can_frame::{frame_parse, CanFrame, Frame};
use crate::can_frame::lemma_frame_round_trip;
use crate::codec::{
    bytes_eq, dec_digits, hex_bytes, is_sep, lemma_dec_digits, lemma_hex_bytes, lemma_take_field,
    lit, no_sep, parse_hex_bytes, push_all, DeSer, DeSerState, Ser,
};
use crate::error::lemma_error_name_round_trip;
use crate::pattern::{emit_pattern, is_pattern_byte, lemma_emit_parse, masks_ok};
use crate::error::Error;
use crate::filter::{nfilter_parse, nfilter_wire, pfilter_wire, prepfilter_parse, NFilter, PrePFilter};

verus! {

broadcast use vstd::string::is_ascii_spec_bytes;

/// The eight bytes that mark the start of a stored configuration.
pub open spec fn magic_bytes() -> Seq<u8> {
    seq![0x67u8, 0xa3u8, 0x52u8, 0x84u8, 0xe6u8, 0x2au8, 0x4bu8, 0x25u8]
}

/// The payload of a `$magic` datagram.
pub open spec fn magic_wire() -> Seq<u8> {
    seq![',' as u8] + hex_bytes(magic_bytes())
}

/// What `Magic::deserialize` returns on a reader state, and the state after it.
pub open spec fn magic_parse(st: DeSerState) -> (Result<bool, Error>, DeSerState) {
    st.read(
        |s: Seq<u8>|
            match parse_hex_bytes(s) {
                Ok(v) => if v == magic_bytes() {
                    Ok(true)
                } else {
                    Err(Error::MagicNotFound)
                },
                Err(e) => Err(e),
            },
    )
}

/// The start sentinel of a stored configuration.
pub struct Magic {}

impl Magic {
    fn magic() -> (r: [u8; 8])
        ensures
            r@ == magic_bytes(),
    {
        let r: [u8; 8] = [0x67, 0xa3, 0x52, 0x84, 0xe6, 0x2a, 0x4b, 0x25];
        assert(r@ =~= magic_bytes());
        r
    }

    /// Reads the sentinel's hex field; any other bytes give `MagicNotFound`.
    pub fn deserialize<const CAP: usize>(deser: &mut DeSer<CAP>) -> (r: Result<bool, Error>)
        ensures
            (r, final(deser)@) == magic_parse(old(deser)@),
    {
        let v = deser.get_slice_hex()?;
        let m = Self::magic();
        if bytes_eq(v.as_slice(), m.as_slice()) {
            Ok(true)
        } else {
            Err(Error::MagicNotFound)
        }
    }

    /// Appends `,<magic hex>`.
    pub fn serialize<const CAP: usize>(ser: &mut Ser<CAP>) -> (r: Result<(), Error>)
        ensures
            Ser::<CAP>::appended(old(ser)@, final(ser)@, magic_wire(), r),
    {
        let w = Self::wire_bytes();
        ser.add_slice(w.as_slice())
    }

    pub fn wire_bytes() -> (w: Vec<u8>)
        ensures
            w@ == magic_wire(),
    {
        let m = Self::magic();
        let mut w: Vec<u8> = Vec::new();
        w.push(44);
        let mut h = crate::codec::hex_of_bytes(m.as_slice());
        w.append(&mut h);
        w
    }
}

/// A datagram as the library sees it: frames by what they hold.
pub enum Item {
    ClearFilters,
    Echo,
    End,
    Error(Error),
    FrameToSend(Frame),
    Magic(bool),
    NFilter(NFilter),
    PFilter(PrePFilter),
    ReceivedFrame(Frame),
    Save,
    ShowFilters,
}

/// One datagram of the protocol.
#[derive(Clone, Copy, Debug, PartialEq)]
pub enum ComItem {
    /// Host to bridge: clear all filters.
    ClearFilters,
    /// Host and bridge: test the link.
    Echo,
    /// Bridge and flash: end of a stored configuration.
    End,
    /// Bridge to host: an error.
    Error(Error),
    /// Host to bridge: a frame to send on the bus.
    FrameToSend(CanFrame),
    /// Bridge and flash: start of a stored configuration.
    Magic(bool),
    /// Host, bridge and flash: a negative filter.
    NFilter(NFilter),
    /// Host, bridge and flash: a positive filter.
    PFilter(PrePFilter),
    /// Bridge to host: a frame received from the bus.
    ReceivedFrame(CanFrame),
    /// Host to bridge: store the filters in flash.
    Save,
    /// Host to bridge: send the filters back.
    ShowFilters,
}

impl View for ComItem {
    type V = Item;

    open spec fn view(&self) -> Item {
        match *self {
            ComItem::ClearFilters => Item::ClearFilters,
            ComItem::Echo => Item::Echo,
            ComItem::End => Item::End,
            ComItem::Error(e) => Item::Error(e),
            ComItem::FrameToSend(f) => Item::FrameToSend(f@),
            ComItem::Magic(b) => Item::Magic(b),
            ComItem::NFilter(f) => Item::NFilter(f),
            ComItem::PFilter(f) => Item::PFilter(f),
            ComItem::ReceivedFrame(f) => Item::ReceivedFrame(f@),
            ComItem::Save => Item::Save,
            ComItem::ShowFilters => Item::ShowFilters,
        }
    }
}

/// The tag of each kind of datagram.
pub open spec fn tag(it: Item) -> Seq<u8> {
    match it {
        Item::ClearFilters => lit("$clearfilt"),
        Item::Echo => lit("$echo"),
        Item::End => lit("$end"),
        Item::Error(_) => lit("$err"),
        Item::FrameToSend(_) => lit("$fts"),
        Item::Magic(_) => lit("$magic"),
        Item::NFilter(_) => lit("$nfilt"),
        Item::PFilter(_) => lit("$pfilt"),
        Item::ReceivedFrame(_) => lit("$rf"),
        Item::Save => lit("$save"),
        Item::ShowFilters => lit("$filt?"),
    }
}

/// The fields after the tag.
pub open spec fn payload(it: Item) -> Seq<u8> {
    match it {
        Item::Error(e) => e.wire(),
        Item::FrameToSend(f) => f.wire(),
        Item::Magic(_) => magic_wire(),
        Item::NFilter(f) => nfilter_wire(f),
        Item::PFilter(f) => pfilter_wire(f),
        Item::ReceivedFrame(f) => f.wire(),
        _ => Seq::empty(),
    }
}

/// A whole datagram: tag, fields and the terminating newline.
pub open spec fn item_wire(it: Item) -> Seq<u8> {
    tag(it) + payload(it) + seq!['\n' as u8]
}

/// Reads a payload after the tag `t`, and the state after it.
pub open spec fn payload_parse(t: Seq<u8>, st: DeSerState) -> (Result<Item, Error>, DeSerState) {
    if t == lit("$clearfilt") {
        (Ok(Item::ClearFilters), st)
    } else if t == lit("$echo") {
        (Ok(Item::Echo), st)
    } else if t == lit("$end") {
        (Ok(Item::End), st)
    } else if t == lit("$err") {
        let (r, st2) = Error::parse_spec(st);
        (
            match r {
                Ok(e) => Ok(Item::Error(e)),
                Err(x) => Err(x),
            },
            st2,
        )
    } else if t == lit("$fts") {
        let (r, st2) = frame_parse(st);
        (
            match r {
                Ok(f) => Ok(Item::FrameToSend(f)),
                Err(x) => Err(x),
            },
            st2,
        )
    } else if t == lit("$magic") {
        let (r, st2) = magic_parse(st);
        (
            match r {
                Ok(b) => Ok(Item::Magic(b)),
                Err(x) => Err(x),
            },
            st2,
        )
    } else if t == lit("$nfilt") {
        let (r, st2) = nfilter_parse(st);
        (
            match r {
                Ok(f) => Ok(Item::NFilter(f)),
                Err(x) => Err(x),
            },
            st2,
        )
    } else if t == lit("$pfilt") {
        let (r, st2) = prepfilter_parse(st);
        (
            match r {
                Ok(f) => Ok(Item::PFilter(f)),
                Err(x) => Err(x),
            },
            st2,
        )
    } else if t == lit("$rf") {
        let (r, st2) = frame_parse(st);
        (
            match r {
                Ok(f) => Ok(Item::ReceivedFrame(f)),
                Err(x) => Err(x),
            },
            st2,
        )
    } else if t == lit("$save") {
        (Ok(Item::Save), st)
    } else if t == lit("$filt?") {
        (Ok(Item::ShowFilters), st)
    } else {
        (Err(Error::ParseError), st)
    }
}

/// What `ComItem::deserialize` returns on a reader state: the datagram, where its tag is
/// known, its payload parses and its last field ends the line.
pub open spec fn item_parse(st: DeSerState) -> (Result<Item, Error>, DeSerState) {
    match st.take_field() {
        None => (Err(Error::ParseError), st.failed()),
        Some((t, st1)) => {
            let (r, st2) = payload_parse(t, st1);
            match r {
                Err(x) => (Err(x), st2),
                Ok(it) => if st2.end {
                    (Ok(it), st2)
                } else {
                    (Err(Error::ParseError), st2)
                },
            }
        },
    }
}

/// A datagram's tag.
fn tag_bytes(item: &ComItem) -> (r: &'static [u8])
    ensures
        r@ == tag(item@),
{
    match item {
        ComItem::ClearFilters => "$clearfilt".as_bytes(),
        ComItem::Echo => "$echo".as_bytes(),
        ComItem::End => "$end".as_bytes(),
        ComItem::Error(_) => "$err".as_bytes(),
        ComItem::FrameToSend(_) => "$fts".as_bytes(),
        ComItem::Magic(_) => "$magic".as_bytes(),
        ComItem::NFilter(_) => "$nfilt".as_bytes(),
        ComItem::PFilter(_) => "$pfilt".as_bytes(),
        ComItem::ReceivedFrame(_) => "$rf".as_bytes(),
        ComItem::Save => "$save".as_bytes(),
        ComItem::ShowFilters => "$filt?".as_bytes(),
    }
}

impl ComItem {
    /// The whole datagram as bytes.
    pub fn wire_bytes(&self) -> (w: Vec<u8>)
        ensures
            w@ == item_wire(self@),
    {
        let mut w: Vec<u8> = Vec::new();
        push_all(&mut w, tag_bytes(self));
        let mut p: Vec<u8> = match self {
            ComItem::Error(e) => e.wire_bytes(),
            ComItem::FrameToSend(f) => f.wire_bytes(),
            ComItem::Magic(_) => Magic::wire_bytes(),
            ComItem::NFilter(f) => f.wire_bytes(),
            ComItem::PFilter(f) => f.wire_bytes(),
            ComItem::ReceivedFrame(f) => f.wire_bytes(),
            _ => Vec::new(),
        };
        w.append(&mut p);
        w.push(10);
        w
    }

    /// The datagram in a writer of 50 bytes; a longer one gives `SerializeError`.
    pub fn serialize(&self) -> (r: Result<Ser<50>, Error>)
        ensures
            r is Ok <==> item_wire(self@).len() <= 50,
            r is Ok ==> r->Ok_0@ == item_wire(self@),
            r is Err ==> r->Err_0 == Error::SerializeError,
    {
        let w = self.wire_bytes();
        let mut ser = Ser::<50>::new();
        match ser.add_slice(w.as_slice()) {
            Ok(()) => Ok(ser),
            Err(e) => Err(e),
        }
    }

    /// Reads a whole datagram.
    pub fn deserialize<const CAP: usize>(deser: &mut DeSer<CAP>) -> (r: Result<ComItem, Error>)
        ensures
            match item_parse(old(deser)@) {
                (Ok(it), st) => r is Ok && r->Ok_0@ == it && final(deser)@ == st,
                (Err(e), st) => r is Err && r->Err_0 == e && final(deser)@ == st,
            },
    {
        let t = deser.get_slice()?;
        let t = t.as_slice();
        let r = if bytes_eq(t, "$clearfilt".as_bytes()) {
            ComItem::ClearFilters
        } else if bytes_eq(t, "$echo".as_bytes()) {
            ComItem::Echo
        } else if bytes_eq(t, "$end".as_bytes()) {
            ComItem::End
        } else if bytes_eq(t, "$err".as_bytes()) {
            ComItem::Error(Error::deserialize(deser)?)
        } else if bytes_eq(t, "$fts".as_bytes()) {
            ComItem::FrameToSend(CanFrame::deserialize(deser)?)
        } else if bytes_eq(t, "$magic".as_bytes()) {
            ComItem::Magic(Magic::deserialize(deser)?)
        } else if bytes_eq(t, "$nfilt".as_bytes()) {
            ComItem::NFilter(NFilter::deserialize(deser)?)
        } else if bytes_eq(t, "$pfilt".as_bytes()) {
            ComItem::PFilter(PrePFilter::deserialize(deser)?)
        } else if bytes_eq(t, "$rf".as_bytes()) {
            ComItem::ReceivedFrame(CanFrame::deserialize(deser)?)
        } else if bytes_eq(t, "$save".as_bytes()) {
            ComItem::Save
        } else if bytes_eq(t, "$filt?".as_bytes()) {
            ComItem::ShowFilters
        } else {
            return Err(Error::ParseError);
        };
        if deser.is_end() {
            Ok(r)
        } else {
            Err(Error::ParseError)
        }
    }
}

/// The datagrams whose payload survives the wire: the start sentinel as it is sent, frames
/// as the constructors make them, and filters with well-formed masks.
pub open spec fn round_trippable(it: Item) -> bool {
    match it {
        Item::Magic(b) => b,
        Item::FrameToSend(f) => f.canonical(),
        Item::ReceivedFrame(f) => f.canonical(),
        Item::NFilter(n) => masks_ok(n.extended, n.ones, n.zeros),
        Item::PFilter(p) => masks_ok(p.extended, p.ones, p.zeros),
        _ => true,
    }
}

/// Each tag is `$` and bytes that end no field, and the tags tell the kinds apart.
#[verifier::spinoff_prover]
#[verifier::rlimit(100)]
pub proof fn lemma_tags(it: Item)
    ensures
        tag(it).len() >= 1,
        tag(it)[0] == '$' as u8,
        no_sep(tag(it).drop_first()),
        lit("$clearfilt").len() == 10 && lit("$clearfilt")[1] == 'c' as u8,
        lit("$echo").len() == 5 && lit("$echo")[1] == 'e' as u8,
        lit("$end").len() == 4 && lit("$end")[2] == 'n' as u8,
        lit("$err").len() == 4 && lit("$err")[2] == 'r' as u8 && lit("$err")[1] == 'e' as u8,
        lit("$fts").len() == 4 && lit("$fts")[1] == 'f' as u8,
        lit("$magic").len() == 6 && lit("$magic")[1] == 'm' as u8,
        lit("$nfilt").len() == 6 && lit("$nfilt")[1] == 'n' as u8,
        lit("$pfilt").len() == 6 && lit("$pfilt")[1] == 'p' as u8,
        lit("$rf").len() == 3,
        lit("$save").len() == 5 && lit("$save")[1] == 's' as u8,
        lit("$filt?").len() == 6 && lit("$filt?")[1] == 'f' as u8,
        lit("$end")[1] == 'e' as u8,
{
    reveal_strlit("$clearfilt");
    reveal_strlit("$echo");
    reveal_strlit("$end");
    reveal_strlit("$err");
    reveal_strlit("$fts");
    reveal_strlit("$magic");
    reveal_strlit("$nfilt");
    reveal_strlit("$pfilt");
    reveal_strlit("$rf");
    reveal_strlit("$save");
    reveal_strlit("$filt?");
    assert(is_ascii("$clearfilt"));
    assert(is_ascii("$echo"));
    assert(is_ascii("$end"));
    assert(is_ascii("$err"));
    assert(is_ascii("$fts"));
    assert(is_ascii("$magic"));
    assert(is_ascii("$nfilt"));
    assert(is_ascii("$pfilt"));
    assert(is_ascii("$rf"));
    assert(is_ascii("$save"));
    assert(is_ascii("$filt?"));
    let t = tag(it);
    assert forall|i: int| 0 <= i < t.drop_first().len() implies !is_sep(
        #[trigger] t.drop_first()[i],
    ) by {}
}

/// The state after a datagram's tag has been read.
pub open spec fn after_tag(it: Item) -> DeSerState {
    DeSerState { bytes: item_wire(it), head: tag(it).len() as int, end: payload(it).len() == 0 }
}

#[verifier::spinoff_prover]
#[verifier::rlimit(100)]
proof fn lemma_error_payload(it: Item, e: Error)
    requires
        it == Item::Error(e),
    ensures
        Error::parse_spec(after_tag(it)).0 == Ok::<Error, Error>(e),
        Error::parse_spec(after_tag(it)).1.end,
{
    let t = tag(it);
    let c = ',' as u8;
    let nl = seq!['\n' as u8];
    lemma_error_name_round_trip(e);
    assert(item_wire(it) =~= t + seq![c] + e.name() + nl);
    lemma_take_field(t, c, e.name(), nl, false);
    assert((seq![c] + e.name()).drop_first() =~= e.name());
}

#[verifier::spinoff_prover]
#[verifier::rlimit(100)]
proof fn lemma_frame_payload(it: Item, f: Frame)
    requires
        it == Item::FrameToSend(f) || it == Item::ReceivedFrame(f),
        f.canonical(),
    ensures
        frame_parse(after_tag(it)).0 == Ok::<Frame, Error>(f),
        frame_parse(after_tag(it)).1.end,
{
    let t = tag(it);
    let nl = seq!['\n' as u8];
    assert(item_wire(it) =~= t + f.wire() + nl);
    lemma_frame_round_trip(f, t, nl, false);
}

#[verifier::spinoff_prover]
#[verifier::rlimit(100)]
proof fn lemma_magic_payload(it: Item)
    requires
        it == Item::Magic(true),
    ensures
        magic_parse(after_tag(it)).0 == Ok::<bool, Error>(true),
        magic_parse(after_tag(it)).1.end,
{
    let t = tag(it);
    let c = ',' as u8;
    let nl = seq!['\n' as u8];
    let h = hex_bytes(magic_bytes());
    lemma_hex_bytes(magic_bytes());
    assert(item_wire(it) =~= t + seq![c] + h + nl);
    lemma_take_field(t, c, h, nl, false);
    assert((seq![c] + h).drop_first() =~= h);
    assert(parse_hex_bytes(h) == Ok::<Seq<u8>, Error>(magic_bytes()));
}

#[verifier::spinoff_prover]
#[verifier::rlimit(100)]
proof fn lemma_nfilter_payload(it: Item, n: NFilter)
    requires
        it == Item::NFilter(n),
        masks_ok(n.extended, n.ones, n.zeros),
    ensures
        nfilter_parse(after_tag(it)).0 == Ok::<NFilter, Error>(n),
        nfilter_parse(after_tag(it)).1.end,
{
    let t = tag(it);
    let c = ',' as u8;
    let nl = seq!['\n' as u8];
    let p = emit_pattern(n.extended, n.ones, n.zeros);
    lemma_emit_parse(n.extended, n.ones, n.zeros);
    assert forall|i: int| 0 <= i < p.len() implies !is_sep(#[trigger] p[i]) by {
        assert(is_pattern_byte(p[i]));
    }
    assert(item_wire(it) =~= t + seq![c] + p + nl);
    lemma_take_field(t, c, p, nl, false);
    assert((seq![c] + p).drop_first() =~= p);
}

#[verifier::spinoff_prover]
#[verifier::rlimit(100)]
proof fn lemma_pfilter_payload(it: Item, f: PrePFilter)
    requires
        it == Item::PFilter(f),
        masks_ok(f.extended, f.ones, f.zeros),
    ensures
        prepfilter_parse(after_tag(it)).0 == Ok::<PrePFilter, Error>(f),
        prepfilter_parse(after_tag(it)).1.end,
{
    let t = tag(it);
    let c = ',' as u8;
    let nl = seq!['\n' as u8];
    let p = emit_pattern(f.extended, f.ones, f.zeros);
    let d = dec_digits(f.duration as nat);
    lemma_emit_parse(f.extended, f.ones, f.zeros);
    lemma_dec_digits(f.duration as nat);
    assert forall|i: int| 0 <= i < p.len() implies !is_sep(#[trigger] p[i]) by {
        assert(is_pattern_byte(p[i]));
    }
    let t2 = t + seq![c] + d;
    assert(item_wire(it) =~= t + seq![c] + d + (seq![c] + p + nl));
    assert(item_wire(it) =~= t2 + seq![c] + p + nl);
    lemma_take_field(t, c, d, seq![c] + p + nl, false);
    lemma_take_field(t2, c, p, nl, false);
    assert((seq![c] + d).drop_first() =~= d);
    assert((seq![c] + p).drop_first() =~= p);
}

/// The payload of a datagram read back after its tag.
#[verifier::rlimit(100)]
#[verifier::spinoff_prover]
proof fn lemma_payload_round_trip(it: Item)
    requires
        round_trippable(it),
    ensures
        payload_parse(tag(it), after_tag(it)).0 == Ok::<Item, Error>(it),
        payload_parse(tag(it), after_tag(it)).1.end,
{
    lemma_tags(it);
    match it {
        Item::Error(e) => lemma_error_payload(it, e),
        Item::FrameToSend(f) => lemma_frame_payload(it, f),
        Item::ReceivedFrame(f) => lemma_frame_payload(it, f),
        Item::Magic(_) => lemma_magic_payload(it),
        Item::NFilter(n) => lemma_nfilter_payload(it, n),
        Item::PFilter(f) => lemma_pfilter_payload(it, f),
        _ => {},
    }
}

/// Every datagram whose payload survives the wire reads back from its wire form unchanged.
#[verifier::spinoff_prover]
#[verifier::rlimit(100)]
pub proof fn lemma_item_round_trip(it: Item)
    requires
        round_trippable(it),
    ensures
        item_parse(DeSerState::fresh(item_wire(it))).0 == Ok::<Item, Error>(it),
{
    lemma_tags(it);
    let t = tag(it);
    let s = item_wire(it);
    let rest = payload(it) + seq!['\n' as u8];
    assert(s =~= Seq::<u8>::empty() + seq!['$' as u8] + t.drop_first() + rest);
    assert(seq!['$' as u8] + t.drop_first() =~= t);
    if payload(it).len() > 0 {
        assert(payload(it)[0] == ',' as u8) by {
            match it {
                Item::Error(e) => {},
                Item::FrameToSend(f) => {},
                Item::ReceivedFrame(f) => {},
                Item::Magic(_) => {},
                Item::NFilter(n) => {},
                Item::PFilter(p) => {},
                _ => {},
            }
        }
    }
    assert(rest[0] == (if payload(it).len() > 0 { ',' as u8 } else { '\n' as u8 }));
    lemma_take_field(Seq::empty(), '$' as u8, t.drop_first(), rest, false);
    lemma_payload_round_trip(it);
    assert(DeSerState::fresh(s).take_field() == Some((t, after_tag(it))));
}

/// No byte of `s` is a newline.
pub open spec fn no_nl(s: Seq<u8>) -> bool {
    forall|i: int| 0 <= i < s.len() ==> s[i] != '\n' as u8
}

pub proof fn lemma_no_nl_cat(a: Seq<u8>, b: Seq<u8>)
    requires
        no_nl(a),
        no_nl(b),
    ensures
        no_nl(a + b),
{
    assert forall|i: int| 0 <= i < (a + b).len() implies (a + b)[i] != '\n' as u8 by {
        if i < a.len() {
            assert((a + b)[i] == a[i]);
        } else {
            assert((a + b)[i] == b[i - a.len()]);
        }
    }
}

pub proof fn lemma_no_sep_no_nl(a: Seq<u8>)
    requires
        no_sep(a),
    ensures
        no_nl(a),
{
    assert forall|i: int| 0 <= i < a.len() implies a[i] != '\n' as u8 by {
        assert(!is_sep(a[i]));
    }
}

/// A field: a comma and bytes that end no field.
proof fn lemma_field_no_nl(f: Seq<u8>)
    requires
        no_sep(f),
    ensures
        no_nl(seq![',' as u8] + f),
{
    lemma_no_sep_no_nl(f);
    lemma_no_nl_cat(seq![',' as u8], f);
}

/// The payload of a datagram that survives the wire holds no newline.
#[verifier::spinoff_prover]
#[verifier::rlimit(100)]
proof fn lemma_payload_no_nl(it: Item)
    requires
        round_trippable(it),
    ensures
        no_nl(payload(it)),
{
    match it {
        Item::Error(e) => {
            lemma_error_name_round_trip(e);
            lemma_field_no_nl(e.name());
        },
        Item::FrameToSend(f) => lemma_frame_wire_no_nl(f),
        Item::ReceivedFrame(f) => lemma_frame_wire_no_nl(f),
        Item::Magic(_) => {
            lemma_hex_bytes(magic_bytes());
            lemma_field_no_nl(hex_bytes(magic_bytes()));
        },
        Item::NFilter(n) => {
            let p = emit_pattern(n.extended, n.ones, n.zeros);
            lemma_emit_parse(n.extended, n.ones, n.zeros);
            assert forall|i: int| 0 <= i < p.len() implies !is_sep(#[trigger] p[i]) by {
                assert(is_pattern_byte(p[i]));
            }
            lemma_field_no_nl(p);
        },
        Item::PFilter(f) => {
            let p = emit_pattern(f.extended, f.ones, f.zeros);
            let d = dec_digits(f.duration as nat);
            lemma_emit_parse(f.extended, f.ones, f.zeros);
            lemma_dec_digits(f.duration as nat);
            assert forall|i: int| 0 <= i < p.len() implies !is_sep(#[trigger] p[i]) by {
                assert(is_pattern_byte(p[i]));
            }
            lemma_field_no_nl(d);
            lemma_field_no_nl(p);
            lemma_no_nl_cat(seq![',' as u8] + d, seq![',' as u8] + p);
            assert(pfilter_wire(f) =~= (seq![',' as u8] + d) + (seq![',' as u8] + p));
        },
        _ => {
            assert(no_nl(Seq::<u8>::empty()));
        },
    }
}

proof fn lemma_frame_wire_no_nl(f: Frame)
    ensures
        no_nl(f.wire()),
{
    let c = seq![',' as u8];
    let hid = crate::codec::hex_digits(f.id as nat);
    let hinfo = crate::codec::hex_digits(f.info as nat);
    crate::codec::lemma_hex_digits(f.id as nat);
    crate::codec::lemma_hex_digits(f.info as nat);
    lemma_hex_bytes(f.payload());
    let d = if crate::can_frame::info_remote(f.info) {
        Seq::<u8>::empty()
    } else {
        hex_bytes(f.payload())
    };
    assert(no_sep(d));
    lemma_field_no_nl(hid);
    lemma_field_no_nl(hinfo);
    lemma_field_no_nl(d);
    lemma_no_nl_cat(c + hid, c + hinfo);
    lemma_no_nl_cat(c + hid + (c + hinfo), c + d);
    assert(f.wire() =~= c + hid + (c + hinfo) + (c + d));
}

/// The wire form of a datagram that survives the wire, where it is short enough, is one
/// whole datagram: `$` first, its one newline last.
pub proof fn lemma_item_framed(it: Item)
    requires
        round_trippable(it),
        item_wire(it).len() <= crate::config::ITEM_SIZE,
    ensures
        crate::ingress::framed(item_wire(it)),
{
    lemma_tags(it);
    lemma_payload_no_nl(it);
    let t = tag(it);
    lemma_no_sep_no_nl(t.drop_first());
    lemma_no_nl_cat(seq!['$' as u8], t.drop_first());
    assert(seq!['$' as u8] + t.drop_first() =~= t);
    lemma_no_nl_cat(t, payload(it));
    let w = item_wire(it);
    assert forall|i: int| 0 <= i < w.len() - 1 implies w[i] != '\n' as u8 by {
        assert(w[i] == (t + payload(it))[i]);
    }
}

} // verus!
