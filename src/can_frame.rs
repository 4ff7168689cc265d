//! CAN frames: their compact in-memory form and their ASCII wire form.
use vstd::prelude::*;

use crate::codec::{
    hex_bytes, hex_digits, hex_of, hex_of_bytes, is_sep, lemma_hex_bytes, lemma_hex_digits,
    lemma_take_field, parse_hex, parse_hex_bytes, DeSer, DeSerState, Ser,
};
use crate::error::Error;
use crate::filter::Id;

verus! {

/// The length code of an info byte (its low four bits).
pub open spec fn info_dlc(info: u8) -> nat {
    (info % 16) as nat
}

/// The remote bit of an info byte (bit 6).
pub open spec fn info_remote(info: u8) -> bool {
    (info / 64) % 2 == 1
}

/// The extended bit of an info byte (bit 7).
pub open spec fn info_extended(info: u8) -> bool {
    info >= 128
}

/// The info byte of a frame: length code, remote and extended bits.
pub open spec fn make_info(dlc: nat, remote: bool, extended: bool) -> u8 {
    (dlc + (if remote {
        64nat
    } else {
        0nat
    }) + (if extended {
        128nat
    } else {
        0nat
    })) as u8
}

/// What a frame holds: its raw identifier, its info byte and its eight data bytes.
pub struct Frame {
    pub id: u32,
    pub info: u8,
    pub data: Seq<u8>,
}

impl Frame {
    /// The valid data bytes: as many as the length code says, at most eight.
    pub open spec fn payload(self) -> Seq<u8> {
        let n = if info_dlc(self.info) <= 8 {
            info_dlc(self.info)
        } else {
            8
        };
        self.data.subrange(0, n as int)
    }

    /// The identifier of the frame. A frame read from the wire is not held to the width of
    /// its identifier: a standard one keeps its low 16 bits here, so a frame whose standard
    /// identifier is 2^11 or more stands for an identifier that is not `valid`.
    pub open spec fn ident(self) -> Id {
        if info_extended(self.info) {
            Id::Extended(self.id)
        } else {
            Id::Standard(self.id as u16)
        }
    }

    /// The wire form: `,<id hex>,<info hex>,<data hex>`, the data left out of a remote frame.
    pub open spec fn wire(self) -> Seq<u8> {
        seq![',' as u8] + hex_digits(self.id as nat) + seq![',' as u8] + hex_digits(
            self.info as nat,
        ) + seq![',' as u8] + (if info_remote(self.info) {
            Seq::empty()
        } else {
            hex_bytes(self.payload())
        })
    }

    /// A frame as the constructors make it: a data frame's length code is at most eight, and
    /// the data bytes past the valid ones (all of them for a remote frame) are zero.
    pub open spec fn canonical(self) -> bool {
        &&& self.data.len() == 8
        &&& (!info_remote(self.info) ==> info_dlc(self.info) <= 8)
        &&& forall|k: int|
            (if info_remote(self.info) {
                0
            } else {
                info_dlc(self.info) as int
            }) <= k < 8 ==> #[trigger] self.data[k] == 0
    }
}

pub open spec fn zeros(n: nat) -> Seq<u8> {
    Seq::new(n, |i: int| 0u8)
}

/// The frame that the three wire fields stand for: a data frame's bytes must number as its
/// length code says.
pub open spec fn frame_from(id: u32, info_v: u32, bytes: Seq<u8>) -> Result<Frame, Error> {
    let info = info_v as u8;
    if !info_remote(info) && bytes.len() != info_dlc(info) {
        Err(Error::ParseError)
    } else {
        Ok(Frame { id, info, data: bytes + zeros((8 - bytes.len()) as nat) })
    }
}

/// What `CanFrame::deserialize` returns on a reader state, and the state after it.
pub open spec fn frame_parse(st: DeSerState) -> (Result<Frame, Error>, DeSerState) {
    let (a, st1) = st.read(|s: Seq<u8>| parse_hex(s));
    match a {
        Err(e) => (Err(e), st1),
        Ok(id) => {
            let (b, st2) = st1.read(|s: Seq<u8>| parse_hex(s));
            match b {
                Err(e) => (Err(e), st2),
                Ok(info) => {
                    let (c, st3) = st2.read(|s: Seq<u8>| parse_hex_bytes(s));
                    match c {
                        Err(e) => (Err(e), st3),
                        Ok(bytes) => (frame_from(id, info, bytes), st3),
                    }
                },
            }
        },
    }
}

/// A CAN frame: identifier, info byte (length code, remote and extended bits) and data.
#[derive(Clone, Copy, Debug, PartialEq, Eq)]
pub struct CanFrame {
    id: u32,
    info: u8,
    data: [u8; 8],
}

impl View for CanFrame {
    type V = Frame;

    closed spec fn view(&self) -> Frame {
        Frame { id: self.id, info: self.info, data: self.data@ }
    }
}

impl CanFrame {
    /// A data frame; more than eight bytes give none.
    pub fn new(id: Id, data: &[u8]) -> (r: Option<CanFrame>)
        requires
            id.valid(),
        ensures
            data@.len() > 8 ==> r is None,
            data@.len() <= 8 ==> r is Some && r->Some_0@ == (Frame {
                id: id.raw(),
                info: make_info(data@.len(), false, id.is_ext()),
                data: data@ + zeros((8 - data@.len()) as nat),
            }),
            r is Some ==> r->Some_0@.canonical(),
            r is Some ==> r->Some_0@.ident() == id,
    {
        let l = data.len();
        if l > 8 {
            return None;
        }
        let mut d = [0u8; 8];
        let mut i: usize = 0;
        while i < l
            invariant
                l == data@.len(),
                l <= 8,
                i <= l,
                d@.len() == 8,
                forall|k: int| 0 <= k < i ==> d@[k] == data@[k],
                forall|k: int| i <= k < 8 ==> d@[k] == 0,
            decreases l - i,
        {
            d[i] = data[i];
            i += 1;
        }
        let info: u8 = l as u8 + if id.is_extended() { 128 } else { 0 };
        let f = CanFrame { id: id.as_raw(), info, data: d };
        assert(f@.data =~= data@ + zeros((8 - data@.len()) as nat));
        Some(f)
    }

    /// A remote frame; a length code over eight gives none.
    pub fn new_remote(id: Id, dlc: usize) -> (r: Option<CanFrame>)
        requires
            id.valid(),
        ensures
            dlc > 8 ==> r is None,
            dlc <= 8 ==> r is Some && r->Some_0@ == (Frame {
                id: id.raw(),
                info: make_info(dlc as nat, true, id.is_ext()),
                data: zeros(8),
            }),
            r is Some ==> r->Some_0@.canonical(),
            r is Some ==> r->Some_0@.ident() == id,
    {
        if dlc > 8 {
            return None;
        }
        let info: u8 = dlc as u8 + 64 + if id.is_extended() { 128 } else { 0 };
        let f = CanFrame { id: id.as_raw(), info, data: [0u8; 8] };
        assert(f@.data =~= zeros(8));
        Some(f)
    }

    pub fn is_extended(&self) -> (r: bool)
        ensures
            r == info_extended(self@.info),
    {
        self.info >= 128
    }

    pub fn is_remote_frame(&self) -> (r: bool)
        ensures
            r == info_remote(self@.info),
    {
        (self.info / 64) % 2 == 1
    }

    pub fn id(&self) -> (r: Id)
        ensures
            r == self@.ident(),
    {
        if self.info >= 128 {
            Id::Extended(self.id)
        } else {
            Id::Standard(self.id as u16)
        }
    }

    pub fn dlc(&self) -> (r: usize)
        ensures
            r == info_dlc(self@.info),
    {
        (self.info % 16) as usize
    }

    /// The valid data bytes.
    pub fn data(&self) -> (r: Vec<u8>)
        ensures
            r@ == self@.payload(),
    {
        let n: usize = if self.info % 16 <= 8 { (self.info % 16) as usize } else { 8 };
        let mut out: Vec<u8> = Vec::new();
        let mut i: usize = 0;
        while i < n
            invariant
                n <= 8,
                n == (if info_dlc(self@.info) <= 8 { info_dlc(self@.info) } else { 8 }),
                i <= n,
                out@ == self@.data.subrange(0, i as int),
            decreases n - i,
        {
            out.push(self.data[i]);
            i += 1;
            assert(out@ =~= self@.data.subrange(0, i as int));
        }
        out
    }

    /// Reads `,<id hex>,<info hex>,<data hex>`.
    pub fn deserialize<const CAP: usize>(deser: &mut DeSer<CAP>) -> (r: Result<CanFrame, Error>)
        ensures
            match frame_parse(old(deser)@) {
                (Ok(v), st) => r is Ok && r->Ok_0@ == v && final(deser)@ == st,
                (Err(e), st) => r is Err && r->Err_0 == e && final(deser)@ == st,
            },
    {
        let id = deser.get_u32_hex()?;
        let info_v = deser.get_u32_hex()?;
        let info = #[verifier::truncate] (info_v as u8);
        let vec = deser.get_slice_hex()?;
        let remote = (info / 64) % 2 == 1;
        if !remote && vec.len() != (info % 16) as usize {
            return Err(Error::ParseError);
        }
        let mut data = [0u8; 8];
        let mut i: usize = 0;
        while i < vec.len()
            invariant
                vec@.len() <= 8,
                i <= vec@.len(),
                data@.len() == 8,
                forall|k: int| 0 <= k < i ==> data@[k] == vec@[k],
                forall|k: int| i <= k < 8 ==> data@[k] == 0,
            decreases vec@.len() - i,
        {
            data[i] = vec[i];
            i += 1;
        }
        let f = CanFrame { id, info, data };
        assert(f@.data =~= vec@ + zeros((8 - vec@.len()) as nat));
        Ok(f)
    }

    /// The wire form as bytes.
    pub fn wire_bytes(&self) -> (w: Vec<u8>)
        ensures
            w@ == self@.wire(),
    {
        let mut w: Vec<u8> = Vec::new();
        w.push(44);
        let mut a = hex_of(self.id);
        w.append(&mut a);
        w.push(44);
        let mut b = hex_of(self.info as u32);
        w.append(&mut b);
        w.push(44);
        if !self.is_remote_frame() {
            let d = self.data();
            let mut c = hex_of_bytes(d.as_slice());
            w.append(&mut c);
        }
        assert(w@ =~= self@.wire());
        w
    }

    /// Appends `,<id hex>,<info hex>,<data hex>`.
    pub fn serialize<const CAP: usize>(&self, ser: &mut Ser<CAP>) -> (r: Result<(), Error>)
        ensures
            Ser::<CAP>::appended(old(ser)@, final(ser)@, self@.wire(), r),
    {
        let w = self.wire_bytes();
        ser.add_slice(w.as_slice())
    }
}

/// A frame as the constructors make it reads back from its wire form unchanged, bit for
/// bit, whatever precedes it and whichever separator follows it.
#[verifier::spinoff_prover]
#[verifier::rlimit(100)]
pub proof fn lemma_frame_round_trip(f: Frame, pre: Seq<u8>, rest: Seq<u8>, end: bool)
    requires
        f.canonical(),
        rest.len() >= 1,
        is_sep(rest[0]),
    ensures
        ({
            let s = pre + f.wire() + rest;
            frame_parse(DeSerState { bytes: s, head: pre.len() as int, end }) == (
                Ok::<Frame, Error>(f),
                DeSerState {
                    bytes: s,
                    head: (pre.len() + f.wire().len()) as int,
                    end: end || rest[0] == '\n' as u8,
                },
            )
        }),
{
    let c = ',' as u8;
    let hid = hex_digits(f.id as nat);
    let hinfo = hex_digits(f.info as nat);
    let d = if info_remote(f.info) {
        Seq::<u8>::empty()
    } else {
        hex_bytes(f.payload())
    };
    lemma_hex_digits(f.id as nat);
    lemma_hex_digits(f.info as nat);
    lemma_hex_bytes(f.payload());
    let s = pre + f.wire() + rest;
    let pre2 = pre + seq![c] + hid;
    let pre3 = pre2 + seq![c] + hinfo;
    let r1 = seq![c] + hinfo + seq![c] + d + rest;
    let r2 = seq![c] + d + rest;
    assert(f.wire() == seq![c] + hid + seq![c] + hinfo + seq![c] + d);
    assert(s =~= pre + seq![c] + hid + r1) by {
        assert(f.wire() =~= seq![c] + hid + seq![c] + hinfo + seq![c] + d);
    }
    assert(s =~= pre2 + seq![c] + hinfo + r2) by {
        assert(f.wire() =~= seq![c] + hid + seq![c] + hinfo + seq![c] + d);
    }
    assert(s =~= pre3 + seq![c] + d + rest) by {
        assert(f.wire() =~= seq![c] + hid + seq![c] + hinfo + seq![c] + d);
    }
    lemma_take_field(pre, c, hid, r1, end);
    lemma_take_field(pre2, c, hinfo, r2, end);
    lemma_take_field(pre3, c, d, rest, end);
    assert((seq![c] + hid).drop_first() =~= hid);
    assert((seq![c] + hinfo).drop_first() =~= hinfo);
    assert((seq![c] + d).drop_first() =~= d);
    let st0 = DeSerState { bytes: s, head: pre.len() as int, end };
    let st1 = DeSerState { bytes: s, head: (pre.len() + 1 + hid.len()) as int, end };
    let st2 = DeSerState { bytes: s, head: (pre2.len() + 1 + hinfo.len()) as int, end };
    assert(st0.read(|x: Seq<u8>| parse_hex(x)) == (Ok::<u32, Error>(f.id), st1));
    assert(st1.read(|x: Seq<u8>| parse_hex(x)) == (Ok::<u32, Error>(f.info as u32), st2));
    assert(((f.info as u32) as u8) == f.info);
    if info_remote(f.info) {
        assert(parse_hex_bytes(d) == Ok::<Seq<u8>, Error>(Seq::empty()));
        assert(Seq::<u8>::empty() + zeros(8) =~= f.data);
    } else {
        assert(parse_hex_bytes(d) == Ok::<Seq<u8>, Error>(f.payload()));
        assert(f.payload() + zeros((8 - f.payload().len()) as nat) =~= f.data);
    }
}

/// The wire fields of a frame, with the data field holding the bytes `v`.
pub open spec fn fields_wire(id: u32, info: u8, v: Seq<u8>) -> Seq<u8> {
    seq![',' as u8] + hex_digits(id as nat) + seq![',' as u8] + hex_digits(info as nat) + seq![
        ',' as u8,
    ] + hex_bytes(v)
}

/// Reading one field `,<field>` that a separator follows.
#[verifier::spinoff_prover]
proof fn lemma_read_field(pre: Seq<u8>, field: Seq<u8>, rest: Seq<u8>, end: bool)
    requires
        crate::codec::no_sep(field),
        rest.len() >= 1,
        is_sep(rest[0]),
    ensures
        ({
            let s = pre + seq![',' as u8] + field + rest;
            let st = DeSerState { bytes: s, head: pre.len() as int, end };
            let st2 = DeSerState {
                bytes: s,
                head: (pre.len() + 1 + field.len()) as int,
                end: end || rest[0] == '\n' as u8,
            };
            &&& st.read(|x: Seq<u8>| parse_hex(x)) == (parse_hex(field), st2)
            &&& st.read(|x: Seq<u8>| parse_hex_bytes(x)) == (parse_hex_bytes(field), st2)
        }),
{
    lemma_take_field(pre, ',' as u8, field, rest, end);
    assert((seq![',' as u8] + field).drop_first() =~= field);
}

/// Reading the three fields of a frame gives what `frame_from` makes of them.
#[verifier::spinoff_prover]
#[verifier::rlimit(100)]
pub proof fn lemma_frame_fields(id: u32, info: u8, v: Seq<u8>, pre: Seq<u8>, rest: Seq<u8>, end: bool)
    requires
        v.len() <= 8,
        rest.len() >= 1,
        is_sep(rest[0]),
    ensures
        frame_parse(
            DeSerState { bytes: pre + fields_wire(id, info, v) + rest, head: pre.len() as int, end },
        ).0 == frame_from(id, info as u32, v),
{
    let c = ',' as u8;
    let hid = hex_digits(id as nat);
    let hinfo = hex_digits(info as nat);
    let d = hex_bytes(v);
    lemma_hex_digits(id as nat);
    lemma_hex_digits(info as nat);
    lemma_hex_bytes(v);
    let s = pre + fields_wire(id, info, v) + rest;
    let pre2 = pre + seq![c] + hid;
    let pre3 = pre2 + seq![c] + hinfo;
    assert(s =~= pre + seq![c] + hid + (seq![c] + hinfo + seq![c] + d + rest));
    assert(s =~= pre2 + seq![c] + hinfo + (seq![c] + d + rest));
    assert(s =~= pre3 + seq![c] + d + rest);
    lemma_read_field(pre, hid, seq![c] + hinfo + seq![c] + d + rest, end);
    lemma_read_field(pre2, hinfo, seq![c] + d + rest, end);
    lemma_read_field(pre3, d, rest, end);
    assert(parse_hex_bytes(d) == Ok::<Seq<u8>, Error>(v));
}


/// A data frame whose data bytes do not number as its length code says is refused with
/// `ParseError`, whatever precedes it and whichever separator follows it.
pub proof fn lemma_dlc_mismatch_refused(
    id: u32,
    info: u8,
    v: Seq<u8>,
    pre: Seq<u8>,
    rest: Seq<u8>,
    end: bool,
)
    requires
        !info_remote(info),
        v.len() != info_dlc(info),
        v.len() <= 8,
        rest.len() >= 1,
        is_sep(rest[0]),
    ensures
        frame_parse(
            DeSerState { bytes: pre + fields_wire(id, info, v) + rest, head: pre.len() as int, end },
        ).0 == Err::<Frame, Error>(Error::ParseError),
{
    lemma_frame_fields(id, info, v, pre, rest, end);
    assert(((info as u32) as u8) == info);
}

} // verus!
