//! Positive and negative acceptance filters over CAN identifiers, with a per-identifier
//! rate limiter on the positive ones.
use vstd::prelude::*;

use crate::codec::{dec_digits, parse_dec, tail_of, DeSer, DeSerState, Ser};
use crate::error::Error;
use crate::pattern::{check, emit_pattern, get_ones_zeros, id_matches, parse_pattern, pattern_bytes};

verus! {

/// A CAN identifier: 11 bits for a standard frame, 29 bits for an extended one.
#[derive(Clone, Copy, Debug, PartialEq, Eq, Structural)]
pub enum Id {
    Standard(u16),
    Extended(u32),
}

impl Id {
    pub open spec fn raw(self) -> u32 {
        match self {
            Id::Standard(r) => r as u32,
            Id::Extended(r) => r,
        }
    }

    pub open spec fn is_ext(self) -> bool {
        self is Extended
    }

    /// Within its width: below 2^11 for a standard identifier, below 2^29 for an extended one.
    pub open spec fn valid(self) -> bool {
        match self {
            Id::Standard(r) => r <= 0x7FF,
            Id::Extended(r) => r <= 0x1FFF_FFFF,
        }
    }

    /// A standard identifier, where `raw` fits in 11 bits.
    pub fn standard(raw: u16) -> (r: Option<Id>)
        ensures
            raw <= 0x7FF ==> r == Some(Id::Standard(raw)),
            raw > 0x7FF ==> r is None,
    {
        if raw <= 0x7FF {
            Some(Id::Standard(raw))
        } else {
            None
        }
    }

    /// An extended identifier, where `raw` fits in 29 bits.
    pub fn extended(raw: u32) -> (r: Option<Id>)
        ensures
            raw <= 0x1FFF_FFFF ==> r == Some(Id::Extended(raw)),
            raw > 0x1FFF_FFFF ==> r is None,
    {
        if raw <= 0x1FFF_FFFF {
            Some(Id::Extended(raw))
        } else {
            None
        }
    }

    pub fn as_raw(&self) -> (r: u32)
        ensures
            r == self.raw(),
    {
        match self {
            Id::Standard(r) => *r as u32,
            Id::Extended(r) => *r,
        }
    }

    pub fn is_extended(&self) -> (r: bool)
        ensures
            r == self.is_ext(),
    {
        match self {
            Id::Standard(_) => false,
            Id::Extended(_) => true,
        }
    }
}

/// An instant in milliseconds on a wrapping 32-bit clock.
#[derive(Clone, Copy, Debug, PartialEq, Eq, Structural)]
pub struct TInstant(pub u32);

/// `a - b` on the wrapping 32-bit clock.
pub open spec fn wrap_sub(a: u32, b: u32) -> u32 {
    if a >= b {
        (a - b) as u32
    } else {
        (a + 0x1_0000_0000 - b) as u32
    }
}

/// `a + b` on the wrapping 32-bit clock.
pub open spec fn wrap_add(a: u32, b: u32) -> u32 {
    if a + b <= u32::MAX {
        (a + b) as u32
    } else {
        (a + b - 0x1_0000_0000) as u32
    }
}

/// The distance of two instants on the wrapping clock: the shorter way round.
pub open spec fn dist(a: u32, b: u32) -> u32 {
    if wrap_sub(a, b) < wrap_sub(b, a) {
        wrap_sub(a, b)
    } else {
        wrap_sub(b, a)
    }
}

impl TInstant {
    pub fn from_millis(ms: u32) -> (r: TInstant)
        ensures
            r.0 == ms,
    {
        TInstant(ms)
    }

    pub fn dist(&self, other: TInstant) -> (r: u32)
        ensures
            r == dist(self.0, other.0),
    {
        let d1 = self.0.wrapping_sub(other.0);
        let d2 = other.0.wrapping_sub(self.0);
        if d1 < d2 {
            d1
        } else {
            d2
        }
    }
}

impl From<u32> for TInstant {
    fn from(ms: u32) -> (r: TInstant)
        ensures
            r.0 == ms,
    {
        TInstant(ms)
    }
}

impl vstd::std_specs::convert::FromSpecImpl<u32> for TInstant {
    open spec fn obeys_from_spec() -> bool {
        true
    }

    open spec fn from_spec(v: u32) -> TInstant {
        TInstant(v)
    }
}

/// The identifier that marks a slot of the rate table as empty.
pub const EMPTY_ID: u32 = 0xFFFF_FFFF;

#[derive(Clone, Copy, Debug, PartialEq, Eq, Structural)]
pub struct IdTime {
    pub id: u32,
    pub instant: TInstant,
}

/// The first slot at or after `i` that is empty or holds `id`, or the length where none is.
pub open spec fn find_slot(slots: Seq<(u32, u32)>, id: u32, i: int) -> int
    decreases slots.len() - i,
{
    if i < 0 || i >= slots.len() {
        slots.len() as int
    } else if slots[i].0 == EMPTY_ID || slots[i].0 == id {
        i
    } else {
        find_slot(slots, id, i + 1)
    }
}

/// The rate limiter's answer for `id` at `now`, and the table after it.
pub open spec fn probe(slots: Seq<(u32, u32)>, id: u32, now: u32, duration: u32) -> (
    bool,
    Seq<(u32, u32)>,
) {
    let i = find_slot(slots, id, 0);
    if duration == 0 {
        (true, slots)
    } else if i >= slots.len() {
        (false, slots)
    } else if slots[i].0 == EMPTY_ID {
        (true, slots.update(i, (id, now)))
    } else if dist(slots[i].1, now) >= duration {
        (true, slots.update(i, (id, now)))
    } else {
        (false, slots)
    }
}

/// A fixed table of the last accepted instant of each identifier, first come first served.
#[derive(Clone, Debug, PartialEq)]
pub struct IdTimes<const CAP: usize> {
    id_times: Vec<IdTime>,
}

impl<const CAP: usize> View for IdTimes<CAP> {
    type V = Seq<(u32, u32)>;

    closed spec fn view(&self) -> Seq<(u32, u32)> {
        self.id_times@.map_values(|t: IdTime| (t.id, t.instant.0))
    }
}

impl<const CAP: usize> IdTimes<CAP> {
    /// A table of `CAP` empty slots.
    pub fn new() -> (r: Self)
        ensures
            r@ == Seq::new(CAP as nat, |i: int| (EMPTY_ID, 0u32)),
    {
        let mut v: Vec<IdTime> = Vec::new();
        let mut i: usize = 0;
        while i < CAP
            invariant
                i <= CAP,
                v@.len() == i,
                forall|k: int| 0 <= k < i ==> #[trigger] v@[k] == (IdTime { id: EMPTY_ID, instant: TInstant(0) }),
            decreases CAP - i,
        {
            v.push(IdTime { id: EMPTY_ID, instant: TInstant(0) });
            i += 1;
        }
        let r = IdTimes { id_times: v };
        assert(r@ =~= Seq::new(CAP as nat, |i: int| (EMPTY_ID, 0u32)));
        r
    }

    /// Whether `id` may pass at `instant` under a minimum interval of `duration` ms; an
    /// accepted instant is recorded.
    pub fn check_instant(&mut self, id: u32, instant: TInstant, duration: u32) -> (r: bool)
        ensures
            (r, final(self)@) == probe(old(self)@, id, instant.0, duration),
            !r ==> final(self)@ == old(self)@,
            duration == 0 ==> r,
    {
        if duration == 0 {
            return true;
        }
        let ghost slots = self@;
        let mut i: usize = 0;
        while i < self.id_times.len() && self.id_times[i].id != EMPTY_ID && self.id_times[i].id != id
            invariant
                i <= self.id_times@.len(),
                self@ == slots,
                find_slot(slots, id, 0) == find_slot(slots, id, i as int),
            decreases self.id_times@.len() - i,
        {
            assert(slots[i as int] == (self.id_times@[i as int].id, self.id_times@[i as int].instant.0));
            i += 1;
        }
        if i == self.id_times.len() {
            return false;
        }
        let t = self.id_times[i];
        assert(slots[i as int] == (t.id, t.instant.0));
        assert(find_slot(slots, id, i as int) == i);
        if t.id == EMPTY_ID || t.instant.dist(instant) >= duration {
            self.id_times.set(i, IdTime { id, instant });
            assert(self@ =~= slots.update(i as int, (id, instant.0)));
            true
        } else {
            false
        }
    }
}

/// A positive filter as it is sent and stored: without its rate table.
#[derive(Clone, Copy, Debug, PartialEq, Eq, Structural)]
pub struct PrePFilter {
    pub extended: bool,
    pub duration: u32,
    pub ones: u32,
    pub zeros: u32,
}

/// The payload of a `$pfilt` datagram: `,<duration>,<pattern>`.
pub open spec fn pfilter_wire(f: PrePFilter) -> Seq<u8> {
    seq![',' as u8] + dec_digits(f.duration as nat) + seq![',' as u8] + emit_pattern(
        f.extended,
        f.ones,
        f.zeros,
    )
}

/// The payload of a `$nfilt` datagram: `,<pattern>`.
pub open spec fn nfilter_wire(f: NFilter) -> Seq<u8> {
    seq![',' as u8] + emit_pattern(f.extended, f.ones, f.zeros)
}

/// What `PrePFilter::deserialize` returns on a reader state, and the state after it.
pub open spec fn prepfilter_parse(st: DeSerState) -> (Result<PrePFilter, Error>, DeSerState) {
    let (a, st1) = st.read(|s: Seq<u8>| parse_dec(s));
    match a {
        Err(e) => (Err(e), st1),
        Ok(d) => st1.read(
            |s: Seq<u8>|
                match parse_pattern(s) {
                    Ok((e, o, z)) => Ok(PrePFilter { extended: e, duration: d, ones: o, zeros: z }),
                    Err(x) => Err(x),
                },
        ),
    }
}

/// What `NFilter::deserialize` returns on a reader state, and the state after it.
pub open spec fn nfilter_parse(st: DeSerState) -> (Result<NFilter, Error>, DeSerState) {
    st.read(
        |s: Seq<u8>|
            match parse_pattern(s) {
                Ok((e, o, z)) => Ok(NFilter { extended: e, ones: o, zeros: z }),
                Err(x) => Err(x),
            },
    )
}

impl PrePFilter {
    /// Reads `,<duration>,<pattern>`.
    pub fn deserialize<const CAP: usize>(deser: &mut DeSer<CAP>) -> (r: Result<Self, Error>)
        ensures
            (r, final(deser)@) == prepfilter_parse(old(deser)@),
    {
        let duration = deser.get_u32()?;
        let field = deser.get_slice()?;
        let slice = tail_of(&field);
        let (extended, ones, zeros) = get_ones_zeros(slice.as_slice())?;
        Ok(PrePFilter { extended, duration, ones, zeros })
    }

    pub fn new(duration: u32, bytes: &[u8]) -> (r: Result<Self, Error>)
        ensures
            match parse_pattern(bytes@) {
                Ok((e, o, z)) => r == Ok::<Self, Error>(PrePFilter { extended: e, duration, ones: o, zeros: z }),
                Err(x) => r == Err::<Self, Error>(x),
            },
    {
        let (extended, ones, zeros) = get_ones_zeros(bytes)?;
        Ok(PrePFilter { extended, duration, ones, zeros })
    }

    /// The filter with an empty rate table.
    pub fn into(self) -> (r: PFilter)
        ensures
            r.as_pre() == self,
            r.id_times@ == Seq::new(16, |i: int| (EMPTY_ID, 0u32)),
    {
        PFilter {
            extended: self.extended,
            duration: self.duration,
            ones: self.ones,
            zeros: self.zeros,
            id_times: IdTimes::new(),
        }
    }

    /// The wire form as bytes.
    pub fn wire_bytes(&self) -> (w: Vec<u8>)
        ensures
            w@ == pfilter_wire(*self),
    {
        let mut w: Vec<u8> = Vec::new();
        w.push(44);
        let mut d = crate::codec::dec_of(self.duration);
        w.append(&mut d);
        w.push(44);
        let mut p = pattern_bytes(self.extended, self.ones, self.zeros);
        w.append(&mut p);
        assert(w@ =~= pfilter_wire(*self));
        w
    }

    /// Appends `,<duration>,<pattern>`.
    pub fn serialize<const CAP: usize>(&self, ser: &mut Ser<CAP>) -> (r: Result<(), Error>)
        ensures
            Ser::<CAP>::appended(old(ser)@, final(ser)@, pfilter_wire(*self), r),
    {
        let w = self.wire_bytes();
        ser.add_slice(w.as_slice())
    }
}

/// A positive filter: an acceptance pattern with a per-identifier minimum interval.
#[derive(Clone, Debug, PartialEq)]
pub struct PFilter {
    pub extended: bool,
    pub duration: u32,
    pub ones: u32,
    pub zeros: u32,
    pub id_times: IdTimes<16>,
}

impl View for PFilter {
    type V = (PrePFilter, Seq<(u32, u32)>);

    open spec fn view(&self) -> (PrePFilter, Seq<(u32, u32)>) {
        (self.as_pre(), self.id_times@)
    }
}

impl PFilter {
    pub open spec fn as_pre(self) -> PrePFilter {
        PrePFilter {
            extended: self.extended,
            duration: self.duration,
            ones: self.ones,
            zeros: self.zeros,
        }
    }

    pub fn new(duration: u32, bytes: &[u8]) -> (r: Result<Self, Error>)
        ensures
            match parse_pattern(bytes@) {
                Ok((e, o, z)) => r is Ok && r->Ok_0.as_pre() == (PrePFilter {
                    extended: e,
                    duration,
                    ones: o,
                    zeros: z,
                }) && r->Ok_0.id_times@ == Seq::new(16, |i: int| (EMPTY_ID, 0u32)),
                Err(x) => r is Err && r->Err_0 == x,
            },
    {
        let pre = PrePFilter::new(duration, bytes)?;
        Ok(pre.into())
    }

    /// Reads `,<duration>,<pattern>` into a filter with an empty rate table.
    pub fn deserialize<const CAP: usize>(deser: &mut DeSer<CAP>) -> (r: Result<Self, Error>)
        ensures
            match prepfilter_parse(old(deser)@) {
                (Ok(p), st) => r is Ok && r->Ok_0.as_pre() == p && r->Ok_0.id_times@ == Seq::new(
                    16,
                    |i: int| (EMPTY_ID, 0u32),
                ) && final(deser)@ == st,
                (Err(e), st) => r is Err && r->Err_0 == e && final(deser)@ == st,
            },
    {
        let pre = PrePFilter::deserialize(deser)?;
        Ok(pre.into())
    }

    pub fn as_pre_pfilter(&self) -> (r: PrePFilter)
        ensures
            r == self.as_pre(),
    {
        PrePFilter {
            extended: self.extended,
            duration: self.duration,
            ones: self.ones,
            zeros: self.zeros,
        }
    }

    /// Whether a frame with `id` passes at `instant`: same width, allowed by the rate
    /// limiter, and matching the pattern.
    pub fn check(&mut self, id: Id, instant: TInstant) -> (r: bool)
        ensures
            (r, final(self).id_times@) == pcheck(old(self)@, id, instant),
            final(self).as_pre() == old(self).as_pre(),
    {
        if id.is_extended() != self.extended {
            return false;
        }
        let raw = id.as_raw();
        if !self.id_times.check_instant(raw, instant, self.duration) {
            return false;
        }
        check(raw, self.ones, self.zeros, self.extended)
    }

    /// Appends `,<duration>,<pattern>`.
    pub fn serialize<const CAP: usize>(&self, ser: &mut Ser<CAP>) -> (r: Result<(), Error>)
        ensures
            Ser::<CAP>::appended(old(ser)@, final(ser)@, pfilter_wire(self.as_pre()), r),
    {
        self.as_pre_pfilter().serialize(ser)
    }
}

/// A negative filter: a rejection pattern.
#[derive(Clone, Copy, Debug, PartialEq, Eq, Structural)]
pub struct NFilter {
    pub extended: bool,
    pub ones: u32,
    pub zeros: u32,
}

impl NFilter {
    /// Reads `,<pattern>`.
    pub fn deserialize<const CAP: usize>(deser: &mut DeSer<CAP>) -> (r: Result<Self, Error>)
        ensures
            (r, final(deser)@) == nfilter_parse(old(deser)@),
    {
        let field = deser.get_slice()?;
        let slice = tail_of(&field);
        let (extended, ones, zeros) = get_ones_zeros(slice.as_slice())?;
        Ok(NFilter { extended, ones, zeros })
    }

    pub open spec fn check_spec(self, id: Id) -> bool {
        id.is_ext() == self.extended && id_matches(id.raw(), self.ones, self.zeros, self.extended)
    }

    pub fn new(bytes: &[u8]) -> (r: Result<Self, Error>)
        ensures
            match parse_pattern(bytes@) {
                Ok((e, o, z)) => r == Ok::<Self, Error>(NFilter { extended: e, ones: o, zeros: z }),
                Err(x) => r == Err::<Self, Error>(x),
            },
    {
        let (extended, ones, zeros) = get_ones_zeros(bytes)?;
        Ok(NFilter { extended, ones, zeros })
    }

    /// Whether a frame with `id` is rejected: same width and matching the pattern.
    pub fn check(&self, id: Id) -> (r: bool)
        ensures
            r == self.check_spec(id),
    {
        if id.is_extended() != self.extended {
            return false;
        }
        check(id.as_raw(), self.ones, self.zeros, self.extended)
    }

    /// The wire form as bytes.
    pub fn wire_bytes(&self) -> (w: Vec<u8>)
        ensures
            w@ == nfilter_wire(*self),
    {
        let mut w: Vec<u8> = Vec::new();
        w.push(44);
        let mut p = pattern_bytes(self.extended, self.ones, self.zeros);
        w.append(&mut p);
        assert(w@ =~= nfilter_wire(*self));
        w
    }

    /// Appends `,<pattern>`.
    pub fn serialize<const CAP: usize>(&self, ser: &mut Ser<CAP>) -> (r: Result<(), Error>)
        ensures
            Ser::<CAP>::appended(old(ser)@, final(ser)@, nfilter_wire(*self), r),
    {
        let w = self.wire_bytes();
        ser.add_slice(w.as_slice())
    }
}

/// The answer of a positive filter, seen as its stored form and its rate table, for `id`
/// at `now`, and its rate table after it.
pub open spec fn pcheck(f: (PrePFilter, Seq<(u32, u32)>), id: Id, now: TInstant) -> (
    bool,
    Seq<(u32, u32)>,
) {
    if id.is_ext() != f.0.extended {
        (false, f.1)
    } else {
        let (allowed, slots) = probe(f.1, id.raw(), now.0, f.0.duration);
        if !allowed {
            (false, slots)
        } else {
            (id_matches(id.raw(), f.0.ones, f.0.zeros, f.0.extended), slots)
        }
    }
}

/// The answer of a list of positive filters, tried in order until one accepts, and the
/// filters after it (each one tried may have recorded an instant).
pub open spec fn pfilters_check(fs: Seq<(PrePFilter, Seq<(u32, u32)>)>, id: Id, now: TInstant) -> (
    bool,
    Seq<(PrePFilter, Seq<(u32, u32)>)>,
)
    decreases fs.len(),
{
    if fs.len() == 0 {
        (false, fs)
    } else {
        let (ok, slots) = pcheck(fs[0], id, now);
        let f2 = (fs[0].0, slots);
        if ok {
            (true, seq![f2] + fs.drop_first())
        } else {
            let (ok2, rest) = pfilters_check(fs.drop_first(), id, now);
            (ok2, seq![f2] + rest)
        }
    }
}

/// Whether any of a list of negative filters rejects `id`.
pub open spec fn nfilters_check(fs: Seq<NFilter>, id: Id) -> bool {
    exists|i: int| 0 <= i < fs.len() && fs[i].check_spec(id)
}

/// The positive filters of the bridge, at most `CAP`; none at all accepts everything.
pub struct PFilters<const CAP: usize> {
    pfilters: Vec<PFilter>,
}

impl<const CAP: usize> View for PFilters<CAP> {
    type V = Seq<(PrePFilter, Seq<(u32, u32)>)>;

    closed spec fn view(&self) -> Seq<(PrePFilter, Seq<(u32, u32)>)> {
        self.pfilters@.map_values(|f: PFilter| f@)
    }
}

impl<const CAP: usize> PFilters<CAP> {
    pub fn new() -> (r: Self)
        ensures
            r@ == Seq::<(PrePFilter, Seq<(u32, u32)>)>::empty(),
    {
        let r = PFilters { pfilters: Vec::new() };
        assert(r@ =~= Seq::<(PrePFilter, Seq<(u32, u32)>)>::empty());
        r
    }

    /// Adds a filter with an empty rate table at the end; a full list is left as it is.
    pub fn add(&mut self, pfilter: PrePFilter) -> (r: Result<(), Error>)
        ensures
            r is Ok <==> old(self)@.len() < CAP,
            r is Ok ==> final(self)@ == old(self)@.push(
                (pfilter, Seq::new(16, |i: int| (EMPTY_ID, 0u32))),
            ),
            r is Err ==> r->Err_0 == Error::BufIsFull && final(self)@ == old(self)@,
    {
        if self.pfilters.len() < CAP {
            let f = pfilter.into();
            self.pfilters.push(f);
            assert(self@ =~= old(self)@.push((pfilter, Seq::new(16, |i: int| (EMPTY_ID, 0u32)))));
            Ok(())
        } else {
            Err(Error::BufIsFull)
        }
    }

    /// Whether a frame with `id` is accepted at `instant`: always where there is no filter,
    /// else where a filter accepts it, trying them in order.
    #[verifier::spinoff_prover]
    pub fn check(&mut self, id: Id, instant: TInstant) -> (r: bool)
        ensures
            old(self)@.len() == 0 ==> r && final(self)@ == old(self)@,
            old(self)@.len() > 0 ==> (r, final(self)@) == pfilters_check(old(self)@, id, instant),
    {
        if self.pfilters.len() == 0 {
            return true;
        }
        let ghost fs = self@;
        let mut i: usize = 0;
        assert(fs.subrange(0, fs.len() as int) =~= fs);
        assert(pfilters_check(fs, id, instant).1 =~= self@.subrange(0, 0) + pfilters_check(fs, id, instant).1);
        let mut found = false;
        while i < self.pfilters.len() && !found
            invariant
                i < self.pfilters@.len() || !found,
                found ==> (true, self@) == pfilters_check(fs, id, instant),
                i <= self.pfilters@.len(),
                self@.len() == fs.len(),
                !found ==> self@.subrange(i as int, fs.len() as int) == fs.subrange(i as int, fs.len() as int),
                !found ==> pfilters_check(fs, id, instant) == ({
                    let (ok, rest) = pfilters_check(fs.subrange(i as int, fs.len() as int), id, instant);
                    (ok, self@.subrange(0, i as int) + rest)
                }),
            decreases self.pfilters@.len() - i + (if found { 0int } else { 1int }),
        {
            let ghost tail = fs.subrange(i as int, fs.len() as int);
            let ghost before = self@;
            let ghost pc = pcheck(tail[0], id, instant);
            assert(tail[0] == before.subrange(i as int, fs.len() as int)[0]);
            assert(tail.drop_first() =~= fs.subrange(i + 1, fs.len() as int));
            let ok = self.pfilters[i].check(id, instant);
            assert(self@ =~= before.update(i as int, (before[i as int].0, pc.1)));
            if ok {
                assert(self@ =~= before.subrange(0, i as int) + (seq![(tail[0].0, pc.1)] + tail.drop_first()));
                found = true;
            } else {
            i += 1;
            assert(self@.subrange(0, i as int) =~= before.subrange(0, i - 1) + seq![(tail[0].0, pc.1)]);
            assert(self@.subrange(i as int, fs.len() as int) =~= fs.subrange(i as int, fs.len() as int));
            }
        }
        if found {
            return true;
        }
        assert(self@.subrange(0, i as int) =~= self@);
        false
    }

    pub fn clear(&mut self)
        ensures
            final(self)@ == Seq::<(PrePFilter, Seq<(u32, u32)>)>::empty(),
    {
        self.pfilters.clear();
        assert(self@ =~= Seq::<(PrePFilter, Seq<(u32, u32)>)>::empty());
    }

    pub fn len(&self) -> (r: usize)
        ensures
            r == self@.len(),
    {
        self.pfilters.len()
    }

    /// The stored form of the filter at `i`.
    pub fn get_pre(&self, i: usize) -> (r: PrePFilter)
        requires
            i < self@.len(),
        ensures
            r == self@[i as int].0,
    {
        self.pfilters[i].as_pre_pfilter()
    }

    pub fn get_vec_ref(&self) -> (r: &Vec<PFilter>)
        ensures
            r@.map_values(|f: PFilter| f@) == self@,
    {
        &self.pfilters
    }
}

impl<const CAP: usize> Default for PFilters<CAP> {
    fn default() -> (r: Self)
        ensures
            r@ == Seq::<(PrePFilter, Seq<(u32, u32)>)>::empty(),
    {
        PFilters::new()
    }
}

/// The negative filters of the bridge, at most `CAP`; none at all rejects nothing.
pub struct NFilters<const CAP: usize> {
    nfilters: Vec<NFilter>,
}

impl<const CAP: usize> View for NFilters<CAP> {
    type V = Seq<NFilter>;

    closed spec fn view(&self) -> Seq<NFilter> {
        self.nfilters@
    }
}

impl<const CAP: usize> NFilters<CAP> {
    pub fn new() -> (r: Self)
        ensures
            r@ == Seq::<NFilter>::empty(),
    {
        NFilters { nfilters: Vec::new() }
    }

    /// Adds a filter at the end; a full list is left as it is.
    pub fn add(&mut self, nfilter: NFilter) -> (r: Result<(), Error>)
        ensures
            r is Ok <==> old(self)@.len() < CAP,
            r is Ok ==> final(self)@ == old(self)@.push(nfilter),
            r is Err ==> r->Err_0 == Error::BufIsFull && final(self)@ == old(self)@,
    {
        if self.nfilters.len() < CAP {
            self.nfilters.push(nfilter);
            Ok(())
        } else {
            Err(Error::BufIsFull)
        }
    }

    /// Whether some filter rejects a frame with `id`; with no filter, none does.
    pub fn check(&self, id: Id) -> (r: bool)
        ensures
            r == nfilters_check(self@, id),
            self@.len() == 0 ==> !r,
    {
        let mut i: usize = 0;
        while i < self.nfilters.len()
            invariant
                i <= self.nfilters@.len(),
                forall|k: int| 0 <= k < i ==> !(#[trigger] self.nfilters@[k]).check_spec(id),
            decreases self.nfilters@.len() - i,
        {
            if self.nfilters[i].check(id) {
                return true;
            }
            i += 1;
        }
        false
    }

    pub fn clear(&mut self)
        ensures
            final(self)@ == Seq::<NFilter>::empty(),
    {
        self.nfilters.clear();
    }

    pub fn len(&self) -> (r: usize)
        ensures
            r == self@.len(),
    {
        self.nfilters.len()
    }

    pub fn get(&self, i: usize) -> (r: NFilter)
        requires
            i < self@.len(),
        ensures
            r == self@[i as int],
    {
        self.nfilters[i]
    }

    pub fn get_vec_ref(&self) -> (r: &Vec<NFilter>)
        ensures
            r@ == self@,
    {
        &self.nfilters
    }
}

impl<const CAP: usize> Default for NFilters<CAP> {
    fn default() -> (r: Self)
        ensures
            r@ == Seq::<NFilter>::empty(),
    {
        NFilters::new()
    }
}

} // verus!
