//! The commands of the socketcand protocol, read from a `CommandBuffer` according to the
//! working mode that earlier commands selected.
use vstd::prelude::*;

use crate::cmd_error::Error;
use crate::codec::{bytes_eq, lit};
use crate::command_buffer::{
    begin, end, read_data, read_duration, read_mux, read_u32, token, parse_bool_token,
    CommandBuffer,
};
use crate::time::Duration;

verus! {

/// The working modes.
#[derive(Clone, Copy, Debug, PartialEq, Eq, Structural)]
pub enum Mode {
    NoBus,
    Bcm,
    Raw,
    Control,
    IsoTp,
}

/// The bit timing of a `can0 B` command.
#[derive(Clone, Copy, Debug, PartialEq, Eq, Structural)]
pub struct CanTiming {
    pub bit_rate: u32,
    pub sample_point: u16,
    pub tq: u16,
    pub prop_seg: u16,
    pub phase_seg1: u16,
    pub phase_seg2: u16,
    pub sjw: u16,
    pub brp: u16,
}

/// The switches of a `can0 C` command.
#[derive(Clone, Copy, Debug, PartialEq, Eq, Structural)]
pub struct CanControl {
    pub listen_only: bool,
    pub loopback: bool,
    pub three_samples: bool,
}

/// An `add` command: send a frame every `duration`.
#[derive(Clone, Debug, PartialEq)]
pub struct Add {
    pub duration: Duration,
    pub id: u32,
    pub data: Vec<u8>,
}

/// An `update` command.
#[derive(Clone, Debug, PartialEq)]
pub struct Update {
    pub id: u32,
    pub data: Vec<u8>,
}

/// A `delete` command.
#[derive(Clone, Copy, Debug, PartialEq, Eq, Structural)]
pub struct Delete {
    pub id: u32,
}

/// A `send` command.
#[derive(Clone, Debug, PartialEq)]
pub struct Send {
    pub id: u32,
    pub data: Vec<u8>,
}

/// A `filter` command.
#[derive(Clone, Debug, PartialEq)]
pub struct Filter {
    pub duration: Duration,
    pub id: u32,
    pub data: Vec<u8>,
}

/// A `muxfilter` command.
#[derive(Clone, Debug, PartialEq)]
pub struct MuxFilter {
    pub duration: Duration,
    pub id: u32,
    pub mux_data: Vec<u8>,
}

/// A `subscribe` command.
#[derive(Clone, Copy, Debug, PartialEq, Eq, Structural)]
pub struct Subscribe {
    pub duration: Duration,
    pub id: u32,
}

/// An `unsubscribe` command.
#[derive(Clone, Copy, Debug, PartialEq, Eq, Structural)]
pub struct Unsubscribe {
    pub id: u32,
}

/// A `statistics` command.
#[derive(Clone, Copy, Debug, PartialEq, Eq, Structural)]
pub struct Statistics {
    pub duration: Duration,
}

/// The commands the parser recognizes.
#[derive(Clone, Debug, PartialEq)]
pub enum Commands {
    Empty,
    Echo,
    CanTiming(CanTiming),
    CanControl(CanControl),
    Add(Add),
    Update(Update),
    Delete(Delete),
    Send(Send),
    Filter(Filter),
    MuxFilter(MuxFilter),
    Subscribe(Subscribe),
    Unsubscribe(Unsubscribe),
    Statistics(Statistics),
}

/// A command as the library sees it: durations in microseconds, data as bytes.
pub enum Cmd {
    Empty,
    Echo,
    CanTiming(CanTiming),
    CanControl(CanControl),
    Add(u32, u32, Seq<u8>),
    Update(u32, Seq<u8>),
    Delete(u32),
    Send(u32, Seq<u8>),
    Filter(u32, u32, Seq<u8>),
    MuxFilter(u32, u32, Seq<u8>),
    Subscribe(u32, u32),
    Unsubscribe(u32),
    Statistics(u32),
}

impl View for Commands {
    type V = Cmd;

    open spec fn view(&self) -> Cmd {
        match self {
            Commands::Empty => Cmd::Empty,
            Commands::Echo => Cmd::Echo,
            Commands::CanTiming(t) => Cmd::CanTiming(*t),
            Commands::CanControl(c) => Cmd::CanControl(*c),
            Commands::Add(a) => Cmd::Add(a.duration.0, a.id, a.data@),
            Commands::Update(u) => Cmd::Update(u.id, u.data@),
            Commands::Delete(d) => Cmd::Delete(d.id),
            Commands::Send(s) => Cmd::Send(s.id, s.data@),
            Commands::Filter(f) => Cmd::Filter(f.duration.0, f.id, f.data@),
            Commands::MuxFilter(m) => Cmd::MuxFilter(m.duration.0, m.id, m.mux_data@),
            Commands::Subscribe(s) => Cmd::Subscribe(s.duration.0, s.id),
            Commands::Unsubscribe(u) => Cmd::Unsubscribe(u.id),
            Commands::Statistics(s) => Cmd::Statistics(s.duration.0),
        }
    }
}

pub open spec fn read_u16(q: Seq<u8>) -> (Result<u16, Error>, Seq<u8>) {
    let (r, q2) = read_u32(q);
    match r {
        Ok(v) => (Ok(v as u16), q2),
        Err(e) => (Err(e), q2),
    }
}

pub open spec fn read_bool(q: Seq<u8>) -> (Result<bool, Error>, Seq<u8>) {
    let (r, q2) = token(q);
    match r {
        Ok(t) => (parse_bool_token(t), q2),
        Err(e) => (Err(e), q2),
    }
}

/// Bit rate, then seven 16-bit fields.
pub open spec fn read_timing(q: Seq<u8>) -> (Result<CanTiming, Error>, Seq<u8>) {
    let (a, q1) = read_u32(q);
    let (b, q2) = read_u16(q1);
    let (c, q3) = read_u16(q2);
    let (d, q4) = read_u16(q3);
    let (e, q5) = read_u16(q4);
    let (f, q6) = read_u16(q5);
    let (g, q7) = read_u16(q6);
    let (h, q8) = read_u16(q7);
    if a is Err {
        (Err(a->Err_0), q1)
    } else if b is Err {
        (Err(b->Err_0), q2)
    } else if c is Err {
        (Err(c->Err_0), q3)
    } else if d is Err {
        (Err(d->Err_0), q4)
    } else if e is Err {
        (Err(e->Err_0), q5)
    } else if f is Err {
        (Err(f->Err_0), q6)
    } else if g is Err {
        (Err(g->Err_0), q7)
    } else if h is Err {
        (Err(h->Err_0), q8)
    } else {
        (
            Ok(
                CanTiming {
                    bit_rate: a->Ok_0,
                    sample_point: b->Ok_0,
                    tq: c->Ok_0,
                    prop_seg: d->Ok_0,
                    phase_seg1: e->Ok_0,
                    phase_seg2: f->Ok_0,
                    sjw: g->Ok_0,
                    brp: h->Ok_0,
                },
            ),
            q8,
        )
    }
}

/// Three Booleans.
pub open spec fn read_control(q: Seq<u8>) -> (Result<CanControl, Error>, Seq<u8>) {
    let (a, q1) = read_bool(q);
    let (b, q2) = read_bool(q1);
    let (c, q3) = read_bool(q2);
    if a is Err {
        (Err(a->Err_0), q1)
    } else if b is Err {
        (Err(b->Err_0), q2)
    } else if c is Err {
        (Err(c->Err_0), q3)
    } else {
        (Ok(CanControl { listen_only: a->Ok_0, loopback: b->Ok_0, three_samples: c->Ok_0 }), q3)
    }
}

/// A duration (when `timed`), an identifier and the data that `data` reads.
pub open spec fn read_id_data(
    q: Seq<u8>,
    timed: bool,
    data: spec_fn(Seq<u8>) -> (Result<Seq<u8>, Error>, Seq<u8>),
) -> (Result<(u32, u32, Seq<u8>), Error>, Seq<u8>) {
    let (d, q1) = if timed {
        read_duration(q)
    } else {
        (Ok(0u32), q)
    };
    let (i, q2) = read_u32(q1);
    let (v, q3) = data(q2);
    if d is Err {
        (Err(d->Err_0), q1)
    } else if i is Err {
        (Err(i->Err_0), q2)
    } else if v is Err {
        (Err(v->Err_0), q3)
    } else {
        (Ok((d->Ok_0, i->Ok_0, v->Ok_0)), q3)
    }
}

pub open spec fn no_data(q: Seq<u8>) -> (Result<Seq<u8>, Error>, Seq<u8>) {
    (Ok(Seq::empty()), q)
}

/// A command's arguments, after its word `w`, in the modes where the word has them.
pub open spec fn args(w: Seq<u8>, q: Seq<u8>) -> (Result<Cmd, Error>, Seq<u8>) {
    if w == lit("add") {
        let (r, q2) = read_id_data(q, true, |x: Seq<u8>| read_data(x));
        (if r is Ok { Ok(Cmd::Add(r->Ok_0.0, r->Ok_0.1, r->Ok_0.2)) } else { Err(r->Err_0) }, q2)
    } else if w == lit("update") {
        let (r, q2) = read_id_data(q, false, |x: Seq<u8>| read_data(x));
        (if r is Ok { Ok(Cmd::Update(r->Ok_0.1, r->Ok_0.2)) } else { Err(r->Err_0) }, q2)
    } else if w == lit("delete") {
        let (r, q2) = read_u32(q);
        (if r is Ok { Ok(Cmd::Delete(r->Ok_0)) } else { Err(r->Err_0) }, q2)
    } else if w == lit("send") {
        let (r, q2) = read_id_data(q, false, |x: Seq<u8>| read_data(x));
        (if r is Ok { Ok(Cmd::Send(r->Ok_0.1, r->Ok_0.2)) } else { Err(r->Err_0) }, q2)
    } else if w == lit("filter") {
        let (r, q2) = read_id_data(q, true, |x: Seq<u8>| read_data(x));
        (if r is Ok { Ok(Cmd::Filter(r->Ok_0.0, r->Ok_0.1, r->Ok_0.2)) } else { Err(r->Err_0) }, q2)
    } else if w == lit("muxfilter") {
        let (r, q2) = read_id_data(q, true, |x: Seq<u8>| read_mux(x));
        (
            if r is Ok {
                Ok(Cmd::MuxFilter(r->Ok_0.0, r->Ok_0.1, r->Ok_0.2))
            } else {
                Err(r->Err_0)
            },
            q2,
        )
    } else if w == lit("subscribe") {
        let (r, q2) = read_id_data(q, true, |x: Seq<u8>| no_data(x));
        (if r is Ok { Ok(Cmd::Subscribe(r->Ok_0.0, r->Ok_0.1)) } else { Err(r->Err_0) }, q2)
    } else if w == lit("unsubscribe") {
        let (r, q2) = read_u32(q);
        (if r is Ok { Ok(Cmd::Unsubscribe(r->Ok_0)) } else { Err(r->Err_0) }, q2)
    } else {
        let (r, q2) = read_u32(q);
        (
            if r is Err {
                Err(r->Err_0)
            } else if r->Ok_0 * 1000 > u32::MAX {
                Err(Error::ParseError)
            } else {
                Ok(Cmd::Statistics((r->Ok_0 * 1000) as u32))
            },
            q2,
        )
    }
}

/// Whether the word `w` is one that mode `m` accepts with arguments.
pub open spec fn takes_args(m: Mode, w: Seq<u8>) -> bool {
    match m {
        Mode::Bcm => w == lit("add") || w == lit("update") || w == lit("delete") || w == lit(
            "send",
        ) || w == lit("filter") || w == lit("muxfilter") || w == lit("subscribe") || w == lit(
            "unsubscribe",
        ),
        Mode::Raw => w == lit("send"),
        Mode::Control => w == lit("statistics"),
        _ => false,
    }
}

/// The mode that the word `w` switches to in mode `m`, if it is a switch there.
pub open spec fn switch(m: Mode, w: Seq<u8>) -> Option<Mode> {
    match m {
        Mode::NoBus => None,
        Mode::Bcm => if w == lit("rawmode") {
            Some(Mode::Raw)
        } else if w == lit("controlmode") {
            Some(Mode::Control)
        } else if w == lit("isotpmode") {
            Some(Mode::IsoTp)
        } else {
            None
        },
        Mode::Raw => if w == lit("bcmmode") {
            Some(Mode::Bcm)
        } else if w == lit("controlmode") {
            Some(Mode::Control)
        } else if w == lit("isotpmode") {
            Some(Mode::IsoTp)
        } else {
            None
        },
        Mode::Control => if w == lit("bcmmode") {
            Some(Mode::Bcm)
        } else if w == lit("rawmode") {
            Some(Mode::Raw)
        } else if w == lit("isotpmode") {
            Some(Mode::IsoTp)
        } else {
            None
        },
        Mode::IsoTp => if w == lit("bcmmode") {
            Some(Mode::Bcm)
        } else if w == lit("rawmode") {
            Some(Mode::Raw)
        } else if w == lit("controlmode") {
            Some(Mode::IsoTp)
        } else {
            None
        },
    }
}

/// The body of a command in mode `m`: the command, the mode after it, and what is left.
pub open spec fn body(m: Mode, q: Seq<u8>) -> (Result<Cmd, Error>, Mode, Seq<u8>) {
    let (r, q1) = token(q);
    if r is Err {
        (Err(r->Err_0), m, q1)
    } else {
        let w = r->Ok_0;
        if w == lit("echo") {
            (Ok(Cmd::Echo), m, q1)
        } else if m == Mode::NoBus {
            if w == lit("can0") {
                let (s, q2) = token(q1);
                if s is Err {
                    (Err(s->Err_0), m, q2)
                } else if s->Ok_0 == lit("B") {
                    let (t, q3) = read_timing(q2);
                    (if t is Ok { Ok(Cmd::CanTiming(t->Ok_0)) } else { Err(t->Err_0) }, m, q3)
                } else if s->Ok_0 == lit("C") {
                    let (c, q3) = read_control(q2);
                    (if c is Ok { Ok(Cmd::CanControl(c->Ok_0)) } else { Err(c->Err_0) }, m, q3)
                } else {
                    (Err(Error::ParseError), m, q2)
                }
            } else if w == lit("open") {
                let (s, q2) = token(q1);
                if s is Err {
                    (Err(s->Err_0), m, q2)
                } else if s->Ok_0 != lit("can0") {
                    (Err(Error::ParseError), m, q2)
                } else {
                    (Ok(Cmd::Empty), Mode::Bcm, q2)
                }
            } else {
                (Err(Error::ParseError), m, q1)
            }
        } else if takes_args(m, w) {
            let (c, q2) = args(w, q1);
            (c, m, q2)
        } else if m == Mode::IsoTp && (w == lit("pdu") || w == lit("sendpdu")) {
            (Err(Error::NotSupported), m, q1)
        } else if switch(m, w) is Some {
            (Ok(Cmd::Empty), switch(m, w)->Some_0, q1)
        } else {
            (Err(Error::ParseError), m, q1)
        }
    }
}

/// A whole command `< ... >` in mode `m`; a mode switch holds even where the closing `>`
/// is missing.
pub open spec fn parse_spec(m: Mode, q: Seq<u8>) -> (Result<Cmd, Error>, Mode, Seq<u8>) {
    let (b, q1) = begin(q);
    if b is Err {
        (Err(b->Err_0), m, q1)
    } else {
        let (r, m2, q2) = body(m, q1);
        if r is Err {
            (r, m2, q2)
        } else {
            let (e, q3) = end(q2);
            if e is Err {
                (Err(e->Err_0), m2, q3)
            } else {
                (r, m2, q3)
            }
        }
    }
}

/// Whether a word is the given keyword.
fn word_is(w: &Vec<u8>, k: &str) -> (r: bool)
    ensures
        r == (w@ == lit(k)),
{
    bytes_eq(w.as_slice(), k.as_bytes())
}

impl CanTiming {
    pub fn try_from(buf: &mut CommandBuffer) -> (r: Result<CanTiming, Error>)
        ensures
            (r, final(buf)@) == read_timing(old(buf)@),
    {
        let bit_rate = buf.get_u32()?;
        let sample_point = buf.get_u16()?;
        let tq = buf.get_u16()?;
        let prop_seg = buf.get_u16()?;
        let phase_seg1 = buf.get_u16()?;
        let phase_seg2 = buf.get_u16()?;
        let sjw = buf.get_u16()?;
        let brp = buf.get_u16()?;
        Ok(CanTiming { bit_rate, sample_point, tq, prop_seg, phase_seg1, phase_seg2, sjw, brp })
    }
}

impl CanControl {
    pub fn try_from(buf: &mut CommandBuffer) -> (r: Result<CanControl, Error>)
        ensures
            (r, final(buf)@) == read_control(old(buf)@),
    {
        let listen_only = buf.get_bool()?;
        let loopback = buf.get_bool()?;
        let three_samples = buf.get_bool()?;
        Ok(CanControl { listen_only, loopback, three_samples })
    }
}

/// Reads a duration (when `timed`), an identifier, and data (a counted list, or mux groups
/// where `mux`, or none where `with_data` is false).
fn read_fields(buf: &mut CommandBuffer, timed: bool, with_data: bool, mux: bool) -> (r: Result<
    (Duration, u32, Vec<u8>),
    Error,
>)
    ensures
        match read_id_data(
            old(buf)@,
            timed,
            if !with_data {
                |x: Seq<u8>| no_data(x)
            } else if mux {
                |x: Seq<u8>| read_mux(x)
            } else {
                |x: Seq<u8>| read_data(x)
            },
        ) {
            (Ok((d, i, v)), q) => r is Ok && r->Ok_0.0 == Duration(d) && r->Ok_0.1 == i
                && r->Ok_0.2@ == v && final(buf)@ == q,
            (Err(e), q) => r is Err && r->Err_0 == e && final(buf)@ == q,
        },
{
    let duration = if timed {
        buf.get_duration()?
    } else {
        Duration(0)
    };
    let id = buf.get_u32()?;
    let data = if !with_data {
        Vec::new()
    } else if mux {
        buf.get_mux_data()?
    } else {
        buf.get_data()?
    };
    Ok((duration, id, data))
}

impl Add {
    pub fn try_from(buf: &mut CommandBuffer) -> (r: Result<Add, Error>)
        ensures
            match args(lit("add"), old(buf)@) {
                (Ok(c), q) => r is Ok && Commands::Add(r->Ok_0)@ == c && final(buf)@ == q,
                (Err(e), q) => r is Err && r->Err_0 == e && final(buf)@ == q,
            },
    {
        let (duration, id, data) = read_fields(buf, true, true, false)?;
        Ok(Add { duration, id, data })
    }
}

impl Update {
    pub fn try_from(buf: &mut CommandBuffer) -> (r: Result<Update, Error>)
        ensures
            match read_id_data(old(buf)@, false, |x: Seq<u8>| read_data(x)) {
                (Ok((d, i, v)), q) => r is Ok && r->Ok_0.id == i && r->Ok_0.data@ == v && final(buf)@ == q,
                (Err(e), q) => r is Err && r->Err_0 == e && final(buf)@ == q,
            },
    {
        let (_, id, data) = read_fields(buf, false, true, false)?;
        Ok(Update { id, data })
    }
}

impl Delete {
    pub fn try_from(buf: &mut CommandBuffer) -> (r: Result<Delete, Error>)
        ensures
            match read_u32(old(buf)@) {
                (Ok(i), q) => r == Ok::<Delete, Error>(Delete { id: i }) && final(buf)@ == q,
                (Err(e), q) => r == Err::<Delete, Error>(e) && final(buf)@ == q,
            },
    {
        let id = buf.get_u32()?;
        Ok(Delete { id })
    }
}

impl Send {
    pub fn try_from(buf: &mut CommandBuffer) -> (r: Result<Send, Error>)
        ensures
            match read_id_data(old(buf)@, false, |x: Seq<u8>| read_data(x)) {
                (Ok((d, i, v)), q) => r is Ok && r->Ok_0.id == i && r->Ok_0.data@ == v && final(buf)@ == q,
                (Err(e), q) => r is Err && r->Err_0 == e && final(buf)@ == q,
            },
    {
        let (_, id, data) = read_fields(buf, false, true, false)?;
        Ok(Send { id, data })
    }
}

impl Filter {
    pub fn try_from(buf: &mut CommandBuffer) -> (r: Result<Filter, Error>)
        ensures
            match read_id_data(old(buf)@, true, |x: Seq<u8>| read_data(x)) {
                (Ok((d, i, v)), q) => r is Ok && r->Ok_0.duration == Duration(d) && r->Ok_0.id == i
                    && r->Ok_0.data@ == v && final(buf)@ == q,
                (Err(e), q) => r is Err && r->Err_0 == e && final(buf)@ == q,
            },
    {
        let (duration, id, data) = read_fields(buf, true, true, false)?;
        Ok(Filter { duration, id, data })
    }
}

impl MuxFilter {
    pub fn try_from(buf: &mut CommandBuffer) -> (r: Result<MuxFilter, Error>)
        ensures
            match read_id_data(old(buf)@, true, |x: Seq<u8>| read_mux(x)) {
                (Ok((d, i, v)), q) => r is Ok && r->Ok_0.duration == Duration(d) && r->Ok_0.id == i
                    && r->Ok_0.mux_data@ == v && final(buf)@ == q,
                (Err(e), q) => r is Err && r->Err_0 == e && final(buf)@ == q,
            },
    {
        let (duration, id, mux_data) = read_fields(buf, true, true, true)?;
        Ok(MuxFilter { duration, id, mux_data })
    }
}

impl Subscribe {
    pub fn try_from(buf: &mut CommandBuffer) -> (r: Result<Subscribe, Error>)
        ensures
            match read_id_data(old(buf)@, true, |x: Seq<u8>| no_data(x)) {
                (Ok((d, i, v)), q) => r == Ok::<Subscribe, Error>(
                    Subscribe { duration: Duration(d), id: i },
                ) && final(buf)@ == q,
                (Err(e), q) => r == Err::<Subscribe, Error>(e) && final(buf)@ == q,
            },
    {
        let (duration, id, _) = read_fields(buf, true, false, false)?;
        Ok(Subscribe { duration, id })
    }
}

impl Unsubscribe {
    pub fn try_from(buf: &mut CommandBuffer) -> (r: Result<Unsubscribe, Error>)
        ensures
            match read_u32(old(buf)@) {
                (Ok(i), q) => r == Ok::<Unsubscribe, Error>(Unsubscribe { id: i }) && final(buf)@
                    == q,
                (Err(e), q) => r == Err::<Unsubscribe, Error>(e) && final(buf)@ == q,
            },
    {
        let id = buf.get_u32()?;
        Ok(Unsubscribe { id })
    }
}

impl Statistics {
    /// A period in milliseconds; one over 32 bits of microseconds is refused.
    pub fn try_from(buf: &mut CommandBuffer) -> (r: Result<Statistics, Error>)
        ensures
            match read_u32(old(buf)@) {
                (Ok(ms), q) => final(buf)@ == q && if ms * 1000 > u32::MAX {
                    r == Err::<Statistics, Error>(Error::ParseError)
                } else {
                    r == Ok::<Statistics, Error>(Statistics { duration: Duration((ms * 1000) as u32) })
                },
                (Err(e), q) => r == Err::<Statistics, Error>(e) && final(buf)@ == q,
            },
    {
        let msecs = buf.get_u32()?;
        if msecs > 4_294_967 {
            return Err(Error::ParseError);
        }
        Ok(Statistics { duration: Duration::from_msecs(msecs) })
    }
}

/// Reads commands from a buffer in its current working mode.
pub struct CommandParser {
    mode: Mode,
}

impl View for CommandParser {
    type V = Mode;

    closed spec fn view(&self) -> Mode {
        self.mode
    }
}

impl CommandParser {
    pub fn new() -> (r: CommandParser)
        ensures
            r@ == Mode::NoBus,
    {
        CommandParser { mode: Mode::NoBus }
    }

    /// The current working mode.
    pub fn mode(&self) -> (r: Mode)
        ensures
            r == self@,
    {
        self.mode
    }

    fn set_mode(&mut self, mode: Mode) -> (r: Result<Commands, Error>)
        ensures
            final(self)@ == mode,
            r == Ok::<Commands, Error>(Commands::Empty),
    {
        self.mode = mode;
        Ok(Commands::Empty)
    }

    /// The arguments of a command word that takes them.
    fn parse_args(&mut self, w: &Vec<u8>, buf: &mut CommandBuffer) -> (r: Result<Commands, Error>)
        ensures
            final(self)@ == old(self)@,
            match args(w@, old(buf)@) {
                (Ok(c), q) => r is Ok && r->Ok_0@ == c && final(buf)@ == q,
                (Err(e), q) => r is Err && r->Err_0 == e && final(buf)@ == q,
            },
    {
        if word_is(w, "add") {
            let (duration, id, data) = read_fields(buf, true, true, false)?;
            Ok(Commands::Add(Add { duration, id, data }))
        } else if word_is(w, "update") {
            Ok(Commands::Update(Update::try_from(buf)?))
        } else if word_is(w, "delete") {
            Ok(Commands::Delete(Delete::try_from(buf)?))
        } else if word_is(w, "send") {
            Ok(Commands::Send(Send::try_from(buf)?))
        } else if word_is(w, "filter") {
            Ok(Commands::Filter(Filter::try_from(buf)?))
        } else if word_is(w, "muxfilter") {
            Ok(Commands::MuxFilter(MuxFilter::try_from(buf)?))
        } else if word_is(w, "subscribe") {
            Ok(Commands::Subscribe(Subscribe::try_from(buf)?))
        } else if word_is(w, "unsubscribe") {
            Ok(Commands::Unsubscribe(Unsubscribe::try_from(buf)?))
        } else {
            Ok(Commands::Statistics(Statistics::try_from(buf)?))
        }
    }

    /// Whether a word takes arguments in the current mode.
    fn takes_args(&self, w: &Vec<u8>) -> (r: bool)
        ensures
            r == takes_args(self@, w@),
    {
        match self.mode {
            Mode::Bcm => word_is(w, "add") || word_is(w, "update") || word_is(w, "delete")
                || word_is(w, "send") || word_is(w, "filter") || word_is(w, "muxfilter")
                || word_is(w, "subscribe") || word_is(w, "unsubscribe"),
            Mode::Raw => word_is(w, "send"),
            Mode::Control => word_is(w, "statistics"),
            _ => false,
        }
    }

    /// The mode a word switches to in the current mode, if it is a switch there.
    fn switch(&self, w: &Vec<u8>) -> (r: Option<Mode>)
        ensures
            r == switch(self@, w@),
    {
        match self.mode {
            Mode::NoBus => None,
            Mode::Bcm => if word_is(w, "rawmode") {
                Some(Mode::Raw)
            } else if word_is(w, "controlmode") {
                Some(Mode::Control)
            } else if word_is(w, "isotpmode") {
                Some(Mode::IsoTp)
            } else {
                None
            },
            Mode::Raw => if word_is(w, "bcmmode") {
                Some(Mode::Bcm)
            } else if word_is(w, "controlmode") {
                Some(Mode::Control)
            } else if word_is(w, "isotpmode") {
                Some(Mode::IsoTp)
            } else {
                None
            },
            Mode::Control => if word_is(w, "bcmmode") {
                Some(Mode::Bcm)
            } else if word_is(w, "rawmode") {
                Some(Mode::Raw)
            } else if word_is(w, "isotpmode") {
                Some(Mode::IsoTp)
            } else {
                None
            },
            Mode::IsoTp => if word_is(w, "bcmmode") {
                Some(Mode::Bcm)
            } else if word_is(w, "rawmode") {
                Some(Mode::Raw)
            } else if word_is(w, "controlmode") {
                Some(Mode::IsoTp)
            } else {
                None
            },
        }
    }

    /// The body of a command: its word, and what follows in the current mode.
    #[verifier::spinoff_prover]
    fn parse_body(&mut self, buf: &mut CommandBuffer) -> (r: Result<Commands, Error>)
        ensures
            match body(old(self)@, old(buf)@) {
                (Ok(c), m, q) => r is Ok && r->Ok_0@ == c && final(self)@ == m && final(buf)@ == q,
                (Err(e), m, q) => r is Err && r->Err_0 == e && final(self)@ == m && final(buf)@
                    == q,
            },
    {
        let w = buf.get_vec()?;
        if word_is(&w, "echo") {
            return Ok(Commands::Echo);
        }
        if self.mode == Mode::NoBus {
            if word_is(&w, "can0") {
                let sc = buf.get_vec()?;
                if word_is(&sc, "B") {
                    Ok(Commands::CanTiming(CanTiming::try_from(buf)?))
                } else if word_is(&sc, "C") {
                    Ok(Commands::CanControl(CanControl::try_from(buf)?))
                } else {
                    Err(Error::ParseError)
                }
            } else if word_is(&w, "open") {
                let s = buf.get_vec()?;
                if !word_is(&s, "can0") {
                    return Err(Error::ParseError);
                }
                self.set_mode(Mode::Bcm)
            } else {
                Err(Error::ParseError)
            }
        } else if self.takes_args(&w) {
            self.parse_args(&w, buf)
        } else if self.mode == Mode::IsoTp && (word_is(&w, "pdu") || word_is(&w, "sendpdu")) {
            Err(Error::NotSupported)
        } else {
            match self.switch(&w) {
                Some(m) => self.set_mode(m),
                None => Err(Error::ParseError),
            }
        }
    }

    /// Reads one command `< ... >` from the buffer.
    #[verifier::spinoff_prover]
    pub fn parse(&mut self, buf: &mut CommandBuffer) -> (r: Result<Commands, Error>)
        ensures
            match parse_spec(old(self)@, old(buf)@) {
                (Ok(c), m, q) => r is Ok && r->Ok_0@ == c && final(self)@ == m && final(buf)@ == q,
                (Err(e), m, q) => r is Err && r->Err_0 == e && final(self)@ == m && final(buf)@
                    == q,
            },
    {
        buf.is_begin()?;
        let r = self.parse_body(buf)?;
        buf.is_end()?;
        Ok(r)
    }
}

} // verus!
