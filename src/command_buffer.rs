//! The receive buffer of the socketcand protocol (`< cmd arg ... >`) and the readers of its
//! space-separated elements.
use vstd::prelude::*;
use std::collections::VecDeque;

use crate::cmd_error::Error;
use crate::codec::{all_dec, dec_value};
use crate::rx_buffer::{first_of, lemma_first_of, lemma_first_of_at, lemma_first_of_none};
use crate::time::Duration;

verus! {

/// The capacity of the buffer.
pub const CMD_BUF_SIZE: usize = 1024;

/// The longest element.
pub const TOKEN_SIZE: usize = 40;

/// The next element: the bytes up to the next space, which is consumed too. An element of
/// more than 40 bytes gives `BufIsFull` after 41 bytes; where no space comes, `NotFound`
/// after all of them.
pub open spec fn token(q: Seq<u8>) -> (Result<Seq<u8>, Error>, Seq<u8>) {
    let k = first_of(q, 0, q.len() as int, ' ' as u8);
    if k > TOKEN_SIZE {
        (Err(Error::BufIsFull), q.subrange(TOKEN_SIZE + 1, q.len() as int))
    } else if k < q.len() {
        (Ok(q.subrange(0, k)), q.subrange(k + 1, q.len() as int))
    } else {
        (Err(Error::NotFound), Seq::empty())
    }
}

/// A decimal number of at least one digit that fits in 32 bits.
pub open spec fn parse_num(t: Seq<u8>) -> Result<u32, Error> {
    if t.len() > 0 && all_dec(t) && dec_value(t) <= u32::MAX {
        Ok(dec_value(t) as u32)
    } else {
        Err(Error::ParseError)
    }
}

pub open spec fn read_u32(q: Seq<u8>) -> (Result<u32, Error>, Seq<u8>) {
    let (r, q2) = token(q);
    match r {
        Err(e) => (Err(e), q2),
        Ok(t) => (parse_num(t), q2),
    }
}

/// A hex digit of either case.
pub open spec fn hex_nibble(b: u8) -> Option<u8> {
    if 48 <= b <= 57 {
        Some((b - 48) as u8)
    } else if 97 <= b <= 102 {
        Some((b - 87) as u8)
    } else if 65 <= b <= 70 {
        Some((b - 55) as u8)
    } else {
        None
    }
}

/// One or two hex digits.
pub open spec fn parse_hex_byte(t: Seq<u8>) -> Result<u8, Error> {
    if t.len() == 1 && hex_nibble(t[0]) is Some {
        Ok(hex_nibble(t[0])->Some_0)
    } else if t.len() == 2 && hex_nibble(t[0]) is Some && hex_nibble(t[1]) is Some {
        Ok((hex_nibble(t[0])->Some_0 * 16 + hex_nibble(t[1])->Some_0) as u8)
    } else {
        Err(Error::ParseError)
    }
}

pub open spec fn read_hex_byte(q: Seq<u8>) -> (Result<u8, Error>, Seq<u8>) {
    let (r, q2) = token(q);
    match r {
        Err(e) => (Err(e), q2),
        Ok(t) => (parse_hex_byte(t), q2),
    }
}

/// `n` hex bytes, each its own element.
pub open spec fn read_bytes(q: Seq<u8>, n: nat) -> (Result<Seq<u8>, Error>, Seq<u8>)
    decreases n,
{
    if n == 0 {
        (Ok(Seq::empty()), q)
    } else {
        let (r, q2) = read_bytes(q, (n - 1) as nat);
        match r {
            Err(e) => (Err(e), q2),
            Ok(v) => {
                let (b, q3) = read_hex_byte(q2);
                match b {
                    Err(e) => (Err(e), q3),
                    Ok(x) => (Ok(v.push(x)), q3),
                }
            },
        }
    }
}

pub open spec fn parse_bool_token(t: Seq<u8>) -> Result<bool, Error> {
    if t == seq!['0' as u8] || t == seq!['f' as u8, 'a' as u8, 'l' as u8, 's' as u8, 'e' as u8] {
        Ok(false)
    } else if t == seq!['1' as u8] || t == seq!['t' as u8, 'r' as u8, 'u' as u8, 'e' as u8] {
        Ok(true)
    } else {
        Err(Error::ParseError)
    }
}

/// A length (at most eight) and that many hex bytes.
pub open spec fn read_data(q: Seq<u8>) -> (Result<Seq<u8>, Error>, Seq<u8>) {
    let (r, q1) = read_u32(q);
    match r {
        Err(e) => (Err(e), q1),
        Ok(l) => if l > 8 {
            (Err(Error::ParseError), q1)
        } else {
            read_bytes(q1, l as nat)
        },
    }
}

/// A count of eight-byte groups and their hex bytes, at most forty in all; the forty-first
/// byte is read before the refusal.
pub open spec fn read_mux(q: Seq<u8>) -> (Result<Seq<u8>, Error>, Seq<u8>) {
    let (r, q1) = read_u32(q);
    match r {
        Err(e) => (Err(e), q1),
        Ok(l) => if l * 8 <= TOKEN_SIZE {
            read_bytes(q1, (l * 8) as nat)
        } else {
            let (r2, q2) = read_bytes(q1, (TOKEN_SIZE + 1) as nat);
            match r2 {
                Err(e) => (Err(e), q2),
                Ok(_) => (Err(Error::ParseError), q2),
            }
        },
    }
}

/// Seconds and microseconds; a span over 32 bits of microseconds is refused.
pub open spec fn read_duration(q: Seq<u8>) -> (Result<u32, Error>, Seq<u8>) {
    let (a, q1) = read_u32(q);
    match a {
        Err(e) => (Err(e), q1),
        Ok(secs) => {
            let (b, q2) = read_u32(q1);
            match b {
                Err(e) => (Err(e), q2),
                Ok(usecs) => if secs * 1_000_000 + usecs <= u32::MAX {
                    (Ok((secs * 1_000_000 + usecs) as u32), q2)
                } else {
                    (Err(Error::ParseError), q2)
                },
            }
        },
    }
}

/// The start of a command: everything up to `<` is skipped, and a space must follow it.
pub open spec fn begin(q: Seq<u8>) -> (Result<(), Error>, Seq<u8>) {
    let k = first_of(q, 0, q.len() as int, '<' as u8);
    if k + 1 >= q.len() {
        (Err(Error::NoBeginFound), Seq::empty())
    } else if q[k + 1] == ' ' as u8 {
        (Ok(()), q.subrange(k + 2, q.len() as int))
    } else {
        (Err(Error::ParseError), q.subrange(k + 2, q.len() as int))
    }
}

/// The end of a command: the next byte must be `>`.
pub open spec fn end(q: Seq<u8>) -> (Result<(), Error>, Seq<u8>) {
    if q.len() == 0 {
        (Err(Error::NotFound), q)
    } else if q[0] == '>' as u8 {
        (Ok(()), q.drop_first())
    } else {
        (Err(Error::NotFound), q.drop_first())
    }
}

/// The value of a hex digit of either case.
pub fn hex_digit_value(b: u8) -> (r: Option<u8>)
    ensures
        r == hex_nibble(b),
{
    if 48 <= b && b <= 57 {
        Some(b - 48)
    } else if 97 <= b && b <= 102 {
        Some(b - 87)
    } else if 65 <= b && b <= 70 {
        Some(b - 55)
    } else {
        None
    }
}

/// Once reading hex bytes has failed, reading more fails the same way.
pub proof fn lemma_read_bytes_err(q: Seq<u8>, m: nat, n: nat)
    requires
        m <= n,
        read_bytes(q, m).0 is Err,
    ensures
        read_bytes(q, n) == read_bytes(q, m),
    decreases n,
{
    if m < n {
        lemma_read_bytes_err(q, m, (n - 1) as nat);
    }
}

/// The bytes received and not yet read.
pub struct CommandBuffer {
    buf: VecDeque<u8>,
}

impl View for CommandBuffer {
    type V = Seq<u8>;

    closed spec fn view(&self) -> Seq<u8> {
        self.buf@
    }
}

impl CommandBuffer {
    pub fn new() -> (r: CommandBuffer)
        ensures
            r@ == Seq::<u8>::empty(),
    {
        CommandBuffer { buf: VecDeque::new() }
    }

    /// The number of bytes held.
    pub fn len(&self) -> (r: usize)
        ensures
            r == self@.len(),
    {
        self.buf.len()
    }

    /// Appends `s`; where it does not all fit, what fits is kept and `BufIsFull` returned.
    pub fn append(&mut self, s: &[u8]) -> (r: Result<(), Error>)
        ensures
            old(self)@.len() + s@.len() <= CMD_BUF_SIZE || s@.len() == 0 ==> r is Ok
                && final(self)@ == old(self)@ + s@,
            old(self)@.len() + s@.len() > CMD_BUF_SIZE && s@.len() > 0 ==> r == Err::<
                (),
                Error,
            >(Error::BufIsFull)
                && final(self)@ == old(self)@ + s@.subrange(
                0,
                if old(self)@.len() <= CMD_BUF_SIZE {
                    CMD_BUF_SIZE - old(self)@.len()
                } else {
                    0
                },
            ),
    {
        let mut i: usize = 0;
        let mut full = false;
        let ghost n = if old(self)@.len() <= CMD_BUF_SIZE {
            CMD_BUF_SIZE - old(self)@.len()
        } else {
            0
        };
        while i < s.len() && !full
            invariant
                i <= s@.len(),
                !full ==> self@ == old(self)@ + s@.subrange(0, i as int),
                !full ==> old(self)@.len() + i <= CMD_BUF_SIZE || i == 0,
                !full && i > 0 ==> old(self)@.len() + i <= CMD_BUF_SIZE,
                full ==> self@ == old(self)@ + s@.subrange(0, n),
                full ==> old(self)@.len() + s@.len() > CMD_BUF_SIZE && s@.len() > 0,
                n == (if old(self)@.len() <= CMD_BUF_SIZE {
                    CMD_BUF_SIZE - old(self)@.len()
                } else {
                    0
                }),
            decreases s@.len() - i + (if full { 0int } else { 1int }),
        {
            if self.buf.len() >= CMD_BUF_SIZE {
                full = true;
                assert(n == i);
            } else {
                self.buf.push_back(s[i]);
                i += 1;
                assert(self@ =~= old(self)@ + s@.subrange(0, i as int));
            }
        }
        if full {
            Err(Error::BufIsFull)
        } else {
            assert(s@.subrange(0, s@.len() as int) =~= s@);
            Ok(())
        }
    }

    /// The next element, without the space after it.
    pub fn get_vec(&mut self) -> (r: Result<Vec<u8>, Error>)
        ensures
            match token(old(self)@) {
                (Ok(t), q) => r is Ok && r->Ok_0@ == t && final(self)@ == q,
                (Err(e), q) => r == Err::<Vec<u8>, Error>(e) && final(self)@ == q,
            },
    {
        let ghost q0 = self@;
        let mut s: Vec<u8> = Vec::new();
        let mut i: usize = 0;
        let mut status: u8 = 0;
        while status == 0
            invariant
                i <= q0.len(),
                self@ == q0.subrange(i as int, q0.len() as int),
                status == 0 ==> s@ == q0.subrange(0, i as int) && i <= TOKEN_SIZE,
                status == 0 ==> forall|j: int| 0 <= j < i ==> q0[j] != ' ' as u8,
                status == 1 ==> i == q0.len() && i <= TOKEN_SIZE && forall|j: int|
                    0 <= j < i ==> q0[j] != ' ' as u8,
                status == 2 ==> i >= 1 && q0[i - 1] == ' ' as u8 && s@ == q0.subrange(0, i - 1)
                    && i - 1 <= TOKEN_SIZE && forall|j: int| 0 <= j < i - 1 ==> q0[j] != ' ' as u8,
                status == 3 ==> i == TOKEN_SIZE + 1 && forall|j: int| 0 <= j < i ==> q0[j] != ' ' as u8,
                status <= 3,
            decreases q0.len() - i + (if status == 0 { 1int } else { 0int }),
        {
            match self.buf.pop_front() {
                None => {
                    status = 1;
                },
                Some(b) => {
                    assert(b == q0[i as int]);
                    i += 1;
                    assert(self@ =~= q0.subrange(i as int, q0.len() as int));
                    if b == 32 {
                        status = 2;
                    } else if s.len() == TOKEN_SIZE {
                        status = 3;
                    } else {
                        s.push(b);
                        assert(s@ =~= q0.subrange(0, i as int));
                    }
                },
            }
        }
        proof {
            lemma_first_of(q0, 0, q0.len() as int, ' ' as u8);
        }
        if status == 1 {
            proof {
                lemma_first_of_none(q0, 0, q0.len() as int, ' ' as u8);
                assert(self@ =~= Seq::<u8>::empty());
            }
            Err(Error::NotFound)
        } else if status == 2 {
            proof {
                lemma_first_of_at(q0, 0, q0.len() as int, ' ' as u8, i - 1);
            }
            Ok(s)
        } else {
            proof {
                let k = first_of(q0, 0, q0.len() as int, ' ' as u8);
                assert(k > TOKEN_SIZE) by {
                    if k <= TOKEN_SIZE {
                        assert(k < q0.len());
                        assert(q0[k] == ' ' as u8);
                    }
                }
            }
            Err(Error::BufIsFull)
        }
    }

    /// The next element as a Boolean: `0`/`false` or `1`/`true`.
    pub fn get_bool(&mut self) -> (r: Result<bool, Error>)
        ensures
            match token(old(self)@) {
                (Ok(t), q) => r == parse_bool_token(t) && final(self)@ == q,
                (Err(e), q) => r == Err::<bool, Error>(e) && final(self)@ == q,
            },
    {
        let s = self.get_vec()?;
        if s.len() == 1 && s[0] == 48 {
            assert(s@ =~= seq!['0' as u8]);
            Ok(false)
        } else if s.len() == 5 && s[0] == 102 && s[1] == 97 && s[2] == 108 && s[3] == 115 && s[4]
            == 101 {
            assert(s@ =~= seq!['f' as u8, 'a' as u8, 'l' as u8, 's' as u8, 'e' as u8]);
            Ok(false)
        } else if s.len() == 1 && s[0] == 49 {
            assert(s@ =~= seq!['1' as u8]);
            Ok(true)
        } else if s.len() == 4 && s[0] == 116 && s[1] == 114 && s[2] == 117 && s[3] == 101 {
            assert(s@ =~= seq!['t' as u8, 'r' as u8, 'u' as u8, 'e' as u8]);
            Ok(true)
        } else {
            let ghost t = s@;
            assert(t != seq!['0' as u8]) by {
                if t == seq!['0' as u8] {
                    assert(t[0] == 48);
                }
            }
            assert(t != seq!['1' as u8]) by {
                if t == seq!['1' as u8] {
                    assert(t[0] == 49);
                }
            }
            assert(t != seq!['t' as u8, 'r' as u8, 'u' as u8, 'e' as u8]) by {
                if t == seq!['t' as u8, 'r' as u8, 'u' as u8, 'e' as u8] {
                    assert(t[0] == 116 && t[1] == 114 && t[2] == 117 && t[3] == 101);
                }
            }
            assert(t != seq!['f' as u8, 'a' as u8, 'l' as u8, 's' as u8, 'e' as u8]) by {
                if t == seq!['f' as u8, 'a' as u8, 'l' as u8, 's' as u8, 'e' as u8] {
                    assert(t[0] == 102 && t[1] == 97 && t[2] == 108 && t[3] == 115 && t[4] == 101);
                }
            }
            Err(Error::ParseError)
        }
    }

    /// The next element as a decimal number.
    pub fn get_u32(&mut self) -> (r: Result<u32, Error>)
        ensures
            (r, final(self)@) == read_u32(old(self)@),
    {
        let bytes = self.get_vec()?;
        if bytes.len() == 0 {
            return Err(Error::ParseError);
        }
        match crate::codec::dec_of_slice(bytes.as_slice()) {
            Some(v) => Ok(v),
            None => Err(Error::ParseError),
        }
    }

    /// The next element as a decimal number, cut to 16 bits.
    pub fn get_u16(&mut self) -> (r: Result<u16, Error>)
        ensures
            match read_u32(old(self)@) {
                (Ok(v), q) => r == Ok::<u16, Error>(v as u16) && final(self)@ == q,
                (Err(e), q) => r == Err::<u16, Error>(e) && final(self)@ == q,
            },
    {
        let v = self.get_u32()?;
        Ok(#[verifier::truncate] (v as u16))
    }

    /// Skips to the next `<`, which must be followed by a space.
    pub fn is_begin(&mut self) -> (r: Result<(), Error>)
        ensures
            (r, final(self)@) == begin(old(self)@),
    {
        let ghost q0 = self@;
        let n = self.buf.len();
        let mut i: usize = 0;
        let mut status: u8 = 0;
        while status == 0
            invariant
                i <= q0.len(),
                n == q0.len(),
                self@ == q0.subrange(i as int, q0.len() as int),
                status == 0 ==> forall|j: int| 0 <= j < i ==> q0[j] != '<' as u8,
                status == 1 ==> i == q0.len() && forall|j: int| 0 <= j < i ==> q0[j] != '<' as u8,
                status == 2 ==> i >= 1 && q0[i - 1] == '<' as u8 && forall|j: int|
                    0 <= j < i - 1 ==> q0[j] != '<' as u8,
                status <= 2,
            decreases q0.len() - i + (if status == 0 { 1int } else { 0int }),
        {
            match self.buf.pop_front() {
                None => {
                    status = 1;
                },
                Some(b) => {
                    assert(b == q0[i as int]);
                    i += 1;
                    assert(self@ =~= q0.subrange(i as int, q0.len() as int));
                    if b == 60 {
                        status = 2;
                    }
                },
            }
        }
        if status == 1 {
            proof {
                lemma_first_of_none(q0, 0, q0.len() as int, '<' as u8);
                assert(self@ =~= Seq::<u8>::empty());
            }
            return Err(Error::NoBeginFound);
        }
        proof {
            lemma_first_of_at(q0, 0, q0.len() as int, '<' as u8, i - 1);
        }
        match self.buf.pop_front() {
            None => {
                assert(self@ =~= Seq::<u8>::empty());
                Err(Error::NoBeginFound)
            },
            Some(b) => {
                assert(b == q0[i as int]);
                assert(self@ =~= q0.subrange(i + 1, q0.len() as int));
                if b == 32 {
                    Ok(())
                } else {
                    Err(Error::ParseError)
                }
            },
        }
    }

    /// The next element as one or two hex digits.
    fn find_u8_hex(&mut self) -> (r: Result<u8, Error>)
        ensures
            (r, final(self)@) == read_hex_byte(old(self)@),
    {
        let bytes = self.get_vec()?;
        let l = bytes.len();
        if l == 0 || l > 2 {
            return Err(Error::ParseError);
        }
        let hi = match hex_digit_value(bytes[0]) {
            Some(d) => d,
            None => {
                return Err(Error::ParseError);
            },
        };
        if l == 1 {
            return Ok(hi);
        }
        match hex_digit_value(bytes[1]) {
            Some(d) => Ok(hi * 16 + d),
            None => Err(Error::ParseError),
        }
    }

    /// `n` elements, each a hex byte.
    fn get_hex_bytes(&mut self, n: u32) -> (r: Result<Vec<u8>, Error>)
        ensures
            match read_bytes(old(self)@, n as nat) {
                (Ok(v), q) => r is Ok && r->Ok_0@ == v && final(self)@ == q,
                (Err(e), q) => r == Err::<Vec<u8>, Error>(e) && final(self)@ == q,
            },
    {
        let ghost q0 = self@;
        let mut v: Vec<u8> = Vec::new();
        let mut i: u32 = 0;
        let mut err: Option<Error> = None;
        while i < n && err.is_none()
            invariant
                i <= n,
                err is None ==> read_bytes(q0, i as nat) == (Ok::<Seq<u8>, Error>(v@), self@),
                err is Some ==> i < n && read_bytes(q0, (i + 1) as nat) == (
                    Err::<Seq<u8>, Error>(err->Some_0),
                    self@,
                ),
            decreases n - i + (if err is None { 1int } else { 0int }),
        {
            match self.find_u8_hex() {
                Ok(b) => {
                    v.push(b);
                    i += 1;
                },
                Err(e) => {
                    err = Some(e);
                },
            }
        }
        match err {
            Some(e) => {
                proof {
                    lemma_read_bytes_err(q0, (i + 1) as nat, n as nat);
                }
                Err(e)
            },
            None => Ok(v),
        }
    }

    /// A length of at most eight, and that many hex bytes.
    pub fn get_data(&mut self) -> (r: Result<Vec<u8>, Error>)
        ensures
            match read_data(old(self)@) {
                (Ok(v), q) => r is Ok && r->Ok_0@ == v && final(self)@ == q,
                (Err(e), q) => r == Err::<Vec<u8>, Error>(e) && final(self)@ == q,
            },
    {
        let l = self.get_u32()?;
        if l > 8 {
            return Err(Error::ParseError);
        }
        self.get_hex_bytes(l)
    }

    /// Seconds and microseconds, as one span.
    pub fn get_duration(&mut self) -> (r: Result<Duration, Error>)
        ensures
            match read_duration(old(self)@) {
                (Ok(us), q) => r == Ok::<Duration, Error>(Duration(us)) && final(self)@ == q,
                (Err(e), q) => r == Err::<Duration, Error>(e) && final(self)@ == q,
            },
    {
        let secs = self.get_u32()?;
        let usecs = self.get_u32()?;
        let total: u64 = secs as u64 * 1_000_000 + usecs as u64;
        if total > 0xFFFF_FFFF {
            return Err(Error::ParseError);
        }
        Ok(Duration::from_usecs(total as u32))
    }

    /// A count of eight-byte groups, and their hex bytes: forty at most.
    pub fn get_mux_data(&mut self) -> (r: Result<Vec<u8>, Error>)
        ensures
            match read_mux(old(self)@) {
                (Ok(v), q) => r is Ok && r->Ok_0@ == v && final(self)@ == q,
                (Err(e), q) => r == Err::<Vec<u8>, Error>(e) && final(self)@ == q,
            },
    {
        let l = self.get_u32()?;
        if l <= 5 {
            self.get_hex_bytes(l * 8)
        } else {
            let _ = self.get_hex_bytes(41)?;
            Err(Error::ParseError)
        }
    }

    /// Takes the `>` that ends a command.
    pub fn is_end(&mut self) -> (r: Result<(), Error>)
        ensures
            (r, final(self)@) == end(old(self)@),
    {
        match self.buf.pop_front() {
            Some(b) => {
                if b == 62 {
                    Ok(())
                } else {
                    Err(Error::NotFound)
                }
            },
            None => Err(Error::NotFound),
        }
    }
}

} // verus!
