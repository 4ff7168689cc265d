use vstd::prelude::*;
use vstd::string::*;

use crate::codec::{bytes_eq, lit, push_all, tail_of, DeSer, DeSerState, Ser};

verus! {

broadcast use vstd::string::is_ascii_spec_bytes;

/// The closed set of errors that the bridge reports, to its callers and over the wire.
#[derive(Clone, Copy, Debug, PartialEq, Eq, Structural)]
pub enum Error {
    /// The output buffer would overflow.
    SerializeError,
    /// A field or a datagram is malformed.
    ParseError,
    /// The datagram's terminating newline has not arrived yet.
    EndNotFound,
    /// The buffer is full and data has been lost.
    BufIsFull,
    /// There is no data in the buffer.
    BufIsEmpty,
    /// The configuration image has no magic sentinel.
    MagicNotFound,
    /// No start sign was found in the byte stream.
    NoBeginFound,
    /// The function is not supported.
    NotSupported,
    /// The datagram's tag is not known.
    UnknownCommand,
    /// Stands for any error name that is not known.
    UnknownError,
}

impl Error {
    /// The name of the error on the wire.
    pub open spec fn name(self) -> Seq<u8> {
        match self {
            Error::SerializeError => lit("SerializeError"),
            Error::ParseError => lit("ParseError"),
            Error::EndNotFound => lit("EndNotFound"),
            Error::BufIsFull => lit("BufIsFull"),
            Error::BufIsEmpty => lit("BufIsEmpty"),
            Error::MagicNotFound => lit("MagicNotFound"),
            Error::NoBeginFound => lit("NoBeginFound"),
            Error::NotSupported => lit("NotSupported"),
            Error::UnknownCommand => lit("UnknownCommand"),
            Error::UnknownError => lit("UnknownError"),
        }
    }

    /// The error that a name stands for; any name that is not known gives `UnknownError`.
    pub open spec fn from_name(b: Seq<u8>) -> Error {
        if b == lit("SerializeError") {
            Error::SerializeError
        } else if b == lit("ParseError") {
            Error::ParseError
        } else if b == lit("EndNotFound") {
            Error::EndNotFound
        } else if b == lit("BufIsFull") {
            Error::BufIsFull
        } else if b == lit("BufIsEmpty") {
            Error::BufIsEmpty
        } else if b == lit("MagicNotFound") {
            Error::MagicNotFound
        } else if b == lit("NoBeginFound") {
            Error::NoBeginFound
        } else if b == lit("NotSupported") {
            Error::NotSupported
        } else if b == lit("UnknownCommand") {
            Error::UnknownCommand
        } else {
            Error::UnknownError
        }
    }

    /// The payload of an `$err` datagram: a comma and the name.
    pub open spec fn wire(self) -> Seq<u8> {
        seq![',' as u8] + self.name()
    }

    pub fn as_bytes(&self) -> (r: &'static [u8])
        ensures
            r@ == self.name(),
    {
        match self {
            Error::SerializeError => "SerializeError".as_bytes(),
            Error::ParseError => "ParseError".as_bytes(),
            Error::EndNotFound => "EndNotFound".as_bytes(),
            Error::BufIsFull => "BufIsFull".as_bytes(),
            Error::BufIsEmpty => "BufIsEmpty".as_bytes(),
            Error::MagicNotFound => "MagicNotFound".as_bytes(),
            Error::NoBeginFound => "NoBeginFound".as_bytes(),
            Error::NotSupported => "NotSupported".as_bytes(),
            Error::UnknownCommand => "UnknownCommand".as_bytes(),
            Error::UnknownError => "UnknownError".as_bytes(),
        }
    }

    /// Maps an error name to its error; this never fails.
    pub fn from_bytes(value: &[u8]) -> (r: Error)
        ensures
            r == Error::from_name(value@),
    {
        if bytes_eq(value, "SerializeError".as_bytes()) {
            Error::SerializeError
        } else if bytes_eq(value, "ParseError".as_bytes()) {
            Error::ParseError
        } else if bytes_eq(value, "EndNotFound".as_bytes()) {
            Error::EndNotFound
        } else if bytes_eq(value, "BufIsFull".as_bytes()) {
            Error::BufIsFull
        } else if bytes_eq(value, "BufIsEmpty".as_bytes()) {
            Error::BufIsEmpty
        } else if bytes_eq(value, "MagicNotFound".as_bytes()) {
            Error::MagicNotFound
        } else if bytes_eq(value, "NoBeginFound".as_bytes()) {
            Error::NoBeginFound
        } else if bytes_eq(value, "NotSupported".as_bytes()) {
            Error::NotSupported
        } else if bytes_eq(value, "UnknownCommand".as_bytes()) {
            Error::UnknownCommand
        } else {
            Error::UnknownError
        }
    }

    /// The wire form as bytes.
    pub fn wire_bytes(&self) -> (w: Vec<u8>)
        ensures
            w@ == self.wire(),
    {
        let mut w: Vec<u8> = Vec::new();
        w.push(',' as u8);
        push_all(&mut w, self.as_bytes());
        w
    }

    /// Appends `,<name>`.
    pub fn serialize<const CAP: usize>(&self, ser: &mut Ser<CAP>) -> (r: Result<(), Error>)
        ensures
            Ser::<CAP>::appended(old(ser)@, final(ser)@, self.wire(), r),
    {
        let w = self.wire_bytes();
        ser.add_slice(w.as_slice())
    }

    /// Reads the next field as an error name.
    pub fn deserialize<const CAP: usize>(deser: &mut DeSer<CAP>) -> (r: Result<Error, Error>)
        ensures
            r == Error::parse_spec(old(deser)@).0,
            final(deser)@ == Error::parse_spec(old(deser)@).1,
    {
        let field = deser.get_slice()?;
        let name = tail_of(&field);
        Ok(Error::from_bytes(&name))
    }

    /// What `deserialize` returns on a reader state, and the state after it.
    pub open spec fn parse_spec(st: DeSerState) -> (Result<Error, Error>, DeSerState) {
        match st.take_field() {
            Some((f, st2)) => (Ok(Error::from_name(f.drop_first())), st2),
            None => (Err(Error::ParseError), st.failed()),
        }
    }
}

impl<'a> From<&'a [u8]> for Error {
    fn from(value: &'a [u8]) -> (r: Error)
        ensures
            r == Error::from_name(value@),
    {
        Error::from_bytes(value)
    }
}

impl<'a> vstd::std_specs::convert::FromSpecImpl<&'a [u8]> for Error {
    open spec fn obeys_from_spec() -> bool {
        true
    }

    open spec fn from_spec(v: &'a [u8]) -> Error {
        Error::from_name(v@)
    }
}

/// Every error survives the trip through its wire name.
pub proof fn lemma_error_name_round_trip(e: Error)
    ensures
        Error::from_name(e.name()) == e,
        crate::codec::no_sep(e.name()),
{
    reveal_strlit("SerializeError");
    reveal_strlit("ParseError");
    reveal_strlit("EndNotFound");
    reveal_strlit("BufIsFull");
    reveal_strlit("BufIsEmpty");
    reveal_strlit("MagicNotFound");
    reveal_strlit("NoBeginFound");
    reveal_strlit("NotSupported");
    reveal_strlit("UnknownCommand");
    reveal_strlit("UnknownError");
    assert(is_ascii("SerializeError"));
    assert(is_ascii("ParseError"));
    assert(is_ascii("EndNotFound"));
    assert(is_ascii("BufIsFull"));
    assert(is_ascii("BufIsEmpty"));
    assert(is_ascii("MagicNotFound"));
    assert(is_ascii("NoBeginFound"));
    assert(is_ascii("NotSupported"));
    assert(is_ascii("UnknownCommand"));
    assert(is_ascii("UnknownError"));
    assert(lit("SerializeError").len() == 14 && lit("SerializeError")[0] == 'S' as u8 && lit("SerializeError")[2] == 'r' as u8);
    assert(lit("ParseError").len() == 10 && lit("ParseError")[0] == 'P' as u8 && lit("ParseError")[2] == 'r' as u8);
    assert(lit("EndNotFound").len() == 11 && lit("EndNotFound")[0] == 'E' as u8 && lit("EndNotFound")[2] == 'd' as u8);
    assert(lit("BufIsFull").len() == 9 && lit("BufIsFull")[0] == 'B' as u8 && lit("BufIsFull")[2] == 'f' as u8);
    assert(lit("BufIsEmpty").len() == 10 && lit("BufIsEmpty")[0] == 'B' as u8 && lit("BufIsEmpty")[2] == 'f' as u8);
    assert(lit("MagicNotFound").len() == 13 && lit("MagicNotFound")[0] == 'M' as u8 && lit("MagicNotFound")[2] == 'g' as u8);
    assert(lit("NoBeginFound").len() == 12 && lit("NoBeginFound")[0] == 'N' as u8 && lit("NoBeginFound")[2] == 'B' as u8);
    assert(lit("NotSupported").len() == 12 && lit("NotSupported")[0] == 'N' as u8 && lit("NotSupported")[2] == 't' as u8);
    assert(lit("UnknownCommand").len() == 14 && lit("UnknownCommand")[0] == 'U' as u8 && lit("UnknownCommand")[2] == 'k' as u8);
    assert(lit("UnknownError").len() == 12 && lit("UnknownError")[0] == 'U' as u8 && lit("UnknownError")[2] == 'k' as u8);
}

} // verus!
