use vstd::prelude::*;
use vstd::string::*;

use crate::error::Error;

verus! {

/// The bytes of an ASCII string literal.
pub open spec fn lit(s: &str) -> Seq<u8> {
    s.spec_bytes()
}

pub open spec fn is_sep(b: u8) -> bool {
    b == ',' as u8 || b == '\n' as u8
}

pub open spec fn dec_digit(d: int) -> u8 {
    (48 + d) as u8
}

pub open spec fn hex_digit(d: int) -> u8 {
    if d < 10 {
        (48 + d) as u8
    } else {
        (87 + d) as u8
    }
}

/// The minimal base-10 representation of `v`.
pub open spec fn dec_digits(v: nat) -> Seq<u8>
    decreases v,
{
    if v < 10 {
        seq![dec_digit(v as int)]
    } else {
        dec_digits(v / 10).push(dec_digit((v % 10) as int))
    }
}

/// The minimal lowercase base-16 representation of `v`.
pub open spec fn hex_digits(v: nat) -> Seq<u8>
    decreases v,
{
    if v < 16 {
        seq![hex_digit(v as int)]
    } else {
        hex_digits(v / 16).push(hex_digit((v % 16) as int))
    }
}

/// `hex_digits(v)`, left-padded with `'0'` to at least `pad` digits.
pub open spec fn hex_padded(v: nat, pad: nat) -> Seq<u8> {
    let d = hex_digits(v);
    if d.len() < pad {
        Seq::new((pad - d.len()) as nat, |i: int| '0' as u8) + d
    } else {
        d
    }
}

/// Each byte as two lowercase hex digits, high nibble first.
pub open spec fn hex_bytes(s: Seq<u8>) -> Seq<u8>
    decreases s.len(),
{
    if s.len() == 0 {
        Seq::empty()
    } else {
        hex_bytes(s.drop_last()) + seq![hex_digit(s.last() as int / 16), hex_digit(s.last() as int % 16)]
    }
}

pub open spec fn is_dec(b: u8) -> bool {
    48 <= b <= 57
}

pub open spec fn is_hex(b: u8) -> bool {
    48 <= b <= 57 || 97 <= b <= 102
}

pub open spec fn all_dec(s: Seq<u8>) -> bool {
    forall|i: int| 0 <= i < s.len() ==> #[trigger] is_dec(s[i])
}

pub open spec fn all_hex(s: Seq<u8>) -> bool {
    forall|i: int| 0 <= i < s.len() ==> #[trigger] is_hex(s[i])
}

pub open spec fn nibble(b: u8) -> int {
    if b <= 57 {
        b - 48
    } else {
        b - 87
    }
}

/// The number that a string of decimal digits stands for.
pub open spec fn dec_value(s: Seq<u8>) -> nat
    decreases s.len(),
{
    if s.len() == 0 {
        0
    } else {
        dec_value(s.drop_last()) * 10 + (s.last() - 48) as nat
    }
}

/// The number that a string of hex digits stands for.
pub open spec fn hex_value(s: Seq<u8>) -> nat
    decreases s.len(),
{
    if s.len() == 0 {
        0
    } else {
        hex_value(s.drop_last()) * 16 + nibble(s.last()) as nat
    }
}

/// The bytes that a string of hex digit pairs stands for.
pub open spec fn hex_decode(s: Seq<u8>) -> Seq<u8>
    decreases s.len(),
{
    if s.len() < 2 {
        Seq::empty()
    } else {
        hex_decode(s.subrange(0, s.len() - 2)).push(
            (nibble(s[s.len() - 2]) * 16 + nibble(s[s.len() - 1])) as u8,
        )
    }
}

pub open spec fn parse_dec(s: Seq<u8>) -> Result<u32, Error> {
    if all_dec(s) && dec_value(s) <= u32::MAX {
        Ok(dec_value(s) as u32)
    } else {
        Err(Error::ParseError)
    }
}

pub open spec fn parse_hex(s: Seq<u8>) -> Result<u32, Error> {
    if all_hex(s) && hex_value(s) <= u32::MAX {
        Ok(hex_value(s) as u32)
    } else {
        Err(Error::ParseError)
    }
}

/// One byte: `0` is false, any other is true.
pub open spec fn parse_bool(s: Seq<u8>) -> Result<bool, Error> {
    if s.len() == 1 {
        Ok(s[0] != '0' as u8)
    } else {
        Err(Error::ParseError)
    }
}

/// An even number of lowercase hex digits, at most eight bytes' worth.
pub open spec fn parse_hex_bytes(s: Seq<u8>) -> Result<Seq<u8>, Error> {
    if s.len() % 2 == 0 && all_hex(s) && s.len() <= 16 {
        Ok(hex_decode(s))
    } else {
        Err(Error::ParseError)
    }
}

/// The index of the first separator at or after `i`, or the length where there is none.
pub open spec fn find_sep(s: Seq<u8>, i: int) -> int
    decreases s.len() - i,
{
    if i >= s.len() {
        s.len() as int
    } else if is_sep(s[i]) {
        i
    } else {
        find_sep(s, i + 1)
    }
}

/// What a reader holds: its bytes, where the next field starts, and whether a field has
/// ended with a newline.
pub struct DeSerState {
    pub bytes: Seq<u8>,
    pub head: int,
    pub end: bool,
}

impl DeSerState {
    pub open spec fn fresh(bytes: Seq<u8>) -> DeSerState {
        DeSerState { bytes, head: 0, end: false }
    }

    /// The next field (with its leading byte) and the state after it, where a separator
    /// ends it.
    pub open spec fn take_field(self) -> Option<(Seq<u8>, DeSerState)> {
        let j = find_sep(self.bytes, self.head + 1);
        if 0 <= self.head && j < self.bytes.len() {
            Some(
                (
                    self.bytes.subrange(self.head, j),
                    DeSerState {
                        bytes: self.bytes,
                        head: j,
                        end: self.end || self.bytes[j] == '\n' as u8,
                    },
                ),
            )
        } else {
            None
        }
    }

    /// The state after a field that has no separator.
    pub open spec fn failed(self) -> DeSerState {
        DeSerState { bytes: self.bytes, head: self.bytes.len() as int, end: self.end }
    }

    /// Reads one field and hands the bytes after its leading byte to `f`.
    pub open spec fn read<T>(self, f: spec_fn(Seq<u8>) -> Result<T, Error>) -> (
        Result<T, Error>,
        DeSerState,
    ) {
        match self.take_field() {
            Some((fd, st)) => (f(fd.drop_first()), st),
            None => (Err(Error::ParseError), self.failed()),
        }
    }
}

pub fn bytes_eq(a: &[u8], b: &[u8]) -> (r: bool)
    ensures
        r == (a@ == b@),
{
    if a.len() != b.len() {
        return false;
    }
    let mut i: usize = 0;
    while i < a.len()
        invariant
            a@.len() == b@.len(),
            i <= a@.len(),
            forall|k: int| 0 <= k < i ==> a@[k] == b@[k],
        decreases a@.len() - i,
    {
        if a[i] != b[i] {
            return false;
        }
        i += 1;
    }
    assert(a@ =~= b@);
    true
}

pub fn push_all(out: &mut Vec<u8>, s: &[u8])
    ensures
        final(out)@ == old(out)@ + s@,
{
    let mut i: usize = 0;
    while i < s.len()
        invariant
            i <= s@.len(),
            out@ == old(out)@ + s@.subrange(0, i as int),
        decreases s@.len() - i,
    {
        out.push(s[i]);
        i += 1;
        assert(out@ =~= old(out)@ + s@.subrange(0, i as int));
    }
    assert(s@.subrange(0, s@.len() as int) =~= s@);
}

/// The bytes after the first one.
pub fn tail_of(s: &Vec<u8>) -> (r: Vec<u8>)
    requires
        s@.len() >= 1,
    ensures
        r@ == s@.drop_first(),
{
    let mut out: Vec<u8> = Vec::new();
    let mut i: usize = 1;
    while i < s.len()
        invariant
            1 <= i <= s@.len(),
            out@ == s@.subrange(1, i as int),
        decreases s@.len() - i,
    {
        out.push(s[i]);
        i += 1;
        assert(out@ =~= s@.subrange(1, i as int));
    }
    out
}

pub fn dec_of(v: u32) -> (r: Vec<u8>)
    ensures
        r@ == dec_digits(v as nat),
{
    let mut out: Vec<u8> = Vec::new();
    out.push((v % 10) as u8 + 48);
    let mut i: u32 = v / 10;
    assert(v >= 10 ==> dec_digits(v as nat) =~= dec_digits(i as nat) + out@);
    while i > 0
        invariant
            dec_digits(v as nat) == (if i == 0 {
                Seq::<u8>::empty()
            } else {
                dec_digits(i as nat)
            }) + out@,
        decreases i,
    {
        let d = (i % 10) as u8 + 48;
        let ghost before = out@;
        out.insert(0, d);
        assert(out@ =~= seq![d] + before);
        if i < 10 {
            assert(dec_digits(i as nat) =~= seq![d]);
        } else {
            assert(dec_digits(i as nat) + before =~= dec_digits((i / 10) as nat) + out@);
        }
        i = i / 10;
    }
    assert(out@ =~= Seq::<u8>::empty() + out@);
    out
}

pub fn hex_of(v: u32) -> (r: Vec<u8>)
    ensures
        r@ == hex_digits(v as nat),
{
    let mut out: Vec<u8> = Vec::new();
    let c = (v % 16) as u8;
    out.push(if c < 10 { c + 48 } else { c + 87 });
    let mut i: u32 = v / 16;
    assert(v >= 16 ==> hex_digits(v as nat) =~= hex_digits(i as nat) + out@);
    while i > 0
        invariant
            hex_digits(v as nat) == (if i == 0 {
                Seq::<u8>::empty()
            } else {
                hex_digits(i as nat)
            }) + out@,
        decreases i,
    {
        let c = (i % 16) as u8;
        let d = if c < 10 { c + 48 } else { c + 87 };
        let ghost before = out@;
        out.insert(0, d);
        assert(out@ =~= seq![d] + before);
        if i < 16 {
            assert(hex_digits(i as nat) =~= seq![d]);
        } else {
            assert(hex_digits(i as nat) + before =~= hex_digits((i / 16) as nat) + out@);
        }
        i = i / 16;
    }
    assert(out@ =~= Seq::<u8>::empty() + out@);
    out
}

pub fn hex_padded_of(v: u32, pad: usize) -> (r: Vec<u8>)
    ensures
        r@ == hex_padded(v as nat, pad as nat),
{
    let mut out = hex_of(v);
    let ghost d = out@;
    assert(out@ =~= Seq::new(0, |i: int| '0' as u8) + d);
    while out.len() < pad
        invariant
            d == hex_digits(v as nat),
            out@.len() >= d.len(),
            d.len() >= pad ==> out@.len() == d.len(),
            d.len() < pad ==> out@.len() <= pad,
            out@ == Seq::new((out@.len() - d.len()) as nat, |i: int| '0' as u8) + d,
        decreases pad - out@.len(),
    {
        let ghost before = out@;
        out.insert(0, 48);
        assert(out@ =~= Seq::new((out@.len() - d.len()) as nat, |i: int| '0' as u8) + d);
    }
    proof {
        if d.len() >= pad {
            assert(out@ =~= d);
        }
    }
    out
}

pub fn hex_of_bytes(s: &[u8]) -> (r: Vec<u8>)
    ensures
        r@ == hex_bytes(s@),
{
    let mut out: Vec<u8> = Vec::new();
    let mut i: usize = 0;
    while i < s.len()
        invariant
            i <= s@.len(),
            out@ == hex_bytes(s@.subrange(0, i as int)),
        decreases s@.len() - i,
    {
        let b = s[i];
        let hi = b / 16;
        let lo = b % 16;
        out.push(if hi < 10 { hi + 48 } else { hi + 87 });
        out.push(if lo < 10 { lo + 48 } else { lo + 87 });
        let ghost p = s@.subrange(0, i + 1);
        assert(p.drop_last() =~= s@.subrange(0, i as int));
        i += 1;
        assert(out@ =~= hex_bytes(s@.subrange(0, i as int)));
    }
    assert(s@.subrange(0, s@.len() as int) =~= s@);
    out
}

/// The number that a string of decimal digits stands for, where it is one and fits in 32
/// bits.
pub fn dec_of_slice(s: &[u8]) -> (r: Option<u32>)
    ensures
        r == (if all_dec(s@) && dec_value(s@) <= u32::MAX {
            Some(dec_value(s@) as u32)
        } else {
            None
        }),
{
    let mut r: u32 = 0;
    let mut k: usize = 0;
    while k < s.len()
        invariant
            k <= s@.len(),
            all_dec(s@.subrange(0, k as int)),
            r as nat == dec_value(s@.subrange(0, k as int)),
        decreases s@.len() - k,
    {
        let b = s[k];
        if b < 48 || b > 57 {
            assert(!is_dec(s@[k as int]));
            return None;
        }
        let t: u64 = (r as u64) * 10 + (b - 48) as u64;
        let ghost p = s@.subrange(0, k + 1);
        assert(p.drop_last() =~= s@.subrange(0, k as int));
        assert(dec_value(p) == t);
        if t > 0xFFFF_FFFF {
            proof {
                if all_dec(s@) {
                    lemma_dec_value_prefix(s@, k + 1);
                }
            }
            return None;
        }
        r = t as u32;
        k += 1;
    }
    assert(s@.subrange(0, k as int) =~= s@);
    Some(r)
}

/// A fixed-capacity byte writer.
pub struct Ser<const CAP: usize> {
    buf: Vec<u8>,
}

impl<const CAP: usize> View for Ser<CAP> {
    type V = Seq<u8>;

    closed spec fn view(&self) -> Seq<u8> {
        self.buf@
    }
}

impl<const CAP: usize> Ser<CAP> {
    /// How a writer changes when `w` is appended: all of it where it fits, else nothing.
    pub open spec fn appended(old: Seq<u8>, new: Seq<u8>, w: Seq<u8>, r: Result<(), Error>) -> bool {
        &&& (r is Ok <==> old.len() + w.len() <= CAP)
        &&& (r is Ok ==> new == old + w)
        &&& (r is Err ==> r == Err::<(), Error>(Error::SerializeError) && new == old)
    }

    pub fn new() -> (s: Self)
        ensures
            s@ == Seq::<u8>::empty(),
    {
        Ser { buf: Vec::new() }
    }

    pub fn add_slice(&mut self, slice: &[u8]) -> (r: Result<(), Error>)
        ensures
            Self::appended(old(self)@, final(self)@, slice@, r),
    {
        if slice.len() <= CAP && self.buf.len() <= CAP - slice.len() {
            push_all(&mut self.buf, slice);
            Ok(())
        } else {
            Err(Error::SerializeError)
        }
    }

    pub fn add_byte(&mut self, b: u8) -> (r: Result<(), Error>)
        ensures
            Self::appended(old(self)@, final(self)@, seq![b], r),
    {
        if self.buf.len() < CAP {
            self.buf.push(b);
            assert(self.buf@ =~= old(self)@ + seq![b]);
            Ok(())
        } else {
            Err(Error::SerializeError)
        }
    }

    pub fn add_bool(&mut self, b: bool) -> (r: Result<(), Error>)
        ensures
            Self::appended(
                old(self)@,
                final(self)@,
                seq![if b { '1' as u8 } else { '0' as u8 }],
                r,
            ),
    {
        self.add_byte(if b { 49 } else { 48 })
    }

    pub fn add_uint(&mut self, i: u32) -> (r: Result<(), Error>)
        ensures
            Self::appended(old(self)@, final(self)@, dec_digits(i as nat), r),
    {
        let d = dec_of(i);
        self.add_slice(d.as_slice())
    }

    /// Appends `i` in hex, padded with `0` to at least `pad_len` digits.
    pub fn add_uint_hex(&mut self, i: u32, pad_len: usize) -> (r: Result<(), Error>)
        ensures
            Self::appended(old(self)@, final(self)@, hex_padded(i as nat, pad_len as nat), r),
    {
        if pad_len > CAP {
            assert(hex_padded(i as nat, pad_len as nat).len() >= pad_len);
            return Err(Error::SerializeError);
        }
        let d = hex_padded_of(i, pad_len);
        self.add_slice(d.as_slice())
    }

    pub fn add_slice_hex(&mut self, slice: &[u8]) -> (r: Result<(), Error>)
        ensures
            Self::appended(old(self)@, final(self)@, hex_bytes(slice@), r),
    {
        let d = hex_of_bytes(slice);
        self.add_slice(d.as_slice())
    }

    pub fn as_slice(&self) -> (r: &[u8])
        ensures
            r@ == self@,
    {
        self.buf.as_slice()
    }

    pub fn len(&self) -> (r: usize)
        ensures
            r == self@.len(),
    {
        self.buf.len()
    }
}

impl<const CAP: usize> Default for Ser<CAP> {
    fn default() -> (s: Self)
        ensures
            s@ == Seq::<u8>::empty(),
    {
        Ser::new()
    }
}

/// A fixed-capacity reader of comma- or newline-terminated fields.
pub struct DeSer<const CAP: usize> {
    vec: Vec<u8>,
    head: usize,
    is_end: bool,
}

impl<const CAP: usize> View for DeSer<CAP> {
    type V = DeSerState;

    closed spec fn view(&self) -> DeSerState {
        DeSerState { bytes: self.vec@, head: self.head as int, end: self.is_end }
    }
}

impl<const CAP: usize> DeSer<CAP> {
    pub fn new() -> (s: Self)
        ensures
            s@ == DeSerState::fresh(Seq::empty()),
    {
        DeSer { vec: Vec::new(), head: 0, is_end: false }
    }

    pub fn from_slice(slice: &[u8]) -> (r: Result<Self, Error>)
        ensures
            slice@.len() <= CAP ==> r is Ok && r->Ok_0@ == DeSerState::fresh(slice@),
            slice@.len() > CAP ==> r is Err && r->Err_0 == Error::NotSupported,
    {
        if slice.len() > CAP {
            return Err(Error::NotSupported);
        }
        let mut vec: Vec<u8> = Vec::new();
        push_all(&mut vec, slice);
        assert(vec@ =~= slice@);
        Ok(DeSer { vec, head: 0, is_end: false })
    }

    /// Empties the bytes; where the next field starts and the end flag are kept.
    pub fn clear(&mut self)
        ensures
            final(self)@ == (DeSerState { bytes: Seq::empty(), ..old(self)@ }),
    {
        self.vec.clear();
    }

    pub fn extend_from_slice(&mut self, src: &[u8]) -> (r: Result<(), Error>)
        ensures
            r is Ok <==> old(self)@.bytes.len() + src@.len() <= CAP,
            r is Ok ==> final(self)@ == (DeSerState { bytes: old(self)@.bytes + src@, ..old(self)@ }),
            r is Err ==> r->Err_0 == Error::BufIsFull && final(self)@ == old(self)@,
    {
        if src.len() <= CAP && self.vec.len() <= CAP - src.len() {
            push_all(&mut self.vec, src);
            Ok(())
        } else {
            Err(Error::BufIsFull)
        }
    }

    pub fn as_slice(&self) -> (r: &[u8])
        ensures
            r@ == self@.bytes,
    {
        self.vec.as_slice()
    }

    pub fn capacity(&self) -> (r: usize)
        ensures
            r == CAP,
    {
        CAP
    }

    pub fn is_end(&self) -> (r: bool)
        ensures
            r == self@.end,
    {
        self.is_end
    }

    pub fn push(&mut self, b: u8) -> (r: Result<(), Error>)
        ensures
            r is Ok <==> old(self)@.bytes.len() < CAP,
            r is Ok ==> final(self)@ == (DeSerState { bytes: old(self)@.bytes.push(b), ..old(self)@ }),
            r is Err ==> r->Err_0 == Error::BufIsFull && final(self)@ == old(self)@,
    {
        if self.vec.len() < CAP {
            self.vec.push(b);
            Ok(())
        } else {
            Err(Error::BufIsFull)
        }
    }

    /// The next field, with its leading byte (the `$` of a tag, or the separator that
    /// ended the field before).
    pub fn get_slice(&mut self) -> (r: Result<Vec<u8>, Error>)
        ensures
            match old(self)@.take_field() {
                Some((f, st)) => r is Ok && r->Ok_0@ == f && final(self)@ == st,
                None => r is Err && r->Err_0 == Error::ParseError && final(self)@ == old(
                    self,
                )@.failed(),
            },
            r is Ok ==> r->Ok_0@.len() >= 1,
    {
        let start = self.head;
        if start >= self.vec.len() {
            self.head = self.vec.len();
            return Err(Error::ParseError);
        }
        proof {
            lemma_find_sep(self.vec@, self.head + 1);
        }
        let mut j: usize = start + 1;
        while j < self.vec.len() && !(self.vec[j] == 44 || self.vec[j] == 10)
            invariant
                start < j <= self.vec@.len(),
                self.vec@ == old(self).vec@,
                self.head == start,
                self.is_end == old(self).is_end,
                find_sep(self.vec@, start + 1) == find_sep(self.vec@, j as int),
            decreases self.vec@.len() - j,
        {
            j += 1;
        }
        if j >= self.vec.len() {
            self.head = self.vec.len();
            return Err(Error::ParseError);
        }
        let mut out: Vec<u8> = Vec::new();
        let mut k: usize = start;
        while k < j
            invariant
                start <= k <= j,
                j < self.vec@.len(),
                out@ == self.vec@.subrange(start as int, k as int),
            decreases j - k,
        {
            out.push(self.vec[k]);
            k += 1;
            assert(out@ =~= self.vec@.subrange(start as int, k as int));
        }
        if self.vec[j] == 10 {
            self.is_end = true;
        }
        self.head = j;
        Ok(out)
    }

    pub fn get_bool(&mut self) -> (r: Result<bool, Error>)
        ensures
            r == old(self)@.read(|s: Seq<u8>| parse_bool(s)).0,
            final(self)@ == old(self)@.read(|s: Seq<u8>| parse_bool(s)).1,
    {
        let field = self.get_slice()?;
        if field.len() == 2 {
            Ok(field[1] != 48)
        } else {
            Err(Error::ParseError)
        }
    }

    pub fn get_u32(&mut self) -> (r: Result<u32, Error>)
        ensures
            r == old(self)@.read(|s: Seq<u8>| parse_dec(s)).0,
            final(self)@ == old(self)@.read(|s: Seq<u8>| parse_dec(s)).1,
    {
        let field = self.get_slice()?;
        let ghost s = field@.drop_first();
        let ghost st = self@;
        let mut r: u32 = 0;
        let mut k: usize = 1;
        while k < field.len()
            invariant
                1 <= k <= field@.len(),
                s == field@.drop_first(),
                field@.len() >= 1,
                self@ == st,
                old(self)@.take_field() == Some((field@, st)),
                all_dec(s.subrange(0, k - 1)),
                r as nat == dec_value(s.subrange(0, k - 1)),
            decreases field@.len() - k,
        {
            let b = field[k];
            if b < 48 || b > 57 {
                assert(!is_dec(s[k - 1]));
                return Err(Error::ParseError);
            }
            let t: u64 = (r as u64) * 10 + (b - 48) as u64;
            let ghost p = s.subrange(0, k as int);
            assert(p.drop_last() =~= s.subrange(0, k - 1));
            assert(dec_value(p) == t);
            if t > 0xFFFF_FFFF {
                proof {
                    if all_dec(s) {
                        lemma_dec_value_prefix(s, k as int);
                    }
                }
                return Err(Error::ParseError);
            }
            r = t as u32;
            k += 1;
        }
        assert(s.subrange(0, k - 1) =~= s);
        Ok(r)
    }

    pub fn get_u32_hex(&mut self) -> (r: Result<u32, Error>)
        ensures
            r == old(self)@.read(|s: Seq<u8>| parse_hex(s)).0,
            final(self)@ == old(self)@.read(|s: Seq<u8>| parse_hex(s)).1,
    {
        let field = self.get_slice()?;
        let ghost s = field@.drop_first();
        let ghost st = self@;
        let mut r: u32 = 0;
        let mut k: usize = 1;
        while k < field.len()
            invariant
                1 <= k <= field@.len(),
                s == field@.drop_first(),
                field@.len() >= 1,
                self@ == st,
                old(self)@.take_field() == Some((field@, st)),
                all_hex(s.subrange(0, k - 1)),
                r as nat == hex_value(s.subrange(0, k - 1)),
            decreases field@.len() - k,
        {
            let b = field[k];
            let d: u8 = if 48 <= b && b <= 57 {
                b - 48
            } else if 97 <= b && b <= 102 {
                b - 87
            } else {
                assert(!is_hex(s[k - 1]));
                return Err(Error::ParseError);
            };
            let t: u64 = (r as u64) * 16 + d as u64;
            let ghost p = s.subrange(0, k as int);
            assert(p.drop_last() =~= s.subrange(0, k - 1));
            assert(hex_value(p) == t);
            if t > 0xFFFF_FFFF {
                proof {
                    if all_hex(s) {
                        lemma_hex_value_prefix(s, k as int);
                    }
                }
                return Err(Error::ParseError);
            }
            r = t as u32;
            k += 1;
        }
        assert(s.subrange(0, k - 1) =~= s);
        Ok(r)
    }

    pub fn get_slice_hex(&mut self) -> (r: Result<Vec<u8>, Error>)
        ensures
            match old(self)@.read(|s: Seq<u8>| parse_hex_bytes(s)) {
                (Ok(v), st) => r is Ok && r->Ok_0@ == v && final(self)@ == st,
                (Err(e), st) => r is Err && r->Err_0 == e && final(self)@ == st,
            },
            r is Ok ==> r->Ok_0@.len() <= 8,
    {
        let field = self.get_slice()?;
        let ghost s = field@.drop_first();
        let ghost st = self@;
        let n = field.len() - 1;
        if n % 2 == 1 || n > 16 {
            return Err(Error::ParseError);
        }
        let mut out: Vec<u8> = Vec::new();
        let mut k: usize = 0;
        while k < n
            invariant
                n == s.len(),
                field@.len() == n + 1,
                n % 2 == 0,
                n <= 16,
                k % 2 == 0,
                k <= n,
                s == field@.drop_first(),
                field@.len() >= 1,
                self@ == st,
                old(self)@.take_field() == Some((field@, st)),
                all_hex(s.subrange(0, k as int)),
                out@ == hex_decode(s.subrange(0, k as int)),
                out@.len() == k / 2,
            decreases n - k,
        {
            let hi = field[k + 1];
            let lo = field[k + 2];
            if !((48 <= hi && hi <= 57) || (97 <= hi && hi <= 102)) {
                assert(!is_hex(s[k as int]));
                return Err(Error::ParseError);
            }
            if !((48 <= lo && lo <= 57) || (97 <= lo && lo <= 102)) {
                assert(!is_hex(s[k + 1]));
                return Err(Error::ParseError);
            }
            let h = if hi <= 57 { hi - 48 } else { hi - 87 };
            let l = if lo <= 57 { lo - 48 } else { lo - 87 };
            out.push(h * 16 + l);
            let ghost p = s.subrange(0, k + 2);
            assert(p.subrange(0, p.len() - 2) =~= s.subrange(0, k as int));
            k += 2;
            assert(out@ =~= hex_decode(s.subrange(0, k as int)));
        }
        assert(s.subrange(0, k as int) =~= s);
        Ok(out)
    }
}

impl<const CAP: usize> Default for DeSer<CAP> {
    fn default() -> (s: Self)
        ensures
            s@ == DeSerState::fresh(Seq::empty()),
    {
        DeSer::new()
    }
}

pub proof fn lemma_find_sep(s: Seq<u8>, i: int)
    requires
        0 <= i <= s.len(),
    ensures
        i <= find_sep(s, i) <= s.len(),
        find_sep(s, i) < s.len() ==> is_sep(s[find_sep(s, i)]),
        forall|k: int| i <= k < find_sep(s, i) ==> !is_sep(#[trigger] s[k]),
    decreases s.len() - i,
{
    if i < s.len() && !is_sep(s[i]) {
        lemma_find_sep(s, i + 1);
    }
}

pub proof fn lemma_dec_value_prefix(s: Seq<u8>, k: int)
    requires
        all_dec(s),
        0 <= k <= s.len(),
    ensures
        dec_value(s.subrange(0, k)) <= dec_value(s),
    decreases s.len() - k,
{
    if k < s.len() {
        let d = s.drop_last();
        assert(all_dec(d)) by {
            assert forall|i: int| 0 <= i < d.len() implies #[trigger] is_dec(d[i]) by {
                assert(is_dec(s[i]));
            }
        }
        lemma_dec_value_prefix(d, k);
        assert(d.subrange(0, k) =~= s.subrange(0, k));
    } else {
        assert(s.subrange(0, k) =~= s);
    }
}

pub proof fn lemma_hex_value_prefix(s: Seq<u8>, k: int)
    requires
        all_hex(s),
        0 <= k <= s.len(),
    ensures
        hex_value(s.subrange(0, k)) <= hex_value(s),
    decreases s.len() - k,
{
    if k < s.len() {
        let d = s.drop_last();
        assert(all_hex(d)) by {
            assert forall|i: int| 0 <= i < d.len() implies #[trigger] is_hex(d[i]) by {
                assert(is_hex(s[i]));
            }
        }
        lemma_hex_value_prefix(d, k);
        assert(d.subrange(0, k) =~= s.subrange(0, k));
    } else {
        assert(s.subrange(0, k) =~= s);
    }
}

/// No byte of `s` ends a field.
pub open spec fn no_sep(s: Seq<u8>) -> bool {
    forall|i: int| 0 <= i < s.len() ==> !is_sep(#[trigger] s[i])
}

pub proof fn lemma_find_sep_skip(s: Seq<u8>, i: int, j: int)
    requires
        0 <= i <= j < s.len(),
        forall|k: int| i <= k < j ==> !is_sep(#[trigger] s[k]),
        is_sep(s[j]),
    ensures
        find_sep(s, i) == j,
    decreases j - i,
{
    if i < j {
        lemma_find_sep_skip(s, i + 1, j);
    }
}

/// A field `x ++ field` followed by a separator is taken whole.
pub proof fn lemma_take_field(pre: Seq<u8>, x: u8, field: Seq<u8>, rest: Seq<u8>, end: bool)
    requires
        no_sep(field),
        rest.len() >= 1,
        is_sep(rest[0]),
    ensures
        ({
            let s = pre + seq![x] + field + rest;
            (DeSerState { bytes: s, head: pre.len() as int, end }).take_field() == Some(
                (
                    seq![x] + field,
                    DeSerState {
                        bytes: s,
                        head: (pre.len() + 1 + field.len()) as int,
                        end: end || rest[0] == '\n' as u8,
                    },
                ),
            )
        }),
{
    let s = pre + seq![x] + field + rest;
    let h = pre.len() as int;
    let j = h + 1 + field.len();
    assert(s[j] == rest[0]);
    assert forall|k: int| h + 1 <= k < j implies !is_sep(#[trigger] s[k]) by {
        assert(s[k] == field[k - h - 1]);
    }
    lemma_find_sep_skip(s, h + 1, j);
    assert(s.subrange(h, j) =~= seq![x] + field);
}

pub proof fn lemma_hex_digits(v: nat)
    ensures
        all_hex(hex_digits(v)),
        no_sep(hex_digits(v)),
        hex_value(hex_digits(v)) == v,
        1 <= hex_digits(v).len(),
    decreases v,
{
    if v >= 16 {
        lemma_hex_digits(v / 16);
        let d = hex_digits(v);
        assert(d.drop_last() =~= hex_digits(v / 16));
        assert(nibble(hex_digit((v % 16) as int)) == v % 16);
        assert(hex_value(d) == hex_value(hex_digits(v / 16)) * 16 + v % 16);
        assert((v / 16) * 16 + v % 16 == v) by (nonlinear_arith);
    } else {
        let d = hex_digits(v);
        assert(d.drop_last() =~= Seq::<u8>::empty());
        assert(nibble(hex_digit(v as int)) == v);
        assert(hex_value(d) == hex_value(d.drop_last()) * 16 + nibble(d.last()) as nat);
        assert(hex_value(Seq::<u8>::empty()) == 0);
    }
}

pub proof fn lemma_dec_digits(v: nat)
    ensures
        all_dec(dec_digits(v)),
        no_sep(dec_digits(v)),
        dec_value(dec_digits(v)) == v,
        1 <= dec_digits(v).len(),
    decreases v,
{
    if v >= 10 {
        lemma_dec_digits(v / 10);
        let d = dec_digits(v);
        assert(d.drop_last() =~= dec_digits(v / 10));
        assert(dec_value(d) == dec_value(dec_digits(v / 10)) * 10 + v % 10);
        assert((v / 10) * 10 + v % 10 == v) by (nonlinear_arith);
    } else {
        let d = dec_digits(v);
        assert(d.drop_last() =~= Seq::<u8>::empty());
        assert(dec_value(d) == dec_value(d.drop_last()) * 10 + (d.last() - 48) as nat);
        assert(dec_value(Seq::<u8>::empty()) == 0);
    }
}

pub proof fn lemma_hex_bytes(s: Seq<u8>)
    ensures
        all_hex(hex_bytes(s)),
        no_sep(hex_bytes(s)),
        hex_bytes(s).len() == 2 * s.len(),
        hex_decode(hex_bytes(s)) == s,
    decreases s.len(),
{
    if s.len() > 0 {
        let t = s.drop_last();
        lemma_hex_bytes(t);
        let h = hex_bytes(s);
        let b = s.last();
        assert(h.subrange(0, h.len() - 2) =~= hex_bytes(t));
        assert(nibble(hex_digit(b as int / 16)) == b as int / 16);
        assert(nibble(hex_digit(b as int % 16)) == b as int % 16);
        assert((b as int / 16) * 16 + b as int % 16 == b) by (nonlinear_arith);
        assert(hex_decode(h) =~= s);
    } else {
        assert(hex_decode(hex_bytes(s)) =~= s);
    }
}

} // verus!
