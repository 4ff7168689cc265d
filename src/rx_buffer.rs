//! A byte buffer that a producer fills from the start and from which whole datagrams
//! (`$...\n`) are taken one at a time.
use vstd::prelude::*;

use crate::codec::{DeSer, DeSerState, Ser};
use crate::error::Error;

verus! {

/// The first index in `[from, to)` that holds `b`, or `to` where none does.
pub open spec fn first_of(s: Seq<u8>, from: int, to: int, b: u8) -> int
    decreases to - from,
{
    if from >= to {
        to
    } else if s[from] == b {
        from
    } else {
        first_of(s, from + 1, to, b)
    }
}

/// Room left in a reader of capacity `cap` that holds `len` bytes.
pub open spec fn room(cap: nat, len: nat) -> int {
    if len <= cap {
        cap - len
    } else {
        0
    }
}

/// Taking one datagram from `buf[tail..head)` into a reader with `room` bytes free: the
/// result, the new tail, and the bytes handed to the reader. Bytes before the first `$`
/// are skipped; the datagram runs to the first newline.
pub open spec fn rx_read(buf: Seq<u8>, cap: nat, head: int, tail: int, room: int) -> (
    Result<(), Error>,
    int,
    Seq<u8>,
) {
    if head == tail {
        (Err(Error::BufIsEmpty), tail, Seq::empty())
    } else {
        let k = first_of(buf, tail, head, '\n' as u8);
        let end = if k < head {
            k + 1
        } else {
            head
        };
        let s = first_of(buf, tail, end, '$' as u8);
        let p = buf.subrange(s, end);
        if p.len() > room {
            (Err(Error::BufIsFull), s + room, p.subrange(0, room))
        } else if k < head {
            (Ok(()), k + 1, p)
        } else if head == cap {
            (Err(Error::BufIsFull), tail, p)
        } else {
            (Err(Error::EndNotFound), tail, p)
        }
    }
}

/// What the buffer holds: its bytes, the end of the data and the start of what is unread.
pub struct RxState {
    pub bytes: Seq<u8>,
    pub head: int,
    pub tail: int,
}

/// A non-wrapping buffer of `CAP` bytes.
pub struct RxBuffer<const CAP: usize> {
    buf: [u8; CAP],
    head: usize,
    tail: usize,
}

impl<const CAP: usize> View for RxBuffer<CAP> {
    type V = RxState;

    closed spec fn view(&self) -> RxState {
        RxState { bytes: self.buf@, head: self.head as int, tail: self.tail as int }
    }
}

impl<const CAP: usize> RxBuffer<CAP> {
    /// The unread data lies within what was written.
    pub open spec fn wf(&self) -> bool {
        &&& self@.bytes.len() == CAP
        &&& 0 <= self@.tail <= self@.head <= CAP
    }

    pub fn new() -> (r: Self)
        ensures
            r.wf(),
            r@.head == 0 && r@.tail == 0,
            r@.bytes == Seq::new(CAP as nat, |i: int| 0u8),
    {
        let r = RxBuffer { buf: [0u8; CAP], head: 0, tail: 0 };
        assert(r@.bytes =~= Seq::new(CAP as nat, |i: int| 0u8));
        r
    }

    pub fn clear(&mut self)
        requires
            old(self).wf(),
        ensures
            final(self).wf(),
            final(self)@ == (RxState { head: 0, tail: 0, ..old(self)@ }),
    {
        self.head = 0;
        self.tail = 0;
    }

    /// The whole backing store, for a producer to fill; the buffer counts as empty until
    /// `set_head` is called.
    pub fn en_mut_block(&mut self) -> (r: &mut [u8])
        requires
            old(self).wf(),
        ensures
            r@ == old(self)@.bytes,
            final(self)@ == (RxState { bytes: final(r)@, head: 0, tail: 0 }),
    {
        self.head = 0;
        self.tail = 0;
        &mut self.buf
    }

    /// The bytes written so far.
    pub fn as_slice(&self) -> (r: Vec<u8>)
        requires
            self.wf(),
        ensures
            r@ == self@.bytes.subrange(0, self@.head),
    {
        let mut out: Vec<u8> = Vec::new();
        let mut i: usize = 0;
        while i < self.head
            invariant
                self.wf(),
                i <= self@.head,
                out@ == self@.bytes.subrange(0, i as int),
            decreases self@.head - i,
        {
            out.push(self.buf[i]);
            i += 1;
            assert(out@ =~= self@.bytes.subrange(0, i as int));
        }
        out
    }

    /// The whole backing store.
    pub fn block(&self) -> (r: Vec<u8>)
        requires
            self.wf(),
        ensures
            r@ == self@.bytes,
    {
        let mut out: Vec<u8> = Vec::new();
        let mut i: usize = 0;
        while i < CAP
            invariant
                self.wf(),
                i <= CAP,
                out@ == self@.bytes.subrange(0, i as int),
            decreases CAP - i,
        {
            out.push(self.buf[i]);
            i += 1;
            assert(out@ =~= self@.bytes.subrange(0, i as int));
        }
        assert(self@.bytes.subrange(0, CAP as int) =~= self@.bytes);
        out
    }

    /// The number of unread bytes.
    pub fn len(&self) -> (r: usize)
        requires
            self.wf(),
        ensures
            r == self@.head - self@.tail,
    {
        self.head - self.tail
    }

    /// Marks the first `head` bytes as written and unread.
    pub fn set_head(&mut self, head: usize)
        requires
            old(self).wf(),
            head <= CAP,
        ensures
            final(self).wf(),
            final(self)@ == (RxState { head: head as int, tail: 0, ..old(self)@ }),
    {
        self.tail = 0;
        self.head = head;
    }

    /// Takes the next datagram into `de_ser`: `Ok` with the tail past its newline;
    /// `BufIsEmpty` where nothing is unread; `BufIsFull` where the reader fills up (the tail
    /// then stops at the first byte it could not take) or the data reaches the end of the
    /// buffer without a newline; `EndNotFound` where the newline has not arrived yet (the
    /// tail stays, so that the read can be tried again).
    #[verifier::spinoff_prover]
    pub fn read<const DCAP: usize>(&mut self, de_ser: &mut DeSer<DCAP>) -> (r: Result<(), Error>)
        requires
            old(self).wf(),
        ensures
            final(self).wf(),
            ({
                let (res, t, p) = rx_read(
                    old(self)@.bytes,
                    CAP as nat,
                    old(self)@.head,
                    old(self)@.tail,
                    room(DCAP as nat, old(de_ser)@.bytes.len()),
                );
                &&& r == res
                &&& final(self)@ == (RxState { tail: t, ..old(self)@ })
                &&& final(de_ser)@ == (DeSerState { bytes: old(de_ser)@.bytes + p, ..old(de_ser)@ })
            }),
    {
        if self.head == self.tail {
            assert(old(de_ser)@.bytes + Seq::<u8>::empty() =~= old(de_ser)@.bytes);
            return Err(Error::BufIsEmpty);
        }
        let ghost buf = self@.bytes;
        let ghost t0 = self@.tail;
        let ghost h = self@.head;
        let ghost d0 = de_ser@;
        let ghost rm = room(DCAP as nat, d0.bytes.len());
        let mut c: usize = self.tail;
        let mut started = false;
        let mut full = false;
        let mut found = false;
        proof {
            assert(buf.subrange(c as int, c as int) =~= Seq::<u8>::empty());
            assert(d0.bytes + Seq::<u8>::empty() =~= d0.bytes);
        }
        while c < self.head && !full && !found
            invariant
                self.wf(),
                self@ == old(self)@,
                buf == self@.bytes,
                t0 == self@.tail,
                h == self@.head,
                t0 <= c <= h,
                rm == room(DCAP as nat, d0.bytes.len()),
                d0 == old(de_ser)@,
                !found ==> forall|j: int| t0 <= j < c ==> buf[j] != '\n' as u8,
                found ==> t0 < c && buf[c - 1] == '\n' as u8 && forall|j: int|
                    t0 <= j < c - 1 ==> buf[j] != '\n' as u8,
                full ==> !found && c < h,
                !full ==> started == (first_of(buf, t0, c as int, '$' as u8) < c),
                !full ==> de_ser@ == (DeSerState {
                    bytes: d0.bytes + buf.subrange(first_of(buf, t0, c as int, '$' as u8), c as int),
                    ..d0
                }),
                !full ==> c - first_of(buf, t0, c as int, '$' as u8) <= rm,
                full ==> first_of(buf, t0, c + 1, '$' as u8) <= c,
                full ==> c - first_of(buf, t0, c + 1, '$' as u8) == rm,
                full ==> de_ser@ == (DeSerState {
                    bytes: d0.bytes + buf.subrange(first_of(buf, t0, c + 1, '$' as u8), c as int),
                    ..d0
                }),
            decreases h - c + (if full || found { 0int } else { 1int }),
        {
            let b = self.buf[c];
            proof {
                lemma_first_of_extend(buf, t0, c as int, c + 1, '$' as u8);
                lemma_first_of(buf, t0, c as int, '$' as u8);
            }
            if b == 36 {
                started = true;
            }
            if started {
                let ghost before = de_ser@;
                match de_ser.push(b) {
                    Ok(()) => {
                        let ghost s = first_of(buf, t0, c + 1, '$' as u8);
                        assert(de_ser@.bytes =~= d0.bytes + buf.subrange(s, c + 1));
                    },
                    Err(_) => {
                        full = true;
                    },
                }
            } else {
                assert(first_of(buf, c + 1, c + 1, '$' as u8) == c + 1);
                assert(first_of(buf, c as int, c + 1, '$' as u8) == c + 1);
                assert(first_of(buf, t0, c + 1, '$' as u8) == c + 1);
                assert(buf.subrange(c + 1, c + 1) =~= Seq::<u8>::empty());
            }
            if !full {
                c += 1;
                if b == 10 {
                    found = true;
                }
            }
        }
        proof {
            lemma_first_of(buf, t0, h, '\n' as u8);
        }
        if full {
            proof {
                let k = first_of(buf, t0, h, '\n' as u8);
                lemma_first_of_none_before(buf, t0, h, '\n' as u8, c as int);
                let end = if k < h { k + 1 } else { h };
                lemma_first_of_extend(buf, t0, c + 1, end, '$' as u8);
                let s = first_of(buf, t0, c + 1, '$' as u8);
                lemma_first_of(buf, t0, c + 1, '$' as u8);
                assert(k >= c);
                assert(end >= c + 1);
                assert(first_of(buf, t0, end, '$' as u8) == s);
                assert(s + rm == c);
                assert(buf.subrange(s, end).len() > rm);
                assert(buf.subrange(s, end).subrange(0, rm) =~= buf.subrange(s, c as int));
            }
            self.tail = c;
            return Err(Error::BufIsFull);
        }
        if found {
            proof {
                lemma_first_of_at(buf, t0, h, '\n' as u8, c - 1);
                lemma_first_of(buf, t0, c as int, '$' as u8);
            }
            self.tail = c;
            return Ok(());
        }
        proof {
            lemma_first_of_none(buf, t0, h, '\n' as u8);
            lemma_first_of(buf, t0, c as int, '$' as u8);
        }
        if self.head == CAP {
            return Err(Error::BufIsFull);
        }
        Err(Error::EndNotFound)
    }

    /// Appends what a writer holds; where it does not fit, nothing is written.
    pub fn write<const C: usize>(&mut self, ser: &Ser<C>) -> (r: Result<(), Error>)
        requires
            old(self).wf(),
        ensures
            final(self).wf(),
            r is Ok <==> old(self)@.head + ser@.len() <= CAP,
            r is Ok ==> final(self)@ == (RxState {
                bytes: old(self)@.bytes.subrange(0, old(self)@.head) + ser@ + old(self)@.bytes.subrange(
                    old(self)@.head + ser@.len(),
                    CAP as int,
                ),
                head: old(self)@.head + ser@.len(),
                tail: old(self)@.tail,
            }),
            r is Err ==> r->Err_0 == Error::BufIsFull && final(self)@ == old(self)@,
    {
        let slice = ser.as_slice();
        if slice.len() > CAP - self.head {
            return Err(Error::BufIsFull);
        }
        let ghost old_bytes = self@.bytes;
        assert(old_bytes.len() == CAP);
        let h = self.head;
        let mut i: usize = 0;
        while i < slice.len()
            invariant
                h == old(self)@.head,
                h + slice@.len() <= CAP,
                i <= slice@.len(),
                self.head == h,
                self.tail == old(self)@.tail,
                self@.bytes.len() == CAP,
                forall|k: int| 0 <= k < h ==> self@.bytes[k] == old_bytes[k],
                forall|k: int| h <= k < h + i ==> self@.bytes[k] == slice@[k - h],
                forall|k: int| h + slice@.len() <= k < CAP ==> self@.bytes[k] == old_bytes[k],
            decreases slice@.len() - i,
        {
            self.buf[h + i] = slice[i];
            i += 1;
        }
        self.head = h + slice.len();
        assert(self@.bytes =~= old_bytes.subrange(0, h as int) + ser@ + old_bytes.subrange(
            h + ser@.len(),
            CAP as int,
        ));
        Ok(())
    }
}

impl<const CAP: usize> Default for RxBuffer<CAP> {
    fn default() -> (r: Self)
        ensures
            r.wf(),
            r@.head == 0 && r@.tail == 0,
    {
        RxBuffer::new()
    }
}

/// A datagram that was taken moves the tail forward, within the data.
pub proof fn lemma_rx_read_ok(buf: Seq<u8>, cap: nat, head: int, tail: int, room: int)
    requires
        0 <= tail <= head <= buf.len(),
        rx_read(buf, cap, head, tail, room).0 is Ok,
    ensures
        tail < rx_read(buf, cap, head, tail, room).1 <= head,
{
    lemma_first_of(buf, tail, head, '\n' as u8);
}

pub proof fn lemma_first_of(s: Seq<u8>, from: int, to: int, b: u8)
    requires
        0 <= from <= to <= s.len(),
    ensures
        from <= first_of(s, from, to, b) <= to,
        first_of(s, from, to, b) < to ==> s[first_of(s, from, to, b)] == b,
        forall|j: int| from <= j < first_of(s, from, to, b) ==> s[j] != b,
    decreases to - from,
{
    if from < to && s[from] != b {
        lemma_first_of(s, from + 1, to, b);
    }
}

/// Looking further finds the same first hit, or continues where the shorter look stopped.
pub proof fn lemma_first_of_extend(s: Seq<u8>, from: int, t1: int, t2: int, b: u8)
    requires
        0 <= from <= t1 <= t2 <= s.len(),
    ensures
        first_of(s, from, t1, b) < t1 ==> first_of(s, from, t2, b) == first_of(s, from, t1, b),
        first_of(s, from, t1, b) == t1 ==> first_of(s, from, t2, b) == first_of(s, t1, t2, b),
    decreases t1 - from,
{
    if from < t1 && s[from] != b {
        lemma_first_of_extend(s, from + 1, t1, t2, b);
    }
}

/// Where `b` is at `k` and not before, the first hit is `k`.
pub proof fn lemma_first_of_at(s: Seq<u8>, from: int, to: int, b: u8, k: int)
    requires
        0 <= from <= k < to <= s.len(),
        s[k] == b,
        forall|j: int| from <= j < k ==> s[j] != b,
    ensures
        first_of(s, from, to, b) == k,
    decreases k - from,
{
    if from < k {
        lemma_first_of_at(s, from + 1, to, b, k);
    }
}

/// Where `b` is nowhere in range, there is no hit.
pub proof fn lemma_first_of_none(s: Seq<u8>, from: int, to: int, b: u8)
    requires
        0 <= from <= to <= s.len(),
        forall|j: int| from <= j < to ==> s[j] != b,
    ensures
        first_of(s, from, to, b) == to,
    decreases to - from,
{
    if from < to {
        lemma_first_of_none(s, from + 1, to, b);
    }
}

/// Where `b` is not in `[from, c)`, the first hit is at `c` or later.
pub proof fn lemma_first_of_none_before(s: Seq<u8>, from: int, to: int, b: u8, c: int)
    requires
        0 <= from <= c <= to <= s.len(),
        forall|j: int| from <= j < c ==> s[j] != b,
    ensures
        first_of(s, from, to, b) >= c,
    decreases c - from,
{
    lemma_first_of(s, from, to, b);
    if from < c {
        lemma_first_of_none_before(s, from + 1, to, b, c);
    }
}

} // verus!
