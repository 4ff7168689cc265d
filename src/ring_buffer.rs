//! A wrapping byte buffer for streams that arrive in pieces, from which whole datagrams
//! (`$...\n`) are taken one at a time.
use vstd::prelude::*;

use crate::codec::{DeSer, DeSerState};
use crate::error::Error;
use crate::rx_buffer::{
    first_of, lemma_first_of, lemma_first_of_at, lemma_first_of_extend, lemma_first_of_none,
    lemma_first_of_none_before, room,
};

verus! {

/// Taking one datagram from the unread bytes `q` into a reader with `room` bytes free: the
/// result, how many bytes are consumed, and the bytes handed to the reader.
pub open spec fn ring_read(q: Seq<u8>, room: int) -> (Result<(), Error>, int, Seq<u8>) {
    let k = first_of(q, 0, q.len() as int, '\n' as u8);
    let end = if k < q.len() {
        k + 1
    } else {
        q.len() as int
    };
    let s = first_of(q, 0, end, '$' as u8);
    let p = q.subrange(s, end);
    if p.len() > room {
        (Err(Error::BufIsFull), s + room, p.subrange(0, room))
    } else if k < q.len() {
        (Ok(()), k + 1, p)
    } else {
        (Err(Error::EndNotFound), 0, p)
    }
}

/// A position in `[0, 2 * cap)` folded into `[0, cap)`.
pub open spec fn fold(x: int, cap: int) -> int {
    if x < cap {
        x
    } else {
        x - cap
    }
}

/// A wrapping buffer of `CAP` bytes; one byte always stays free, to tell full from empty.
pub struct RingBuffer<const CAP: usize> {
    buf: [u8; CAP],
    head: usize,
    tail: usize,
}

impl<const CAP: usize> View for RingBuffer<CAP> {
    type V = Seq<u8>;

    /// The unread bytes, oldest first.
    closed spec fn view(&self) -> Seq<u8> {
        let n = fold(self.head - self.tail + CAP, CAP as int);
        Seq::new(n as nat, |i: int| self.buf@[fold(self.tail + i, CAP as int)])
    }
}

impl<const CAP: usize> RingBuffer<CAP> {
    pub closed spec fn wf(&self) -> bool {
        &&& CAP > 0
        &&& self.head < CAP
        &&& self.tail < CAP
    }

    pub fn new() -> (r: Self)
        requires
            CAP > 0,
        ensures
            r.wf(),
            r@ == Seq::<u8>::empty(),
    {
        let r = RingBuffer { buf: [0u8; CAP], head: 0, tail: 0 };
        assert(r@ =~= Seq::<u8>::empty());
        r
    }

    pub fn clear(&mut self)
        requires
            old(self).wf(),
        ensures
            final(self).wf(),
            final(self)@ == Seq::<u8>::empty(),
    {
        self.head = 0;
        self.tail = 0;
        assert(self@ =~= Seq::<u8>::empty());
    }

    /// The number of unread bytes.
    pub fn len(&self) -> (r: usize)
        requires
            self.wf(),
        ensures
            r == self@.len(),
            r < CAP,
    {
        if self.head >= self.tail {
            self.head - self.tail
        } else {
            CAP - self.tail + self.head
        }
    }

    /// Whether the unread byte at `k` is `$`.
    pub fn starts_with_dollar_at(&self, k: usize) -> (r: bool)
        requires
            self.wf(),
            k < self@.len(),
        ensures
            r == (self@[k as int] == '$' as u8),
    {
        let t = self.tail;
        let p = if k < CAP - t { t + k } else { k - (CAP - t) };
        self.buf[p] == 36
    }

    /// Drops the `n` oldest unread bytes.
    pub fn skip(&mut self, n: usize)
        requires
            old(self).wf(),
            n <= old(self)@.len(),
        ensures
            final(self).wf(),
            final(self)@ == old(self)@.subrange(n as int, old(self)@.len() as int),
    {
        let t = self.tail;
        let e = if n < CAP - t { t + n } else { n - (CAP - t) };
        self.tail = e;
        assert(self@ =~= old(self)@.subrange(n as int, old(self)@.len() as int));
    }

    /// Appends `slice` where it fits beside the free byte; else nothing is written.
    #[verifier::spinoff_prover]
    pub fn write(&mut self, slice: &[u8]) -> (r: Result<(), Error>)
        requires
            old(self).wf(),
        ensures
            final(self).wf(),
            r is Ok <==> old(self)@.len() + slice@.len() < CAP,
            r is Ok ==> final(self)@ == old(self)@ + slice@,
            r is Err ==> r->Err_0 == Error::BufIsFull && final(self)@ == old(self)@,
    {
        let n = self.len();
        if slice.len() >= CAP - n {
            return Err(Error::BufIsFull);
        }
        let ghost q = self@;
        let h = self.head;
        let t = self.tail;
        let mut i: usize = 0;
        while i < slice.len()
            invariant
                CAP > 0,
                h < CAP,
                t < CAP,
                n == q.len(),
                n + slice@.len() < CAP,
                h == fold(t + n, CAP as int),
                self.head == h,
                self.tail == t,
                i <= slice@.len(),
                self.buf@.len() == CAP,
                forall|j: int| 0 <= j < n ==> self.buf@[fold(t + j, CAP as int)] == q[j],
                forall|j: int|
                    0 <= j < i ==> self.buf@[fold(t + n + j, CAP as int)] == slice@[j],
            decreases slice@.len() - i,
        {
            let p = if i < CAP - h { h + i } else { i - (CAP - h) };
            assert(p == fold(t + n + i, CAP as int));
            self.buf[p] = slice[i];
            i += 1;
        }
        let e = if slice.len() < CAP - h { h + slice.len() } else { slice.len() - (CAP - h) };
        self.head = e;
        assert(self@ =~= q + slice@);
        Ok(())
    }

    /// Takes the next datagram into `de_ser`: `Ok` with the bytes up to its newline consumed;
    /// `BufIsFull` where the reader fills up (consuming up to the first byte it could not
    /// take); `EndNotFound` where the newline has not arrived yet (nothing is consumed).
    #[verifier::spinoff_prover]
    pub fn read<const DCAP: usize>(&mut self, de_ser: &mut DeSer<DCAP>) -> (r: Result<(), Error>)
        requires
            old(self).wf(),
        ensures
            final(self).wf(),
            ({
                let (res, used, p) = ring_read(
                    old(self)@,
                    room(DCAP as nat, old(de_ser)@.bytes.len()),
                );
                &&& r == res
                &&& final(self)@ == old(self)@.subrange(used, old(self)@.len() as int)
                &&& final(de_ser)@ == (DeSerState { bytes: old(de_ser)@.bytes + p, ..old(de_ser)@ })
            }),
    {
        let n = self.len();
        let ghost q = self@;
        let ghost d0 = de_ser@;
        let ghost rm = room(DCAP as nat, d0.bytes.len());
        let t = self.tail;
        let mut c: usize = 0;
        let mut started = false;
        let mut full = false;
        let mut found = false;
        proof {
            assert(q.subrange(0, 0) =~= Seq::<u8>::empty());
            assert(d0.bytes + Seq::<u8>::empty() =~= d0.bytes);
        }
        while c < n && !full && !found
            invariant
                self.wf(),
                self@ == q,
                self.tail == t,
                n == q.len(),
                c <= n,
                rm == room(DCAP as nat, d0.bytes.len()),
                d0 == old(de_ser)@,
                !found ==> forall|j: int| 0 <= j < c ==> q[j] != '\n' as u8,
                found ==> 0 < c && q[c - 1] == '\n' as u8 && forall|j: int|
                    0 <= j < c - 1 ==> q[j] != '\n' as u8,
                full ==> !found && c < n,
                !full ==> started == (first_of(q, 0, c as int, '$' as u8) < c),
                !full ==> de_ser@ == (DeSerState {
                    bytes: d0.bytes + q.subrange(first_of(q, 0, c as int, '$' as u8), c as int),
                    ..d0
                }),
                !full ==> c - first_of(q, 0, c as int, '$' as u8) <= rm,
                full ==> first_of(q, 0, c + 1, '$' as u8) <= c,
                full ==> c - first_of(q, 0, c + 1, '$' as u8) == rm,
                full ==> de_ser@ == (DeSerState {
                    bytes: d0.bytes + q.subrange(first_of(q, 0, c + 1, '$' as u8), c as int),
                    ..d0
                }),
            decreases n - c + (if full || found { 0int } else { 1int }),
        {
            let p = if c < CAP - t { t + c } else { c - (CAP - t) };
            let b = self.buf[p];
            assert(b == q[c as int]);
            proof {
                lemma_first_of_extend(q, 0, c as int, c + 1, '$' as u8);
                lemma_first_of(q, 0, c as int, '$' as u8);
            }
            if b == 36 {
                started = true;
            }
            if started {
                match de_ser.push(b) {
                    Ok(()) => {
                        let ghost s = first_of(q, 0, c + 1, '$' as u8);
                        assert(de_ser@.bytes =~= d0.bytes + q.subrange(s, c + 1));
                    },
                    Err(_) => {
                        full = true;
                    },
                }
            } else {
                assert(first_of(q, c + 1, c + 1, '$' as u8) == c + 1);
                assert(first_of(q, c as int, c + 1, '$' as u8) == c + 1);
                assert(q.subrange(c + 1, c + 1) =~= Seq::<u8>::empty());
            }
            if !full {
                c += 1;
                if b == 10 {
                    found = true;
                }
            }
        }
        proof {
            lemma_first_of(q, 0, n as int, '\n' as u8);
        }
        if full || found {
            proof {
                if full {
                    let k = first_of(q, 0, n as int, '\n' as u8);
                    lemma_first_of_none_before(q, 0, n as int, '\n' as u8, c as int);
                    let end = if k < n { k + 1 } else { n as int };
                    lemma_first_of(q, 0, c + 1, '$' as u8);
                    lemma_first_of_extend(q, 0, c + 1, end, '$' as u8);
                    let s = first_of(q, 0, c + 1, '$' as u8);
                    assert(q.subrange(s, end).subrange(0, rm) =~= q.subrange(s, c as int));
                } else {
                    lemma_first_of_at(q, 0, n as int, '\n' as u8, c - 1);
                    lemma_first_of(q, 0, c as int, '$' as u8);
                }
            }
            let e = if c < CAP - t { t + c } else { c - (CAP - t) };
            self.tail = e;
            assert(self@ =~= q.subrange(c as int, n as int));
            if full {
                return Err(Error::BufIsFull);
            } else {
                return Ok(());
            }
        }
        proof {
            lemma_first_of_none(q, 0, n as int, '\n' as u8);
            lemma_first_of(q, 0, c as int, '$' as u8);
            assert(q.subrange(0, n as int) =~= q);
        }
        Err(Error::EndNotFound)
    }
}

/// A datagram taken, or one refused for its length, consumes at least one byte and no
/// more than there are.
pub proof fn lemma_ring_read_progress(q: Seq<u8>, room: int)
    requires
        room >= 1,
        !(ring_read(q, room).0 is Err && ring_read(q, room).0->Err_0 == Error::EndNotFound),
    ensures
        0 < ring_read(q, room).1 <= q.len(),
{
    lemma_first_of(q, 0, q.len() as int, '\n' as u8);
    let k = first_of(q, 0, q.len() as int, '\n' as u8);
    let end = if k < q.len() { k + 1 } else { q.len() as int };
    lemma_first_of(q, 0, end, '$' as u8);
}

} // verus!
