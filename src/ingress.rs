//! Turning the bytes that TCP reads left in a buffer into datagrams for the router.
use vstd::prelude::*;

use crate::codec::{DeSer, DeSerState};
use crate::com_item::{item_parse, ComItem, Item};
use crate::config::ITEM_SIZE;
use crate::error::Error;
use crate::ring_buffer::{lemma_ring_read_progress, ring_read, RingBuffer};
use crate::rx_buffer::{first_of, lemma_first_of, lemma_first_of_at};

verus! {

/// The outcome of each datagram framed in the unread bytes `q`, in order, and the bytes
/// left unread: a datagram that parses gives its item, one that does not gives its error,
/// one too long for a datagram reader gives `BufIsFull`, and scanning goes on after each;
/// a line with no `$` in it is noise and gives nothing.
/// What is left is a datagram whose newline has not come yet, from its `$` on (noise
/// before it is dropped).
pub open spec fn ingest_spec(q: Seq<u8>) -> (Seq<Result<Item, Error>>, Seq<u8>)
    decreases q.len(),
{
    let (r, used, p) = ring_read(q, ITEM_SIZE as int);
    if r == Err::<(), Error>(Error::EndNotFound) || !(0 < used <= q.len()) {
        (Seq::empty(), q.subrange(first_of(q, 0, q.len() as int, '$' as u8), q.len() as int))
    } else {
        let here: Seq<Result<Item, Error>> = match r {
            Ok(()) => if p.len() == 0 {
                Seq::empty()
            } else {
                seq![item_parse(DeSerState::fresh(p)).0]
            },
            Err(e) => seq![Err(e)],
        };
        let (rest, left) = ingest_spec(q.subrange(used, q.len() as int));
        (here + rest, left)
    }
}

/// The library's view of each outcome.
pub open spec fn outcome_view(r: Result<ComItem, Error>) -> Result<Item, Error> {
    match r {
        Ok(c) => Ok(c@),
        Err(e) => Err(e),
    }
}

/// The next datagram framed in the buffer and its outcome, or none where the next one has
/// no newline yet (the buffer is then left as it is).
#[verifier::spinoff_prover]
fn take_one<const CAP: usize>(buf: &mut RingBuffer<CAP>) -> (r: Option<
    Option<Result<ComItem, Error>>,
>)
    requires
        old(buf).wf(),
    ensures
        final(buf).wf(),
        ({
            let (rr, used, p) = ring_read(old(buf)@, ITEM_SIZE as int);
            if rr == Err::<(), Error>(Error::EndNotFound) {
                r is None && final(buf)@ == old(buf)@
            } else {
                &&& r is Some
                &&& match rr {
                    Ok(()) => if p.len() == 0 {
                        r->Some_0 is None
                    } else {
                        r->Some_0 is Some && outcome_view(r->Some_0->Some_0) == item_parse(
                            DeSerState::fresh(p),
                        ).0
                    },
                    Err(e) => r->Some_0 == Some(Err::<ComItem, Error>(e)),
                }
                &&& 0 < used <= old(buf)@.len()
                &&& final(buf)@ == old(buf)@.subrange(used, old(buf)@.len() as int)
            }
        }),
{
    let ghost q = buf@;
    let mut de = DeSer::<ITEM_SIZE>::new();
    let r = buf.read(&mut de);
    let ghost p = de@.bytes;
    assert(de@ == DeSerState::fresh(p));
    match r {
        Err(Error::EndNotFound) => {
            assert(q.subrange(0, q.len() as int) =~= q);
            None
        },
        _ => {
            proof {
                lemma_ring_read_progress(q, ITEM_SIZE as int);
            }
            match r {
                Ok(()) => {
                    if de.as_slice().len() == 0 {
                        Some(None)
                    } else {
                        Some(Some(ComItem::deserialize(&mut de)))
                    }
                },
                Err(e) => Some(Some(Err(e))),
            }
        },
    }
}

/// Drops the unread bytes before the first `$`.
#[verifier::spinoff_prover]
fn drop_noise<const CAP: usize>(buf: &mut RingBuffer<CAP>)
    requires
        old(buf).wf(),
    ensures
        final(buf).wf(),
        final(buf)@ == old(buf)@.subrange(
            first_of(old(buf)@, 0, old(buf)@.len() as int, '$' as u8),
            old(buf)@.len() as int,
        ),
{
    let ghost q = buf@;
    let n = buf.len();
    let mut k: usize = 0;
    while k < n && !buf.starts_with_dollar_at(k)
        invariant
            buf.wf(),
            buf@ == q,
            n == q.len(),
            k <= n,
            first_of(q, 0, q.len() as int, '$' as u8) == first_of(q, k as int, q.len() as int, '$' as u8),
        decreases n - k,
    {
        k += 1;
    }
    proof {
        lemma_first_of(q, k as int, q.len() as int, '$' as u8);
    }
    buf.skip(k);
}

/// Takes every complete datagram from the buffer, each with its own outcome; a datagram
/// still missing its newline stays in the buffer, starting at its `$`, so that the bytes
/// of the next read are appended to it.
#[verifier::spinoff_prover]
pub fn take_items<const CAP: usize>(buf: &mut RingBuffer<CAP>) -> (r: Vec<Result<ComItem, Error>>)
    requires
        old(buf).wf(),
    ensures
        final(buf).wf(),
        r@.map_values(|x: Result<ComItem, Error>| outcome_view(x)) == ingest_spec(old(buf)@).0,
        final(buf)@ == ingest_spec(old(buf)@).1,
        final(buf)@.len() > 0 ==> final(buf)@[0] == '$' as u8,
        forall|i: int| 0 <= i < final(buf)@.len() ==> final(buf)@[i] != '\n' as u8,
{
    let ghost q0 = buf@;
    let mut out: Vec<Result<ComItem, Error>> = Vec::new();
    let mut go_on = true;
    proof {
        assert(out@.map_values(|x: Result<ComItem, Error>| outcome_view(x)) + ingest_spec(q0).0
            =~= ingest_spec(q0).0);
    }
    while go_on
        invariant
            buf.wf(),
            go_on ==> ingest_spec(q0).0 == out@.map_values(
                |x: Result<ComItem, Error>| outcome_view(x),
            ) + ingest_spec(buf@).0,
            go_on ==> ingest_spec(q0).1 == ingest_spec(buf@).1,
            !go_on ==> ingest_spec(q0).0 == out@.map_values(
                |x: Result<ComItem, Error>| outcome_view(x),
            ),
            !go_on ==> ingest_spec(q0).1 == buf@,
        decreases (if go_on { buf@.len() + 1 } else { 0nat }),
    {
        let ghost q = buf@;
        let ghost before = out@.map_values(|x: Result<ComItem, Error>| outcome_view(x));
        match take_one(buf) {
            None => {
                drop_noise(buf);
                go_on = false;
                assert(before + Seq::<Result<Item, Error>>::empty() =~= before);
            },
            Some(None) => {
                proof {
                    let (rest, left) = ingest_spec(buf@);
                    assert(ingest_spec(q) == (Seq::<Result<Item, Error>>::empty() + rest, left));
                    assert(Seq::<Result<Item, Error>>::empty() + rest =~= rest);
                }
            },
            Some(Some(outcome)) => {
                out.push(outcome);
                proof {
                    let here = outcome_view(outcome);
                    assert(out@.map_values(|x: Result<ComItem, Error>| outcome_view(x)) =~= before
                        + seq![here]);
                    let (rest, left) = ingest_spec(buf@);
                    assert(ingest_spec(q) == (seq![here] + rest, left));
                    assert(before + (seq![here] + rest) =~= before + seq![here] + rest);
                }
            },
        }
    }
    proof {
        lemma_ingest_left(q0);
    }
    out
}

/// What is left unread holds no newline, and starts with `$` where it is not empty.
pub proof fn lemma_ingest_left(q: Seq<u8>)
    ensures
        ingest_spec(q).1.len() > 0 ==> ingest_spec(q).1[0] == '$' as u8,
        forall|i: int| 0 <= i < ingest_spec(q).1.len() ==> ingest_spec(q).1[i] != '\n' as u8,
    decreases q.len(),
{
    let (r, used, p) = ring_read(q, ITEM_SIZE as int);
    if r == Err::<(), Error>(Error::EndNotFound) || !(0 < used <= q.len()) {
        lemma_first_of(q, 0, q.len() as int, '$' as u8);
        lemma_first_of(q, 0, q.len() as int, '\n' as u8);
        if r == Err::<(), Error>(Error::EndNotFound) {
            let s = first_of(q, 0, q.len() as int, '$' as u8);
            let left = q.subrange(s, q.len() as int);
            assert forall|i: int| 0 <= i < left.len() implies left[i] != '\n' as u8 by {
                assert(left[i] == q[s + i]);
            }
        } else {
            lemma_ring_read_progress(q, ITEM_SIZE as int);
        }
    } else {
        lemma_ingest_left(q.subrange(used, q.len() as int));
    }
}

/// A whole datagram: from `$` to its one newline, short enough for a datagram reader.
pub open spec fn framed(d: Seq<u8>) -> bool {
    &&& 2 <= d.len() <= ITEM_SIZE
    &&& d[0] == '$' as u8
    &&& d.last() == '\n' as u8
    &&& forall|i: int| 0 <= i < d.len() - 1 ==> d[i] != '\n' as u8
}

/// A whole datagram at the front gives its own outcome, whatever it is, and the scan goes
/// on with the bytes after it: a malformed datagram does not stop the taking.
pub proof fn lemma_ingest_datagram(d: Seq<u8>, rest: Seq<u8>)
    requires
        framed(d),
    ensures
        ingest_spec(d + rest) == (
            seq![item_parse(DeSerState::fresh(d)).0] + ingest_spec(rest).0,
            ingest_spec(rest).1,
        ),
{
    let q = d + rest;
    let n = d.len() as int;
    assert forall|j: int| 0 <= j < n - 1 implies q[j] != '\n' as u8 by {
        assert(q[j] == d[j]);
    }
    assert(q[n - 1] == d[n - 1]);
    lemma_first_of_at(q, 0, q.len() as int, '\n' as u8, n - 1);
    assert(q[0] == '$' as u8);
    assert(first_of(q, 0, n, '$' as u8) == 0);
    assert(q.subrange(0, n) =~= d);
    assert(q.subrange(n, q.len() as int) =~= rest);
    assert(d.len() > 0);
}

} // verus!
