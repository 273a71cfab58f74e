//! The byte-stream boundary: sequential sources and sinks of raw bytes,
//! and reading or writing whole flat values across them.
//!
//! A [`Source`] hands bytes out in order; a [`Sink`] accepts them in order.
//! Either may sit on a device that can fail, so both carry an abstract
//! `reliable` mark: a reliable stream never reports an [`IoFault`], and the
//! contracts promise success only there. The in-memory [`SliceSource`] and
//! [`VecSink`] are the verified implementations; code at a real device
//! boundary implements the same traits and inherits the same contracts.

use crate::buffer::push_range;
use crate::pod::Pod;
use vstd::prelude::*;

verus! {

/// The opaque fault an underlying stream reports; the codec passes it
/// through verbatim and never inspects it.
#[derive(Clone, Copy, PartialEq, Eq, Structural, Debug)]
pub struct IoFault {
    /// Whatever the stream wants carried: an errno, a status word.
    pub code: u64,
}

/// Why a codec operation failed.
#[derive(Clone, Copy, PartialEq, Eq, Structural, Debug)]
pub enum CodecError {
    /// The input ended before one whole value was available.
    Truncated,
    /// The underlying stream failed; its fault is carried verbatim.
    Underlying(IoFault),
}

/// The number of bytes a request for `n` takes from `b`: all `n`, or as
/// many as remain.
pub open spec fn upto(n: usize, b: Seq<u8>) -> int {
    if n <= b.len() {
        n as int
    } else {
        b.len() as int
    }
}

/// A sequential reader of raw bytes.
pub trait Source {
    /// The bytes this source still holds, in the order it will hand them
    /// out.
    spec fn avail(&self) -> Seq<u8>;

    /// A reliable source never reports a fault.
    spec fn reliable(&self) -> bool;

    /// Hands out the next `n` bytes — or as many as remain, if fewer. On a
    /// fault nothing is consumed.
    fn read_upto(&mut self, n: usize) -> (r: Result<Vec<u8>, IoFault>)
        ensures
            r matches Ok(v) ==> v@ == old(self).avail().take(upto(n, old(self).avail()))
                && final(self).avail() == old(self).avail().skip(upto(n, old(self).avail())),
            r is Err ==> !old(self).reliable() && final(self).avail() == old(self).avail(),
            old(self).reliable() ==> r is Ok,
            final(self).reliable() == old(self).reliable(),
    ;
}

/// A sequential writer of raw bytes.
pub trait Sink {
    /// The bytes this sink has accepted so far, in order.
    spec fn sunk(&self) -> Seq<u8>;

    /// A reliable sink never reports a fault.
    spec fn reliable(&self) -> bool;

    /// Accepts all of `b`, or reports the fault; a faulting sink accepts
    /// nothing.
    fn put_all(&mut self, b: &Vec<u8>) -> (r: Result<(), IoFault>)
        ensures
            r is Ok ==> final(self).sunk() == old(self).sunk() + b@,
            r is Err ==> !old(self).reliable() && final(self).sunk() == old(self).sunk(),
            old(self).reliable() ==> r is Ok,
            final(self).reliable() == old(self).reliable(),
    ;
}

/// A source reading from an in-memory byte vector; reliable by
/// construction.
pub struct SliceSource {
    data: Vec<u8>,
    pos: usize,
}

impl SliceSource {
    /// A source that will hand out exactly the bytes of `data`.
    pub fn new(data: Vec<u8>) -> (r: SliceSource)
        ensures
            r.avail() == data@,
            r.reliable(),
    {
        let r = SliceSource { data, pos: 0 };
        proof {
            assert(r.avail() =~= r.data@);
        }
        r
    }
}

impl Source for SliceSource {
    closed spec fn avail(&self) -> Seq<u8> {
        if self.pos <= self.data@.len() {
            self.data@.skip(self.pos as int)
        } else {
            Seq::empty()
        }
    }

    open spec fn reliable(&self) -> bool {
        true
    }

    fn read_upto(&mut self, n: usize) -> (r: Result<Vec<u8>, IoFault>) {
        let len = self.data.len();
        let start = if self.pos <= len {
            self.pos
        } else {
            len
        };
        let rem = len - start;
        let k = if n <= rem {
            n
        } else {
            rem
        };
        let mut out: Vec<u8> = Vec::new();
        push_range(&mut out, &self.data, start, start + k);
        proof {
            assert(out@ =~= old(self).avail().take(upto(n, old(self).avail())));
        }
        self.pos = start + k;
        proof {
            assert(self.avail() =~= old(self).avail().skip(upto(n, old(self).avail())));
        }
        Ok(out)
    }
}

/// A sink appending into an in-memory byte vector; reliable by
/// construction.
pub struct VecSink {
    data: Vec<u8>,
}

impl VecSink {
    /// An empty sink.
    pub fn new() -> (r: VecSink)
        ensures
            r.sunk() == Seq::<u8>::empty(),
            r.reliable(),
    {
        let r = VecSink { data: Vec::new() };
        proof {
            assert(r.sunk() =~= Seq::<u8>::empty());
        }
        r
    }

    /// Takes the accepted bytes out.
    pub fn into_vec(self) -> (r: Vec<u8>)
        ensures
            r@ == self.sunk(),
    {
        self.data
    }
}

impl Sink for VecSink {
    closed spec fn sunk(&self) -> Seq<u8> {
        self.data@
    }

    open spec fn reliable(&self) -> bool {
        true
    }

    fn put_all(&mut self, b: &Vec<u8>) -> (r: Result<(), IoFault>) {
        let n = b.len();
        push_range(&mut self.data, b, 0, n);
        proof {
            assert(b@.subrange(0, n as int) =~= b@);
        }
        Ok(())
    }
}

/// A source that is already exhausted of everything but a fault: the
/// stand-in for a failing device when fault passthrough is exercised.
pub struct FaultSource {
    /// The fault every read reports.
    pub fault: IoFault,
}

impl Source for FaultSource {
    open spec fn avail(&self) -> Seq<u8> {
        Seq::empty()
    }

    open spec fn reliable(&self) -> bool {
        false
    }

    fn read_upto(&mut self, n: usize) -> (r: Result<Vec<u8>, IoFault>) {
        Err(self.fault)
    }
}

/// A sink that accepts nothing and reports its fault: the stand-in for a
/// failing device when fault passthrough is exercised.
pub struct FaultSink {
    /// The fault every write reports.
    pub fault: IoFault,
}

impl Sink for FaultSink {
    open spec fn sunk(&self) -> Seq<u8> {
        Seq::empty()
    }

    open spec fn reliable(&self) -> bool {
        false
    }

    fn put_all(&mut self, b: &Vec<u8>) -> (r: Result<(), IoFault>) {
        Err(self.fault)
    }
}

/// Reads one flat `P` from the stream: exactly `P`'s size in bytes, no
/// framing. The stream ending first is the distinguished [`CodecError::Truncated`];
/// a stream fault is passed through verbatim.
pub fn read_pod<P: Pod, R: Source>(r: &mut R) -> (res: Result<P, CodecError>)
    ensures
        res matches Ok(p) ==> P::spec_size() <= old(r).avail().len() && p == P::of_image(
            old(r).avail().take(P::spec_size() as int),
        ) && final(r).avail() == old(r).avail().skip(P::spec_size() as int),
        res == Err::<P, CodecError>(CodecError::Truncated) ==> old(r).avail().len()
            < P::spec_size() && final(r).avail().len() == 0,
        res matches Err(CodecError::Underlying(_)) ==> !old(r).reliable() && final(r).avail()
            == old(r).avail(),
        old(r).reliable() && P::spec_size() <= old(r).avail().len() ==> res is Ok,
        old(r).reliable() && old(r).avail().len() < P::spec_size() ==> res == Err::<
            P,
            CodecError,
        >(CodecError::Truncated),
        final(r).reliable() == old(r).reliable(),
{
    let psz = P::size();
    match r.read_upto(psz) {
        Ok(buf) => {
            if buf.len() == psz {
                let p = P::read_from(&buf, 0);
                proof {
                    assert(buf@.subrange(0, P::spec_size() as int) =~= buf@);
                }
                Ok(p)
            } else {
                Err(CodecError::Truncated)
            }
        },
        Err(f) => Err(CodecError::Underlying(f)),
    }
}

/// Reads one flat `P`, or nothing when the stream is already at its end; a
/// value cut off part way is [`CodecError::Truncated`].
pub fn read_pod_or_none<P: Pod, R: Source>(r: &mut R) -> (res: Result<Option<P>, CodecError>)
    ensures
        res matches Ok(Some(p)) ==> P::spec_size() <= old(r).avail().len() && p == P::of_image(
            old(r).avail().take(P::spec_size() as int),
        ) && final(r).avail() == old(r).avail().skip(P::spec_size() as int),
        res == Ok::<Option<P>, CodecError>(None) ==> old(r).avail().len() == 0,
        res == Err::<Option<P>, CodecError>(CodecError::Truncated) ==> 0 < old(r).avail().len()
            < P::spec_size() && final(r).avail().len() == 0,
        res matches Err(CodecError::Underlying(_)) ==> !old(r).reliable() && final(r).avail()
            == old(r).avail(),
        old(r).reliable() ==> (res is Err <==> 0 < old(r).avail().len() < P::spec_size()),
        final(r).reliable() == old(r).reliable(),
{
    let psz = P::size();
    proof {
        P::lemma_layout();
    }
    match r.read_upto(psz) {
        Ok(buf) => {
            if buf.len() == psz {
                let p = P::read_from(&buf, 0);
                proof {
                    assert(buf@.subrange(0, P::spec_size() as int) =~= buf@);
                }
                Ok(Some(p))
            } else if buf.len() == 0 {
                Ok(None)
            } else {
                Err(CodecError::Truncated)
            }
        },
        Err(f) => Err(CodecError::Underlying(f)),
    }
}

/// Writes the raw byte image of `v` to the stream: exactly `P`'s size in
/// bytes, in declared field order, no framing; a stream fault is passed
/// through verbatim.
pub fn write_pod<P: Pod, W: Sink>(w: &mut W, v: &P) -> (res: Result<(), CodecError>)
    ensures
        res is Ok ==> final(w).sunk() == old(w).sunk() + v.image(),
        res matches Err(e) ==> (e matches CodecError::Underlying(_)) && !old(w).reliable()
            && final(w).sunk() == old(w).sunk(),
        old(w).reliable() ==> res is Ok,
        final(w).reliable() == old(w).reliable(),
{
    let bytes = crate::pod::as_bytes(v);
    match w.put_all(&bytes) {
        Ok(u) => Ok(u),
        Err(f) => Err(CodecError::Underlying(f)),
    }
}

} // verus!
