//! The stream codec adapter.
//!
//! A [`Codable`] gives one flat value a stream-facing identity for the
//! duration of an encode or decode call: encoding writes the value's raw
//! byte image, exactly its size and nothing else; decoding reads exactly
//! that many bytes back. The container forwards access to the wrapped value
//! and unwraps back to it on demand.

use crate::io::CodecError;
use crate::io::Sink;
use crate::io::Source;
use crate::io::read_pod;
use crate::io::write_pod;
use crate::pod::Pod;
use vstd::prelude::*;

verus! {

/// A wrapper owning a `T` by value, existing to carry it across one stream
/// boundary call.
pub struct Codable<T> {
    value: T,
}

impl<T> Codable<T> {
    /// The wrapped value.
    pub closed spec fn inner_spec(&self) -> T {
        self.value
    }

    /// Creates a new `Codable` containing the provided inner value.
    pub fn new(t: T) -> (r: Codable<T>)
        ensures
            r.inner_spec() == t,
    {
        Codable { value: t }
    }

    /// Moves the inner value out of `self`.
    pub fn into_inner(self) -> (t: T)
        ensures
            t == self.inner_spec(),
    {
        self.value
    }

    /// Borrows the wrapped value: access forwarded to the inner value.
    pub fn get(&self) -> (t: &T)
        ensures
            *t == self.inner_spec(),
    {
        &self.value
    }

    /// Replaces the wrapped value: the mutable direction of forwarding.
    pub fn set(&mut self, t: T)
        ensures
            final(self).inner_spec() == t,
    {
        self.value = t;
    }
}

impl<T: Pod> Codable<T> {
    /// Writes the wrapped value's raw byte image to the sink, in declared
    /// field order: exactly `T`'s size in bytes, no framing or length
    /// prefix. A fault of the sink is passed through verbatim, and a
    /// reliable sink guarantees success.
    pub fn encode<W: Sink>(&self, w: &mut W) -> (res: Result<(), CodecError>)
        ensures
            res is Ok ==> final(w).sunk() == old(w).sunk() + self.inner_spec().image(),
            res is Err ==> (res matches Err(CodecError::Underlying(_))) && !old(w).reliable()
                && final(w).sunk() == old(w).sunk(),
            old(w).reliable() ==> res is Ok,
            final(w).reliable() == old(w).reliable(),
    {
        write_pod(w, &self.value)
    }

    /// Reads exactly `T`'s size in bytes from the source and reconstructs
    /// the value whose image they are. The source ending first is the
    /// distinguished [`CodecError::Truncated`]; a fault of the source is
    /// passed through verbatim; a reliable source with enough bytes
    /// guarantees success.
    pub fn decode<R: Source>(r: &mut R) -> (res: Result<Codable<T>, CodecError>)
        ensures
            res matches Ok(c) ==> T::spec_size() <= old(r).avail().len() && c.inner_spec()
                == T::of_image(old(r).avail().take(T::spec_size() as int)) && final(r).avail()
                == old(r).avail().skip(T::spec_size() as int),
            res == Err::<Codable<T>, CodecError>(CodecError::Truncated) ==> old(r).avail().len()
                < T::spec_size() && final(r).avail().len() == 0,
            res matches Err(CodecError::Underlying(_)) ==> !old(r).reliable() && final(r).avail()
                == old(r).avail(),
            old(r).reliable() && T::spec_size() <= old(r).avail().len() ==> res is Ok,
            old(r).reliable() && old(r).avail().len() < T::spec_size() ==> res == Err::<
                Codable<T>,
                CodecError,
            >(CodecError::Truncated),
            final(r).reliable() == old(r).reliable(),
    {
        match read_pod::<T, R>(r) {
            Ok(v) => Ok(Codable { value: v }),
            Err(e) => Err(e),
        }
    }
}

/// Round trip: decoding the byte stream produced by encoding a value
/// yields a value bit-identical to it.
///
/// Encoding `v` emits exactly `v`'s byte image; decoding reads back the
/// value of the first `size` bytes of the stream. Whatever follows the
/// image on the stream, that value is `v` itself.
pub proof fn lemma_round_trip<T: Pod>(v: T, rest: Seq<u8>)
    ensures
        T::of_image((v.image() + rest).take(T::spec_size() as int)) == v,
{
    v.lemma_image_len();
    assert((v.image() + rest).take(T::spec_size() as int) =~= v.image());
    v.lemma_of_image_image();
}

} // verus!
