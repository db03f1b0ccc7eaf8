//! The encoder/decoder contract every wire value satisfies, and the two
//! cursors that carry the negotiated version and the bytes.
use crate::buffer::{contents, mut_contents};
use crate::buffer;
use crate::error::Error;
use bytes::{Bytes, BytesMut};
use vstd::prelude::*;

verus! {

/// An output cursor: the negotiated version and the bytes written so far.
pub struct WireWrite {
    pub version: usize,
    pub buffer: BytesMut,
}

/// An input cursor: the negotiated version and the bytes not yet read.
pub struct WireRead {
    pub version: usize,
    pub buffer: Bytes,
}

impl WireWrite {
    /// Everything written so far.
    pub open spec fn bytes(&self) -> Seq<u8> {
        mut_contents(self.buffer)
    }

    /// Whether `extra` more bytes can still be appended.
    pub open spec fn has_room(&self, extra: nat) -> bool {
        self.bytes().len() + extra <= usize::MAX
    }

    pub fn new(version: usize) -> (r: WireWrite)
        ensures
            r.version == version,
            r.bytes() == Seq::<u8>::empty(),
    {
        WireWrite { version, buffer: buffer::new_mut() }
    }

    /// Appends raw bytes.
    pub fn put(&mut self, s: &[u8])
        requires
            old(self).has_room(s@.len()),
        ensures
            final(self).version == old(self).version,
            final(self).bytes() == old(self).bytes() + s@,
    {
        buffer::mut_append(&mut self.buffer, s);
    }
}

impl WireRead {
    /// The bytes not yet read.
    pub open spec fn rest(&self) -> Seq<u8> {
        contents(self.buffer)
    }

    pub fn new(version: usize, buffer: Bytes) -> (r: WireRead)
        ensures
            r.version == version,
            r.rest() == contents(buffer),
    {
        WireRead { version, buffer }
    }

    pub fn remaining(&self) -> (r: usize)
        ensures
            r == self.rest().len(),
    {
        buffer::len(&self.buffer)
    }

    /// Takes the next `n` bytes, or fails with `TruncatedInput` when fewer
    /// remain (and then reads nothing).
    pub fn take(&mut self, n: usize) -> (r: Result<Bytes, Error>)
        ensures
            final(self).version == old(self).version,
            n <= old(self).rest().len() ==> (r matches Ok(b) && contents(b) == old(self).rest().take(
                n as int,
            ) && final(self).rest() == old(self).rest().skip(n as int)),
            n > old(self).rest().len() ==> r == Err::<Bytes, Error>(Error::TruncatedInput)
                && final(self).rest() == old(self).rest(),
    {
        if n <= buffer::len(&self.buffer) {
            Ok(buffer::split_to(&mut self.buffer, n))
        } else {
            Err(Error::TruncatedInput)
        }
    }
}

/// What a decoder produces from `data`: the decoded value and the number of
/// bytes it used, or the error it fails with.
pub type Parsed<M> = Result<(M, nat), Error>;

/// A value with a binary encoding in two wire modes: standard (fixed-width
/// length prefixes) and compact (varint length prefixes). Both may depend on
/// the negotiated version.
///
/// `Model` is the mathematical value the encoding speaks of; `encoding` and
/// `parse` define the format, and `lemma_round_trip` proves that decoding an
/// encoding gives back the value and uses exactly its bytes, whatever follows.
pub trait Wired: Sized {
    type Model;

    spec fn model(&self) -> Self::Model;

    /// Whether `m` can be written at `version` in the given mode: lengths fit
    /// their prefixes, and version-gated fields are supplied at the versions
    /// that carry them.
    spec fn writable(m: Self::Model, version: nat, compact: bool) -> bool;

    /// Whether `m` reads back as itself: version-gated fields are present
    /// exactly at the versions that carry them (a field supplied at another
    /// version is not written, and reads back as absent).
    spec fn canonical(m: Self::Model, version: nat, compact: bool) -> bool;

    spec fn encoding(m: Self::Model, version: nat, compact: bool) -> Seq<u8>;

    spec fn parse(data: Seq<u8>, version: nat, compact: bool) -> Parsed<Self::Model>;

    proof fn lemma_round_trip(m: Self::Model, version: nat, compact: bool, rest: Seq<u8>)
        requires
            Self::writable(m, version, compact),
            Self::canonical(m, version, compact),
        ensures
            Self::parse(Self::encoding(m, version, compact) + rest, version, compact) == Ok::<
                (Self::Model, nat),
                Error,
            >((m, Self::encoding(m, version, compact).len())),
    ;

    fn to_wire(&self, wire: &mut WireWrite)
        requires
            Self::writable(self.model(), old(wire).version as nat, false),
            old(wire).has_room(Self::encoding(self.model(), old(wire).version as nat, false).len()),
        ensures
            final(wire).version == old(wire).version,
            final(wire).bytes() == old(wire).bytes() + Self::encoding(
                self.model(),
                old(wire).version as nat,
                false,
            ),
    ;

    fn from_wire(wire: &mut WireRead) -> (r: Result<Self, Error>)
        ensures
            final(wire).version == old(wire).version,
            match Self::parse(old(wire).rest(), old(wire).version as nat, false) {
                Ok((m, n)) => r matches Ok(v) && v.model() == m && n <= old(wire).rest().len()
                    && final(wire).rest() == old(wire).rest().skip(n as int),
                Err(e) => r == Err::<Self, Error>(e),
            },
    ;

    fn to_wire_compact(&self, wire: &mut WireWrite)
        requires
            Self::writable(self.model(), old(wire).version as nat, true),
            old(wire).has_room(Self::encoding(self.model(), old(wire).version as nat, true).len()),
        ensures
            final(wire).version == old(wire).version,
            final(wire).bytes() == old(wire).bytes() + Self::encoding(
                self.model(),
                old(wire).version as nat,
                true,
            ),
    ;

    fn from_wire_compact(wire: &mut WireRead) -> (r: Result<Self, Error>)
        ensures
            final(wire).version == old(wire).version,
            match Self::parse(old(wire).rest(), old(wire).version as nat, true) {
                Ok((m, n)) => r matches Ok(v) && v.model() == m && n <= old(wire).rest().len()
                    && final(wire).rest() == old(wire).rest().skip(n as int),
                Err(e) => r == Err::<Self, Error>(e),
            },
    ;
}

/// Round trip: for every wire type, in both modes and at every version,
/// decoding the encoding of a writable value whose gated fields are present
/// exactly at the versions that carry them gives the value back and uses
/// exactly the encoding's bytes, whatever follows them.
pub proof fn lemma_decode_encode<T: Wired>(v: T, version: nat, compact: bool, rest: Seq<u8>)
    requires
        T::writable(v.model(), version, compact),
        T::canonical(v.model(), version, compact),
    ensures
        T::parse(T::encoding(v.model(), version, compact) + rest, version, compact) == Ok::<(T::Model, nat), Error>(
            (v.model(), T::encoding(v.model(), version, compact).len()),
        ),
{
    T::lemma_round_trip(v.model(), version, compact, rest);
}

} // verus!
