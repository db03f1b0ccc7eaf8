//! The tagged extension buffer that trails compact-mode messages: a varint
//! count, then for each entry its varint tag, varint byte count and bytes.
//! Entries with tags this client does not know are kept as raw bytes, so a
//! newer peer's extensions never make a decode fail.
use crate::buffer;
use crate::buffer::contents;
use crate::compose::{get_items, items_encoding, items_model, parse_items, put_items, all_canonical, all_writable};
use crate::error::Error;
use crate::varint::{get_varint, lemma_varint_law, parse_usize_varint, put_varint, varint_encode};
use crate::wire::{Parsed, WireRead, WireWrite, Wired};
use bytes::Bytes;
use vstd::prelude::*;

verus! {

/// One entry of a tagged buffer.
pub struct TaggedField {
    pub tag: usize,
    pub data: Bytes,
}

/// Reads one entry: its tag, then its length-prefixed bytes.
pub open spec fn parse_tagged(data: Seq<u8>) -> Parsed<(nat, Seq<u8>)> {
    match parse_usize_varint(data) {
        Ok((t, k)) => match parse_usize_varint(data.skip(k as int)) {
            Ok((l, j)) => if data.len() < k + j + l {
                Err(Error::TruncatedInput)
            } else {
                Ok(((t, data.subrange((k + j) as int, (k + j + l) as int)), k + j + l))
            },
            Err(e) => Err(e),
        },
        Err(e) => Err(e),
    }
}

impl Wired for TaggedField {
    type Model = (nat, Seq<u8>);

    open spec fn model(&self) -> (nat, Seq<u8>) {
        (self.tag as nat, contents(self.data))
    }

    open spec fn writable(m: (nat, Seq<u8>), version: nat, compact: bool) -> bool {
        m.0 <= usize::MAX && m.1.len() <= usize::MAX
    }

    open spec fn canonical(m: (nat, Seq<u8>), version: nat, compact: bool) -> bool {
        true
    }

    open spec fn encoding(m: (nat, Seq<u8>), version: nat, compact: bool) -> Seq<u8> {
        varint_encode(m.0) + varint_encode(m.1.len()) + m.1
    }

    open spec fn parse(data: Seq<u8>, version: nat, compact: bool) -> Parsed<(nat, Seq<u8>)> {
        parse_tagged(data)
    }

    proof fn lemma_round_trip(m: (nat, Seq<u8>), version: nat, compact: bool, rest: Seq<u8>) {
        let et = varint_encode(m.0);
        let el = varint_encode(m.1.len());
        let d = et + el + m.1 + rest;
        lemma_varint_law(m.0, el + m.1 + rest);
        lemma_varint_law(m.1.len(), m.1 + rest);
        assert(d == et + (el + m.1 + rest));
        assert(d.skip(et.len() as int) == el + (m.1 + rest));
        assert(d.subrange((et.len() + el.len()) as int, (et.len() + el.len() + m.1.len()) as int) == m.1);
    }

    fn to_wire(&self, wire: &mut WireWrite) {
        put_tagged(self, wire)
    }

    fn from_wire(wire: &mut WireRead) -> (r: Result<TaggedField, Error>) {
        get_tagged(wire)
    }

    fn to_wire_compact(&self, wire: &mut WireWrite) {
        put_tagged(self, wire)
    }

    fn from_wire_compact(wire: &mut WireRead) -> (r: Result<TaggedField, Error>) {
        get_tagged(wire)
    }
}

fn put_tagged(f: &TaggedField, wire: &mut WireWrite)
    requires
        old(wire).has_room(TaggedField::encoding(f.model(), 0, false).len()),
    ensures
        final(wire).version == old(wire).version,
        final(wire).bytes() == old(wire).bytes() + TaggedField::encoding(f.model(), 0, false),
{
    let s = buffer::as_slice(&f.data);
    put_varint(wire, f.tag);
    put_varint(wire, s.len());
    wire.put(s);
}

fn get_tagged(wire: &mut WireRead) -> (r: Result<TaggedField, Error>)
    ensures
        final(wire).version == old(wire).version,
        match parse_tagged(old(wire).rest()) {
            Ok((m, n)) => (r matches Ok(v) && v.model() == m) && n <= old(wire).rest().len()
                && final(wire).rest() == old(wire).rest().skip(n as int),
            Err(e) => r == Err::<TaggedField, Error>(e),
        },
{
    let ghost d = wire.rest();
    let tag = get_varint(wire)?;
    let ghost d1 = wire.rest();
    let len = get_varint(wire)?;
    let ghost d2 = wire.rest();
    let data = wire.take(len)?;
    proof {
        let k = parse_usize_varint(d)->Ok_0.1;
        let j = parse_usize_varint(d1)->Ok_0.1;
        assert(d.skip(k as int).skip(j as int) == d.skip((k + j) as int));
        assert(d.skip((k + j) as int).skip(len as int) == d.skip((k + j + len) as int));
        assert(d.skip((k + j) as int).take(len as int) == d.subrange((k + j) as int, (k + j + len) as int));
    }
    Ok(TaggedField { tag, data })
}

/// Whether tags increase strictly from entry to entry.
pub open spec fn tags_ascending(m: Seq<(nat, Seq<u8>)>) -> bool {
    forall|i: int, j: int| 0 <= i < j < m.len() ==> (#[trigger] m[i]).0 < (#[trigger] m[j]).0
}

/// The trailing optional-field list of a compact-mode message.
///
/// Entries are held in the order they travel on the wire. Writing requires
/// that order to be ascending by tag: the buffer is written as held, so that
/// what is written reads back as the same buffer, and a writer that builds
/// its entries out of order is rejected by the verifier rather than
/// reordered behind its back. A buffer read from the wire keeps the peer's
/// order, whatever it was.
pub struct TagBuffer {
    pub fields: Vec<TaggedField>,
}

impl TagBuffer {
    /// A buffer with no entries: what this client writes.
    pub fn new() -> (r: TagBuffer)
        ensures
            r.model() == Seq::<(nat, Seq<u8>)>::empty(),
    {
        let r = TagBuffer { fields: Vec::new() };
        proof {
            assert(items_model(r.fields@) == Seq::<(nat, Seq<u8>)>::empty());
        }
        r
    }

    /// The number of entries.
    pub fn len(&self) -> (r: usize)
        ensures
            r == self.model().len(),
    {
        self.fields.len()
    }
}

/// Reads a tagged buffer: the entry count, then the entries.
pub open spec fn parse_tag_buffer(data: Seq<u8>, version: nat, compact: bool) -> Parsed<Seq<(nat, Seq<u8>)>> {
    match parse_usize_varint(data) {
        Ok((c, k)) => match parse_items::<TaggedField>(data.skip(k as int), c, version, compact) {
            Ok((s, j)) => Ok((s, k + j)),
            Err(e) => Err(e),
        },
        Err(e) => Err(e),
    }
}

/// Entries are written in ascending tag order; the same bytes in both modes.
impl Wired for TagBuffer {
    type Model = Seq<(nat, Seq<u8>)>;

    open spec fn model(&self) -> Seq<(nat, Seq<u8>)> {
        items_model(self.fields@)
    }

    open spec fn writable(m: Seq<(nat, Seq<u8>)>, version: nat, compact: bool) -> bool {
        m.len() <= usize::MAX && tags_ascending(m) && all_writable::<TaggedField>(m, version, compact)
    }

    open spec fn canonical(m: Seq<(nat, Seq<u8>)>, version: nat, compact: bool) -> bool {
        true
    }

    open spec fn encoding(m: Seq<(nat, Seq<u8>)>, version: nat, compact: bool) -> Seq<u8> {
        varint_encode(m.len()) + items_encoding::<TaggedField>(m, version, compact)
    }

    open spec fn parse(data: Seq<u8>, version: nat, compact: bool) -> Parsed<Seq<(nat, Seq<u8>)>> {
        parse_tag_buffer(data, version, compact)
    }

    proof fn lemma_round_trip(m: Seq<(nat, Seq<u8>)>, version: nat, compact: bool, rest: Seq<u8>) {
        let p = varint_encode(m.len());
        let e = items_encoding::<TaggedField>(m, version, compact);
        lemma_varint_law(m.len(), e + rest);
        assert(p + e + rest == p + (e + rest));
        assert((p + (e + rest)).skip(p.len() as int) == e + rest);
        assert(all_canonical::<TaggedField>(m, version, compact));
        crate::compose::lemma_items_round_trip::<TaggedField>(m, version, compact, rest);
    }

    fn to_wire(&self, wire: &mut WireWrite) {
        put_tag_buffer(self, wire, false)
    }

    fn from_wire(wire: &mut WireRead) -> (r: Result<TagBuffer, Error>) {
        get_tag_buffer(wire, false)
    }

    fn to_wire_compact(&self, wire: &mut WireWrite) {
        put_tag_buffer(self, wire, true)
    }

    fn from_wire_compact(wire: &mut WireRead) -> (r: Result<TagBuffer, Error>) {
        get_tag_buffer(wire, true)
    }
}

fn put_tag_buffer(b: &TagBuffer, wire: &mut WireWrite, compact: bool)
    requires
        TagBuffer::writable(b.model(), old(wire).version as nat, compact),
        old(wire).has_room(TagBuffer::encoding(b.model(), old(wire).version as nat, compact).len()),
    ensures
        final(wire).version == old(wire).version,
        final(wire).bytes() == old(wire).bytes() + TagBuffer::encoding(
            b.model(),
            old(wire).version as nat,
            compact,
        ),
{
    let ghost b0 = wire.bytes();
    put_varint(wire, b.fields.len());
    put_items(&b.fields, wire, compact);
    proof {
        let v = wire.version as nat;
        let m = b.model();
        assert(b0 + varint_encode(m.len()) + items_encoding::<TaggedField>(m, v, compact) == b0
            + (varint_encode(m.len()) + items_encoding::<TaggedField>(m, v, compact)));
    }
}

fn get_tag_buffer(wire: &mut WireRead, compact: bool) -> (r: Result<TagBuffer, Error>)
    ensures
        final(wire).version == old(wire).version,
        match parse_tag_buffer(old(wire).rest(), old(wire).version as nat, compact) {
            Ok((m, n)) => (r matches Ok(v) && v.model() == m) && n <= old(wire).rest().len()
                && final(wire).rest() == old(wire).rest().skip(n as int),
            Err(e) => r == Err::<TagBuffer, Error>(e),
        },
{
    let ghost d = wire.rest();
    let count = get_varint(wire)?;
    let ghost d1 = wire.rest();
    let fields = get_items::<TaggedField>(wire, count, compact)?;
    proof {
        let v = wire.version as nat;
        let k = parse_usize_varint(d)->Ok_0.1;
        let j = parse_items::<TaggedField>(d1, count as nat, v, compact)->Ok_0.1;
        assert(d.skip(k as int).skip(j as int) == d.skip((k + j) as int));
    }
    Ok(TagBuffer { fields })
}

/// Forward compatibility: a buffer holding one entry under any tag, known
/// or not, decodes to that entry with its bytes kept, and uses exactly its
/// own bytes, so what follows it decodes as if the entry were not there.
pub proof fn lemma_unknown_tag_kept(tag: nat, payload: Seq<u8>, version: nat, compact: bool, rest: Seq<u8>)
    requires
        tag <= usize::MAX,
        payload.len() <= usize::MAX,
    ensures
        ({
            let buf = varint_encode(1) + varint_encode(tag) + varint_encode(payload.len()) + payload;
            TagBuffer::parse(buf + rest, version, compact) == Ok::<(Seq<(nat, Seq<u8>)>, nat), Error>(
                (seq![(tag, payload)], buf.len()),
            )
        }),
{
    let m = seq![(tag, payload)];
    assert(all_writable::<TaggedField>(m, version, compact));
    assert(tags_ascending(m));
    TagBuffer::lemma_round_trip(m, version, compact, rest);
    let e = TaggedField::encoding((tag, payload), version, compact);
    assert(m.drop_last() == Seq::<(nat, Seq<u8>)>::empty());
    assert(items_encoding::<TaggedField>(m.drop_last(), version, compact) == Seq::<u8>::empty());
    assert(m.last() == (tag, payload));
    assert(items_encoding::<TaggedField>(m, version, compact) == Seq::<u8>::empty() + e);
    assert(Seq::<u8>::empty() + e == e);
    assert(varint_encode(1) + e == varint_encode(1) + varint_encode(tag) + varint_encode(payload.len()) + payload);
}

} // verus!
