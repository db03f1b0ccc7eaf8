//! Length-prefixed strings, nullable strings and byte blobs.
//!
//! Standard mode prefixes a string with a signed 16-bit byte count (a blob
//! with a signed 32-bit one), `-1` meaning null where null is allowed.
//! Compact mode prefixes both with the varint of the byte count plus one,
//! `0` meaning null.
use crate::buffer;
use crate::buffer::contents;
use crate::error::Error;
use crate::primitive::{get_int, int_encoding, parse_int, put_int};
use crate::varint::{get_varint, parse_usize_varint, put_varint, varint_encode, lemma_varint_law};
use crate::wire::{Parsed, WireRead, WireWrite, Wired};
use bytes::Bytes;
use vstd::prelude::*;
use vstd::utf8::{decode_utf8, encode_utf8, valid_utf8, encode_utf8_decode_utf8, encode_utf8_valid_utf8};

verus! {

/// Relies on `String::from_utf8`: it succeeds exactly on valid UTF-8, and the
/// string it returns holds the characters those bytes encode.
#[verifier::external_body]
fn utf8_string(v: Vec<u8>) -> (r: Option<String>)
    ensures
        r is Some <==> valid_utf8(v@),
        r matches Some(s) ==> s@ == decode_utf8(v@),
{
    String::from_utf8(v).ok()
}

/// The prefix that announces `len` bytes, or null when `len` is `None`.
pub open spec fn length_prefix(len: Option<nat>, width: nat, compact: bool) -> Seq<u8> {
    match len {
        Some(l) => if compact {
            varint_encode(l + 1)
        } else {
            int_encoding(l as int, width)
        },
        None => if compact {
            varint_encode(0)
        } else {
            int_encoding(-1, width)
        },
    }
}

/// Reads a length prefix: `Some(n)` for `n` bytes to follow, `None` for null
/// (any negative standard prefix, or a compact `0`).
pub open spec fn parse_length(data: Seq<u8>, width: nat, compact: bool) -> Parsed<Option<nat>> {
    if compact {
        match parse_usize_varint(data) {
            Ok((u, k)) => if u == 0 {
                Ok((None, k))
            } else {
                Ok((Some((u - 1) as nat), k))
            },
            Err(e) => Err(e),
        }
    } else {
        match parse_int(data, width) {
            Ok((l, k)) => if l < 0 {
                Ok((None, k))
            } else {
                Ok((Some(l as nat), k))
            },
            Err(e) => Err(e),
        }
    }
}

/// The largest byte count a prefix can announce.
pub open spec fn max_length(width: nat, compact: bool) -> nat {
    if compact {
        (usize::MAX - 1) as nat
    } else if width == 2 {
        0x7fff
    } else {
        0x7fff_ffff
    }
}

/// Reads `len` bytes as UTF-8 text.
pub open spec fn parse_text(data: Seq<u8>, len: nat) -> Parsed<Seq<char>> {
    if data.len() < len {
        Err(Error::TruncatedInput)
    } else if !valid_utf8(data.take(len as int)) {
        Err(Error::InvalidEncoding)
    } else {
        Ok((decode_utf8(data.take(len as int)), len))
    }
}

/// Reads `len` raw bytes.
pub open spec fn parse_raw(data: Seq<u8>, len: nat) -> Parsed<Seq<u8>> {
    if data.len() < len {
        Err(Error::TruncatedInput)
    } else {
        Ok((data.take(len as int), len))
    }
}

/// A prefixed non-null string.
pub open spec fn parse_string(data: Seq<u8>, compact: bool) -> Parsed<Seq<char>> {
    match parse_length(data, 2, compact) {
        Ok((Some(l), k)) => match parse_text(data.skip(k as int), l) {
            Ok((s, j)) => Ok((s, k + j)),
            Err(e) => Err(e),
        },
        Ok((None, _)) => Err(Error::InvalidEncoding),
        Err(e) => Err(e),
    }
}

pub(crate) proof fn lemma_prefix_round_trip(len: Option<nat>, width: nat, compact: bool, rest: Seq<u8>)
    requires
        width == 2 || width == 4,
        len matches Some(l) ==> l <= max_length(width, compact),
    ensures
        parse_length(length_prefix(len, width, compact) + rest, width, compact) == Ok::<
            (Option<nat>, nat),
            Error,
        >((len, length_prefix(len, width, compact).len())),
{
    crate::primitive::lemma_byte_ranges();
    match len {
        Some(l) => if compact {
            lemma_varint_law(l + 1, rest);
        } else {
            crate::primitive::lemma_int_round_trip(l as int, width, rest);
        },
        None => if compact {
            lemma_varint_law(0, rest);
        } else {
            crate::primitive::lemma_int_round_trip(-1, width, rest);
        },
    }
}

/// Writes a length prefix.
pub(crate) fn put_length(wire: &mut WireWrite, len: Option<usize>, width: usize, compact: bool)
    requires
        width == 2 || width == 4,
        len matches Some(l) ==> l <= max_length(width as nat, compact),
        old(wire).has_room(
            length_prefix(
                match len {
                    Some(l) => Some(l as nat),
                    None => None,
                },
                width as nat,
                compact,
            ).len(),
        ),
    ensures
        final(wire).version == old(wire).version,
        final(wire).bytes() == old(wire).bytes() + length_prefix(
            match len {
                Some(l) => Some(l as nat),
                None => None,
            },
            width as nat,
            compact,
        ),
{
    proof {
        crate::primitive::lemma_byte_ranges();
    }
    match len {
        Some(l) => if compact {
            put_varint(wire, l + 1);
        } else {
            proof {
                crate::primitive::lemma_int_round_trip(l as int, width as nat, Seq::empty());
            }
            put_int(wire, l as i64, width);
        },
        None => if compact {
            put_varint(wire, 0);
        } else {
            proof {
                crate::primitive::lemma_int_round_trip(-1, width as nat, Seq::empty());
            }
            put_int(wire, -1, width);
        },
    }
}

/// Reads a length prefix.
pub(crate) fn get_length(wire: &mut WireRead, width: usize, compact: bool) -> (r: Result<Option<usize>, Error>)
    requires
        width == 2 || width == 4,
    ensures
        final(wire).version == old(wire).version,
        match parse_length(old(wire).rest(), width as nat, compact) {
            Ok((len, k)) => (r matches Ok(got) && match got {
                Some(l) => len == Some(l as nat),
                None => len is None,
            }) && k <= old(wire).rest().len() && final(wire).rest() == old(wire).rest().skip(
                k as int,
            ),
            Err(e) => r == Err::<Option<usize>, Error>(e),
        },
{
    if compact {
        let u = get_varint(wire)?;
        if u == 0 {
            Ok(None)
        } else {
            Ok(Some(u - 1))
        }
    } else {
        let l = get_int(wire, width)?;
        if l < 0 {
            Ok(None)
        } else {
            proof {
                crate::primitive::lemma_byte_ranges();
            }
            Ok(Some(l as usize))
        }
    }
}

/// Reads `len` bytes of UTF-8 text.
fn get_text(wire: &mut WireRead, len: usize) -> (r: Result<String, Error>)
    ensures
        final(wire).version == old(wire).version,
        match parse_text(old(wire).rest(), len as nat) {
            Ok((s, k)) => (r matches Ok(t) && t@ == s) && k <= old(wire).rest().len()
                && final(wire).rest() == old(wire).rest().skip(k as int),
            Err(e) => r == Err::<String, Error>(e),
        },
{
    let b = wire.take(len)?;
    let v = vstd::slice::slice_to_vec(buffer::as_slice(&b));
    match utf8_string(v) {
        Some(s) => Ok(s),
        None => Err(Error::InvalidEncoding),
    }
}

impl Wired for String {
    type Model = Seq<char>;

    open spec fn model(&self) -> Seq<char> {
        self@
    }

    open spec fn writable(m: Seq<char>, version: nat, compact: bool) -> bool {
        encode_utf8(m).len() <= max_length(2, compact)
    }

    open spec fn canonical(m: Seq<char>, version: nat, compact: bool) -> bool {
        true
    }

    open spec fn encoding(m: Seq<char>, version: nat, compact: bool) -> Seq<u8> {
        length_prefix(Some(encode_utf8(m).len()), 2, compact) + encode_utf8(m)
    }

    open spec fn parse(data: Seq<u8>, version: nat, compact: bool) -> Parsed<Seq<char>> {
        parse_string(data, compact)
    }

    proof fn lemma_round_trip(m: Seq<char>, version: nat, compact: bool, rest: Seq<u8>) {
        let t = encode_utf8(m);
        let p = length_prefix(Some(t.len()), 2, compact);
        lemma_prefix_round_trip(Some(t.len()), 2, compact, t + rest);
        assert(p + t + rest == p + (t + rest));
        assert((p + (t + rest)).skip(p.len() as int) == t + rest);
        assert((t + rest).take(t.len() as int) == t);
        encode_utf8_valid_utf8(m);
        encode_utf8_decode_utf8(m);
    }

    fn to_wire(&self, wire: &mut WireWrite) {
        put_string(self, wire, false)
    }

    fn from_wire(wire: &mut WireRead) -> (r: Result<String, Error>) {
        get_string(wire, false)
    }

    fn to_wire_compact(&self, wire: &mut WireWrite) {
        put_string(self, wire, true)
    }

    fn from_wire_compact(wire: &mut WireRead) -> (r: Result<String, Error>) {
        get_string(wire, true)
    }
}

fn put_string(s: &String, wire: &mut WireWrite, compact: bool)
    requires
        String::writable(s@, old(wire).version as nat, compact),
        old(wire).has_room(String::encoding(s@, old(wire).version as nat, compact).len()),
    ensures
        final(wire).version == old(wire).version,
        final(wire).bytes() == old(wire).bytes() + String::encoding(
            s@,
            old(wire).version as nat,
            compact,
        ),
{
    let b = s.as_str().as_bytes();
    put_length(wire, Some(b.len()), 2, compact);
    wire.put(b);
}

fn get_string(wire: &mut WireRead, compact: bool) -> (r: Result<String, Error>)
    ensures
        final(wire).version == old(wire).version,
        match parse_string(old(wire).rest(), compact) {
            Ok((m, n)) => (r matches Ok(v) && v@ == m) && n <= old(wire).rest().len()
                && final(wire).rest() == old(wire).rest().skip(n as int),
            Err(e) => r == Err::<String, Error>(e),
        },
{
    let ghost d = wire.rest();
    match get_length(wire, 2, compact)? {
        Some(l) => {
            let ghost k = parse_length(d, 2, compact)->Ok_0.1;
            let ghost d1 = wire.rest();
            let s = get_text(wire, l)?;
            proof {
                let j = parse_text(d1, l as nat)->Ok_0.1;
                assert(d.skip(k as int).skip(j as int) == d.skip((k + j) as int));
            }
            Ok(s)
        },
        None => Err(Error::InvalidEncoding),
    }
}

/// A prefixed string that may be null.
pub open spec fn parse_nullable_string(data: Seq<u8>, compact: bool) -> Parsed<Option<Seq<char>>> {
    match parse_length(data, 2, compact) {
        Ok((Some(l), k)) => match parse_text(data.skip(k as int), l) {
            Ok((s, j)) => Ok((Some(s), k + j)),
            Err(e) => Err(e),
        },
        Ok((None, k)) => Ok((None, k)),
        Err(e) => Err(e),
    }
}

/// A prefixed byte blob (never null).
pub open spec fn parse_blob(data: Seq<u8>, compact: bool) -> Parsed<Seq<u8>> {
    match parse_length(data, 4, compact) {
        Ok((Some(l), k)) => match parse_raw(data.skip(k as int), l) {
            Ok((s, j)) => Ok((s, k + j)),
            Err(e) => Err(e),
        },
        Ok((None, _)) => Err(Error::InvalidEncoding),
        Err(e) => Err(e),
    }
}

/// The model of a nullable string.
pub open spec fn text_model(o: Option<String>) -> Option<Seq<char>> {
    match o {
        Some(s) => Some(s@),
        None => None,
    }
}

impl Wired for Option<String> {
    type Model = Option<Seq<char>>;

    open spec fn model(&self) -> Option<Seq<char>> {
        text_model(*self)
    }

    open spec fn writable(m: Option<Seq<char>>, version: nat, compact: bool) -> bool {
        m matches Some(s) ==> encode_utf8(s).len() <= max_length(2, compact)
    }

    open spec fn canonical(m: Option<Seq<char>>, version: nat, compact: bool) -> bool {
        true
    }

    open spec fn encoding(m: Option<Seq<char>>, version: nat, compact: bool) -> Seq<u8> {
        match m {
            Some(s) => String::encoding(s, version, compact),
            None => length_prefix(None, 2, compact),
        }
    }

    open spec fn parse(data: Seq<u8>, version: nat, compact: bool) -> Parsed<Option<Seq<char>>> {
        parse_nullable_string(data, compact)
    }

    proof fn lemma_round_trip(m: Option<Seq<char>>, version: nat, compact: bool, rest: Seq<u8>) {
        match m {
            Some(s) => {
                String::lemma_round_trip(s, version, compact, rest);
            },
            None => {
                lemma_prefix_round_trip(None, 2, compact, rest);
            },
        }
    }

    fn to_wire(&self, wire: &mut WireWrite) {
        put_nullable_string(self, wire, false)
    }

    fn from_wire(wire: &mut WireRead) -> (r: Result<Option<String>, Error>) {
        get_nullable_string(wire, false)
    }

    fn to_wire_compact(&self, wire: &mut WireWrite) {
        put_nullable_string(self, wire, true)
    }

    fn from_wire_compact(wire: &mut WireRead) -> (r: Result<Option<String>, Error>) {
        get_nullable_string(wire, true)
    }
}

fn put_nullable_string(s: &Option<String>, wire: &mut WireWrite, compact: bool)
    requires
        <Option<String>>::writable(text_model(*s), old(wire).version as nat, compact),
        old(wire).has_room(
            <Option<String>>::encoding(text_model(*s), old(wire).version as nat, compact).len(),
        ),
    ensures
        final(wire).version == old(wire).version,
        final(wire).bytes() == old(wire).bytes() + <Option<String>>::encoding(
            text_model(*s),
            old(wire).version as nat,
            compact,
        ),
{
    match s {
        Some(v) => put_string(v, wire, compact),
        None => put_length(wire, None, 2, compact),
    }
}

fn get_nullable_string(wire: &mut WireRead, compact: bool) -> (r: Result<Option<String>, Error>)
    ensures
        final(wire).version == old(wire).version,
        match parse_nullable_string(old(wire).rest(), compact) {
            Ok((m, n)) => (r matches Ok(v) && text_model(v) == m) && n <= old(wire).rest().len()
                && final(wire).rest() == old(wire).rest().skip(n as int),
            Err(e) => r == Err::<Option<String>, Error>(e),
        },
{
    let ghost d = wire.rest();
    match get_length(wire, 2, compact)? {
        Some(l) => {
            let ghost k = parse_length(d, 2, compact)->Ok_0.1;
            let ghost d1 = wire.rest();
            let s = get_text(wire, l)?;
            proof {
                let j = parse_text(d1, l as nat)->Ok_0.1;
                assert(d.skip(k as int).skip(j as int) == d.skip((k + j) as int));
            }
            Ok(Some(s))
        },
        None => Ok(None),
    }
}

impl Wired for Bytes {
    type Model = Seq<u8>;

    open spec fn model(&self) -> Seq<u8> {
        contents(*self)
    }

    open spec fn writable(m: Seq<u8>, version: nat, compact: bool) -> bool {
        m.len() <= max_length(4, compact)
    }

    open spec fn canonical(m: Seq<u8>, version: nat, compact: bool) -> bool {
        true
    }

    open spec fn encoding(m: Seq<u8>, version: nat, compact: bool) -> Seq<u8> {
        length_prefix(Some(m.len()), 4, compact) + m
    }

    open spec fn parse(data: Seq<u8>, version: nat, compact: bool) -> Parsed<Seq<u8>> {
        parse_blob(data, compact)
    }

    proof fn lemma_round_trip(m: Seq<u8>, version: nat, compact: bool, rest: Seq<u8>) {
        let p = length_prefix(Some(m.len()), 4, compact);
        lemma_prefix_round_trip(Some(m.len()), 4, compact, m + rest);
        assert(p + m + rest == p + (m + rest));
        assert((p + (m + rest)).skip(p.len() as int) == m + rest);
        assert((m + rest).take(m.len() as int) == m);
    }

    fn to_wire(&self, wire: &mut WireWrite) {
        put_blob(self, wire, false)
    }

    fn from_wire(wire: &mut WireRead) -> (r: Result<Bytes, Error>) {
        get_blob(wire, false)
    }

    fn to_wire_compact(&self, wire: &mut WireWrite) {
        put_blob(self, wire, true)
    }

    fn from_wire_compact(wire: &mut WireRead) -> (r: Result<Bytes, Error>) {
        get_blob(wire, true)
    }
}

fn put_blob(b: &Bytes, wire: &mut WireWrite, compact: bool)
    requires
        Bytes::writable(contents(*b), old(wire).version as nat, compact),
        old(wire).has_room(Bytes::encoding(contents(*b), old(wire).version as nat, compact).len()),
    ensures
        final(wire).version == old(wire).version,
        final(wire).bytes() == old(wire).bytes() + Bytes::encoding(
            contents(*b),
            old(wire).version as nat,
            compact,
        ),
{
    let s = buffer::as_slice(b);
    put_length(wire, Some(s.len()), 4, compact);
    wire.put(s);
}

fn get_blob(wire: &mut WireRead, compact: bool) -> (r: Result<Bytes, Error>)
    ensures
        final(wire).version == old(wire).version,
        match parse_blob(old(wire).rest(), compact) {
            Ok((m, n)) => (r matches Ok(v) && contents(v) == m) && n <= old(wire).rest().len()
                && final(wire).rest() == old(wire).rest().skip(n as int),
            Err(e) => r == Err::<Bytes, Error>(e),
        },
{
    let ghost d = wire.rest();
    match get_length(wire, 4, compact)? {
        Some(l) => {
            let ghost k = parse_length(d, 4, compact)->Ok_0.1;
            let ghost d1 = wire.rest();
            let b = wire.take(l)?;
            proof {
                assert(d.skip(k as int).skip(l as int) == d.skip((k + l) as int));
            }
            Ok(b)
        },
        None => Err(Error::InvalidEncoding),
    }
}

} // verus!
