//! Fixed-width big-endian integers and booleans.
use crate::error::Error;
use crate::wire::{Parsed, WireRead, WireWrite, Wired};
use crate::buffer;
use vstd::prelude::*;

verus! {

/// `256^n`: the number of values `n` bytes can hold.
pub open spec fn byte_range(n: nat) -> nat
    decreases n,
{
    if n == 0 {
        1
    } else {
        256 * byte_range((n - 1) as nat)
    }
}

/// The `n`-byte big-endian encoding of `v` (taken modulo `256^n`).
pub open spec fn be_encode(v: nat, n: nat) -> Seq<u8>
    decreases n,
{
    if n == 0 {
        Seq::empty()
    } else {
        be_encode(v / 256, (n - 1) as nat).push((v % 256) as u8)
    }
}

/// The number a big-endian byte string denotes.
pub open spec fn be_value(s: Seq<u8>) -> nat
    decreases s.len(),
{
    if s.len() == 0 {
        0
    } else {
        (be_value(s.drop_last()) * 256 + s.last()) as nat
    }
}

/// Two's complement of `v` in `n` bytes.
pub open spec fn twos(v: int, n: nat) -> nat {
    if v < 0 {
        (v + byte_range(n)) as nat
    } else {
        v as nat
    }
}

/// The signed number whose `n`-byte two's complement is `u`.
pub open spec fn untwos(u: nat, n: nat) -> int {
    if 2 * u >= byte_range(n) {
        u - byte_range(n)
    } else {
        u as int
    }
}

/// The encoding of a signed integer in `n` bytes, big-endian.
pub open spec fn int_encoding(v: int, n: nat) -> Seq<u8> {
    be_encode(twos(v, n), n)
}

/// Reads a signed `n`-byte big-endian integer from the front of `data`.
pub open spec fn parse_int(data: Seq<u8>, n: nat) -> Parsed<int> {
    if data.len() < n {
        Err(Error::TruncatedInput)
    } else {
        Ok((untwos(be_value(data.take(n as int)), n), n))
    }
}

pub proof fn lemma_byte_ranges()
    ensures
        byte_range(1) == 0x100,
        byte_range(2) == 0x1_0000,
        byte_range(4) == 0x1_0000_0000,
        byte_range(8) == 0x1_0000_0000_0000_0000,
{
    reveal_with_fuel(byte_range, 9);
}

proof fn lemma_be_round_trip(v: nat, n: nat)
    requires
        v < byte_range(n),
    ensures
        be_encode(v, n).len() == n,
        be_value(be_encode(v, n)) == v,
    decreases n,
{
    if n > 0 {
        let n1 = (n - 1) as nat;
        assert(v / 256 < byte_range(n1)) by (nonlinear_arith)
            requires
                v < 256 * byte_range(n1),
        ;
        lemma_be_round_trip(v / 256, n1);
        assert(be_encode(v, n).drop_last() == be_encode(v / 256, n1));
    }
}

/// Decoding a signed integer's encoding gives it back, whatever follows.
pub proof fn lemma_int_round_trip(v: int, n: nat, rest: Seq<u8>)
    requires
        n > 0,
        -byte_range(n) <= 2 * v < byte_range(n),
    ensures
        int_encoding(v, n).len() == n,
        parse_int(int_encoding(v, n) + rest, n) == Ok::<(int, nat), Error>((v, n)),
{
    lemma_be_round_trip(twos(v, n), n);
    assert((int_encoding(v, n) + rest).take(n as int) == int_encoding(v, n));
}

proof fn lemma_be_value_bound(s: Seq<u8>)
    ensures
        be_value(s) < byte_range(s.len()),
    decreases s.len(),
{
    if s.len() > 0 {
        lemma_be_value_bound(s.drop_last());
        let a = be_value(s.drop_last());
        let m = byte_range(s.drop_last().len());
        let b = s.last() as nat;
        assert(a * 256 + b < 256 * m) by (nonlinear_arith)
            requires
                a < m,
                b < 256,
        ;
    }
}

/// Builds the `n`-byte big-endian encoding of `v`.
fn be_bytes(v: u64, n: usize) -> (r: Vec<u8>)
    requires
        v < byte_range(n as nat),
    ensures
        r@ == be_encode(v as nat, n as nat),
    decreases n,
{
    if n == 0 {
        Vec::new()
    } else {
        proof {
            assert(v / 256 < byte_range((n - 1) as nat)) by (nonlinear_arith)
                requires
                    v < 256 * byte_range((n - 1) as nat),
            ;
        }
        let mut r = be_bytes(v / 256, n - 1);
        r.push((v % 256) as u8);
        r
    }
}

/// The big-endian number in the first `n` bytes of `s`.
fn be_of(s: &[u8], n: usize) -> (r: u64)
    requires
        n <= 8,
        n <= s@.len(),
    ensures
        r == be_value(s@.take(n as int)),
{
    let mut acc: u64 = 0;
    let mut i: usize = 0;
    proof {
        lemma_byte_ranges();
        reveal_with_fuel(byte_range, 9);
    }
    while i < n
        invariant
            n <= s@.len(),
            n <= 8,
            i <= n,
            acc == be_value(s@.take(i as int)),
            byte_range(n as nat) <= 0x1_0000_0000_0000_0000,
        decreases n - i,
    {
        proof {
            lemma_be_value_bound(s@.take(i as int));
            lemma_byte_range_mono(i as nat + 1, n as nat);
            assert(s@.take(i + 1).drop_last() == s@.take(i as int));
            let a = acc as nat;
            let m = byte_range(i as nat);
            let x = s@[i as int] as nat;
            assert(a * 256 + x < 256 * m) by (nonlinear_arith)
                requires
                    a < m,
                    x < 256,
            ;
        }
        acc = acc * 256 + s[i] as u64;
        i = i + 1;
    }
    acc
}

/// Reads an `n`-byte big-endian number, or fails with `TruncatedInput`.
fn get_be(wire: &mut WireRead, n: usize) -> (r: Result<u64, Error>)
    requires
        n <= 8,
    ensures
        final(wire).version == old(wire).version,
        n <= old(wire).rest().len() ==> (r matches Ok(v) && v == be_value(old(wire).rest().take(n as int))
            && final(wire).rest() == old(wire).rest().skip(n as int)),
        n > old(wire).rest().len() ==> r == Err::<u64, Error>(Error::TruncatedInput),
{
    let b = wire.take(n)?;
    let s = buffer::as_slice(&b);
    proof {
        assert(s@.take(n as int) == s@);
    }
    Ok(be_of(s, n))
}

proof fn lemma_byte_range_mono(a: nat, b: nat)
    requires
        a <= b,
    ensures
        byte_range(a) <= byte_range(b),
    decreases b - a,
{
    if a < b {
        lemma_byte_range_mono(a, (b - 1) as nat);
    }
}


/// Whether `n` is one of the fixed integer widths, in bytes.
pub open spec fn is_width(n: nat) -> bool {
    n == 1 || n == 2 || n == 4 || n == 8
}

/// Whether `v` fits a signed `n`-byte integer.
pub open spec fn fits_signed(v: int, n: nat) -> bool {
    -byte_range(n) <= 2 * v < byte_range(n)
}

/// The signed `n`-byte big-endian encoding of `v`.
pub fn int_bytes(v: i64, n: usize) -> (r: Vec<u8>)
    requires
        is_width(n as nat),
        fits_signed(v as int, n as nat),
    ensures
        r@ == int_encoding(v as int, n as nat),
        r@.len() == n,
{
    proof {
        lemma_byte_ranges();
        lemma_int_round_trip(v as int, n as nat, Seq::empty());
    }
    let u: u64 = if v >= 0 {
        v as u64
    } else if n == 8 {
        ((v + i64::MAX) + 1) as u64 + 0x8000_0000_0000_0000u64
    } else {
        let m: i64 = if n == 1 {
            0x100
        } else if n == 2 {
            0x1_0000
        } else {
            0x1_0000_0000
        };
        (v + m) as u64
    };
    be_bytes(u, n)
}

/// Writes `v` as a signed `n`-byte big-endian integer.
pub fn put_int(wire: &mut WireWrite, v: i64, n: usize)
    requires
        is_width(n as nat),
        fits_signed(v as int, n as nat),
        old(wire).has_room(n as nat),
    ensures
        final(wire).version == old(wire).version,
        final(wire).bytes() == old(wire).bytes() + int_encoding(v as int, n as nat),
{
    let b = int_bytes(v, n);
    wire.put(b.as_slice());
}

/// The signed number whose `n`-byte two's complement is `u`.
fn signed_of(u: u64, n: usize) -> (r: i64)
    requires
        is_width(n as nat),
        u < byte_range(n as nat),
    ensures
        r as int == untwos(u as nat, n as nat),
        fits_signed(r as int, n as nat),
{
    proof {
        lemma_byte_ranges();
    }
    if n == 8 {
        if u >= 0x8000_0000_0000_0000u64 {
            (u - 0x8000_0000_0000_0000u64) as i64 - i64::MAX - 1
        } else {
            u as i64
        }
    } else {
        let m: u64 = if n == 1 {
            0x100
        } else if n == 2 {
            0x1_0000
        } else {
            0x1_0000_0000
        };
        if 2 * u >= m {
            u as i64 - m as i64
        } else {
            u as i64
        }
    }
}

/// The signed `n`-byte big-endian integer at the front of `s`.
pub fn read_int(s: &[u8], n: usize) -> (r: i64)
    requires
        is_width(n as nat),
        n <= s@.len(),
    ensures
        parse_int(s@, n as nat) == Ok::<(int, nat), Error>((r as int, n as nat)),
        fits_signed(r as int, n as nat),
{
    let u = be_of(s, n);
    proof {
        lemma_be_value_bound(s@.take(n as int));
    }
    signed_of(u, n)
}

/// Reads a signed `n`-byte big-endian integer.
pub fn get_int(wire: &mut WireRead, n: usize) -> (r: Result<i64, Error>)
    requires
        is_width(n as nat),
    ensures
        final(wire).version == old(wire).version,
        match parse_int(old(wire).rest(), n as nat) {
            Ok((v, k)) => (r matches Ok(x) && x as int == v) && fits_signed(v, n as nat) && k == n
                && final(wire).rest() == old(wire).rest().skip(n as int),
            Err(e) => r == Err::<i64, Error>(e),
        },
{
    let u = get_be(wire, n)?;
    proof {
        lemma_be_value_bound(old(wire).rest().take(n as int));
    }
    Ok(signed_of(u, n))
}

impl Wired for i8 {
    type Model = i8;

    open spec fn model(&self) -> i8 {
        *self
    }

    open spec fn writable(m: i8, version: nat, compact: bool) -> bool {
        true
    }

    open spec fn canonical(m: i8, version: nat, compact: bool) -> bool {
        true
    }

    open spec fn encoding(m: i8, version: nat, compact: bool) -> Seq<u8> {
        int_encoding(m as int, 1)
    }

    open spec fn parse(data: Seq<u8>, version: nat, compact: bool) -> Parsed<i8> {
        match parse_int(data, 1) {
            Ok((v, n)) => Ok((v as i8, n)),
            Err(e) => Err(e),
        }
    }

    proof fn lemma_round_trip(m: i8, version: nat, compact: bool, rest: Seq<u8>) {
        lemma_byte_ranges();
        lemma_int_round_trip(m as int, 1, rest);
    }

    fn to_wire(&self, wire: &mut WireWrite) {
        proof {
            lemma_byte_ranges();
            lemma_int_round_trip(*self as int, 1, Seq::empty());
        }
        put_int(wire, *self as i64, 1);
    }

    fn from_wire(wire: &mut WireRead) -> (r: Result<i8, Error>) {
        let v = get_int(wire, 1)?;
        proof {
            lemma_byte_ranges();
        }
        Ok(v as i8)
    }

    fn to_wire_compact(&self, wire: &mut WireWrite) {
        self.to_wire(wire)
    }

    fn from_wire_compact(wire: &mut WireRead) -> (r: Result<i8, Error>) {
        i8::from_wire(wire)
    }
}

impl Wired for i16 {
    type Model = i16;

    open spec fn model(&self) -> i16 {
        *self
    }

    open spec fn writable(m: i16, version: nat, compact: bool) -> bool {
        true
    }

    open spec fn canonical(m: i16, version: nat, compact: bool) -> bool {
        true
    }

    open spec fn encoding(m: i16, version: nat, compact: bool) -> Seq<u8> {
        int_encoding(m as int, 2)
    }

    open spec fn parse(data: Seq<u8>, version: nat, compact: bool) -> Parsed<i16> {
        match parse_int(data, 2) {
            Ok((v, n)) => Ok((v as i16, n)),
            Err(e) => Err(e),
        }
    }

    proof fn lemma_round_trip(m: i16, version: nat, compact: bool, rest: Seq<u8>) {
        lemma_byte_ranges();
        lemma_int_round_trip(m as int, 2, rest);
    }

    fn to_wire(&self, wire: &mut WireWrite) {
        proof {
            lemma_byte_ranges();
            lemma_int_round_trip(*self as int, 2, Seq::empty());
        }
        put_int(wire, *self as i64, 2);
    }

    fn from_wire(wire: &mut WireRead) -> (r: Result<i16, Error>) {
        let v = get_int(wire, 2)?;
        proof {
            lemma_byte_ranges();
        }
        Ok(v as i16)
    }

    fn to_wire_compact(&self, wire: &mut WireWrite) {
        self.to_wire(wire)
    }

    fn from_wire_compact(wire: &mut WireRead) -> (r: Result<i16, Error>) {
        i16::from_wire(wire)
    }
}

impl Wired for i32 {
    type Model = i32;

    open spec fn model(&self) -> i32 {
        *self
    }

    open spec fn writable(m: i32, version: nat, compact: bool) -> bool {
        true
    }

    open spec fn canonical(m: i32, version: nat, compact: bool) -> bool {
        true
    }

    open spec fn encoding(m: i32, version: nat, compact: bool) -> Seq<u8> {
        int_encoding(m as int, 4)
    }

    open spec fn parse(data: Seq<u8>, version: nat, compact: bool) -> Parsed<i32> {
        match parse_int(data, 4) {
            Ok((v, n)) => Ok((v as i32, n)),
            Err(e) => Err(e),
        }
    }

    proof fn lemma_round_trip(m: i32, version: nat, compact: bool, rest: Seq<u8>) {
        lemma_byte_ranges();
        lemma_int_round_trip(m as int, 4, rest);
    }

    fn to_wire(&self, wire: &mut WireWrite) {
        proof {
            lemma_byte_ranges();
            lemma_int_round_trip(*self as int, 4, Seq::empty());
        }
        put_int(wire, *self as i64, 4);
    }

    fn from_wire(wire: &mut WireRead) -> (r: Result<i32, Error>) {
        let v = get_int(wire, 4)?;
        proof {
            lemma_byte_ranges();
        }
        Ok(v as i32)
    }

    fn to_wire_compact(&self, wire: &mut WireWrite) {
        self.to_wire(wire)
    }

    fn from_wire_compact(wire: &mut WireRead) -> (r: Result<i32, Error>) {
        i32::from_wire(wire)
    }
}

impl Wired for i64 {
    type Model = i64;

    open spec fn model(&self) -> i64 {
        *self
    }

    open spec fn writable(m: i64, version: nat, compact: bool) -> bool {
        true
    }

    open spec fn canonical(m: i64, version: nat, compact: bool) -> bool {
        true
    }

    open spec fn encoding(m: i64, version: nat, compact: bool) -> Seq<u8> {
        int_encoding(m as int, 8)
    }

    open spec fn parse(data: Seq<u8>, version: nat, compact: bool) -> Parsed<i64> {
        match parse_int(data, 8) {
            Ok((v, n)) => Ok((v as i64, n)),
            Err(e) => Err(e),
        }
    }

    proof fn lemma_round_trip(m: i64, version: nat, compact: bool, rest: Seq<u8>) {
        lemma_byte_ranges();
        lemma_int_round_trip(m as int, 8, rest);
    }

    fn to_wire(&self, wire: &mut WireWrite) {
        proof {
            lemma_byte_ranges();
            lemma_int_round_trip(*self as int, 8, Seq::empty());
        }
        put_int(wire, *self as i64, 8);
    }

    fn from_wire(wire: &mut WireRead) -> (r: Result<i64, Error>) {
        let v = get_int(wire, 8)?;
        proof {
            lemma_byte_ranges();
        }
        Ok(v as i64)
    }

    fn to_wire_compact(&self, wire: &mut WireWrite) {
        self.to_wire(wire)
    }

    fn from_wire_compact(wire: &mut WireRead) -> (r: Result<i64, Error>) {
        i64::from_wire(wire)
    }
}

} // verus!
