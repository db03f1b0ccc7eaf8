//! Unsigned base-128 varints: seven data bits per byte, least significant
//! group first, the high bit set on every byte but the last.
use crate::buffer;
use crate::error::Error;
use crate::wire::{Parsed, WireRead, WireWrite, Wired};
use vstd::arithmetic::power::pow;
use vstd::prelude::*;

verus! {

/// The varint encoding of `n`.
pub open spec fn varint_encode(n: nat) -> Seq<u8>
    decreases n,
{
    if n < 128 {
        seq![n as u8]
    } else {
        seq![(n % 128 + 128) as u8] + varint_encode(n / 128)
    }
}

/// Reads a varint from the front of `data`: its value and its length.
/// Without a final byte (high bit clear) the input is truncated.
pub open spec fn parse_varint(data: Seq<u8>) -> Parsed<nat>
    decreases data.len(),
{
    if data.len() == 0 {
        Err(Error::TruncatedInput)
    } else if data[0] < 128 {
        Ok((data[0] as nat, 1))
    } else {
        match parse_varint(data.skip(1)) {
            Ok((v, k)) => Ok((((data[0] - 128) + 128 * v) as nat, k + 1)),
            Err(e) => Err(e),
        }
    }
}

/// Reads a varint whose value must fit a `usize`.
pub open spec fn parse_usize_varint(data: Seq<u8>) -> Parsed<nat> {
    match parse_varint(data) {
        Ok((v, k)) => if v <= usize::MAX {
            Ok((v, k))
        } else {
            Err(Error::InvalidEncoding)
        },
        Err(e) => Err(e),
    }
}

/// Decoding the encoding of `n` gives `n` back and uses all of it, whatever
/// follows; the encoding is `k >= 1` bytes long, where `k` is the least number
/// with `n < 128^k`: seven bits per byte, one byte for zero.
pub proof fn lemma_varint_law(n: nat, rest: Seq<u8>)
    ensures
        parse_varint(varint_encode(n) + rest) == Ok::<(nat, nat), Error>((n, varint_encode(n).len())),
        varint_encode(n).len() >= 1,
        n < pow(128, varint_encode(n).len()),
        varint_encode(n).len() > 1 ==> pow(128, (varint_encode(n).len() - 1) as nat) <= n,
    decreases n,
{
    let e = varint_encode(n);
    let d = e + rest;
    reveal(pow);
    if n < 128 {
        assert(pow(128, 1) == 128) by {
            reveal_with_fuel(pow, 2);
        }
    } else {
        let q = n / 128;
        lemma_varint_law(q, rest);
        assert(d.skip(1) == varint_encode(q) + rest);
        let k = varint_encode(q).len();
        assert(e.len() == k + 1);
        assert(pow(128, k + 1) == 128 * pow(128, k));
        assert(q < pow(128, k));
        assert(n < pow(128, (k + 1) as nat)) by (nonlinear_arith)
            requires
                q == n / 128,
                q < pow(128, k),
                pow(128, (k + 1) as nat) == 128 * pow(128, k),
        ;
        if k > 1 {
            assert(pow(128, (k - 1) as nat) <= q);
            assert(pow(128, k) == 128 * pow(128, (k - 1) as nat));
            assert(pow(128, k) <= n) by (nonlinear_arith)
                requires
                    q == n / 128,
                    pow(128, (k - 1) as nat) <= q,
                    pow(128, k) == 128 * pow(128, (k - 1) as nat),
            ;
        } else {
            assert(pow(128, 1) == 128) by {
                reveal_with_fuel(pow, 2);
            }
        }
    }
}

proof fn lemma_no_final_byte(data: Seq<u8>)
    requires
        forall|j: int| 0 <= j < data.len() ==> data[j] >= 128,
    ensures
        parse_varint(data) == Err::<(nat, nat), Error>(Error::TruncatedInput),
    decreases data.len(),
{
    if data.len() > 0 {
        lemma_no_final_byte(data.skip(1));
    }
}

/// The suffix starting at `i` decodes to a value no larger than the one
/// starting at `j <= i`, where both end at the same final byte.
proof fn lemma_value_grows(data: Seq<u8>, j: nat, i: nat)
    requires
        j <= i < data.len(),
        parse_varint(data.skip(i as int)) is Ok,
        forall|x: int| j <= x < i ==> data[x] >= 128,
    ensures
        parse_varint(data.skip(j as int)) is Ok,
        parse_varint(data.skip(j as int))->Ok_0.0 >= parse_varint(data.skip(i as int))->Ok_0.0,
    decreases i - j,
{
    if j < i {
        lemma_value_grows(data, j + 1, i);
        assert(data.skip(j as int).skip(1) == data.skip(j + 1 as int));
    }
}

/// Writes the varint encoding of `n`.
pub fn put_varint(wire: &mut WireWrite, n: usize)
    requires
        old(wire).has_room(varint_encode(n as nat).len()),
    ensures
        final(wire).version == old(wire).version,
        final(wire).bytes() == old(wire).bytes() + varint_encode(n as nat),
{
    let mut out: Vec<u8> = Vec::new();
    let mut v: usize = n;
    while v >= 128
        invariant
            out@ + varint_encode(v as nat) == varint_encode(n as nat),
        decreases v,
    {
        let ghost before = out@;
        out.push((v % 128 + 128) as u8);
        proof {
            assert(varint_encode(v as nat) == seq![(v % 128 + 128) as u8] + varint_encode(
                (v / 128) as nat,
            ));
            assert(out@ + varint_encode((v / 128) as nat) == before + varint_encode(v as nat));
        }
        v = v / 128;
    }
    out.push(v as u8);
    wire.put(out.as_slice());
}

/// Reads a varint whose value fits a `usize`: `TruncatedInput` without a
/// final byte, `InvalidEncoding` when the value is wider than `usize`.
pub fn get_varint(wire: &mut WireRead) -> (r: Result<usize, Error>)
    ensures
        final(wire).version == old(wire).version,
        match parse_usize_varint(old(wire).rest()) {
            Ok((v, k)) => (r matches Ok(x) && x as nat == v) && k <= old(wire).rest().len()
                && final(wire).rest() == old(wire).rest().skip(k as int),
            Err(e) => r == Err::<usize, Error>(e),
        },
{
    let s = buffer::as_slice(&wire.buffer);
    let ghost d = s@;
    let len = s.len();
    let mut k: usize = 0;
    while k < len && s[k] >= 128
        invariant
            len == d.len(),
            s@ == d,
            d == old(wire).rest(),
            wire.rest() == d,
            wire.version == old(wire).version,
            k <= len,
            forall|j: int| 0 <= j < k ==> d[j] >= 128,
        decreases len - k,
    {
        k = k + 1;
    }
    if k == len {
        proof {
            lemma_no_final_byte(d);
        }
        return Err(Error::TruncatedInput);
    }
    // The final byte is at `k`; accumulate the groups from there back to 0.
    let mut acc: usize = s[k] as usize;
    let mut i: usize = k;
    proof {
        assert(d.skip(k as int)[0] == d[k as int]);
    }
    while i > 0
        invariant
            len == d.len(),
            s@ == d,
            d == old(wire).rest(),
            wire.rest() == d,
            wire.version == old(wire).version,
            k < len,
            i <= k,
            d[k as int] < 128,
            forall|j: int| 0 <= j < k ==> d[j] >= 128,
            parse_varint(d.skip(i as int)) == Ok::<(nat, nat), Error>((acc as nat, (k + 1 - i) as nat)),
        decreases i,
    {
        let g = (s[i - 1] - 128) as usize;
        proof {
            assert(d.skip(i - 1).skip(1) == d.skip(i as int));
            assert(d.skip(i - 1)[0] == d[i - 1]);
        }
        if acc > (usize::MAX - g) / 128 {
            proof {
                assert(g + 128 * acc > usize::MAX) by (nonlinear_arith)
                    requires
                        acc > (usize::MAX - g) / 128,
                        g <= 127,
                ;
                assert(parse_varint(d.skip(i - 1)) == Ok::<(nat, nat), Error>(
                    ((g + 128 * acc) as nat, (k + 2 - i) as nat),
                ));
                lemma_value_grows(d, 0, (i - 1) as nat);
                assert(d.skip(0) == d);
            }
            return Err(Error::InvalidEncoding);
        }
        proof {
            assert(g + 128 * acc <= usize::MAX) by (nonlinear_arith)
                requires
                    acc <= (usize::MAX - g) / 128,
                    g <= 127,
            ;
        }
        acc = g + 128 * acc;
        i = i - 1;
    }
    proof {
        assert(d.skip(0) == d);
    }
    let _ = buffer::split_to(&mut wire.buffer, k + 1);
    Ok(acc)
}

/// An unsigned varint carrying a `usize`.
#[allow(non_camel_case_types)]
pub struct uvint(pub usize);

impl uvint {
    pub fn value(&self) -> (r: usize)
        ensures
            r == self.0,
    {
        self.0
    }
}

impl Wired for uvint {
    type Model = nat;

    open spec fn model(&self) -> nat {
        self.0 as nat
    }

    open spec fn writable(m: nat, version: nat, compact: bool) -> bool {
        m <= usize::MAX
    }

    open spec fn canonical(m: nat, version: nat, compact: bool) -> bool {
        true
    }

    open spec fn encoding(m: nat, version: nat, compact: bool) -> Seq<u8> {
        varint_encode(m)
    }

    open spec fn parse(data: Seq<u8>, version: nat, compact: bool) -> Parsed<nat> {
        parse_usize_varint(data)
    }

    proof fn lemma_round_trip(m: nat, version: nat, compact: bool, rest: Seq<u8>) {
        lemma_varint_law(m, rest);
    }

    fn to_wire(&self, wire: &mut WireWrite) {
        put_varint(wire, self.0)
    }

    fn from_wire(wire: &mut WireRead) -> (r: Result<uvint, Error>) {
        let v = get_varint(wire)?;
        Ok(uvint(v))
    }

    fn to_wire_compact(&self, wire: &mut WireWrite) {
        put_varint(wire, self.0)
    }

    fn from_wire_compact(wire: &mut WireRead) -> (r: Result<uvint, Error>) {
        let v = get_varint(wire)?;
        Ok(uvint(v))
    }
}

/// The zigzag mapping of signed to unsigned numbers: 0, -1, 1, -2, ... go
/// to 0, 1, 2, 3, ...
pub open spec fn zigzag(v: int) -> nat {
    if v >= 0 {
        (2 * v) as nat
    } else {
        (-2 * v - 1) as nat
    }
}

/// The signed number whose zigzag mapping is `u`.
pub open spec fn unzigzag(u: nat) -> int {
    if u % 2 == 0 {
        (u / 2) as int
    } else {
        -((u / 2) as int) - 1
    }
}

/// A signed varint carrying an `isize`: the varint of its zigzag mapping.
#[allow(non_camel_case_types)]
pub struct vint(pub isize);

/// Reads a signed varint whose value fits an `isize`.
pub open spec fn parse_signed_varint(data: Seq<u8>) -> Parsed<int> {
    match parse_usize_varint(data) {
        Ok((u, k)) => Ok((unzigzag(u), k)),
        Err(e) => Err(e),
    }
}

proof fn lemma_word_sizes()
    ensures
        usize::MAX == 2 * isize::MAX + 1,
        isize::MIN == -isize::MAX - 1,
{
}

impl Wired for vint {
    type Model = int;

    open spec fn model(&self) -> int {
        self.0 as int
    }

    open spec fn writable(m: int, version: nat, compact: bool) -> bool {
        isize::MIN <= m <= isize::MAX
    }

    open spec fn canonical(m: int, version: nat, compact: bool) -> bool {
        true
    }

    open spec fn encoding(m: int, version: nat, compact: bool) -> Seq<u8> {
        varint_encode(zigzag(m))
    }

    open spec fn parse(data: Seq<u8>, version: nat, compact: bool) -> Parsed<int> {
        parse_signed_varint(data)
    }

    proof fn lemma_round_trip(m: int, version: nat, compact: bool, rest: Seq<u8>) {
        lemma_word_sizes();
        lemma_varint_law(zigzag(m), rest);
    }

    fn to_wire(&self, wire: &mut WireWrite) {
        put_signed(self.0, wire)
    }

    fn from_wire(wire: &mut WireRead) -> (r: Result<vint, Error>) {
        get_signed(wire)
    }

    fn to_wire_compact(&self, wire: &mut WireWrite) {
        put_signed(self.0, wire)
    }

    fn from_wire_compact(wire: &mut WireRead) -> (r: Result<vint, Error>) {
        get_signed(wire)
    }
}

fn put_signed(v: isize, wire: &mut WireWrite)
    requires
        old(wire).has_room(varint_encode(zigzag(v as int)).len()),
    ensures
        final(wire).version == old(wire).version,
        final(wire).bytes() == old(wire).bytes() + varint_encode(zigzag(v as int)),
{
    proof {
        lemma_word_sizes();
    }
    let z: usize = if v >= 0 {
        (v as usize) * 2
    } else {
        (-(v + 1)) as usize * 2 + 1
    };
    put_varint(wire, z);
}

fn get_signed(wire: &mut WireRead) -> (r: Result<vint, Error>)
    ensures
        final(wire).version == old(wire).version,
        match parse_signed_varint(old(wire).rest()) {
            Ok((m, n)) => (r matches Ok(x) && x.0 as int == m) && n <= old(wire).rest().len()
                && final(wire).rest() == old(wire).rest().skip(n as int),
            Err(e) => r == Err::<vint, Error>(e),
        },
{
    proof {
        lemma_word_sizes();
    }
    let u = get_varint(wire)?;
    if u % 2 == 0 {
        Ok(vint((u / 2) as isize))
    } else {
        Ok(vint(-((u / 2) as isize) - 1))
    }
}

} // verus!
