//! Composite wire values: booleans, the unit value, arrays, sequences of
//! fields, and fields gated by the negotiated version.
use crate::error::Error;
use crate::primitive::{get_int, int_encoding, parse_int, put_int, lemma_byte_ranges, lemma_int_round_trip};
use crate::text::{length_prefix, max_length, parse_length};
use crate::wire::{Parsed, WireRead, WireWrite, Wired};
use vstd::prelude::*;

verus! {

/// Writes `x` in the given mode.
pub fn put<T: Wired>(x: &T, wire: &mut WireWrite, compact: bool)
    requires
        T::writable(x.model(), old(wire).version as nat, compact),
        old(wire).has_room(T::encoding(x.model(), old(wire).version as nat, compact).len()),
    ensures
        final(wire).version == old(wire).version,
        final(wire).bytes() == old(wire).bytes() + T::encoding(
            x.model(),
            old(wire).version as nat,
            compact,
        ),
{
    if compact {
        x.to_wire_compact(wire)
    } else {
        x.to_wire(wire)
    }
}

/// Reads a `T` in the given mode.
pub fn get<T: Wired>(wire: &mut WireRead, compact: bool) -> (r: Result<T, Error>)
    ensures
        final(wire).version == old(wire).version,
        match T::parse(old(wire).rest(), old(wire).version as nat, compact) {
            Ok((m, n)) => (r matches Ok(v) && v.model() == m) && n <= old(wire).rest().len()
                && final(wire).rest() == old(wire).rest().skip(n as int),
            Err(e) => r == Err::<T, Error>(e),
        },
{
    if compact {
        T::from_wire_compact(wire)
    } else {
        T::from_wire(wire)
    }
}

/// Concatenation regroups freely.
pub proof fn lemma_concat_assoc(a: Seq<u8>, b: Seq<u8>, c: Seq<u8>)
    ensures
        a + b + c == a + (b + c),
{
    assert(a + b + c =~= a + (b + c));
}

impl Wired for bool {
    type Model = bool;

    open spec fn model(&self) -> bool {
        *self
    }

    open spec fn writable(m: bool, version: nat, compact: bool) -> bool {
        true
    }

    open spec fn canonical(m: bool, version: nat, compact: bool) -> bool {
        true
    }

    open spec fn encoding(m: bool, version: nat, compact: bool) -> Seq<u8> {
        int_encoding(if m { 1 } else { 0 }, 1)
    }

    /// Any nonzero byte reads as `true`.
    open spec fn parse(data: Seq<u8>, version: nat, compact: bool) -> Parsed<bool> {
        match parse_int(data, 1) {
            Ok((v, n)) => Ok((v != 0, n)),
            Err(e) => Err(e),
        }
    }

    proof fn lemma_round_trip(m: bool, version: nat, compact: bool, rest: Seq<u8>) {
        lemma_byte_ranges();
        lemma_int_round_trip(if m { 1 } else { 0 }, 1, rest);
    }

    fn to_wire(&self, wire: &mut WireWrite) {
        proof {
            lemma_byte_ranges();
            lemma_int_round_trip(if *self { 1 } else { 0 }, 1, Seq::empty());
        }
        put_int(wire, if *self { 1 } else { 0 }, 1);
    }

    fn from_wire(wire: &mut WireRead) -> (r: Result<bool, Error>) {
        let v = get_int(wire, 1)?;
        Ok(v != 0)
    }

    fn to_wire_compact(&self, wire: &mut WireWrite) {
        self.to_wire(wire)
    }

    fn from_wire_compact(wire: &mut WireRead) -> (r: Result<bool, Error>) {
        bool::from_wire(wire)
    }
}

/// The unit value takes no bytes.
impl Wired for () {
    type Model = ();

    open spec fn model(&self) -> () {
        ()
    }

    open spec fn writable(m: (), version: nat, compact: bool) -> bool {
        true
    }

    open spec fn canonical(m: (), version: nat, compact: bool) -> bool {
        true
    }

    open spec fn encoding(m: (), version: nat, compact: bool) -> Seq<u8> {
        Seq::empty()
    }

    open spec fn parse(data: Seq<u8>, version: nat, compact: bool) -> Parsed<()> {
        Ok(((), 0))
    }

    proof fn lemma_round_trip(m: (), version: nat, compact: bool, rest: Seq<u8>) {
        assert(Seq::<u8>::empty() + rest == rest);
    }

    fn to_wire(&self, wire: &mut WireWrite) {
        proof {
            assert(wire.bytes() + Seq::<u8>::empty() == wire.bytes());
        }
    }

    fn from_wire(wire: &mut WireRead) -> (r: Result<(), Error>) {
        proof {
            assert(wire.rest().skip(0) == wire.rest());
        }
        Ok(())
    }

    fn to_wire_compact(&self, wire: &mut WireWrite) {
        self.to_wire(wire)
    }

    fn from_wire_compact(wire: &mut WireRead) -> (r: Result<(), Error>) {
        <()>::from_wire(wire)
    }
}

// ---------------------------------------------------------------------------
// Arrays

/// The items of an array, encoded one after the other.
pub open spec fn items_encoding<T: Wired>(s: Seq<T::Model>, version: nat, compact: bool) -> Seq<u8>
    decreases s.len(),
{
    if s.len() == 0 {
        Seq::empty()
    } else {
        items_encoding::<T>(s.drop_last(), version, compact) + T::encoding(s.last(), version, compact)
    }
}

/// Reads `count` items one after the other.
pub open spec fn parse_items<T: Wired>(data: Seq<u8>, count: nat, version: nat, compact: bool) -> Parsed<Seq<T::Model>>
    decreases count,
{
    if count == 0 {
        Ok((Seq::empty(), 0))
    } else {
        match parse_items::<T>(data, (count - 1) as nat, version, compact) {
            Ok((s, k)) => match T::parse(data.skip(k as int), version, compact) {
                Ok((x, j)) => Ok((s.push(x), k + j)),
                Err(e) => Err(e),
            },
            Err(e) => Err(e),
        }
    }
}

/// Whether every item can be written.
pub open spec fn all_writable<T: Wired>(s: Seq<T::Model>, version: nat, compact: bool) -> bool {
    forall|i: int| 0 <= i < s.len() ==> #[trigger] T::writable(s[i], version, compact)
}

/// Whether every item reads back as itself.
pub open spec fn all_canonical<T: Wired>(s: Seq<T::Model>, version: nat, compact: bool) -> bool {
    forall|i: int| 0 <= i < s.len() ==> #[trigger] T::canonical(s[i], version, compact)
}

/// The model of an array.
pub open spec fn items_model<T: Wired>(v: Seq<T>) -> Seq<T::Model> {
    v.map_values(|x: T| x.model())
}

pub(crate) proof fn lemma_items_round_trip<T: Wired>(s: Seq<T::Model>, version: nat, compact: bool, rest: Seq<u8>)
    requires
        all_writable::<T>(s, version, compact),
        all_canonical::<T>(s, version, compact),
    ensures
        parse_items::<T>(items_encoding::<T>(s, version, compact) + rest, s.len(), version, compact)
            == Ok::<(Seq<T::Model>, nat), Error>((s, items_encoding::<T>(s, version, compact).len())),
    decreases s.len(),
{
    if s.len() > 0 {
        let p = s.drop_last();
        let ep = items_encoding::<T>(p, version, compact);
        let el = T::encoding(s.last(), version, compact);
        assert(all_writable::<T>(p, version, compact)) by {
            assert forall|i: int| 0 <= i < p.len() implies #[trigger] T::writable(p[i], version, compact) by {
                assert(p[i] == s[i]);
            }
        }
        assert(all_canonical::<T>(p, version, compact)) by {
            assert forall|i: int| 0 <= i < p.len() implies #[trigger] T::canonical(p[i], version, compact) by {
                assert(p[i] == s[i]);
            }
        }
        assert(T::writable(s[s.len() - 1], version, compact));
        assert(T::canonical(s[s.len() - 1], version, compact));
        lemma_items_round_trip::<T>(p, version, compact, el + rest);
        assert(ep + el + rest == ep + (el + rest));
        assert((ep + (el + rest)).skip(ep.len() as int) == el + rest);
        T::lemma_round_trip(s.last(), version, compact, rest);
        assert(p.push(s.last()) == s);
    } else {
        assert(s == Seq::<T::Model>::empty());
    }
}

proof fn lemma_items_prefix<T: Wired>(s: Seq<T::Model>, i: int, version: nat, compact: bool)
    requires
        0 <= i <= s.len(),
    ensures
        items_encoding::<T>(s.take(i), version, compact).len() <= items_encoding::<T>(s, version, compact).len(),
    decreases s.len(),
{
    if i < s.len() {
        assert(s.drop_last().take(i) == s.take(i));
        lemma_items_prefix::<T>(s.drop_last(), i, version, compact);
    } else {
        assert(s.take(i) == s);
    }
}

proof fn lemma_items_fail<T: Wired>(data: Seq<u8>, i: nat, count: nat, version: nat, compact: bool)
    requires
        i <= count,
        parse_items::<T>(data, i, version, compact) is Err,
    ensures
        parse_items::<T>(data, count, version, compact) == parse_items::<T>(data, i, version, compact),
    decreases count - i,
{
    if i < count {
        lemma_items_fail::<T>(data, i, (count - 1) as nat, version, compact);
    }
}

/// Writes the items of `v` one after the other.
pub(crate) fn put_items<T: Wired>(v: &Vec<T>, wire: &mut WireWrite, compact: bool)
    requires
        all_writable::<T>(items_model(v@), old(wire).version as nat, compact),
        old(wire).has_room(items_encoding::<T>(items_model(v@), old(wire).version as nat, compact).len()),
    ensures
        final(wire).version == old(wire).version,
        final(wire).bytes() == old(wire).bytes() + items_encoding::<T>(
            items_model(v@),
            old(wire).version as nat,
            compact,
        ),
{
    let ghost m = items_model(v@);
    let ghost ver = wire.version as nat;
    let ghost start = wire.bytes();
    let mut i: usize = 0;
    proof {
        assert(m.take(0) == Seq::<T::Model>::empty());
        assert(start + Seq::<u8>::empty() == start);
    }
    while i < v.len()
        invariant
            i <= v.len(),
            m == items_model(v@),
            ver == wire.version,
            all_writable::<T>(m, ver, compact),
            start.len() + items_encoding::<T>(m, ver, compact).len() <= usize::MAX,
            wire.bytes() == start + items_encoding::<T>(m.take(i as int), ver, compact),
        decreases v.len() - i,
    {
        proof {
            lemma_items_prefix::<T>(m, i + 1, ver, compact);
            assert(m.take(i + 1).drop_last() == m.take(i as int));
            assert(m.take(i + 1).last() == v@[i as int].model());
            assert(T::writable(m[i as int], ver, compact));
        }
        put(&v[i], wire, compact);
        proof {
            assert(wire.bytes() == start + items_encoding::<T>(m.take(i + 1), ver, compact));
        }
        i = i + 1;
    }
    proof {
        assert(m.take(v.len() as int) == m);
    }
}

/// Reads `count` items one after the other.
pub(crate) fn get_items<T: Wired>(wire: &mut WireRead, count: usize, compact: bool) -> (r: Result<Vec<T>, Error>)
    ensures
        final(wire).version == old(wire).version,
        match parse_items::<T>(old(wire).rest(), count as nat, old(wire).version as nat, compact) {
            Ok((m, n)) => (r matches Ok(v) && items_model(v@) == m) && n <= old(wire).rest().len()
                && final(wire).rest() == old(wire).rest().skip(n as int),
            Err(e) => r == Err::<Vec<T>, Error>(e),
        },
{
    let ghost d = wire.rest();
    let ghost ver = wire.version as nat;
    let ghost mut consumed: nat = 0;
    let mut out: Vec<T> = Vec::new();
    let mut i: usize = 0;
    proof {
        assert(d.skip(0) == d);
        assert(items_model(out@) == Seq::<T::Model>::empty());
    }
    while i < count
        invariant
            i <= count,
            ver == wire.version,
            ver == old(wire).version,
            d == old(wire).rest(),
            parse_items::<T>(d, i as nat, ver, compact) == Ok::<(Seq<T::Model>, nat), Error>(
                (items_model(out@), consumed),
            ),
            consumed <= d.len(),
            wire.rest() == d.skip(consumed as int),
        decreases count - i,
    {
        let ghost before = wire.rest();
        let item = match get::<T>(wire, compact) {
            Ok(x) => x,
            Err(e) => {
                proof {
                    lemma_items_fail::<T>(d, (i + 1) as nat, count as nat, ver, compact);
                }
                return Err(e);
            },
        };
        proof {
            let j = T::parse(before, ver, compact)->Ok_0.1;
            assert(d.skip(consumed as int).skip(j as int) == d.skip((consumed + j) as int));
            consumed = consumed + j;
        }
        let ghost prev = out@;
        out.push(item);
        proof {
            assert(items_model(out@) == items_model(prev).push(item.model()));
        }
        i = i + 1;
    }
    Ok(out)
}

/// An array: standard mode prefixes a signed 32-bit item count, compact mode
/// the varint of the count plus one. A null array (negative count, or `0` in
/// compact mode) is not a valid array.
impl<T: Wired> Wired for Vec<T> {
    type Model = Seq<T::Model>;

    open spec fn model(&self) -> Seq<T::Model> {
        items_model(self@)
    }

    open spec fn writable(m: Seq<T::Model>, version: nat, compact: bool) -> bool {
        m.len() <= max_length(4, compact) && all_writable::<T>(m, version, compact)
    }

    open spec fn canonical(m: Seq<T::Model>, version: nat, compact: bool) -> bool {
        all_canonical::<T>(m, version, compact)
    }

    open spec fn encoding(m: Seq<T::Model>, version: nat, compact: bool) -> Seq<u8> {
        length_prefix(Some(m.len()), 4, compact) + items_encoding::<T>(m, version, compact)
    }

    open spec fn parse(data: Seq<u8>, version: nat, compact: bool) -> Parsed<Seq<T::Model>> {
        match parse_length(data, 4, compact) {
            Ok((Some(c), k)) => match parse_items::<T>(data.skip(k as int), c, version, compact) {
                Ok((s, j)) => Ok((s, k + j)),
                Err(e) => Err(e),
            },
            Ok((None, _)) => Err(Error::InvalidEncoding),
            Err(e) => Err(e),
        }
    }

    proof fn lemma_round_trip(m: Seq<T::Model>, version: nat, compact: bool, rest: Seq<u8>) {
        let p = length_prefix(Some(m.len()), 4, compact);
        let e = items_encoding::<T>(m, version, compact);
        crate::text::lemma_prefix_round_trip(Some(m.len()), 4, compact, e + rest);
        assert(p + e + rest == p + (e + rest));
        assert((p + (e + rest)).skip(p.len() as int) == e + rest);
        lemma_items_round_trip::<T>(m, version, compact, rest);
    }

    fn to_wire(&self, wire: &mut WireWrite) {
        put_array(self, wire, false)
    }

    fn from_wire(wire: &mut WireRead) -> (r: Result<Vec<T>, Error>) {
        get_array(wire, false)
    }

    fn to_wire_compact(&self, wire: &mut WireWrite) {
        put_array(self, wire, true)
    }

    fn from_wire_compact(wire: &mut WireRead) -> (r: Result<Vec<T>, Error>) {
        get_array(wire, true)
    }
}

fn put_array<T: Wired>(v: &Vec<T>, wire: &mut WireWrite, compact: bool)
    requires
        <Vec<T>>::writable(items_model(v@), old(wire).version as nat, compact),
        old(wire).has_room(<Vec<T>>::encoding(items_model(v@), old(wire).version as nat, compact).len()),
    ensures
        final(wire).version == old(wire).version,
        final(wire).bytes() == old(wire).bytes() + <Vec<T>>::encoding(
            items_model(v@),
            old(wire).version as nat,
            compact,
        ),
{
    crate::text::put_length(wire, Some(v.len()), 4, compact);
    put_items(v, wire, compact);
}

fn get_array<T: Wired>(wire: &mut WireRead, compact: bool) -> (r: Result<Vec<T>, Error>)
    ensures
        final(wire).version == old(wire).version,
        match <Vec<T>>::parse(old(wire).rest(), old(wire).version as nat, compact) {
            Ok((m, n)) => (r matches Ok(v) && items_model(v@) == m) && n <= old(wire).rest().len()
                && final(wire).rest() == old(wire).rest().skip(n as int),
            Err(e) => r == Err::<Vec<T>, Error>(e),
        },
{
    let ghost d = wire.rest();
    match crate::text::get_length(wire, 4, compact)? {
        Some(c) => {
            let ghost k = parse_length(d, 4, compact)->Ok_0.1;
            let ghost d1 = wire.rest();
            let v = get_items::<T>(wire, c, compact)?;
            proof {
                let j = parse_items::<T>(d1, c as nat, wire.version as nat, compact)->Ok_0.1;
                assert(d.skip(k as int).skip(j as int) == d.skip((k + j) as int));
            }
            Ok(v)
        },
        None => Err(Error::InvalidEncoding),
    }
}

// ---------------------------------------------------------------------------
// Sequences of fields

/// Two values, one after the other: a schema's fields are written as a chain
/// of such pairs, in declaration order.
impl<A: Wired, B: Wired> Wired for (A, B) {
    type Model = (A::Model, B::Model);

    open spec fn model(&self) -> (A::Model, B::Model) {
        (self.0.model(), self.1.model())
    }

    open spec fn writable(m: (A::Model, B::Model), version: nat, compact: bool) -> bool {
        A::writable(m.0, version, compact) && B::writable(m.1, version, compact)
    }

    open spec fn canonical(m: (A::Model, B::Model), version: nat, compact: bool) -> bool {
        A::canonical(m.0, version, compact) && B::canonical(m.1, version, compact)
    }

    open spec fn encoding(m: (A::Model, B::Model), version: nat, compact: bool) -> Seq<u8> {
        A::encoding(m.0, version, compact) + B::encoding(m.1, version, compact)
    }

    open spec fn parse(data: Seq<u8>, version: nat, compact: bool) -> Parsed<(A::Model, B::Model)> {
        match A::parse(data, version, compact) {
            Ok((a, k)) => match B::parse(data.skip(k as int), version, compact) {
                Ok((b, j)) => Ok(((a, b), k + j)),
                Err(e) => Err(e),
            },
            Err(e) => Err(e),
        }
    }

    proof fn lemma_round_trip(m: (A::Model, B::Model), version: nat, compact: bool, rest: Seq<u8>) {
        let ea = A::encoding(m.0, version, compact);
        let eb = B::encoding(m.1, version, compact);
        A::lemma_round_trip(m.0, version, compact, eb + rest);
        B::lemma_round_trip(m.1, version, compact, rest);
        assert(ea + eb + rest == ea + (eb + rest));
        assert((ea + (eb + rest)).skip(ea.len() as int) == eb + rest);
    }

    fn to_wire(&self, wire: &mut WireWrite) {
        put_pair(self, wire, false)
    }

    fn from_wire(wire: &mut WireRead) -> (r: Result<(A, B), Error>) {
        get_pair(wire, false)
    }

    fn to_wire_compact(&self, wire: &mut WireWrite) {
        put_pair(self, wire, true)
    }

    fn from_wire_compact(wire: &mut WireRead) -> (r: Result<(A, B), Error>) {
        get_pair(wire, true)
    }
}

fn put_pair<A: Wired, B: Wired>(p: &(A, B), wire: &mut WireWrite, compact: bool)
    requires
        <(A, B)>::writable(p.model(), old(wire).version as nat, compact),
        old(wire).has_room(<(A, B)>::encoding(p.model(), old(wire).version as nat, compact).len()),
    ensures
        final(wire).version == old(wire).version,
        final(wire).bytes() == old(wire).bytes() + <(A, B)>::encoding(
            p.model(),
            old(wire).version as nat,
            compact,
        ),
{
    let ghost b0 = wire.bytes();
    put(&p.0, wire, compact);
    put(&p.1, wire, compact);
    proof {
        let v = wire.version as nat;
        assert(b0 + A::encoding(p.0.model(), v, compact) + B::encoding(p.1.model(), v, compact) == b0
            + (A::encoding(p.0.model(), v, compact) + B::encoding(p.1.model(), v, compact)));
    }
}

fn get_pair<A: Wired, B: Wired>(wire: &mut WireRead, compact: bool) -> (r: Result<(A, B), Error>)
    ensures
        final(wire).version == old(wire).version,
        match <(A, B)>::parse(old(wire).rest(), old(wire).version as nat, compact) {
            Ok((m, n)) => (r matches Ok(v) && v.model() == m) && n <= old(wire).rest().len()
                && final(wire).rest() == old(wire).rest().skip(n as int),
            Err(e) => r == Err::<(A, B), Error>(e),
        },
{
    let ghost d = wire.rest();
    let a = get::<A>(wire, compact)?;
    let ghost d1 = wire.rest();
    let b = get::<B>(wire, compact)?;
    proof {
        let v = wire.version as nat;
        let k = A::parse(d, v, compact)->Ok_0.1;
        let j = B::parse(d1, v, compact)->Ok_0.1;
        assert(d.skip(k as int).skip(j as int) == d.skip((k + j) as int));
    }
    Ok((a, b))
}

// ---------------------------------------------------------------------------
// Version gates

/// Whether a field declared from version `since` (and up to `until`, when the
/// field was retired) is on the wire at `version`.
pub open spec fn in_range(since: nat, until: Option<nat>, version: nat) -> bool {
    since <= version && match until {
        Some(u) => version <= u,
        None => true,
    }
}

/// The model of an optional value.
pub open spec fn opt_model<T: Wired>(o: Option<T>) -> Option<T::Model> {
    match o {
        Some(x) => Some(x.model()),
        None => None,
    }
}

/// A gated field can be written when it is supplied at the versions that
/// carry it; at other versions it writes nothing, whatever it holds.
pub open spec fn gate_writable<T: Wired>(m: Option<T::Model>, since: nat, until: Option<nat>, version: nat, compact: bool) -> bool {
    in_range(since, until, version) ==> (m matches Some(x) && T::writable(x, version, compact))
}

/// A gated field reads back as itself when it is present exactly at the
/// versions that carry it (a value at any other version is not written, so
/// it reads back as absent).
pub open spec fn gate_canonical<T: Wired>(m: Option<T::Model>, since: nat, until: Option<nat>, version: nat, compact: bool) -> bool {
    if in_range(since, until, version) {
        m matches Some(x) && T::canonical(x, version, compact)
    } else {
        m is None
    }
}

/// A gated field's bytes: the inner value's at versions that carry it,
/// nothing otherwise.
pub open spec fn gate_encoding<T: Wired>(m: Option<T::Model>, since: nat, until: Option<nat>, version: nat, compact: bool) -> Seq<u8> {
    match m {
        Some(x) => if in_range(since, until, version) {
            T::encoding(x, version, compact)
        } else {
            Seq::empty()
        },
        None => Seq::empty(),
    }
}

/// Reading a gated field: the inner value at versions that carry it;
/// otherwise absent, consuming nothing.
pub open spec fn gate_parse<T: Wired>(data: Seq<u8>, since: nat, until: Option<nat>, version: nat, compact: bool) -> Parsed<Option<T::Model>> {
    if in_range(since, until, version) {
        match T::parse(data, version, compact) {
            Ok((x, k)) => Ok((Some(x), k)),
            Err(e) => Err(e),
        }
    } else {
        Ok((None, 0))
    }
}

/// The spec form of an optional upper version bound.
pub open spec fn bound(until: Option<usize>) -> Option<nat> {
    match until {
        Some(u) => Some(u as nat),
        None => None,
    }
}

/// Writes a field present only from version `since` (up to `until`).
pub fn put_versioned<T: Wired>(v: &Option<T>, since: usize, until: Option<usize>, wire: &mut WireWrite, compact: bool)
    requires
        gate_writable::<T>(opt_model(*v), since as nat, bound(until), old(wire).version as nat, compact),
        old(wire).has_room(gate_encoding::<T>(opt_model(*v), since as nat, bound(until), old(wire).version as nat, compact).len()),
    ensures
        final(wire).version == old(wire).version,
        final(wire).bytes() == old(wire).bytes() + gate_encoding::<T>(
            opt_model(*v),
            since as nat,
            bound(until),
            old(wire).version as nat,
            compact,
        ),
{
    let present = since <= wire.version && match until {
        Some(u) => wire.version <= u,
        None => true,
    };
    if present {
        match v {
            Some(x) => put(x, wire, compact),
            None => {},
        }
    } else {
        proof {
            assert(wire.bytes() + Seq::<u8>::empty() == wire.bytes());
        }
    }
}

/// Reads a field present only from version `since` (up to `until`).
pub fn get_versioned<T: Wired>(since: usize, until: Option<usize>, wire: &mut WireRead, compact: bool) -> (r: Result<Option<T>, Error>)
    ensures
        final(wire).version == old(wire).version,
        match gate_parse::<T>(old(wire).rest(), since as nat, bound(until), old(wire).version as nat, compact) {
            Ok((m, n)) => (r matches Ok(v) && opt_model(v) == m) && n <= old(wire).rest().len()
                && final(wire).rest() == old(wire).rest().skip(n as int),
            Err(e) => r == Err::<Option<T>, Error>(e),
        },
{
    let present = since <= wire.version && match until {
        Some(u) => wire.version <= u,
        None => true,
    };
    if present {
        let x = get::<T>(wire, compact)?;
        Ok(Some(x))
    } else {
        proof {
            assert(wire.rest().skip(0) == wire.rest());
        }
        Ok(None)
    }
}

/// The version gate: at a version that does not carry a field it takes no
/// bytes and reads as absent without consuming any; at one that does, the
/// field is exactly its value's bytes and reads back as that value.
pub proof fn lemma_gate_round_trip<T: Wired>(m: Option<T::Model>, since: nat, until: Option<nat>, version: nat, compact: bool, rest: Seq<u8>)
    requires
        gate_writable::<T>(m, since, until, version, compact),
        gate_canonical::<T>(m, since, until, version, compact),
    ensures
        !in_range(since, until, version) ==> gate_encoding::<T>(m, since, until, version, compact) == Seq::<u8>::empty(),
        !in_range(since, until, version) ==> gate_parse::<T>(rest, since, until, version, compact) == Ok::<(Option<T::Model>, nat), Error>((None, 0)),
        in_range(since, until, version) ==> gate_encoding::<T>(m, since, until, version, compact) == T::encoding(m->0, version, compact),
        gate_parse::<T>(gate_encoding::<T>(m, since, until, version, compact) + rest, since, until, version, compact)
            == Ok::<(Option<T::Model>, nat), Error>((m, gate_encoding::<T>(m, since, until, version, compact).len())),
{
    if in_range(since, until, version) {
        T::lemma_round_trip(m->0, version, compact, rest);
    } else {
        assert(Seq::<u8>::empty() + rest == rest);
    }
}

/// A field on the wire from version `SINCE` on. Present or absent is a
/// function of the version alone, never of the bytes.
pub struct Versioned<T, const SINCE: usize>(pub Option<T>);

impl<T: Wired, const SINCE: usize> Wired for Versioned<T, SINCE> {
    type Model = Option<T::Model>;

    open spec fn model(&self) -> Option<T::Model> {
        opt_model(self.0)
    }

    open spec fn writable(m: Option<T::Model>, version: nat, compact: bool) -> bool {
        gate_writable::<T>(m, SINCE as nat, None::<nat>, version, compact)
    }

    open spec fn canonical(m: Option<T::Model>, version: nat, compact: bool) -> bool {
        gate_canonical::<T>(m, SINCE as nat, None::<nat>, version, compact)
    }

    open spec fn encoding(m: Option<T::Model>, version: nat, compact: bool) -> Seq<u8> {
        gate_encoding::<T>(m, SINCE as nat, None::<nat>, version, compact)
    }

    open spec fn parse(data: Seq<u8>, version: nat, compact: bool) -> Parsed<Option<T::Model>> {
        gate_parse::<T>(data, SINCE as nat, None::<nat>, version, compact)
    }

    proof fn lemma_round_trip(m: Option<T::Model>, version: nat, compact: bool, rest: Seq<u8>) {
        lemma_gate_round_trip::<T>(m, SINCE as nat, None::<nat>, version, compact, rest);
    }

    fn to_wire(&self, wire: &mut WireWrite) {
        put_versioned(&self.0, SINCE, None, wire, false)
    }

    fn from_wire(wire: &mut WireRead) -> (r: Result<Versioned<T, SINCE>, Error>) {
        let v = get_versioned::<T>(SINCE, None, wire, false)?;
        Ok(Versioned(v))
    }

    fn to_wire_compact(&self, wire: &mut WireWrite) {
        put_versioned(&self.0, SINCE, None, wire, true)
    }

    fn from_wire_compact(wire: &mut WireRead) -> (r: Result<Versioned<T, SINCE>, Error>) {
        let v = get_versioned::<T>(SINCE, None, wire, true)?;
        Ok(Versioned(v))
    }
}

/// A field on the wire at versions `SINCE` to `UNTIL` only.
pub struct VersionedRange<T, const SINCE: usize, const UNTIL: usize>(pub Option<T>);

impl<T: Wired, const SINCE: usize, const UNTIL: usize> Wired for VersionedRange<T, SINCE, UNTIL> {
    type Model = Option<T::Model>;

    open spec fn model(&self) -> Option<T::Model> {
        opt_model(self.0)
    }

    open spec fn writable(m: Option<T::Model>, version: nat, compact: bool) -> bool {
        gate_writable::<T>(m, SINCE as nat, Some(UNTIL as nat), version, compact)
    }

    open spec fn canonical(m: Option<T::Model>, version: nat, compact: bool) -> bool {
        gate_canonical::<T>(m, SINCE as nat, Some(UNTIL as nat), version, compact)
    }

    open spec fn encoding(m: Option<T::Model>, version: nat, compact: bool) -> Seq<u8> {
        gate_encoding::<T>(m, SINCE as nat, Some(UNTIL as nat), version, compact)
    }

    open spec fn parse(data: Seq<u8>, version: nat, compact: bool) -> Parsed<Option<T::Model>> {
        gate_parse::<T>(data, SINCE as nat, Some(UNTIL as nat), version, compact)
    }

    proof fn lemma_round_trip(m: Option<T::Model>, version: nat, compact: bool, rest: Seq<u8>) {
        lemma_gate_round_trip::<T>(m, SINCE as nat, Some(UNTIL as nat), version, compact, rest);
    }

    fn to_wire(&self, wire: &mut WireWrite) {
        put_versioned(&self.0, SINCE, Some(UNTIL), wire, false)
    }

    fn from_wire(wire: &mut WireRead) -> (r: Result<VersionedRange<T, SINCE, UNTIL>, Error>) {
        let v = get_versioned::<T>(SINCE, Some(UNTIL), wire, false)?;
        Ok(VersionedRange(v))
    }

    fn to_wire_compact(&self, wire: &mut WireWrite) {
        put_versioned(&self.0, SINCE, Some(UNTIL), wire, true)
    }

    fn from_wire_compact(wire: &mut WireRead) -> (r: Result<VersionedRange<T, SINCE, UNTIL>, Error>) {
        let v = get_versioned::<T>(SINCE, Some(UNTIL), wire, true)?;
        Ok(VersionedRange(v))
    }
}

} // verus!
