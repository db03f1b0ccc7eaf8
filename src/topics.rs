//! Per-topic grouping shared by several message types.
use crate::compose::{get, lemma_concat_assoc, put};
use crate::error::Error;
use crate::wire::{Parsed, WireRead, WireWrite, Wired};
use vstd::prelude::*;

verus! {

/// The entries of one topic.
pub struct TopicItem<T> {
    pub topic: String,
    pub value: Vec<T>,
}

/// The fields of a `TopicItem`, in wire order.
pub type TopicItemLayout<T> = (String, Vec<T>);

impl<T: Wired> Wired for TopicItem<T> {
    type Model = <TopicItemLayout<T> as Wired>::Model;

    open spec fn model(&self) -> Self::Model {
        (self.topic.model(), self.value.model())
    }

    open spec fn writable(m: Self::Model, version: nat, compact: bool) -> bool {
        <TopicItemLayout<T> as Wired>::writable(m, version, compact)
    }

    open spec fn canonical(m: Self::Model, version: nat, compact: bool) -> bool {
        <TopicItemLayout<T> as Wired>::canonical(m, version, compact)
    }

    open spec fn encoding(m: Self::Model, version: nat, compact: bool) -> Seq<u8> {
        <TopicItemLayout<T> as Wired>::encoding(m, version, compact)
    }

    open spec fn parse(data: Seq<u8>, version: nat, compact: bool) -> Parsed<Self::Model> {
        <TopicItemLayout<T> as Wired>::parse(data, version, compact)
    }

    proof fn lemma_round_trip(m: Self::Model, version: nat, compact: bool, rest: Seq<u8>) {
        <TopicItemLayout<T> as Wired>::lemma_round_trip(m, version, compact, rest);
    }

    fn to_wire(&self, wire: &mut WireWrite) {
        self.put_fields(wire, false)
    }

    fn from_wire(wire: &mut WireRead) -> (r: Result<Self, Error>) {
        Self::get_fields(wire, false)
    }

    fn to_wire_compact(&self, wire: &mut WireWrite) {
        self.put_fields(wire, true)
    }

    fn from_wire_compact(wire: &mut WireRead) -> (r: Result<Self, Error>) {
        Self::get_fields(wire, true)
    }
}

impl<T: Wired> TopicItem<T> {
    fn put_fields(&self, wire: &mut WireWrite, compact: bool)
        requires
            Self::writable(self.model(), old(wire).version as nat, compact),
            old(wire).has_room(Self::encoding(self.model(), old(wire).version as nat, compact).len()),
        ensures
            final(wire).version == old(wire).version,
            final(wire).bytes() == old(wire).bytes() + Self::encoding(
                self.model(),
                old(wire).version as nat,
                compact,
            ),
    {
        let ghost v = wire.version as nat;
        let ghost w0 = wire.bytes();
        proof {
            assert(<(String, Vec<T>) as Wired>::encoding((self.topic.model(), self.value.model()), v, compact) === <String as Wired>::encoding(self.topic.model(), v, compact) + <Vec<T> as Wired>::encoding(self.value.model(), v, compact));
        }
        put(&self.topic, wire, compact);
        let ghost w1 = wire.bytes();
        put(&self.value, wire, compact);
        let ghost w2 = wire.bytes();
        proof {
            lemma_concat_assoc(w0, <String as Wired>::encoding(self.topic.model(), v, compact), <Vec<T> as Wired>::encoding(self.value.model(), v, compact));
        }
    }

    fn get_fields(wire: &mut WireRead, compact: bool) -> (r: Result<Self, Error>)
        ensures
            final(wire).version == old(wire).version,
            match Self::parse(old(wire).rest(), old(wire).version as nat, compact) {
                Ok((m, n)) => (r matches Ok(x) && x.model() == m) && n <= old(wire).rest().len()
                    && final(wire).rest() == old(wire).rest().skip(n as int),
                Err(e) => r == Err::<Self, Error>(e),
            },
    {
        let (f_topic, f_value) = get::<TopicItemLayout<T>>(wire, compact)?;
        Ok(TopicItem { topic: f_topic, value: f_value })
    }
}

/// Entries grouped by topic.
pub struct TopicMap<T> {
    pub items: Vec<TopicItem<T>>,
}

/// The fields of a `TopicMap`, in wire order.
pub type TopicMapLayout<T> = Vec<TopicItem<T>>;

impl<T: Wired> Wired for TopicMap<T> {
    type Model = <TopicMapLayout<T> as Wired>::Model;

    open spec fn model(&self) -> Self::Model {
        self.items.model()
    }

    open spec fn writable(m: Self::Model, version: nat, compact: bool) -> bool {
        <TopicMapLayout<T> as Wired>::writable(m, version, compact)
    }

    open spec fn canonical(m: Self::Model, version: nat, compact: bool) -> bool {
        <TopicMapLayout<T> as Wired>::canonical(m, version, compact)
    }

    open spec fn encoding(m: Self::Model, version: nat, compact: bool) -> Seq<u8> {
        <TopicMapLayout<T> as Wired>::encoding(m, version, compact)
    }

    open spec fn parse(data: Seq<u8>, version: nat, compact: bool) -> Parsed<Self::Model> {
        <TopicMapLayout<T> as Wired>::parse(data, version, compact)
    }

    proof fn lemma_round_trip(m: Self::Model, version: nat, compact: bool, rest: Seq<u8>) {
        <TopicMapLayout<T> as Wired>::lemma_round_trip(m, version, compact, rest);
    }

    fn to_wire(&self, wire: &mut WireWrite) {
        self.put_fields(wire, false)
    }

    fn from_wire(wire: &mut WireRead) -> (r: Result<Self, Error>) {
        Self::get_fields(wire, false)
    }

    fn to_wire_compact(&self, wire: &mut WireWrite) {
        self.put_fields(wire, true)
    }

    fn from_wire_compact(wire: &mut WireRead) -> (r: Result<Self, Error>) {
        Self::get_fields(wire, true)
    }
}

impl<T: Wired> TopicMap<T> {
    fn put_fields(&self, wire: &mut WireWrite, compact: bool)
        requires
            Self::writable(self.model(), old(wire).version as nat, compact),
            old(wire).has_room(Self::encoding(self.model(), old(wire).version as nat, compact).len()),
        ensures
            final(wire).version == old(wire).version,
            final(wire).bytes() == old(wire).bytes() + Self::encoding(
                self.model(),
                old(wire).version as nat,
                compact,
            ),
    {
        let ghost v = wire.version as nat;
        let ghost w0 = wire.bytes();
        put(&self.items, wire, compact);
        let ghost w1 = wire.bytes();
    }

    fn get_fields(wire: &mut WireRead, compact: bool) -> (r: Result<Self, Error>)
        ensures
            final(wire).version == old(wire).version,
            match Self::parse(old(wire).rest(), old(wire).version as nat, compact) {
                Ok((m, n)) => (r matches Ok(x) && x.model() == m) && n <= old(wire).rest().len()
                    && final(wire).rest() == old(wire).rest().skip(n as int),
                Err(e) => r == Err::<Self, Error>(e),
            },
    {
        let f_items = get::<TopicMapLayout<T>>(wire, compact)?;
        Ok(TopicMap { items: f_items })
    }
}

} // verus!
