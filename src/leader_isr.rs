//! The leader-and-ISR message sent between brokers.
use crate::compose::{get, gate_encoding, lemma_concat_assoc, opt_model, put, put_versioned, Versioned, VersionedRange};
use crate::error::Error;
use crate::wire::{Parsed, WireRead, WireWrite, Wired};
use crate::api::{ApiKey, ApiRequest};
use crate::tagged::TagBuffer;
use crate::topics::TopicMap;
use vstd::prelude::*;

verus! {

/// The state of one partition.
pub struct PartStateData {
    pub part_index: i32,
    pub controller_epoch: i32,
    pub leader: i32,
    pub leader_epoch: i32,
    pub isr: Vec<i32>,
    pub zk_ver: i32,
    pub replicas: Vec<i32>,
    /// On the wire from version 3.
    pub adding_replicas: Option<Vec<i32>>,
    /// On the wire from version 3.
    pub removing_replicas: Option<Vec<i32>>,
    /// On the wire from version 1.
    pub is_new: Option<bool>,
    /// On the wire from version 4.
    pub tags: Option<TagBuffer>,
}

/// The fields of a `PartStateData`, in wire order.
pub type PartStateDataLayout = (i32, (i32, (i32, (i32, (Vec<i32>, (i32, (Vec<i32>, (Versioned<Vec<i32>, 3>, (Versioned<Vec<i32>, 3>, (Versioned<bool, 1>, Versioned<TagBuffer, 4>))))))))));

impl Wired for PartStateData {
    type Model = <PartStateDataLayout as Wired>::Model;

    open spec fn model(&self) -> Self::Model {
        (self.part_index.model(), (self.controller_epoch.model(), (self.leader.model(), (self.leader_epoch.model(), (self.isr.model(), (self.zk_ver.model(), (self.replicas.model(), (opt_model(self.adding_replicas), (opt_model(self.removing_replicas), (opt_model(self.is_new), opt_model(self.tags)))))))))))
    }

    open spec fn writable(m: Self::Model, version: nat, compact: bool) -> bool {
        <PartStateDataLayout as Wired>::writable(m, version, compact)
    }

    open spec fn canonical(m: Self::Model, version: nat, compact: bool) -> bool {
        <PartStateDataLayout as Wired>::canonical(m, version, compact)
    }

    open spec fn encoding(m: Self::Model, version: nat, compact: bool) -> Seq<u8> {
        <PartStateDataLayout as Wired>::encoding(m, version, compact)
    }

    open spec fn parse(data: Seq<u8>, version: nat, compact: bool) -> Parsed<Self::Model> {
        <PartStateDataLayout as Wired>::parse(data, version, compact)
    }

    proof fn lemma_round_trip(m: Self::Model, version: nat, compact: bool, rest: Seq<u8>) {
        <PartStateDataLayout as Wired>::lemma_round_trip(m, version, compact, rest);
    }

    fn to_wire(&self, wire: &mut WireWrite) {
        self.put_fields(wire, false)
    }

    fn from_wire(wire: &mut WireRead) -> (r: Result<Self, Error>) {
        Self::get_fields(wire, false)
    }

    fn to_wire_compact(&self, wire: &mut WireWrite) {
        self.put_fields(wire, true)
    }

    fn from_wire_compact(wire: &mut WireRead) -> (r: Result<Self, Error>) {
        Self::get_fields(wire, true)
    }
}

impl PartStateData {
    fn put_fields(&self, wire: &mut WireWrite, compact: bool)
        requires
            Self::writable(self.model(), old(wire).version as nat, compact),
            old(wire).has_room(Self::encoding(self.model(), old(wire).version as nat, compact).len()),
        ensures
            final(wire).version == old(wire).version,
            final(wire).bytes() == old(wire).bytes() + Self::encoding(
                self.model(),
                old(wire).version as nat,
                compact,
            ),
    {
        let ghost v = wire.version as nat;
        let ghost w0 = wire.bytes();
        proof {
            assert(<(i32, (i32, (i32, (i32, (Vec<i32>, (i32, (Vec<i32>, (Versioned<Vec<i32>, 3>, (Versioned<Vec<i32>, 3>, (Versioned<bool, 1>, Versioned<TagBuffer, 4>)))))))))) as Wired>::encoding((self.part_index.model(), (self.controller_epoch.model(), (self.leader.model(), (self.leader_epoch.model(), (self.isr.model(), (self.zk_ver.model(), (self.replicas.model(), (opt_model(self.adding_replicas), (opt_model(self.removing_replicas), (opt_model(self.is_new), opt_model(self.tags))))))))))), v, compact) === <i32 as Wired>::encoding(self.part_index.model(), v, compact) + <(i32, (i32, (i32, (Vec<i32>, (i32, (Vec<i32>, (Versioned<Vec<i32>, 3>, (Versioned<Vec<i32>, 3>, (Versioned<bool, 1>, Versioned<TagBuffer, 4>))))))))) as Wired>::encoding((self.controller_epoch.model(), (self.leader.model(), (self.leader_epoch.model(), (self.isr.model(), (self.zk_ver.model(), (self.replicas.model(), (opt_model(self.adding_replicas), (opt_model(self.removing_replicas), (opt_model(self.is_new), opt_model(self.tags)))))))))), v, compact));
            assert(<(i32, (i32, (i32, (Vec<i32>, (i32, (Vec<i32>, (Versioned<Vec<i32>, 3>, (Versioned<Vec<i32>, 3>, (Versioned<bool, 1>, Versioned<TagBuffer, 4>))))))))) as Wired>::encoding((self.controller_epoch.model(), (self.leader.model(), (self.leader_epoch.model(), (self.isr.model(), (self.zk_ver.model(), (self.replicas.model(), (opt_model(self.adding_replicas), (opt_model(self.removing_replicas), (opt_model(self.is_new), opt_model(self.tags)))))))))), v, compact) === <i32 as Wired>::encoding(self.controller_epoch.model(), v, compact) + <(i32, (i32, (Vec<i32>, (i32, (Vec<i32>, (Versioned<Vec<i32>, 3>, (Versioned<Vec<i32>, 3>, (Versioned<bool, 1>, Versioned<TagBuffer, 4>)))))))) as Wired>::encoding((self.leader.model(), (self.leader_epoch.model(), (self.isr.model(), (self.zk_ver.model(), (self.replicas.model(), (opt_model(self.adding_replicas), (opt_model(self.removing_replicas), (opt_model(self.is_new), opt_model(self.tags))))))))), v, compact));
            assert(<(i32, (i32, (Vec<i32>, (i32, (Vec<i32>, (Versioned<Vec<i32>, 3>, (Versioned<Vec<i32>, 3>, (Versioned<bool, 1>, Versioned<TagBuffer, 4>)))))))) as Wired>::encoding((self.leader.model(), (self.leader_epoch.model(), (self.isr.model(), (self.zk_ver.model(), (self.replicas.model(), (opt_model(self.adding_replicas), (opt_model(self.removing_replicas), (opt_model(self.is_new), opt_model(self.tags))))))))), v, compact) === <i32 as Wired>::encoding(self.leader.model(), v, compact) + <(i32, (Vec<i32>, (i32, (Vec<i32>, (Versioned<Vec<i32>, 3>, (Versioned<Vec<i32>, 3>, (Versioned<bool, 1>, Versioned<TagBuffer, 4>))))))) as Wired>::encoding((self.leader_epoch.model(), (self.isr.model(), (self.zk_ver.model(), (self.replicas.model(), (opt_model(self.adding_replicas), (opt_model(self.removing_replicas), (opt_model(self.is_new), opt_model(self.tags)))))))), v, compact));
            assert(<(i32, (Vec<i32>, (i32, (Vec<i32>, (Versioned<Vec<i32>, 3>, (Versioned<Vec<i32>, 3>, (Versioned<bool, 1>, Versioned<TagBuffer, 4>))))))) as Wired>::encoding((self.leader_epoch.model(), (self.isr.model(), (self.zk_ver.model(), (self.replicas.model(), (opt_model(self.adding_replicas), (opt_model(self.removing_replicas), (opt_model(self.is_new), opt_model(self.tags)))))))), v, compact) === <i32 as Wired>::encoding(self.leader_epoch.model(), v, compact) + <(Vec<i32>, (i32, (Vec<i32>, (Versioned<Vec<i32>, 3>, (Versioned<Vec<i32>, 3>, (Versioned<bool, 1>, Versioned<TagBuffer, 4>)))))) as Wired>::encoding((self.isr.model(), (self.zk_ver.model(), (self.replicas.model(), (opt_model(self.adding_replicas), (opt_model(self.removing_replicas), (opt_model(self.is_new), opt_model(self.tags))))))), v, compact));
            assert(<(Vec<i32>, (i32, (Vec<i32>, (Versioned<Vec<i32>, 3>, (Versioned<Vec<i32>, 3>, (Versioned<bool, 1>, Versioned<TagBuffer, 4>)))))) as Wired>::encoding((self.isr.model(), (self.zk_ver.model(), (self.replicas.model(), (opt_model(self.adding_replicas), (opt_model(self.removing_replicas), (opt_model(self.is_new), opt_model(self.tags))))))), v, compact) === <Vec<i32> as Wired>::encoding(self.isr.model(), v, compact) + <(i32, (Vec<i32>, (Versioned<Vec<i32>, 3>, (Versioned<Vec<i32>, 3>, (Versioned<bool, 1>, Versioned<TagBuffer, 4>))))) as Wired>::encoding((self.zk_ver.model(), (self.replicas.model(), (opt_model(self.adding_replicas), (opt_model(self.removing_replicas), (opt_model(self.is_new), opt_model(self.tags)))))), v, compact));
            assert(<(i32, (Vec<i32>, (Versioned<Vec<i32>, 3>, (Versioned<Vec<i32>, 3>, (Versioned<bool, 1>, Versioned<TagBuffer, 4>))))) as Wired>::encoding((self.zk_ver.model(), (self.replicas.model(), (opt_model(self.adding_replicas), (opt_model(self.removing_replicas), (opt_model(self.is_new), opt_model(self.tags)))))), v, compact) === <i32 as Wired>::encoding(self.zk_ver.model(), v, compact) + <(Vec<i32>, (Versioned<Vec<i32>, 3>, (Versioned<Vec<i32>, 3>, (Versioned<bool, 1>, Versioned<TagBuffer, 4>)))) as Wired>::encoding((self.replicas.model(), (opt_model(self.adding_replicas), (opt_model(self.removing_replicas), (opt_model(self.is_new), opt_model(self.tags))))), v, compact));
            assert(<(Vec<i32>, (Versioned<Vec<i32>, 3>, (Versioned<Vec<i32>, 3>, (Versioned<bool, 1>, Versioned<TagBuffer, 4>)))) as Wired>::encoding((self.replicas.model(), (opt_model(self.adding_replicas), (opt_model(self.removing_replicas), (opt_model(self.is_new), opt_model(self.tags))))), v, compact) === <Vec<i32> as Wired>::encoding(self.replicas.model(), v, compact) + <(Versioned<Vec<i32>, 3>, (Versioned<Vec<i32>, 3>, (Versioned<bool, 1>, Versioned<TagBuffer, 4>))) as Wired>::encoding((opt_model(self.adding_replicas), (opt_model(self.removing_replicas), (opt_model(self.is_new), opt_model(self.tags)))), v, compact));
            assert(<(Versioned<Vec<i32>, 3>, (Versioned<Vec<i32>, 3>, (Versioned<bool, 1>, Versioned<TagBuffer, 4>))) as Wired>::encoding((opt_model(self.adding_replicas), (opt_model(self.removing_replicas), (opt_model(self.is_new), opt_model(self.tags)))), v, compact) === gate_encoding::<Vec<i32>>(opt_model(self.adding_replicas), 3, None::<nat>, v, compact) + <(Versioned<Vec<i32>, 3>, (Versioned<bool, 1>, Versioned<TagBuffer, 4>)) as Wired>::encoding((opt_model(self.removing_replicas), (opt_model(self.is_new), opt_model(self.tags))), v, compact));
            assert(<(Versioned<Vec<i32>, 3>, (Versioned<bool, 1>, Versioned<TagBuffer, 4>)) as Wired>::encoding((opt_model(self.removing_replicas), (opt_model(self.is_new), opt_model(self.tags))), v, compact) === gate_encoding::<Vec<i32>>(opt_model(self.removing_replicas), 3, None::<nat>, v, compact) + <(Versioned<bool, 1>, Versioned<TagBuffer, 4>) as Wired>::encoding((opt_model(self.is_new), opt_model(self.tags)), v, compact));
            assert(<(Versioned<bool, 1>, Versioned<TagBuffer, 4>) as Wired>::encoding((opt_model(self.is_new), opt_model(self.tags)), v, compact) === gate_encoding::<bool>(opt_model(self.is_new), 1, None::<nat>, v, compact) + <Versioned<TagBuffer, 4> as Wired>::encoding(opt_model(self.tags), v, compact));
        }
        put(&self.part_index, wire, compact);
        let ghost w1 = wire.bytes();
        put(&self.controller_epoch, wire, compact);
        let ghost w2 = wire.bytes();
        put(&self.leader, wire, compact);
        let ghost w3 = wire.bytes();
        put(&self.leader_epoch, wire, compact);
        let ghost w4 = wire.bytes();
        put(&self.isr, wire, compact);
        let ghost w5 = wire.bytes();
        put(&self.zk_ver, wire, compact);
        let ghost w6 = wire.bytes();
        put(&self.replicas, wire, compact);
        let ghost w7 = wire.bytes();
        put_versioned(&self.adding_replicas, 3, None, wire, compact);
        let ghost w8 = wire.bytes();
        put_versioned(&self.removing_replicas, 3, None, wire, compact);
        let ghost w9 = wire.bytes();
        put_versioned(&self.is_new, 1, None, wire, compact);
        let ghost w10 = wire.bytes();
        put_versioned(&self.tags, 4, None, wire, compact);
        let ghost w11 = wire.bytes();
        proof {
            lemma_concat_assoc(w9, gate_encoding::<bool>(opt_model(self.is_new), 1, None::<nat>, v, compact), <Versioned<TagBuffer, 4> as Wired>::encoding(opt_model(self.tags), v, compact));
            lemma_concat_assoc(w8, gate_encoding::<Vec<i32>>(opt_model(self.removing_replicas), 3, None::<nat>, v, compact), <(Versioned<bool, 1>, Versioned<TagBuffer, 4>) as Wired>::encoding((opt_model(self.is_new), opt_model(self.tags)), v, compact));
            lemma_concat_assoc(w7, gate_encoding::<Vec<i32>>(opt_model(self.adding_replicas), 3, None::<nat>, v, compact), <(Versioned<Vec<i32>, 3>, (Versioned<bool, 1>, Versioned<TagBuffer, 4>)) as Wired>::encoding((opt_model(self.removing_replicas), (opt_model(self.is_new), opt_model(self.tags))), v, compact));
            lemma_concat_assoc(w6, <Vec<i32> as Wired>::encoding(self.replicas.model(), v, compact), <(Versioned<Vec<i32>, 3>, (Versioned<Vec<i32>, 3>, (Versioned<bool, 1>, Versioned<TagBuffer, 4>))) as Wired>::encoding((opt_model(self.adding_replicas), (opt_model(self.removing_replicas), (opt_model(self.is_new), opt_model(self.tags)))), v, compact));
            lemma_concat_assoc(w5, <i32 as Wired>::encoding(self.zk_ver.model(), v, compact), <(Vec<i32>, (Versioned<Vec<i32>, 3>, (Versioned<Vec<i32>, 3>, (Versioned<bool, 1>, Versioned<TagBuffer, 4>)))) as Wired>::encoding((self.replicas.model(), (opt_model(self.adding_replicas), (opt_model(self.removing_replicas), (opt_model(self.is_new), opt_model(self.tags))))), v, compact));
            lemma_concat_assoc(w4, <Vec<i32> as Wired>::encoding(self.isr.model(), v, compact), <(i32, (Vec<i32>, (Versioned<Vec<i32>, 3>, (Versioned<Vec<i32>, 3>, (Versioned<bool, 1>, Versioned<TagBuffer, 4>))))) as Wired>::encoding((self.zk_ver.model(), (self.replicas.model(), (opt_model(self.adding_replicas), (opt_model(self.removing_replicas), (opt_model(self.is_new), opt_model(self.tags)))))), v, compact));
            lemma_concat_assoc(w3, <i32 as Wired>::encoding(self.leader_epoch.model(), v, compact), <(Vec<i32>, (i32, (Vec<i32>, (Versioned<Vec<i32>, 3>, (Versioned<Vec<i32>, 3>, (Versioned<bool, 1>, Versioned<TagBuffer, 4>)))))) as Wired>::encoding((self.isr.model(), (self.zk_ver.model(), (self.replicas.model(), (opt_model(self.adding_replicas), (opt_model(self.removing_replicas), (opt_model(self.is_new), opt_model(self.tags))))))), v, compact));
            lemma_concat_assoc(w2, <i32 as Wired>::encoding(self.leader.model(), v, compact), <(i32, (Vec<i32>, (i32, (Vec<i32>, (Versioned<Vec<i32>, 3>, (Versioned<Vec<i32>, 3>, (Versioned<bool, 1>, Versioned<TagBuffer, 4>))))))) as Wired>::encoding((self.leader_epoch.model(), (self.isr.model(), (self.zk_ver.model(), (self.replicas.model(), (opt_model(self.adding_replicas), (opt_model(self.removing_replicas), (opt_model(self.is_new), opt_model(self.tags)))))))), v, compact));
            lemma_concat_assoc(w1, <i32 as Wired>::encoding(self.controller_epoch.model(), v, compact), <(i32, (i32, (Vec<i32>, (i32, (Vec<i32>, (Versioned<Vec<i32>, 3>, (Versioned<Vec<i32>, 3>, (Versioned<bool, 1>, Versioned<TagBuffer, 4>)))))))) as Wired>::encoding((self.leader.model(), (self.leader_epoch.model(), (self.isr.model(), (self.zk_ver.model(), (self.replicas.model(), (opt_model(self.adding_replicas), (opt_model(self.removing_replicas), (opt_model(self.is_new), opt_model(self.tags))))))))), v, compact));
            lemma_concat_assoc(w0, <i32 as Wired>::encoding(self.part_index.model(), v, compact), <(i32, (i32, (i32, (Vec<i32>, (i32, (Vec<i32>, (Versioned<Vec<i32>, 3>, (Versioned<Vec<i32>, 3>, (Versioned<bool, 1>, Versioned<TagBuffer, 4>))))))))) as Wired>::encoding((self.controller_epoch.model(), (self.leader.model(), (self.leader_epoch.model(), (self.isr.model(), (self.zk_ver.model(), (self.replicas.model(), (opt_model(self.adding_replicas), (opt_model(self.removing_replicas), (opt_model(self.is_new), opt_model(self.tags)))))))))), v, compact));
        }
    }

    fn get_fields(wire: &mut WireRead, compact: bool) -> (r: Result<Self, Error>)
        ensures
            final(wire).version == old(wire).version,
            match Self::parse(old(wire).rest(), old(wire).version as nat, compact) {
                Ok((m, n)) => (r matches Ok(x) && x.model() == m) && n <= old(wire).rest().len()
                    && final(wire).rest() == old(wire).rest().skip(n as int),
                Err(e) => r == Err::<Self, Error>(e),
            },
    {
        let (f_part_index, (f_controller_epoch, (f_leader, (f_leader_epoch, (f_isr, (f_zk_ver, (f_replicas, (f_adding_replicas, (f_removing_replicas, (f_is_new, f_tags)))))))))) = get::<PartStateDataLayout>(wire, compact)?;
        Ok(PartStateData { part_index: f_part_index, controller_epoch: f_controller_epoch, leader: f_leader, leader_epoch: f_leader_epoch, isr: f_isr, zk_ver: f_zk_ver, replicas: f_replicas, adding_replicas: f_adding_replicas.0, removing_replicas: f_removing_replicas.0, is_new: f_is_new.0, tags: f_tags.0 })
    }
}

/// A partition state with its topic.
pub struct PartStates {
    pub topic_name: String,
    pub data: PartStateData,
    /// On the wire from version 4.
    pub tags: Option<TagBuffer>,
}

/// The fields of a `PartStates`, in wire order.
pub type PartStatesLayout = (String, (PartStateData, Versioned<TagBuffer, 4>));

impl Wired for PartStates {
    type Model = <PartStatesLayout as Wired>::Model;

    open spec fn model(&self) -> Self::Model {
        (self.topic_name.model(), (self.data.model(), opt_model(self.tags)))
    }

    open spec fn writable(m: Self::Model, version: nat, compact: bool) -> bool {
        <PartStatesLayout as Wired>::writable(m, version, compact)
    }

    open spec fn canonical(m: Self::Model, version: nat, compact: bool) -> bool {
        <PartStatesLayout as Wired>::canonical(m, version, compact)
    }

    open spec fn encoding(m: Self::Model, version: nat, compact: bool) -> Seq<u8> {
        <PartStatesLayout as Wired>::encoding(m, version, compact)
    }

    open spec fn parse(data: Seq<u8>, version: nat, compact: bool) -> Parsed<Self::Model> {
        <PartStatesLayout as Wired>::parse(data, version, compact)
    }

    proof fn lemma_round_trip(m: Self::Model, version: nat, compact: bool, rest: Seq<u8>) {
        <PartStatesLayout as Wired>::lemma_round_trip(m, version, compact, rest);
    }

    fn to_wire(&self, wire: &mut WireWrite) {
        self.put_fields(wire, false)
    }

    fn from_wire(wire: &mut WireRead) -> (r: Result<Self, Error>) {
        Self::get_fields(wire, false)
    }

    fn to_wire_compact(&self, wire: &mut WireWrite) {
        self.put_fields(wire, true)
    }

    fn from_wire_compact(wire: &mut WireRead) -> (r: Result<Self, Error>) {
        Self::get_fields(wire, true)
    }
}

impl PartStates {
    fn put_fields(&self, wire: &mut WireWrite, compact: bool)
        requires
            Self::writable(self.model(), old(wire).version as nat, compact),
            old(wire).has_room(Self::encoding(self.model(), old(wire).version as nat, compact).len()),
        ensures
            final(wire).version == old(wire).version,
            final(wire).bytes() == old(wire).bytes() + Self::encoding(
                self.model(),
                old(wire).version as nat,
                compact,
            ),
    {
        let ghost v = wire.version as nat;
        let ghost w0 = wire.bytes();
        proof {
            assert(<(String, (PartStateData, Versioned<TagBuffer, 4>)) as Wired>::encoding((self.topic_name.model(), (self.data.model(), opt_model(self.tags))), v, compact) === <String as Wired>::encoding(self.topic_name.model(), v, compact) + <(PartStateData, Versioned<TagBuffer, 4>) as Wired>::encoding((self.data.model(), opt_model(self.tags)), v, compact));
            assert(<(PartStateData, Versioned<TagBuffer, 4>) as Wired>::encoding((self.data.model(), opt_model(self.tags)), v, compact) === <PartStateData as Wired>::encoding(self.data.model(), v, compact) + <Versioned<TagBuffer, 4> as Wired>::encoding(opt_model(self.tags), v, compact));
        }
        put(&self.topic_name, wire, compact);
        let ghost w1 = wire.bytes();
        put(&self.data, wire, compact);
        let ghost w2 = wire.bytes();
        put_versioned(&self.tags, 4, None, wire, compact);
        let ghost w3 = wire.bytes();
        proof {
            lemma_concat_assoc(w1, <PartStateData as Wired>::encoding(self.data.model(), v, compact), <Versioned<TagBuffer, 4> as Wired>::encoding(opt_model(self.tags), v, compact));
            lemma_concat_assoc(w0, <String as Wired>::encoding(self.topic_name.model(), v, compact), <(PartStateData, Versioned<TagBuffer, 4>) as Wired>::encoding((self.data.model(), opt_model(self.tags)), v, compact));
        }
    }

    fn get_fields(wire: &mut WireRead, compact: bool) -> (r: Result<Self, Error>)
        ensures
            final(wire).version == old(wire).version,
            match Self::parse(old(wire).rest(), old(wire).version as nat, compact) {
                Ok((m, n)) => (r matches Ok(x) && x.model() == m) && n <= old(wire).rest().len()
                    && final(wire).rest() == old(wire).rest().skip(n as int),
                Err(e) => r == Err::<Self, Error>(e),
            },
    {
        let (f_topic_name, (f_data, f_tags)) = get::<PartStatesLayout>(wire, compact)?;
        Ok(PartStates { topic_name: f_topic_name, data: f_data, tags: f_tags.0 })
    }
}

/// A live leader broker.
pub struct LiveLeader {
    pub broker_id: i32,
    pub host_name: String,
    pub port: i32,
    /// On the wire from version 4.
    pub tags: Option<TagBuffer>,
}

/// The fields of a `LiveLeader`, in wire order.
pub type LiveLeaderLayout = (i32, (String, (i32, Versioned<TagBuffer, 4>)));

impl Wired for LiveLeader {
    type Model = <LiveLeaderLayout as Wired>::Model;

    open spec fn model(&self) -> Self::Model {
        (self.broker_id.model(), (self.host_name.model(), (self.port.model(), opt_model(self.tags))))
    }

    open spec fn writable(m: Self::Model, version: nat, compact: bool) -> bool {
        <LiveLeaderLayout as Wired>::writable(m, version, compact)
    }

    open spec fn canonical(m: Self::Model, version: nat, compact: bool) -> bool {
        <LiveLeaderLayout as Wired>::canonical(m, version, compact)
    }

    open spec fn encoding(m: Self::Model, version: nat, compact: bool) -> Seq<u8> {
        <LiveLeaderLayout as Wired>::encoding(m, version, compact)
    }

    open spec fn parse(data: Seq<u8>, version: nat, compact: bool) -> Parsed<Self::Model> {
        <LiveLeaderLayout as Wired>::parse(data, version, compact)
    }

    proof fn lemma_round_trip(m: Self::Model, version: nat, compact: bool, rest: Seq<u8>) {
        <LiveLeaderLayout as Wired>::lemma_round_trip(m, version, compact, rest);
    }

    fn to_wire(&self, wire: &mut WireWrite) {
        self.put_fields(wire, false)
    }

    fn from_wire(wire: &mut WireRead) -> (r: Result<Self, Error>) {
        Self::get_fields(wire, false)
    }

    fn to_wire_compact(&self, wire: &mut WireWrite) {
        self.put_fields(wire, true)
    }

    fn from_wire_compact(wire: &mut WireRead) -> (r: Result<Self, Error>) {
        Self::get_fields(wire, true)
    }
}

impl LiveLeader {
    fn put_fields(&self, wire: &mut WireWrite, compact: bool)
        requires
            Self::writable(self.model(), old(wire).version as nat, compact),
            old(wire).has_room(Self::encoding(self.model(), old(wire).version as nat, compact).len()),
        ensures
            final(wire).version == old(wire).version,
            final(wire).bytes() == old(wire).bytes() + Self::encoding(
                self.model(),
                old(wire).version as nat,
                compact,
            ),
    {
        let ghost v = wire.version as nat;
        let ghost w0 = wire.bytes();
        proof {
            assert(<(i32, (String, (i32, Versioned<TagBuffer, 4>))) as Wired>::encoding((self.broker_id.model(), (self.host_name.model(), (self.port.model(), opt_model(self.tags)))), v, compact) === <i32 as Wired>::encoding(self.broker_id.model(), v, compact) + <(String, (i32, Versioned<TagBuffer, 4>)) as Wired>::encoding((self.host_name.model(), (self.port.model(), opt_model(self.tags))), v, compact));
            assert(<(String, (i32, Versioned<TagBuffer, 4>)) as Wired>::encoding((self.host_name.model(), (self.port.model(), opt_model(self.tags))), v, compact) === <String as Wired>::encoding(self.host_name.model(), v, compact) + <(i32, Versioned<TagBuffer, 4>) as Wired>::encoding((self.port.model(), opt_model(self.tags)), v, compact));
            assert(<(i32, Versioned<TagBuffer, 4>) as Wired>::encoding((self.port.model(), opt_model(self.tags)), v, compact) === <i32 as Wired>::encoding(self.port.model(), v, compact) + <Versioned<TagBuffer, 4> as Wired>::encoding(opt_model(self.tags), v, compact));
        }
        put(&self.broker_id, wire, compact);
        let ghost w1 = wire.bytes();
        put(&self.host_name, wire, compact);
        let ghost w2 = wire.bytes();
        put(&self.port, wire, compact);
        let ghost w3 = wire.bytes();
        put_versioned(&self.tags, 4, None, wire, compact);
        let ghost w4 = wire.bytes();
        proof {
            lemma_concat_assoc(w2, <i32 as Wired>::encoding(self.port.model(), v, compact), <Versioned<TagBuffer, 4> as Wired>::encoding(opt_model(self.tags), v, compact));
            lemma_concat_assoc(w1, <String as Wired>::encoding(self.host_name.model(), v, compact), <(i32, Versioned<TagBuffer, 4>) as Wired>::encoding((self.port.model(), opt_model(self.tags)), v, compact));
            lemma_concat_assoc(w0, <i32 as Wired>::encoding(self.broker_id.model(), v, compact), <(String, (i32, Versioned<TagBuffer, 4>)) as Wired>::encoding((self.host_name.model(), (self.port.model(), opt_model(self.tags))), v, compact));
        }
    }

    fn get_fields(wire: &mut WireRead, compact: bool) -> (r: Result<Self, Error>)
        ensures
            final(wire).version == old(wire).version,
            match Self::parse(old(wire).rest(), old(wire).version as nat, compact) {
                Ok((m, n)) => (r matches Ok(x) && x.model() == m) && n <= old(wire).rest().len()
                    && final(wire).rest() == old(wire).rest().skip(n as int),
                Err(e) => r == Err::<Self, Error>(e),
            },
    {
        let (f_broker_id, (f_host_name, (f_port, f_tags))) = get::<LiveLeaderLayout>(wire, compact)?;
        Ok(LiveLeader { broker_id: f_broker_id, host_name: f_host_name, port: f_port, tags: f_tags.0 })
    }
}

/// The leader-and-ISR request.
pub struct Request {
    pub controller_id: i32,
    pub controller_epoch: i32,
    /// On the wire from version 3.
    pub broker_epoch: Option<i32>,
    /// On the wire at versions 0 to 1.
    pub ungrouped_part_states: Option<PartStates>,
    /// On the wire from version 2.
    pub topic_states: Option<TopicMap<PartStateData>>,
    pub live_readers: Vec<LiveLeader>,
    /// On the wire from version 4.
    pub tags: Option<TagBuffer>,
}

/// The fields of a `Request`, in wire order.
pub type RequestLayout = (i32, (i32, (Versioned<i32, 3>, (VersionedRange<PartStates, 0, 1>, (Versioned<TopicMap<PartStateData>, 2>, (Vec<LiveLeader>, Versioned<TagBuffer, 4>))))));

impl Wired for Request {
    type Model = <RequestLayout as Wired>::Model;

    open spec fn model(&self) -> Self::Model {
        (self.controller_id.model(), (self.controller_epoch.model(), (opt_model(self.broker_epoch), (opt_model(self.ungrouped_part_states), (opt_model(self.topic_states), (self.live_readers.model(), opt_model(self.tags)))))))
    }

    open spec fn writable(m: Self::Model, version: nat, compact: bool) -> bool {
        <RequestLayout as Wired>::writable(m, version, compact)
    }

    open spec fn canonical(m: Self::Model, version: nat, compact: bool) -> bool {
        <RequestLayout as Wired>::canonical(m, version, compact)
    }

    open spec fn encoding(m: Self::Model, version: nat, compact: bool) -> Seq<u8> {
        <RequestLayout as Wired>::encoding(m, version, compact)
    }

    open spec fn parse(data: Seq<u8>, version: nat, compact: bool) -> Parsed<Self::Model> {
        <RequestLayout as Wired>::parse(data, version, compact)
    }

    proof fn lemma_round_trip(m: Self::Model, version: nat, compact: bool, rest: Seq<u8>) {
        <RequestLayout as Wired>::lemma_round_trip(m, version, compact, rest);
    }

    fn to_wire(&self, wire: &mut WireWrite) {
        self.put_fields(wire, false)
    }

    fn from_wire(wire: &mut WireRead) -> (r: Result<Self, Error>) {
        Self::get_fields(wire, false)
    }

    fn to_wire_compact(&self, wire: &mut WireWrite) {
        self.put_fields(wire, true)
    }

    fn from_wire_compact(wire: &mut WireRead) -> (r: Result<Self, Error>) {
        Self::get_fields(wire, true)
    }
}

impl Request {
    fn put_fields(&self, wire: &mut WireWrite, compact: bool)
        requires
            Self::writable(self.model(), old(wire).version as nat, compact),
            old(wire).has_room(Self::encoding(self.model(), old(wire).version as nat, compact).len()),
        ensures
            final(wire).version == old(wire).version,
            final(wire).bytes() == old(wire).bytes() + Self::encoding(
                self.model(),
                old(wire).version as nat,
                compact,
            ),
    {
        let ghost v = wire.version as nat;
        let ghost w0 = wire.bytes();
        proof {
            assert(<(i32, (i32, (Versioned<i32, 3>, (VersionedRange<PartStates, 0, 1>, (Versioned<TopicMap<PartStateData>, 2>, (Vec<LiveLeader>, Versioned<TagBuffer, 4>)))))) as Wired>::encoding((self.controller_id.model(), (self.controller_epoch.model(), (opt_model(self.broker_epoch), (opt_model(self.ungrouped_part_states), (opt_model(self.topic_states), (self.live_readers.model(), opt_model(self.tags))))))), v, compact) === <i32 as Wired>::encoding(self.controller_id.model(), v, compact) + <(i32, (Versioned<i32, 3>, (VersionedRange<PartStates, 0, 1>, (Versioned<TopicMap<PartStateData>, 2>, (Vec<LiveLeader>, Versioned<TagBuffer, 4>))))) as Wired>::encoding((self.controller_epoch.model(), (opt_model(self.broker_epoch), (opt_model(self.ungrouped_part_states), (opt_model(self.topic_states), (self.live_readers.model(), opt_model(self.tags)))))), v, compact));
            assert(<(i32, (Versioned<i32, 3>, (VersionedRange<PartStates, 0, 1>, (Versioned<TopicMap<PartStateData>, 2>, (Vec<LiveLeader>, Versioned<TagBuffer, 4>))))) as Wired>::encoding((self.controller_epoch.model(), (opt_model(self.broker_epoch), (opt_model(self.ungrouped_part_states), (opt_model(self.topic_states), (self.live_readers.model(), opt_model(self.tags)))))), v, compact) === <i32 as Wired>::encoding(self.controller_epoch.model(), v, compact) + <(Versioned<i32, 3>, (VersionedRange<PartStates, 0, 1>, (Versioned<TopicMap<PartStateData>, 2>, (Vec<LiveLeader>, Versioned<TagBuffer, 4>)))) as Wired>::encoding((opt_model(self.broker_epoch), (opt_model(self.ungrouped_part_states), (opt_model(self.topic_states), (self.live_readers.model(), opt_model(self.tags))))), v, compact));
            assert(<(Versioned<i32, 3>, (VersionedRange<PartStates, 0, 1>, (Versioned<TopicMap<PartStateData>, 2>, (Vec<LiveLeader>, Versioned<TagBuffer, 4>)))) as Wired>::encoding((opt_model(self.broker_epoch), (opt_model(self.ungrouped_part_states), (opt_model(self.topic_states), (self.live_readers.model(), opt_model(self.tags))))), v, compact) === gate_encoding::<i32>(opt_model(self.broker_epoch), 3, None::<nat>, v, compact) + <(VersionedRange<PartStates, 0, 1>, (Versioned<TopicMap<PartStateData>, 2>, (Vec<LiveLeader>, Versioned<TagBuffer, 4>))) as Wired>::encoding((opt_model(self.ungrouped_part_states), (opt_model(self.topic_states), (self.live_readers.model(), opt_model(self.tags)))), v, compact));
            assert(<(VersionedRange<PartStates, 0, 1>, (Versioned<TopicMap<PartStateData>, 2>, (Vec<LiveLeader>, Versioned<TagBuffer, 4>))) as Wired>::encoding((opt_model(self.ungrouped_part_states), (opt_model(self.topic_states), (self.live_readers.model(), opt_model(self.tags)))), v, compact) === gate_encoding::<PartStates>(opt_model(self.ungrouped_part_states), 0, Some(1 as nat), v, compact) + <(Versioned<TopicMap<PartStateData>, 2>, (Vec<LiveLeader>, Versioned<TagBuffer, 4>)) as Wired>::encoding((opt_model(self.topic_states), (self.live_readers.model(), opt_model(self.tags))), v, compact));
            assert(<(Versioned<TopicMap<PartStateData>, 2>, (Vec<LiveLeader>, Versioned<TagBuffer, 4>)) as Wired>::encoding((opt_model(self.topic_states), (self.live_readers.model(), opt_model(self.tags))), v, compact) === gate_encoding::<TopicMap<PartStateData>>(opt_model(self.topic_states), 2, None::<nat>, v, compact) + <(Vec<LiveLeader>, Versioned<TagBuffer, 4>) as Wired>::encoding((self.live_readers.model(), opt_model(self.tags)), v, compact));
            assert(<(Vec<LiveLeader>, Versioned<TagBuffer, 4>) as Wired>::encoding((self.live_readers.model(), opt_model(self.tags)), v, compact) === <Vec<LiveLeader> as Wired>::encoding(self.live_readers.model(), v, compact) + <Versioned<TagBuffer, 4> as Wired>::encoding(opt_model(self.tags), v, compact));
        }
        put(&self.controller_id, wire, compact);
        let ghost w1 = wire.bytes();
        put(&self.controller_epoch, wire, compact);
        let ghost w2 = wire.bytes();
        put_versioned(&self.broker_epoch, 3, None, wire, compact);
        let ghost w3 = wire.bytes();
        put_versioned(&self.ungrouped_part_states, 0, Some(1), wire, compact);
        let ghost w4 = wire.bytes();
        put_versioned(&self.topic_states, 2, None, wire, compact);
        let ghost w5 = wire.bytes();
        put(&self.live_readers, wire, compact);
        let ghost w6 = wire.bytes();
        put_versioned(&self.tags, 4, None, wire, compact);
        let ghost w7 = wire.bytes();
        proof {
            lemma_concat_assoc(w5, <Vec<LiveLeader> as Wired>::encoding(self.live_readers.model(), v, compact), <Versioned<TagBuffer, 4> as Wired>::encoding(opt_model(self.tags), v, compact));
            lemma_concat_assoc(w4, gate_encoding::<TopicMap<PartStateData>>(opt_model(self.topic_states), 2, None::<nat>, v, compact), <(Vec<LiveLeader>, Versioned<TagBuffer, 4>) as Wired>::encoding((self.live_readers.model(), opt_model(self.tags)), v, compact));
            lemma_concat_assoc(w3, gate_encoding::<PartStates>(opt_model(self.ungrouped_part_states), 0, Some(1 as nat), v, compact), <(Versioned<TopicMap<PartStateData>, 2>, (Vec<LiveLeader>, Versioned<TagBuffer, 4>)) as Wired>::encoding((opt_model(self.topic_states), (self.live_readers.model(), opt_model(self.tags))), v, compact));
            lemma_concat_assoc(w2, gate_encoding::<i32>(opt_model(self.broker_epoch), 3, None::<nat>, v, compact), <(VersionedRange<PartStates, 0, 1>, (Versioned<TopicMap<PartStateData>, 2>, (Vec<LiveLeader>, Versioned<TagBuffer, 4>))) as Wired>::encoding((opt_model(self.ungrouped_part_states), (opt_model(self.topic_states), (self.live_readers.model(), opt_model(self.tags)))), v, compact));
            lemma_concat_assoc(w1, <i32 as Wired>::encoding(self.controller_epoch.model(), v, compact), <(Versioned<i32, 3>, (VersionedRange<PartStates, 0, 1>, (Versioned<TopicMap<PartStateData>, 2>, (Vec<LiveLeader>, Versioned<TagBuffer, 4>)))) as Wired>::encoding((opt_model(self.broker_epoch), (opt_model(self.ungrouped_part_states), (opt_model(self.topic_states), (self.live_readers.model(), opt_model(self.tags))))), v, compact));
            lemma_concat_assoc(w0, <i32 as Wired>::encoding(self.controller_id.model(), v, compact), <(i32, (Versioned<i32, 3>, (VersionedRange<PartStates, 0, 1>, (Versioned<TopicMap<PartStateData>, 2>, (Vec<LiveLeader>, Versioned<TagBuffer, 4>))))) as Wired>::encoding((self.controller_epoch.model(), (opt_model(self.broker_epoch), (opt_model(self.ungrouped_part_states), (opt_model(self.topic_states), (self.live_readers.model(), opt_model(self.tags)))))), v, compact));
        }
    }

    fn get_fields(wire: &mut WireRead, compact: bool) -> (r: Result<Self, Error>)
        ensures
            final(wire).version == old(wire).version,
            match Self::parse(old(wire).rest(), old(wire).version as nat, compact) {
                Ok((m, n)) => (r matches Ok(x) && x.model() == m) && n <= old(wire).rest().len()
                    && final(wire).rest() == old(wire).rest().skip(n as int),
                Err(e) => r == Err::<Self, Error>(e),
            },
    {
        let (f_controller_id, (f_controller_epoch, (f_broker_epoch, (f_ungrouped_part_states, (f_topic_states, (f_live_readers, f_tags)))))) = get::<RequestLayout>(wire, compact)?;
        Ok(Request { controller_id: f_controller_id, controller_epoch: f_controller_epoch, broker_epoch: f_broker_epoch.0, ungrouped_part_states: f_ungrouped_part_states.0, topic_states: f_topic_states.0, live_readers: f_live_readers, tags: f_tags.0 })
    }
}

/// The error for one partition.
pub struct PartError {
    pub topic_name: String,
    pub part_idx: i32,
    pub error_code: i32,
    /// On the wire from version 4.
    pub tags: Option<TagBuffer>,
}

/// The fields of a `PartError`, in wire order.
pub type PartErrorLayout = (String, (i32, (i32, Versioned<TagBuffer, 4>)));

impl Wired for PartError {
    type Model = <PartErrorLayout as Wired>::Model;

    open spec fn model(&self) -> Self::Model {
        (self.topic_name.model(), (self.part_idx.model(), (self.error_code.model(), opt_model(self.tags))))
    }

    open spec fn writable(m: Self::Model, version: nat, compact: bool) -> bool {
        <PartErrorLayout as Wired>::writable(m, version, compact)
    }

    open spec fn canonical(m: Self::Model, version: nat, compact: bool) -> bool {
        <PartErrorLayout as Wired>::canonical(m, version, compact)
    }

    open spec fn encoding(m: Self::Model, version: nat, compact: bool) -> Seq<u8> {
        <PartErrorLayout as Wired>::encoding(m, version, compact)
    }

    open spec fn parse(data: Seq<u8>, version: nat, compact: bool) -> Parsed<Self::Model> {
        <PartErrorLayout as Wired>::parse(data, version, compact)
    }

    proof fn lemma_round_trip(m: Self::Model, version: nat, compact: bool, rest: Seq<u8>) {
        <PartErrorLayout as Wired>::lemma_round_trip(m, version, compact, rest);
    }

    fn to_wire(&self, wire: &mut WireWrite) {
        self.put_fields(wire, false)
    }

    fn from_wire(wire: &mut WireRead) -> (r: Result<Self, Error>) {
        Self::get_fields(wire, false)
    }

    fn to_wire_compact(&self, wire: &mut WireWrite) {
        self.put_fields(wire, true)
    }

    fn from_wire_compact(wire: &mut WireRead) -> (r: Result<Self, Error>) {
        Self::get_fields(wire, true)
    }
}

impl PartError {
    fn put_fields(&self, wire: &mut WireWrite, compact: bool)
        requires
            Self::writable(self.model(), old(wire).version as nat, compact),
            old(wire).has_room(Self::encoding(self.model(), old(wire).version as nat, compact).len()),
        ensures
            final(wire).version == old(wire).version,
            final(wire).bytes() == old(wire).bytes() + Self::encoding(
                self.model(),
                old(wire).version as nat,
                compact,
            ),
    {
        let ghost v = wire.version as nat;
        let ghost w0 = wire.bytes();
        proof {
            assert(<(String, (i32, (i32, Versioned<TagBuffer, 4>))) as Wired>::encoding((self.topic_name.model(), (self.part_idx.model(), (self.error_code.model(), opt_model(self.tags)))), v, compact) === <String as Wired>::encoding(self.topic_name.model(), v, compact) + <(i32, (i32, Versioned<TagBuffer, 4>)) as Wired>::encoding((self.part_idx.model(), (self.error_code.model(), opt_model(self.tags))), v, compact));
            assert(<(i32, (i32, Versioned<TagBuffer, 4>)) as Wired>::encoding((self.part_idx.model(), (self.error_code.model(), opt_model(self.tags))), v, compact) === <i32 as Wired>::encoding(self.part_idx.model(), v, compact) + <(i32, Versioned<TagBuffer, 4>) as Wired>::encoding((self.error_code.model(), opt_model(self.tags)), v, compact));
            assert(<(i32, Versioned<TagBuffer, 4>) as Wired>::encoding((self.error_code.model(), opt_model(self.tags)), v, compact) === <i32 as Wired>::encoding(self.error_code.model(), v, compact) + <Versioned<TagBuffer, 4> as Wired>::encoding(opt_model(self.tags), v, compact));
        }
        put(&self.topic_name, wire, compact);
        let ghost w1 = wire.bytes();
        put(&self.part_idx, wire, compact);
        let ghost w2 = wire.bytes();
        put(&self.error_code, wire, compact);
        let ghost w3 = wire.bytes();
        put_versioned(&self.tags, 4, None, wire, compact);
        let ghost w4 = wire.bytes();
        proof {
            lemma_concat_assoc(w2, <i32 as Wired>::encoding(self.error_code.model(), v, compact), <Versioned<TagBuffer, 4> as Wired>::encoding(opt_model(self.tags), v, compact));
            lemma_concat_assoc(w1, <i32 as Wired>::encoding(self.part_idx.model(), v, compact), <(i32, Versioned<TagBuffer, 4>) as Wired>::encoding((self.error_code.model(), opt_model(self.tags)), v, compact));
            lemma_concat_assoc(w0, <String as Wired>::encoding(self.topic_name.model(), v, compact), <(i32, (i32, Versioned<TagBuffer, 4>)) as Wired>::encoding((self.part_idx.model(), (self.error_code.model(), opt_model(self.tags))), v, compact));
        }
    }

    fn get_fields(wire: &mut WireRead, compact: bool) -> (r: Result<Self, Error>)
        ensures
            final(wire).version == old(wire).version,
            match Self::parse(old(wire).rest(), old(wire).version as nat, compact) {
                Ok((m, n)) => (r matches Ok(x) && x.model() == m) && n <= old(wire).rest().len()
                    && final(wire).rest() == old(wire).rest().skip(n as int),
                Err(e) => r == Err::<Self, Error>(e),
            },
    {
        let (f_topic_name, (f_part_idx, (f_error_code, f_tags))) = get::<PartErrorLayout>(wire, compact)?;
        Ok(PartError { topic_name: f_topic_name, part_idx: f_part_idx, error_code: f_error_code, tags: f_tags.0 })
    }
}

/// The leader-and-ISR response.
pub struct Response {
    pub error_code: i16,
    pub part_errors: Vec<PartError>,
    /// On the wire from version 4.
    pub tags: Option<TagBuffer>,
}

/// The fields of a `Response`, in wire order.
pub type ResponseLayout = (i16, (Vec<PartError>, Versioned<TagBuffer, 4>));

impl Wired for Response {
    type Model = <ResponseLayout as Wired>::Model;

    open spec fn model(&self) -> Self::Model {
        (self.error_code.model(), (self.part_errors.model(), opt_model(self.tags)))
    }

    open spec fn writable(m: Self::Model, version: nat, compact: bool) -> bool {
        <ResponseLayout as Wired>::writable(m, version, compact)
    }

    open spec fn canonical(m: Self::Model, version: nat, compact: bool) -> bool {
        <ResponseLayout as Wired>::canonical(m, version, compact)
    }

    open spec fn encoding(m: Self::Model, version: nat, compact: bool) -> Seq<u8> {
        <ResponseLayout as Wired>::encoding(m, version, compact)
    }

    open spec fn parse(data: Seq<u8>, version: nat, compact: bool) -> Parsed<Self::Model> {
        <ResponseLayout as Wired>::parse(data, version, compact)
    }

    proof fn lemma_round_trip(m: Self::Model, version: nat, compact: bool, rest: Seq<u8>) {
        <ResponseLayout as Wired>::lemma_round_trip(m, version, compact, rest);
    }

    fn to_wire(&self, wire: &mut WireWrite) {
        self.put_fields(wire, false)
    }

    fn from_wire(wire: &mut WireRead) -> (r: Result<Self, Error>) {
        Self::get_fields(wire, false)
    }

    fn to_wire_compact(&self, wire: &mut WireWrite) {
        self.put_fields(wire, true)
    }

    fn from_wire_compact(wire: &mut WireRead) -> (r: Result<Self, Error>) {
        Self::get_fields(wire, true)
    }
}

impl Response {
    fn put_fields(&self, wire: &mut WireWrite, compact: bool)
        requires
            Self::writable(self.model(), old(wire).version as nat, compact),
            old(wire).has_room(Self::encoding(self.model(), old(wire).version as nat, compact).len()),
        ensures
            final(wire).version == old(wire).version,
            final(wire).bytes() == old(wire).bytes() + Self::encoding(
                self.model(),
                old(wire).version as nat,
                compact,
            ),
    {
        let ghost v = wire.version as nat;
        let ghost w0 = wire.bytes();
        proof {
            assert(<(i16, (Vec<PartError>, Versioned<TagBuffer, 4>)) as Wired>::encoding((self.error_code.model(), (self.part_errors.model(), opt_model(self.tags))), v, compact) === <i16 as Wired>::encoding(self.error_code.model(), v, compact) + <(Vec<PartError>, Versioned<TagBuffer, 4>) as Wired>::encoding((self.part_errors.model(), opt_model(self.tags)), v, compact));
            assert(<(Vec<PartError>, Versioned<TagBuffer, 4>) as Wired>::encoding((self.part_errors.model(), opt_model(self.tags)), v, compact) === <Vec<PartError> as Wired>::encoding(self.part_errors.model(), v, compact) + <Versioned<TagBuffer, 4> as Wired>::encoding(opt_model(self.tags), v, compact));
        }
        put(&self.error_code, wire, compact);
        let ghost w1 = wire.bytes();
        put(&self.part_errors, wire, compact);
        let ghost w2 = wire.bytes();
        put_versioned(&self.tags, 4, None, wire, compact);
        let ghost w3 = wire.bytes();
        proof {
            lemma_concat_assoc(w1, <Vec<PartError> as Wired>::encoding(self.part_errors.model(), v, compact), <Versioned<TagBuffer, 4> as Wired>::encoding(opt_model(self.tags), v, compact));
            lemma_concat_assoc(w0, <i16 as Wired>::encoding(self.error_code.model(), v, compact), <(Vec<PartError>, Versioned<TagBuffer, 4>) as Wired>::encoding((self.part_errors.model(), opt_model(self.tags)), v, compact));
        }
    }

    fn get_fields(wire: &mut WireRead, compact: bool) -> (r: Result<Self, Error>)
        ensures
            final(wire).version == old(wire).version,
            match Self::parse(old(wire).rest(), old(wire).version as nat, compact) {
                Ok((m, n)) => (r matches Ok(x) && x.model() == m) && n <= old(wire).rest().len()
                    && final(wire).rest() == old(wire).rest().skip(n as int),
                Err(e) => r == Err::<Self, Error>(e),
            },
    {
        let (f_error_code, (f_part_errors, f_tags)) = get::<ResponseLayout>(wire, compact)?;
        Ok(Response { error_code: f_error_code, part_errors: f_part_errors, tags: f_tags.0 })
    }
}

impl ApiRequest for Request {
    type Response = Response;

    open spec fn key() -> ApiKey {
        ApiKey::LeaderAndIsr
    }

    open spec fn flexible_from() -> nat {
        4
    }

    fn api_key() -> (r: ApiKey) {
        ApiKey::LeaderAndIsr
    }

    fn flexible_version() -> (r: usize) {
        4
    }
}

} // verus!
