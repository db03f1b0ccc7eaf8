//! Message-type identifiers and other small enumerations of the protocol.
//!
//! Each maps to its wire integer through an explicit, exhaustive table; an
//! integer outside the table decodes to `InvalidEncoding`.
use crate::error::Error;
use crate::primitive::{get_int, int_encoding, parse_int, put_int, lemma_byte_ranges, lemma_int_round_trip};
use crate::wire::{Parsed, WireRead, WireWrite, Wired};
use vstd::prelude::*;

verus! {

/// The message types of the protocol.
#[derive(Clone, Copy, Debug, Hash, PartialEq, Eq, Structural)]
pub enum ApiKey {
    Produce,
    Fetch,
    ListOffsets,
    Metadata,
    LeaderAndIsr,
    StopReplica,
    UpdateMetadata,
    ControlledShutdown,
    OffsetCommit,
    OffsetFetch,
    FindCoordinator,
    JoinGroup,
    Hearbeat,
    LeaveGroup,
    SyncGroup,
    DescribeGroups,
    ListGroups,
    SaslHandshake,
    ApiVersions,
    CreateTopic,
    DeleteTopics,
    DeleteRecords,
    InitProducerId,
    OffsetForLeaderEpoch,
    AddPartitionsToTxn,
    AddOffsetsToTxn,
    EndTxn,
    WritneTxnMarkers,
    TxnOffsetCommit,
    DescribeAcls,
    CreateAcls,
    DeleteAcs,
    DescribeConfigs,
    AlterConfigs,
    AlterReplicaLogDirs,
    DescriveLogDirs,
    SaslAuthenticate,
    CreatePartitions,
    CreateDelegationToken,
    RenewDelegationToken,
    ExpireDelegationToken,
    DescribeDelegationToken,
    DeleteGroups,
    ElectLeaders,
    IncrementalAlterConfigs,
    AlterPartitionReassignments,
    ListPartitionReassignments,
    OffsetDelete,
    DescribeClientQuotas,
    AlterClientQuotas,
}

/// The wire code of a message type.
pub open spec fn api_key_code(k: ApiKey) -> i16 {
    match k {
        ApiKey::Produce => 0,
        ApiKey::Fetch => 1,
        ApiKey::ListOffsets => 2,
        ApiKey::Metadata => 3,
        ApiKey::LeaderAndIsr => 4,
        ApiKey::StopReplica => 5,
        ApiKey::UpdateMetadata => 6,
        ApiKey::ControlledShutdown => 7,
        ApiKey::OffsetCommit => 8,
        ApiKey::OffsetFetch => 9,
        ApiKey::FindCoordinator => 10,
        ApiKey::JoinGroup => 11,
        ApiKey::Hearbeat => 12,
        ApiKey::LeaveGroup => 13,
        ApiKey::SyncGroup => 14,
        ApiKey::DescribeGroups => 15,
        ApiKey::ListGroups => 16,
        ApiKey::SaslHandshake => 17,
        ApiKey::ApiVersions => 18,
        ApiKey::CreateTopic => 19,
        ApiKey::DeleteTopics => 20,
        ApiKey::DeleteRecords => 21,
        ApiKey::InitProducerId => 22,
        ApiKey::OffsetForLeaderEpoch => 23,
        ApiKey::AddPartitionsToTxn => 24,
        ApiKey::AddOffsetsToTxn => 25,
        ApiKey::EndTxn => 26,
        ApiKey::WritneTxnMarkers => 27,
        ApiKey::TxnOffsetCommit => 28,
        ApiKey::DescribeAcls => 29,
        ApiKey::CreateAcls => 30,
        ApiKey::DeleteAcs => 31,
        ApiKey::DescribeConfigs => 32,
        ApiKey::AlterConfigs => 33,
        ApiKey::AlterReplicaLogDirs => 34,
        ApiKey::DescriveLogDirs => 35,
        ApiKey::SaslAuthenticate => 36,
        ApiKey::CreatePartitions => 37,
        ApiKey::CreateDelegationToken => 38,
        ApiKey::RenewDelegationToken => 39,
        ApiKey::ExpireDelegationToken => 40,
        ApiKey::DescribeDelegationToken => 41,
        ApiKey::DeleteGroups => 42,
        ApiKey::ElectLeaders => 43,
        ApiKey::IncrementalAlterConfigs => 44,
        ApiKey::AlterPartitionReassignments => 45,
        ApiKey::ListPartitionReassignments => 46,
        ApiKey::OffsetDelete => 47,
        ApiKey::DescribeClientQuotas => 48,
        ApiKey::AlterClientQuotas => 49,
    }
}

/// The message type with wire code `c`, if any.
pub open spec fn api_key_of(c: i16) -> Option<ApiKey> {
    match c {
        0 => Some(ApiKey::Produce),
        1 => Some(ApiKey::Fetch),
        2 => Some(ApiKey::ListOffsets),
        3 => Some(ApiKey::Metadata),
        4 => Some(ApiKey::LeaderAndIsr),
        5 => Some(ApiKey::StopReplica),
        6 => Some(ApiKey::UpdateMetadata),
        7 => Some(ApiKey::ControlledShutdown),
        8 => Some(ApiKey::OffsetCommit),
        9 => Some(ApiKey::OffsetFetch),
        10 => Some(ApiKey::FindCoordinator),
        11 => Some(ApiKey::JoinGroup),
        12 => Some(ApiKey::Hearbeat),
        13 => Some(ApiKey::LeaveGroup),
        14 => Some(ApiKey::SyncGroup),
        15 => Some(ApiKey::DescribeGroups),
        16 => Some(ApiKey::ListGroups),
        17 => Some(ApiKey::SaslHandshake),
        18 => Some(ApiKey::ApiVersions),
        19 => Some(ApiKey::CreateTopic),
        20 => Some(ApiKey::DeleteTopics),
        21 => Some(ApiKey::DeleteRecords),
        22 => Some(ApiKey::InitProducerId),
        23 => Some(ApiKey::OffsetForLeaderEpoch),
        24 => Some(ApiKey::AddPartitionsToTxn),
        25 => Some(ApiKey::AddOffsetsToTxn),
        26 => Some(ApiKey::EndTxn),
        27 => Some(ApiKey::WritneTxnMarkers),
        28 => Some(ApiKey::TxnOffsetCommit),
        29 => Some(ApiKey::DescribeAcls),
        30 => Some(ApiKey::CreateAcls),
        31 => Some(ApiKey::DeleteAcs),
        32 => Some(ApiKey::DescribeConfigs),
        33 => Some(ApiKey::AlterConfigs),
        34 => Some(ApiKey::AlterReplicaLogDirs),
        35 => Some(ApiKey::DescriveLogDirs),
        36 => Some(ApiKey::SaslAuthenticate),
        37 => Some(ApiKey::CreatePartitions),
        38 => Some(ApiKey::CreateDelegationToken),
        39 => Some(ApiKey::RenewDelegationToken),
        40 => Some(ApiKey::ExpireDelegationToken),
        41 => Some(ApiKey::DescribeDelegationToken),
        42 => Some(ApiKey::DeleteGroups),
        43 => Some(ApiKey::ElectLeaders),
        44 => Some(ApiKey::IncrementalAlterConfigs),
        45 => Some(ApiKey::AlterPartitionReassignments),
        46 => Some(ApiKey::ListPartitionReassignments),
        47 => Some(ApiKey::OffsetDelete),
        48 => Some(ApiKey::DescribeClientQuotas),
        49 => Some(ApiKey::AlterClientQuotas),
        _ => None,
    }
}

pub proof fn lemma_api_key_codes(k: ApiKey)
    ensures
        api_key_of(api_key_code(k)) == Some(k),
        0 <= api_key_code(k) < 50,
{
}

impl ApiKey {
    /// The wire code of this message type.
    pub fn code(&self) -> (r: i16)
        ensures
            r == api_key_code(*self),
    {
        match self {
            ApiKey::Produce => 0,
            ApiKey::Fetch => 1,
            ApiKey::ListOffsets => 2,
            ApiKey::Metadata => 3,
            ApiKey::LeaderAndIsr => 4,
            ApiKey::StopReplica => 5,
            ApiKey::UpdateMetadata => 6,
            ApiKey::ControlledShutdown => 7,
            ApiKey::OffsetCommit => 8,
            ApiKey::OffsetFetch => 9,
            ApiKey::FindCoordinator => 10,
            ApiKey::JoinGroup => 11,
            ApiKey::Hearbeat => 12,
            ApiKey::LeaveGroup => 13,
            ApiKey::SyncGroup => 14,
            ApiKey::DescribeGroups => 15,
            ApiKey::ListGroups => 16,
            ApiKey::SaslHandshake => 17,
            ApiKey::ApiVersions => 18,
            ApiKey::CreateTopic => 19,
            ApiKey::DeleteTopics => 20,
            ApiKey::DeleteRecords => 21,
            ApiKey::InitProducerId => 22,
            ApiKey::OffsetForLeaderEpoch => 23,
            ApiKey::AddPartitionsToTxn => 24,
            ApiKey::AddOffsetsToTxn => 25,
            ApiKey::EndTxn => 26,
            ApiKey::WritneTxnMarkers => 27,
            ApiKey::TxnOffsetCommit => 28,
            ApiKey::DescribeAcls => 29,
            ApiKey::CreateAcls => 30,
            ApiKey::DeleteAcs => 31,
            ApiKey::DescribeConfigs => 32,
            ApiKey::AlterConfigs => 33,
            ApiKey::AlterReplicaLogDirs => 34,
            ApiKey::DescriveLogDirs => 35,
            ApiKey::SaslAuthenticate => 36,
            ApiKey::CreatePartitions => 37,
            ApiKey::CreateDelegationToken => 38,
            ApiKey::RenewDelegationToken => 39,
            ApiKey::ExpireDelegationToken => 40,
            ApiKey::DescribeDelegationToken => 41,
            ApiKey::DeleteGroups => 42,
            ApiKey::ElectLeaders => 43,
            ApiKey::IncrementalAlterConfigs => 44,
            ApiKey::AlterPartitionReassignments => 45,
            ApiKey::ListPartitionReassignments => 46,
            ApiKey::OffsetDelete => 47,
            ApiKey::DescribeClientQuotas => 48,
            ApiKey::AlterClientQuotas => 49,
        }
    }

    /// The message type with wire code `c`, or `None` for an unknown code.
    pub fn from_code(c: i16) -> (r: Option<ApiKey>)
        ensures
            r == api_key_of(c),
    {
        match c {
            0 => Some(ApiKey::Produce),
            1 => Some(ApiKey::Fetch),
            2 => Some(ApiKey::ListOffsets),
            3 => Some(ApiKey::Metadata),
            4 => Some(ApiKey::LeaderAndIsr),
            5 => Some(ApiKey::StopReplica),
            6 => Some(ApiKey::UpdateMetadata),
            7 => Some(ApiKey::ControlledShutdown),
            8 => Some(ApiKey::OffsetCommit),
            9 => Some(ApiKey::OffsetFetch),
            10 => Some(ApiKey::FindCoordinator),
            11 => Some(ApiKey::JoinGroup),
            12 => Some(ApiKey::Hearbeat),
            13 => Some(ApiKey::LeaveGroup),
            14 => Some(ApiKey::SyncGroup),
            15 => Some(ApiKey::DescribeGroups),
            16 => Some(ApiKey::ListGroups),
            17 => Some(ApiKey::SaslHandshake),
            18 => Some(ApiKey::ApiVersions),
            19 => Some(ApiKey::CreateTopic),
            20 => Some(ApiKey::DeleteTopics),
            21 => Some(ApiKey::DeleteRecords),
            22 => Some(ApiKey::InitProducerId),
            23 => Some(ApiKey::OffsetForLeaderEpoch),
            24 => Some(ApiKey::AddPartitionsToTxn),
            25 => Some(ApiKey::AddOffsetsToTxn),
            26 => Some(ApiKey::EndTxn),
            27 => Some(ApiKey::WritneTxnMarkers),
            28 => Some(ApiKey::TxnOffsetCommit),
            29 => Some(ApiKey::DescribeAcls),
            30 => Some(ApiKey::CreateAcls),
            31 => Some(ApiKey::DeleteAcs),
            32 => Some(ApiKey::DescribeConfigs),
            33 => Some(ApiKey::AlterConfigs),
            34 => Some(ApiKey::AlterReplicaLogDirs),
            35 => Some(ApiKey::DescriveLogDirs),
            36 => Some(ApiKey::SaslAuthenticate),
            37 => Some(ApiKey::CreatePartitions),
            38 => Some(ApiKey::CreateDelegationToken),
            39 => Some(ApiKey::RenewDelegationToken),
            40 => Some(ApiKey::ExpireDelegationToken),
            41 => Some(ApiKey::DescribeDelegationToken),
            42 => Some(ApiKey::DeleteGroups),
            43 => Some(ApiKey::ElectLeaders),
            44 => Some(ApiKey::IncrementalAlterConfigs),
            45 => Some(ApiKey::AlterPartitionReassignments),
            46 => Some(ApiKey::ListPartitionReassignments),
            47 => Some(ApiKey::OffsetDelete),
            48 => Some(ApiKey::DescribeClientQuotas),
            49 => Some(ApiKey::AlterClientQuotas),
            _ => None,
        }
    }
}

impl Default for ApiKey {
    fn default() -> (r: ApiKey)
        ensures
            r == ApiKey::Produce,
    {
        ApiKey::Produce
    }
}

/// Reads a 16-bit code and maps it to a message type.
pub open spec fn parse_api_key(data: Seq<u8>) -> Parsed<ApiKey> {
    match parse_int(data, 2) {
        Ok((c, n)) => match api_key_of(c as i16) {
            Some(k) => Ok((k, n)),
            None => Err(Error::InvalidEncoding),
        },
        Err(e) => Err(e),
    }
}

/// A message type travels as its signed 16-bit code.
impl Wired for ApiKey {
    type Model = ApiKey;

    open spec fn model(&self) -> ApiKey {
        *self
    }

    open spec fn writable(m: ApiKey, version: nat, compact: bool) -> bool {
        true
    }

    open spec fn canonical(m: ApiKey, version: nat, compact: bool) -> bool {
        true
    }

    open spec fn encoding(m: ApiKey, version: nat, compact: bool) -> Seq<u8> {
        int_encoding(api_key_code(m) as int, 2)
    }

    open spec fn parse(data: Seq<u8>, version: nat, compact: bool) -> Parsed<ApiKey> {
        parse_api_key(data)
    }

    proof fn lemma_round_trip(m: ApiKey, version: nat, compact: bool, rest: Seq<u8>) {
        lemma_byte_ranges();
        lemma_api_key_codes(m);
        lemma_int_round_trip(api_key_code(m) as int, 2, rest);
    }

    fn to_wire(&self, wire: &mut WireWrite) {
        proof {
            lemma_byte_ranges();
            lemma_api_key_codes(*self);
            lemma_int_round_trip(api_key_code(*self) as int, 2, Seq::empty());
        }
        put_int(wire, self.code() as i64, 2);
    }

    fn from_wire(wire: &mut WireRead) -> (r: Result<ApiKey, Error>) {
        get_api_key(wire)
    }

    fn to_wire_compact(&self, wire: &mut WireWrite) {
        self.to_wire(wire)
    }

    fn from_wire_compact(wire: &mut WireRead) -> (r: Result<ApiKey, Error>) {
        get_api_key(wire)
    }
}

fn get_api_key(wire: &mut WireRead) -> (r: Result<ApiKey, Error>)
    ensures
        final(wire).version == old(wire).version,
        match parse_api_key(old(wire).rest()) {
            Ok((m, n)) => r == Ok::<ApiKey, Error>(m) && n <= old(wire).rest().len()
                && final(wire).rest() == old(wire).rest().skip(n as int),
            Err(e) => r == Err::<ApiKey, Error>(e),
        },
{
    proof {
        lemma_byte_ranges();
    }
    let c = get_int(wire, 2)?;
    match ApiKey::from_code(c as i16) {
        Some(k) => Ok(k),
        None => Err(Error::InvalidEncoding),
    }
}

/// Which records a fetch may see.
#[derive(Clone, Copy, Debug, PartialEq, Eq, Structural)]
pub enum IsolationLevel {
    ReadUncommited,
    ReadCommited,
}

/// The wire code of an isolation level.
pub open spec fn isolation_code(l: IsolationLevel) -> int {
    match l {
        IsolationLevel::ReadUncommited => 0,
        IsolationLevel::ReadCommited => 1,
    }
}

/// Reads an 8-bit code and maps it to an isolation level.
pub open spec fn parse_isolation(data: Seq<u8>) -> Parsed<IsolationLevel> {
    match parse_int(data, 1) {
        Ok((c, n)) => if c == 0 {
            Ok((IsolationLevel::ReadUncommited, n))
        } else if c == 1 {
            Ok((IsolationLevel::ReadCommited, n))
        } else {
            Err(Error::InvalidEncoding)
        },
        Err(e) => Err(e),
    }
}

/// An isolation level travels as its signed 8-bit code.
impl Wired for IsolationLevel {
    type Model = IsolationLevel;

    open spec fn model(&self) -> IsolationLevel {
        *self
    }

    open spec fn writable(m: IsolationLevel, version: nat, compact: bool) -> bool {
        true
    }

    open spec fn canonical(m: IsolationLevel, version: nat, compact: bool) -> bool {
        true
    }

    open spec fn encoding(m: IsolationLevel, version: nat, compact: bool) -> Seq<u8> {
        int_encoding(isolation_code(m), 1)
    }

    open spec fn parse(data: Seq<u8>, version: nat, compact: bool) -> Parsed<IsolationLevel> {
        parse_isolation(data)
    }

    proof fn lemma_round_trip(m: IsolationLevel, version: nat, compact: bool, rest: Seq<u8>) {
        lemma_byte_ranges();
        lemma_int_round_trip(isolation_code(m), 1, rest);
    }

    fn to_wire(&self, wire: &mut WireWrite) {
        proof {
            lemma_byte_ranges();
            lemma_int_round_trip(isolation_code(*self), 1, Seq::empty());
        }
        let c: i64 = match self {
            IsolationLevel::ReadUncommited => 0,
            IsolationLevel::ReadCommited => 1,
        };
        put_int(wire, c, 1);
    }

    fn from_wire(wire: &mut WireRead) -> (r: Result<IsolationLevel, Error>) {
        get_isolation(wire)
    }

    fn to_wire_compact(&self, wire: &mut WireWrite) {
        self.to_wire(wire)
    }

    fn from_wire_compact(wire: &mut WireRead) -> (r: Result<IsolationLevel, Error>) {
        get_isolation(wire)
    }
}

fn get_isolation(wire: &mut WireRead) -> (r: Result<IsolationLevel, Error>)
    ensures
        final(wire).version == old(wire).version,
        match parse_isolation(old(wire).rest()) {
            Ok((m, n)) => r == Ok::<IsolationLevel, Error>(m) && n <= old(wire).rest().len()
                && final(wire).rest() == old(wire).rest().skip(n as int),
            Err(e) => r == Err::<IsolationLevel, Error>(e),
        },
{
    let c = get_int(wire, 1)?;
    if c == 0 {
        Ok(IsolationLevel::ReadUncommited)
    } else if c == 1 {
        Ok(IsolationLevel::ReadCommited)
    } else {
        Err(Error::InvalidEncoding)
    }
}

/// A request message type: its identifier, the version from which it uses
/// the compact mode, and the type of its response.
pub trait ApiRequest: Wired {
    type Response: Wired;

    spec fn key() -> ApiKey;

    spec fn flexible_from() -> nat;

    fn api_key() -> (r: ApiKey)
        ensures
            r == Self::key(),
    ;

    /// The first version at which this message uses the compact mode.
    fn flexible_version() -> (r: usize)
        ensures
            r as nat == Self::flexible_from(),
    ;
}

} // verus!
