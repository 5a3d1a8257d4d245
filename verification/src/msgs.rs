//! The messages that travel beside tables: each is a plain value with the
//! packet id under which it is sent.

use vstd::prelude::*;
use core::ops::Range;
use core::time::Duration;
use std::collections::HashMap;
use crate::buf::Buf;
use crate::schema::Schema;
use crate::table::{Entry, VTable};
use crate::types::{ComponentId, EntityId, PacketId, Timestamp};

verus! {

/// A message with a fixed packet id.
pub trait Msg {
    /// The packet id under which messages of this type are sent.
    open spec fn spec_id() -> PacketId {
        arbitrary()
    }

    /// The packet id under which messages of this type are sent.
    fn id() -> (id: PacketId)
        ensures
            id == Self::spec_id(),
    ;
}

/// A message that is answered by one of another type.
pub trait Request {
    type Reply: Msg;
}

/// Identifies a stream.
pub type StreamId = u64;

/// Identifies an asset.
pub type AssetId = u64;

/// What is known of a component besides its values.
#[derive(Clone, Debug)]
pub struct ComponentMetadata {
    pub component_id: ComponentId,
    pub name: String,
    pub metadata: HashMap<String, String>,
    pub asset: bool,
}

/// What is known of an entity besides its components.
#[derive(Clone, Debug)]
pub struct EntityMetadata {
    pub entity_id: EntityId,
    pub name: String,
    pub metadata: HashMap<String, String>,
}

/// Carries the descriptor for the tables that are sent under `id`.
pub struct VTableMsg {
    pub id: PacketId,
    pub vtable: VTable<Vec<Entry>, Vec<u8>>,
}

/// Asks for a stream of values.
#[derive(Debug)]
pub struct Stream {
    pub filter: StreamFilter,
    pub behavior: StreamBehavior,
    pub id: StreamId,
}

/// A stream that advances at a fixed rate.
#[derive(Debug, Clone)]
pub struct FixedRateBehavior {
    pub initial_timestamp: InitialTimestamp,
    pub timestep: Option<Duration>,
    pub frequency: Option<u64>,
}

/// Where a stream starts.
#[derive(Debug, Clone)]
pub enum InitialTimestamp {
    Earliest,
    Latest,
    Manual(Timestamp),
}

/// How a stream advances.
#[derive(Debug, Clone)]
pub enum StreamBehavior {
    RealTime,
    FixedRate(FixedRateBehavior),
}

/// Which values a stream carries.
#[derive(Debug)]
pub struct StreamFilter {
    pub component_id: Option<ComponentId>,
    pub entity_id: Option<EntityId>,
}

/// Changes the state of a stream; a field that is `None` stays as it is.
#[derive(Debug, Clone)]
pub struct SetStreamState {
    pub id: StreamId,
    pub playing: Option<bool>,
    pub timestamp: Option<Timestamp>,
    pub time_step: Option<Duration>,
    pub frequency: Option<u64>,
}

impl SetStreamState {
    /// The message that moves stream `id` to the time `tick` and changes
    /// nothing else.
    pub fn rewind(id: StreamId, tick: Timestamp) -> (msg: Self)
        ensures
            msg.id == id,
            msg.playing is None,
            msg.timestamp == Some(tick),
            msg.time_step is None,
            msg.frequency is None,
    {
        SetStreamState { id, playing: None, timestamp: Some(tick), time_step: None, frequency: None }
    }
}

/// Asks for the entries of one time series in a range of time; the answer
/// is sent under `id`.
#[derive(Debug)]
pub struct GetTimeSeries {
    pub id: PacketId,
    pub range: Range<Timestamp>,
    pub entity_id: EntityId,
    pub component_id: ComponentId,
    pub limit: Option<usize>,
}

/// Carries the schema of a component.
pub struct SchemaMsg(pub Schema<Vec<u64>>);

/// Asks for the schema of a component.
pub struct GetSchema {
    pub component_id: ComponentId,
}

/// Asks for the metadata of a component.
#[derive(Clone)]
pub struct GetComponentMetadata {
    pub component_id: ComponentId,
}

/// Asks for the metadata of an entity.
#[derive(Clone)]
pub struct GetEntityMetadata {
    pub entity_id: EntityId,
}

/// Sets the metadata of a component.
#[derive(Clone, Debug)]
pub struct SetComponentMetadata(pub ComponentMetadata);

impl SetComponentMetadata {
    /// The message that names the component `component_id`, with no further
    /// metadata and not as an asset.
    pub fn new(component_id: ComponentId, name: &str) -> (msg: Self)
        ensures
            msg.0.component_id == component_id,
            msg.0.name@ == name@,
            msg.0.metadata@ == Map::<String, String>::empty(),
            !msg.0.asset,
    {
        SetComponentMetadata(
            ComponentMetadata {
                component_id,
                metadata: HashMap::new(),
                asset: false,
                name: name.to_owned(),
            },
        )
    }

    /// The same message with `metadata` in place of its metadata.
    pub fn metadata(self, metadata: HashMap<String, String>) -> (msg: Self)
        ensures
            msg.0.component_id == self.0.component_id,
            msg.0.name == self.0.name,
            msg.0.metadata == metadata,
            msg.0.asset == self.0.asset,
    {
        let mut msg = self;
        msg.0.metadata = metadata;
        msg
    }

    /// The same message with `asset` in place of its asset flag.
    pub fn asset(self, asset: bool) -> (msg: Self)
        ensures
            msg.0.component_id == self.0.component_id,
            msg.0.name == self.0.name,
            msg.0.metadata == self.0.metadata,
            msg.0.asset == asset,
    {
        let mut msg = self;
        msg.0.asset = asset;
        msg
    }
}

/// Sets the metadata of an entity.
#[derive(Clone, Debug)]
pub struct SetEntityMetadata(pub EntityMetadata);

impl SetEntityMetadata {
    /// The message that names the entity `entity_id`, with no further
    /// metadata.
    pub fn new(entity_id: EntityId, name: &str) -> (msg: Self)
        ensures
            msg.0.entity_id == entity_id,
            msg.0.name@ == name@,
            msg.0.metadata@ == Map::<String, String>::empty(),
    {
        SetEntityMetadata(
            EntityMetadata { entity_id, metadata: HashMap::new(), name: name.to_owned() },
        )
    }

    /// The same message with `metadata` in place of its metadata.
    pub fn metadata(self, metadata: HashMap<String, String>) -> (msg: Self)
        ensures
            msg.0.entity_id == self.0.entity_id,
            msg.0.name == self.0.name,
            msg.0.metadata == metadata,
    {
        let mut msg = self;
        msg.0.metadata = metadata;
        msg
    }
}

/// Stores the encoded asset `buf` under `id`.
#[derive(Debug)]
pub struct SetAsset {
    pub id: AssetId,
    pub buf: Vec<u8>,
}

impl SetAsset {
    /// The message that stores the encoded asset `buf` under `id`.
    pub fn new(id: AssetId, buf: Vec<u8>) -> (msg: Self)
        ensures
            msg.id == id,
            msg.buf == buf,
    {
        SetAsset { id, buf }
    }
}

/// Asks for the asset stored under `id`.
#[derive(Debug)]
pub struct GetAsset {
    pub id: AssetId,
}

/// Asks for all metadata.
#[derive(Clone)]
pub struct DumpMetadata;

/// Asks for all assets.
#[derive(Debug)]
pub struct DumpAssets;

/// Subscribes to the time of the last update.
#[derive(Debug)]
pub struct SubscribeLastUpdated;

/// Changes the settings of the database; a field that is `None` stays as
/// it is.
#[derive(Debug)]
pub struct SetDbSettings {
    pub recording: Option<bool>,
    pub time_step: Option<Duration>,
}

/// The settings of the database.
#[derive(Debug)]
pub struct DbSettings {
    pub recording: bool,
    pub time_step: Duration,
    pub default_stream_time_step: Duration,
}

/// Asks for the settings of the database.
#[derive(Debug)]
pub struct GetDbSettings;

/// Announces a new connection.
pub struct NewConnection;

/// Asks for the earliest timestamp stored.
pub struct GetEarliestTimestamp;

/// The earliest timestamp stored.
#[derive(Clone, Copy)]
pub struct EarliestTimestamp(pub Timestamp);

/// Asks for the schemas of all components.
#[derive(Clone, Copy)]
pub struct DumpSchema;

/// The schemas of all components, by component id.
pub struct DumpSchemaResp {
    pub schemas: HashMap<ComponentId, Schema<Vec<u64>>>,
}

/// The time a stream has reached.
#[derive(Clone, Debug)]
pub struct StreamTimestamp {
    pub timestamp: Timestamp,
    pub stream_id: StreamId,
}

/// A query in SQL.
#[derive(Clone, Debug)]
pub struct SQLQuery(pub String);

/// The answer to a query: record batches in the Arrow IPC format.
#[derive(Clone, Debug)]
pub struct ArrowIPC {
    pub batches: Vec<Vec<u8>>,
}

/// Reports a failed request.
#[derive(Clone, Debug)]
pub struct ErrorResponse {
    pub description: String,
}

/// Asks for a stream of the messages sent under `msg_id`.
#[derive(Debug, Clone)]
pub struct MsgStream {
    pub msg_id: PacketId,
}

/// Asks for the metadata of the messages sent under `msg_id`.
#[derive(Debug, Clone)]
pub struct GetMsgMetadata {
    pub msg_id: PacketId,
}

/// Asks for the messages sent under `msg_id` in a range of time.
#[derive(Debug)]
pub struct GetMsgs {
    pub msg_id: PacketId,
    pub range: Range<Timestamp>,
    pub limit: Option<usize>,
}

/// Messages with the times at which they were received.
#[derive(Debug, Clone)]
pub struct MsgBatch {
    pub data: Vec<(Timestamp, Vec<u8>)>,
}

/// The packet id with the bytes `kind` and `number`.
pub open spec fn spec_packet_id(kind: u8, number: u8) -> PacketId {
    [kind, number]
}

/// The packet id with the bytes `kind` and `number`.
#[verifier::when_used_as_spec(spec_packet_id)]
pub fn packet_id(kind: u8, number: u8) -> (id: PacketId)
    ensures
        id == spec_packet_id(kind, number),
        id[0] == kind,
        id[1] == number,
{
    let id: PacketId = [kind, number];
    assert(id =~= spec_packet_id(kind, number));
    id
}

impl Msg for VTableMsg {
    open spec fn spec_id() -> PacketId {
        spec_packet_id(224, 0)
    }

    fn id() -> (id: PacketId) {
        packet_id(224, 0)
    }
}

impl Msg for Stream {
    open spec fn spec_id() -> PacketId {
        spec_packet_id(224, 1)
    }

    fn id() -> (id: PacketId) {
        packet_id(224, 1)
    }
}

impl Msg for SetStreamState {
    open spec fn spec_id() -> PacketId {
        spec_packet_id(224, 2)
    }

    fn id() -> (id: PacketId) {
        packet_id(224, 2)
    }
}

impl Msg for GetTimeSeries {
    open spec fn spec_id() -> PacketId {
        spec_packet_id(224, 3)
    }

    fn id() -> (id: PacketId) {
        packet_id(224, 3)
    }
}

impl Msg for SchemaMsg {
    open spec fn spec_id() -> PacketId {
        spec_packet_id(224, 4)
    }

    fn id() -> (id: PacketId) {
        packet_id(224, 4)
    }
}

impl Msg for GetSchema {
    open spec fn spec_id() -> PacketId {
        spec_packet_id(224, 5)
    }

    fn id() -> (id: PacketId) {
        packet_id(224, 5)
    }
}

impl Msg for GetComponentMetadata {
    open spec fn spec_id() -> PacketId {
        spec_packet_id(224, 6)
    }

    fn id() -> (id: PacketId) {
        packet_id(224, 6)
    }
}

impl Msg for GetEntityMetadata {
    open spec fn spec_id() -> PacketId {
        spec_packet_id(224, 7)
    }

    fn id() -> (id: PacketId) {
        packet_id(224, 7)
    }
}

impl Msg for SetComponentMetadata {
    open spec fn spec_id() -> PacketId {
        spec_packet_id(224, 8)
    }

    fn id() -> (id: PacketId) {
        packet_id(224, 8)
    }
}

impl Msg for SetEntityMetadata {
    open spec fn spec_id() -> PacketId {
        spec_packet_id(224, 9)
    }

    fn id() -> (id: PacketId) {
        packet_id(224, 9)
    }
}

impl Msg for SetAsset {
    open spec fn spec_id() -> PacketId {
        spec_packet_id(224, 12)
    }

    fn id() -> (id: PacketId) {
        packet_id(224, 12)
    }
}

impl Msg for GetAsset {
    open spec fn spec_id() -> PacketId {
        spec_packet_id(224, 13)
    }

    fn id() -> (id: PacketId) {
        packet_id(224, 13)
    }
}

impl Msg for DumpMetadata {
    open spec fn spec_id() -> PacketId {
        spec_packet_id(224, 14)
    }

    fn id() -> (id: PacketId) {
        packet_id(224, 14)
    }
}

impl Msg for DumpAssets {
    open spec fn spec_id() -> PacketId {
        spec_packet_id(224, 16)
    }

    fn id() -> (id: PacketId) {
        packet_id(224, 16)
    }
}

impl Msg for SubscribeLastUpdated {
    open spec fn spec_id() -> PacketId {
        spec_packet_id(224, 17)
    }

    fn id() -> (id: PacketId) {
        packet_id(224, 17)
    }
}

impl Msg for SetDbSettings {
    open spec fn spec_id() -> PacketId {
        spec_packet_id(224, 19)
    }

    fn id() -> (id: PacketId) {
        packet_id(224, 19)
    }
}

impl Msg for DbSettings {
    open spec fn spec_id() -> PacketId {
        spec_packet_id(224, 20)
    }

    fn id() -> (id: PacketId) {
        packet_id(224, 20)
    }
}

impl Msg for GetDbSettings {
    open spec fn spec_id() -> PacketId {
        spec_packet_id(224, 21)
    }

    fn id() -> (id: PacketId) {
        packet_id(224, 21)
    }
}

impl Msg for NewConnection {
    open spec fn spec_id() -> PacketId {
        spec_packet_id(225, 1)
    }

    fn id() -> (id: PacketId) {
        packet_id(225, 1)
    }
}

impl Msg for GetEarliestTimestamp {
    open spec fn spec_id() -> PacketId {
        spec_packet_id(224, 22)
    }

    fn id() -> (id: PacketId) {
        packet_id(224, 22)
    }
}

impl Msg for EarliestTimestamp {
    open spec fn spec_id() -> PacketId {
        spec_packet_id(224, 23)
    }

    fn id() -> (id: PacketId) {
        packet_id(224, 23)
    }
}

impl Msg for DumpSchema {
    open spec fn spec_id() -> PacketId {
        spec_packet_id(224, 24)
    }

    fn id() -> (id: PacketId) {
        packet_id(224, 24)
    }
}

impl Msg for DumpSchemaResp {
    open spec fn spec_id() -> PacketId {
        spec_packet_id(224, 25)
    }

    fn id() -> (id: PacketId) {
        packet_id(224, 25)
    }
}

impl Msg for StreamTimestamp {
    open spec fn spec_id() -> PacketId {
        spec_packet_id(224, 26)
    }

    fn id() -> (id: PacketId) {
        packet_id(224, 26)
    }
}

impl Msg for SQLQuery {
    open spec fn spec_id() -> PacketId {
        spec_packet_id(224, 27)
    }

    fn id() -> (id: PacketId) {
        packet_id(224, 27)
    }
}

impl Msg for ArrowIPC {
    open spec fn spec_id() -> PacketId {
        spec_packet_id(224, 28)
    }

    fn id() -> (id: PacketId) {
        packet_id(224, 28)
    }
}

impl Msg for ErrorResponse {
    open spec fn spec_id() -> PacketId {
        spec_packet_id(224, 29)
    }

    fn id() -> (id: PacketId) {
        packet_id(224, 29)
    }
}

impl Msg for MsgStream {
    open spec fn spec_id() -> PacketId {
        spec_packet_id(224, 32)
    }

    fn id() -> (id: PacketId) {
        packet_id(224, 32)
    }
}

impl Msg for GetMsgMetadata {
    open spec fn spec_id() -> PacketId {
        spec_packet_id(224, 33)
    }

    fn id() -> (id: PacketId) {
        packet_id(224, 33)
    }
}

impl Msg for GetMsgs {
    open spec fn spec_id() -> PacketId {
        spec_packet_id(224, 34)
    }

    fn id() -> (id: PacketId) {
        packet_id(224, 34)
    }
}

impl Msg for MsgBatch {
    open spec fn spec_id() -> PacketId {
        spec_packet_id(224, 35)
    }

    fn id() -> (id: PacketId) {
        packet_id(224, 35)
    }
}

impl Request for GetSchema {
    type Reply = SchemaMsg;
}

impl Request for SQLQuery {
    type Reply = ArrowIPC;
}

impl Request for GetMsgs {
    type Reply = MsgBatch;
}

impl Default for InitialTimestamp {
    fn default() -> (start: Self)
        ensures
            start is Earliest,
    {
        InitialTimestamp::Earliest
    }
}

impl Default for FixedRateBehavior {
    fn default() -> (behavior: Self)
        ensures
            behavior.initial_timestamp is Earliest,
            behavior.timestep is None,
            behavior.frequency is None,
    {
        FixedRateBehavior {
            initial_timestamp: InitialTimestamp::Earliest,
            timestep: None,
            frequency: None,
        }
    }
}

impl Default for StreamBehavior {
    fn default() -> (behavior: Self)
        ensures
            behavior is RealTime,
    {
        StreamBehavior::RealTime
    }
}

impl Default for StreamFilter {
    fn default() -> (filter: Self)
        ensures
            filter.component_id is None,
            filter.entity_id is None,
    {
        StreamFilter { component_id: None, entity_id: None }
    }
}

impl Default for SetDbSettings {
    fn default() -> (settings: Self)
        ensures
            settings.recording is None,
            settings.time_step is None,
    {
        SetDbSettings { recording: None, time_step: None }
    }
}

} // verus!
