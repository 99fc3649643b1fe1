pub mod airtime;
pub mod datatypes;
pub mod dispatch;
pub mod encoding;
pub mod mqtt;
pub mod reader;
pub mod wire;

pub use airtime::{packet_to_time_on_air, time_on_air, Airtime, LoraModulationInfo};
pub use datatypes::{
    DevAddr, Document, Endpoint, FrameStatus, FrameStatusResult, LogEntry, LogEntryBuilder, NetID,
    PhyPayload, RoamingMetaData, RxPacket, Timestamp, TxPacket, Uuid, EUI64,
};
pub use dispatch::{conclude, send, setup, Delivery, Dispatch};
pub use mqtt::{Message, MessageLoggerBackendMqtt, MqttBackend};
pub use wire::SerializeError;
