//! An MQTT v5 message distributor for a fixed number of connections:
//! a bounded topic registry with wildcard matching, per-connection
//! outgoing queues with back-pressure, and the per-connection session
//! state machine that feeds them.

mod topic;

pub mod errors;
pub mod registry;
pub mod distributor;
pub mod session;

pub use errors::{DisconnectReasonCode, DistributorError, MqttCodecError, TopicsError};
pub use topic::{filter_matches, is_valid_filter, is_valid_topic_name, MAX_TOPIC_LEN};
