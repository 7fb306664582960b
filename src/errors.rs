use vstd::prelude::*;

verus! {

/// Failures of the topic registry.
#[derive(Clone, Copy, Debug, PartialEq, Eq, Structural)]
pub enum TopicsError {
    /// The name is longer than the registry accepts, or is not a well-formed filter.
    TopicTooLong,
    /// The registry holds as many topics as it was built for.
    Full,
}

/// Failures of the distributor; each ends the offending connection.
#[derive(Clone, Copy, Debug, PartialEq, Eq, Structural)]
pub enum DistributorError {
    TopicTooLong,
    MessageTooLong,
    QueueFull,
    UnexpectedPacket,
    Unknown,
}

/// Failures reported by the packet codec.
#[derive(Clone, Copy, Debug, PartialEq, Eq, Structural)]
pub enum MqttCodecError {
    /// More bytes are needed before a packet can be decoded.
    Incomplete,
    Invalid,
    InvalidLength,
    BufferTooSmall,
    /// The transport closed under the reader.
    ConnectionReset,
}

/// The MQTT v5 reason codes that a DISCONNECT from this broker carries.
#[derive(Clone, Copy, Debug, PartialEq, Eq, Structural)]
pub enum DisconnectReasonCode {
    UnspecifiedError,
    ProtocolError,
    KeepAliveTimeout,
    TopicNameInvalid,
    ReceiveMaximumExceeded,
    PacketTooLarge,
}

pub open spec fn spec_distributor_error_of(e: TopicsError) -> DistributorError {
    match e {
        TopicsError::TopicTooLong => DistributorError::TopicTooLong,
        TopicsError::Full => DistributorError::QueueFull,
    }
}

/// The disconnect reason that a distributor failure is reported with.
pub open spec fn spec_reason_of(e: DistributorError) -> DisconnectReasonCode {
    match e {
        DistributorError::TopicTooLong => DisconnectReasonCode::TopicNameInvalid,
        DistributorError::MessageTooLong => DisconnectReasonCode::PacketTooLarge,
        DistributorError::QueueFull => DisconnectReasonCode::ReceiveMaximumExceeded,
        DistributorError::UnexpectedPacket => DisconnectReasonCode::ProtocolError,
        DistributorError::Unknown => DisconnectReasonCode::UnspecifiedError,
    }
}

/// The reason code byte of MQTT v5 for each disconnect reason.
pub open spec fn spec_reason_code(r: DisconnectReasonCode) -> u8 {
    match r {
        DisconnectReasonCode::UnspecifiedError => 0x80,
        DisconnectReasonCode::ProtocolError => 0x82,
        DisconnectReasonCode::KeepAliveTimeout => 0x8d,
        DisconnectReasonCode::TopicNameInvalid => 0x90,
        DisconnectReasonCode::ReceiveMaximumExceeded => 0x93,
        DisconnectReasonCode::PacketTooLarge => 0x95,
    }
}

impl From<TopicsError> for DistributorError {
    /// A registry failure as the distributor reports it: an exhausted
    /// registry means the operation cannot be admitted, as a full queue does.
    fn from(e: TopicsError) -> (r: DistributorError)
        ensures
            r == spec_distributor_error_of(e),
    {
        match e {
            TopicsError::TopicTooLong => DistributorError::TopicTooLong,
            TopicsError::Full => DistributorError::QueueFull,
        }
    }
}

impl vstd::std_specs::convert::FromSpecImpl<TopicsError> for DistributorError {
    open spec fn obeys_from_spec() -> bool {
        true
    }

    open spec fn from_spec(e: TopicsError) -> DistributorError {
        spec_distributor_error_of(e)
    }
}

impl From<DistributorError> for DisconnectReasonCode {
    /// The reason code that a connection is closed with after a distributor failure.
    fn from(e: DistributorError) -> (r: DisconnectReasonCode)
        ensures
            r == spec_reason_of(e),
    {
        match e {
            DistributorError::TopicTooLong => DisconnectReasonCode::TopicNameInvalid,
            DistributorError::MessageTooLong => DisconnectReasonCode::PacketTooLarge,
            DistributorError::QueueFull => DisconnectReasonCode::ReceiveMaximumExceeded,
            DistributorError::UnexpectedPacket => DisconnectReasonCode::ProtocolError,
            DistributorError::Unknown => DisconnectReasonCode::UnspecifiedError,
        }
    }
}

impl vstd::std_specs::convert::FromSpecImpl<DistributorError> for DisconnectReasonCode {
    open spec fn obeys_from_spec() -> bool {
        true
    }

    open spec fn from_spec(e: DistributorError) -> DisconnectReasonCode {
        spec_reason_of(e)
    }
}

impl DistributorError {
    /// A short human-readable description of the failure.
    pub fn message(self) -> (r: &'static str)
        ensures
            self == DistributorError::TopicTooLong ==> r@ == "Topic too long"@,
            self == DistributorError::MessageTooLong ==> r@ == "Message too long"@,
            self == DistributorError::QueueFull ==> r@ == "Queue full"@,
            self == DistributorError::UnexpectedPacket ==> r@ == "Unexpected packet"@,
            self == DistributorError::Unknown ==> r@ == "Unknown error"@,
    {
        match self {
            DistributorError::TopicTooLong => "Topic too long",
            DistributorError::MessageTooLong => "Message too long",
            DistributorError::QueueFull => "Queue full",
            DistributorError::UnexpectedPacket => "Unexpected packet",
            DistributorError::Unknown => "Unknown error",
        }
    }
}

impl DisconnectReasonCode {
    /// The reason code byte that goes on the wire.
    pub fn code(self) -> (r: u8)
        ensures
            r == spec_reason_code(self),
    {
        match self {
            DisconnectReasonCode::UnspecifiedError => 0x80,
            DisconnectReasonCode::ProtocolError => 0x82,
            DisconnectReasonCode::KeepAliveTimeout => 0x8d,
            DisconnectReasonCode::TopicNameInvalid => 0x90,
            DisconnectReasonCode::ReceiveMaximumExceeded => 0x93,
            DisconnectReasonCode::PacketTooLarge => 0x95,
        }
    }
}

impl MqttCodecError {
    /// Whether the error ends the session; only `Incomplete` asks to read on.
    pub fn is_fatal(self) -> (r: bool)
        ensures
            r == (self != MqttCodecError::Incomplete),
    {
        !matches!(self, MqttCodecError::Incomplete)
    }
}

/// Every distributor failure has its own disconnect reason: distinct
/// failures never share one, and every reason that is reached carries a
/// distinct code byte.
pub proof fn lemma_reason_mapping_injective(a: DistributorError, b: DistributorError)
    ensures
        spec_reason_of(a) == spec_reason_of(b) ==> a == b,
        spec_reason_code(spec_reason_of(a)) == spec_reason_code(spec_reason_of(b)) ==> a == b,
{
}

} // verus!
