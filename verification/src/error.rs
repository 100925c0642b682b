//! Error values: failures of the decoder itself, and the error codes a
//! broker attaches to a single partition.

use vstd::prelude::*;

verus! {

/// The error a broker reports for one partition, by its protocol code.
#[derive(Clone, Copy, Debug, PartialEq, Eq, Structural)]
pub enum KafkaCode {
    /// An unexpected server error, or a code this table does not list.
    Unknown,
    /// The requested offset is outside the range the broker holds.
    OffsetOutOfRange,
    /// The message contents do not match their checksum.
    CorruptMessage,
    /// The topic or partition does not exist on this broker.
    UnknownTopicOrPartition,
    /// The message has a negative size.
    InvalidMessageSize,
    /// A leadership election is under way for the partition.
    LeaderNotAvailable,
    /// The broker addressed is not the leader of the partition.
    NotLeaderForPartition,
    /// The request exceeded the time limit the client gave.
    RequestTimedOut,
    /// The broker is not alive.
    BrokerNotAvailable,
    /// A replica was expected on a broker that does not have it.
    ReplicaNotAvailable,
    /// The message is larger than the broker accepts.
    MessageSizeTooLarge,
    /// The controller epoch of the request is out of date.
    StaleControllerEpoch,
    /// The metadata attached to an offset is too large.
    OffsetMetadataTooLarge,
    /// The broker lost its connection while handling the request.
    NetworkException,
    /// The coordinator is still loading the offsets of the group.
    OffsetsLoadInProgress,
    /// The offsets topic has not been created yet.
    ConsumerCoordinatorNotAvailable,
    /// The broker addressed is not the coordinator of the group.
    NotCoordinatorForConsumer,
}

/// Why decoding failed, or why a partition carries no data.
#[derive(Clone, Copy, Debug, PartialEq, Eq, Structural)]
pub enum Error {
    /// Fewer bytes were left than the next field needs.
    UnexpectedEOF,
    /// A negative array length, a string that is not UTF-8, or a
    /// compression codec that does not exist.
    InvalidData,
    /// A compressed message set could not be expanded.
    Decompression,
    /// The broker reported an error for the partition.
    Kafka(KafkaCode),
}

/// The broker error that a non-zero protocol code stands for.
pub open spec fn spec_kafka_code(n: i16) -> KafkaCode {
    if n == 1 {
        KafkaCode::OffsetOutOfRange
    } else if n == 2 {
        KafkaCode::CorruptMessage
    } else if n == 3 {
        KafkaCode::UnknownTopicOrPartition
    } else if n == 4 {
        KafkaCode::InvalidMessageSize
    } else if n == 5 {
        KafkaCode::LeaderNotAvailable
    } else if n == 6 {
        KafkaCode::NotLeaderForPartition
    } else if n == 7 {
        KafkaCode::RequestTimedOut
    } else if n == 8 {
        KafkaCode::BrokerNotAvailable
    } else if n == 9 {
        KafkaCode::ReplicaNotAvailable
    } else if n == 10 {
        KafkaCode::MessageSizeTooLarge
    } else if n == 11 {
        KafkaCode::StaleControllerEpoch
    } else if n == 12 {
        KafkaCode::OffsetMetadataTooLarge
    } else if n == 13 {
        KafkaCode::NetworkException
    } else if n == 14 {
        KafkaCode::OffsetsLoadInProgress
    } else if n == 15 {
        KafkaCode::ConsumerCoordinatorNotAvailable
    } else if n == 16 {
        KafkaCode::NotCoordinatorForConsumer
    } else {
        KafkaCode::Unknown
    }
}

/// What a partition's protocol code means: nothing for zero, otherwise the
/// broker error it stands for.
pub open spec fn spec_protocol_error(n: i16) -> Option<Error> {
    if n == 0 {
        None
    } else {
        Some(Error::Kafka(spec_kafka_code(n)))
    }
}

impl Error {
    /// Maps the error code of a partition to its error; zero is success.
    pub fn from_protocol_error(n: i16) -> (r: Option<Error>)
        ensures
            r == spec_protocol_error(n),
    {
        if n == 0 {
            return None;
        }
        let code = match n {
            1 => KafkaCode::OffsetOutOfRange,
            2 => KafkaCode::CorruptMessage,
            3 => KafkaCode::UnknownTopicOrPartition,
            4 => KafkaCode::InvalidMessageSize,
            5 => KafkaCode::LeaderNotAvailable,
            6 => KafkaCode::NotLeaderForPartition,
            7 => KafkaCode::RequestTimedOut,
            8 => KafkaCode::BrokerNotAvailable,
            9 => KafkaCode::ReplicaNotAvailable,
            10 => KafkaCode::MessageSizeTooLarge,
            11 => KafkaCode::StaleControllerEpoch,
            12 => KafkaCode::OffsetMetadataTooLarge,
            13 => KafkaCode::NetworkException,
            14 => KafkaCode::OffsetsLoadInProgress,
            15 => KafkaCode::ConsumerCoordinatorNotAvailable,
            16 => KafkaCode::NotCoordinatorForConsumer,
            _ => KafkaCode::Unknown,
        };
        Some(Error::Kafka(code))
    }
}

} // verus!
