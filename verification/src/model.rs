//! What a fetch reply means: the values its bytes stand for, as
//! mathematical data, and the functions from bytes to those values that the
//! decoder is proved against.

use crate::compression::spec_expanded;
use crate::error::{spec_protocol_error, Error};
use crate::zreader::{
    available, be_i8, be_i32, spec_read_array_len, spec_read_bytes, spec_read_i16, spec_read_i32,
    spec_read_i64, spec_read_str, Extent,
};
use vstd::prelude::*;

verus! {

/// A message: its offset in the partition, its key and its value.
pub struct MessageModel {
    pub offset: i64,
    pub key: Seq<u8>,
    pub value: Seq<u8>,
}

/// The payload of a partition that was fetched without error: the high
/// watermark, the messages, and the bytes that the keys and values of the
/// messages lie in.
pub struct DataModel {
    pub highwatermark_offset: i64,
    pub messages: Seq<MessageModel>,
    pub buffer: Seq<u8>,
}

/// A partition of a reply: its number, and its messages or the error the
/// broker reported for it.
pub struct PartitionModel {
    pub partition: i32,
    pub data: Result<DataModel, Error>,
}

/// A topic of a reply: the bytes of its name, and its partitions in the
/// order of the wire.
pub struct TopicModel {
    pub topic: Seq<u8>,
    pub partitions: Seq<PartitionModel>,
}

/// A whole reply.
pub struct ResponseModel {
    pub correlation_id: i32,
    pub topics: Seq<TopicModel>,
}

/// One message as it stands on the wire. The extents of key and value are
/// positions in the bytes that the record was read from.
pub struct RecordModel {
    pub crc: i32,
    pub magic: i8,
    pub attr: i8,
    pub key: Extent,
    pub value: Extent,
}

/// The record that the body of one message holds: checksum, magic byte,
/// attributes, key and value, in this order.
pub open spec fn spec_raw_record(body: Seq<u8>) -> Result<RecordModel, Error> {
    if !available(body, 0, 6) {
        Err(Error::UnexpectedEOF)
    } else {
        match spec_read_bytes(body, 6) {
            Err(e) => Err(e),
            Ok((key, after_key)) => match spec_read_bytes(body, after_key) {
                Err(e) => Err(e),
                Ok((value, _)) => Ok(
                    RecordModel {
                        crc: be_i32(body, 0),
                        magic: be_i8(body, 4),
                        attr: be_i8(body, 5),
                        key,
                        value,
                    },
                ),
            },
        }
    }
}

/// An entry of a message set: the offset, the record, and where the next
/// entry starts. The extents of key and value are positions in the set.
pub struct EntryModel {
    pub offset: i64,
    pub attr: i8,
    pub key: Extent,
    pub value: Extent,
    pub next: int,
}

impl EntryModel {
    /// The message that the entry carries, with key and value taken from
    /// the set `s`.
    pub open spec fn message(self, s: Seq<u8>) -> MessageModel {
        MessageModel { offset: self.offset, key: self.key.of(s), value: self.value.of(s) }
    }
}

/// The entry of the message set `s` that starts at `pos`: a 64-bit offset,
/// then a byte block that holds one record.
#[verifier::opaque]
pub open spec fn spec_next_message(s: Seq<u8>, pos: int) -> Result<EntryModel, Error> {
    match spec_read_i64(s, pos) {
        Err(e) => Err(e),
        Ok((offset, after_offset)) => match spec_read_bytes(s, after_offset) {
            Err(e) => Err(e),
            Ok((body, next)) => match spec_raw_record(body.of(s)) {
                Err(e) => Err(e),
                Ok(record) => Ok(
                    EntryModel {
                        offset,
                        attr: record.attr,
                        key: record.key.shifted(body.start),
                        value: record.value.shifted(body.start),
                        next,
                    },
                ),
            },
        },
    }
}

/// The number of the compression codec in a record's attributes: its two
/// lowest bits. 0 is none, 1 is GZIP, 2 is Snappy.
pub open spec fn spec_codec(attr: i8) -> i8 {
    attr & 0x03
}

/// What walking over a message set finds: the messages gathered, and, where
/// the walk stopped at a compressed record, its codec and payload.
pub struct ScanModel {
    pub messages: Seq<MessageModel>,
    pub packed: Option<(i8, Seq<u8>)>,
}

/// The walk over the entries of the message set `s` from `pos` on, with the
/// messages in `acc` gathered before.
///
/// The walk ends at the end of the set, and also at an entry that is cut
/// short: a broker may cut the last entry of a set off at any byte. With
/// `expand`, it stops at the first compressed record; without, such a
/// record counts as a message like any other. A codec that does not exist
/// is an error.
pub open spec fn spec_scan(s: Seq<u8>, pos: int, acc: Seq<MessageModel>, expand: bool) -> Result<
    ScanModel,
    Error,
>
    decreases s.len() - pos,
{
    if pos >= s.len() {
        Ok(ScanModel { messages: acc, packed: None })
    } else {
        match spec_next_message(s, pos) {
            Err(Error::UnexpectedEOF) => Ok(ScanModel { messages: acc, packed: None }),
            Err(e) => Err(e),
            Ok(entry) => {
                let codec = spec_codec(entry.attr);
                if codec == 0 || (!expand && (codec == 1 || codec == 2)) {
                    proof {
                        reveal(spec_next_message);
                    }
                    spec_scan(s, entry.next, acc.push(entry.message(s)), expand)
                } else if codec == 1 || codec == 2 {
                    Ok(ScanModel { messages: acc, packed: Some((codec, entry.value.of(s))) })
                } else {
                    Err(Error::InvalidData)
                }
            },
        }
    }
}

/// The messages of a message set, and the buffer they were expanded into
/// where the set was compressed.
pub struct SetModel {
    pub expanded: Option<Seq<u8>>,
    pub messages: Seq<MessageModel>,
}

/// The messages of a message set that is not expanded any further: every
/// whole entry is one message.
pub open spec fn spec_inner_set(s: Seq<u8>) -> Result<Seq<MessageModel>, Error> {
    match spec_scan(s, 0, Seq::empty(), false) {
        Err(e) => Err(e),
        Ok(scan) => Ok(scan.messages),
    }
}

/// The flat messages of the message set `s`. Where the set holds a
/// compressed record, the set that the record's value expands to takes the
/// place of the whole set; compressed records in there stay as they are.
pub open spec fn spec_message_set(s: Seq<u8>) -> Result<SetModel, Error> {
    match spec_scan(s, 0, Seq::empty(), true) {
        Err(e) => Err(e),
        Ok(scan) => match scan.packed {
            None => Ok(SetModel { expanded: None, messages: scan.messages }),
            Some((codec, payload)) => match spec_expanded(codec as int, payload) {
                None => Err(Error::Decompression),
                Some(inner) => match spec_inner_set(inner) {
                    Err(e) => Err(e),
                    Ok(messages) => Ok(SetModel { expanded: Some(inner), messages }),
                },
            },
        },
    }
}

/// The four fields of a partition at `pos`, before its message set is
/// looked at: number, error code, high watermark, the extent of the
/// message set, and where the next partition starts.
pub open spec fn spec_partition_frame(s: Seq<u8>, pos: int) -> Result<
    (i32, i16, i64, Extent, int),
    Error,
> {
    match spec_read_i32(s, pos) {
        Err(e) => Err(e),
        Ok((partition, after_number)) => match spec_read_i16(s, after_number) {
            Err(e) => Err(e),
            Ok((code, after_code)) => match spec_read_i64(s, after_code) {
                Err(e) => Err(e),
                Ok((highwatermark, after_mark)) => match spec_read_bytes(s, after_mark) {
                    Err(e) => Err(e),
                    Ok((body, next)) => Ok((partition, code, highwatermark, body, next)),
                },
            },
        },
    }
}

/// The partition at `pos`, and where the next one starts. All four fields
/// are read whatever the error code is. A partition with a non-zero error
/// code carries that error, and its message set is not decoded. The
/// messages of a partition without error lie in `s`, or, where the message
/// set was compressed, in what it was expanded into.
#[verifier::opaque]
pub open spec fn spec_partition(s: Seq<u8>, pos: int) -> Result<(PartitionModel, int), Error> {
    match spec_partition_frame(s, pos) {
        Err(e) => Err(e),
        Ok((partition, code, highwatermark, body, next)) => match spec_protocol_error(code) {
            Some(e) => Ok((PartitionModel { partition, data: Err(e) }, next)),
            None => match spec_message_set(body.of(s)) {
                Err(e) => Err(e),
                Ok(set) => Ok(
                    (
                        PartitionModel {
                            partition,
                            data: Ok(
                                DataModel {
                                    highwatermark_offset: highwatermark,
                                    messages: set.messages,
                                    buffer: match set.expanded {
                                        Some(inner) => inner,
                                        None => s,
                                    },
                                },
                            ),
                        },
                        next,
                    ),
                ),
            },
        },
    }
}

/// The next `n` partitions from `pos` on, appended to `acc`, and where the
/// bytes after them start.
pub open spec fn spec_partitions(s: Seq<u8>, pos: int, n: int, acc: Seq<PartitionModel>) -> Result<
    (Seq<PartitionModel>, int),
    Error,
>
    decreases n,
{
    if n <= 0 {
        Ok((acc, pos))
    } else {
        match spec_partition(s, pos) {
            Err(e) => Err(e),
            Ok((partition, next)) => spec_partitions(s, next, n - 1, acc.push(partition)),
        }
    }
}

/// The topic at `pos`, and where the next one starts: its name, the number
/// of its partitions, and the partitions.
#[verifier::opaque]
pub open spec fn spec_topic(s: Seq<u8>, pos: int) -> Result<(TopicModel, int), Error> {
    match spec_read_str(s, pos) {
        Err(e) => Err(e),
        Ok((name, after_name)) => match spec_read_array_len(s, after_name) {
            Err(e) => Err(e),
            Ok((n, first)) => match spec_partitions(s, first, n, Seq::empty()) {
                Err(e) => Err(e),
                Ok((partitions, next)) => Ok((TopicModel { topic: name.of(s), partitions }, next)),
            },
        },
    }
}

/// The next `n` topics from `pos` on, appended to `acc`, and where the
/// bytes after them start.
pub open spec fn spec_topics(s: Seq<u8>, pos: int, n: int, acc: Seq<TopicModel>) -> Result<
    (Seq<TopicModel>, int),
    Error,
>
    decreases n,
{
    if n <= 0 {
        Ok((acc, pos))
    } else {
        match spec_topic(s, pos) {
            Err(e) => Err(e),
            Ok((topic, next)) => spec_topics(s, next, n - 1, acc.push(topic)),
        }
    }
}

/// The reply that the bytes `s` hold: the correlation id, the number of
/// topics, and the topics. Bytes after the last topic are not looked at.
pub open spec fn spec_response(s: Seq<u8>) -> Result<ResponseModel, Error> {
    match spec_read_i32(s, 0) {
        Err(e) => Err(e),
        Ok((correlation_id, after_id)) => match spec_read_array_len(s, after_id) {
            Err(e) => Err(e),
            Ok((n, first)) => match spec_topics(s, first, n, Seq::empty()) {
                Err(e) => Err(e),
                Ok((topics, _)) => Ok(ResponseModel { correlation_id, topics }),
            },
        },
    }
}

} // verus!
