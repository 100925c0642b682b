//! The decoder for the reply to a "fetch messages" request.
//!
//! A decoded reply owns the bytes it was made from. Keys, values and topic
//! names are not copied out of them: the reply remembers where each one
//! lies, and hands out slices of its buffers on request.

use crate::compression::{gzip_uncompress, snappy_uncompress};
use crate::error::Error;
use crate::model::{
    spec_inner_set, spec_message_set, spec_next_message, spec_partition, spec_partitions,
    spec_raw_record, spec_response, spec_scan, spec_topic, spec_topics, DataModel, MessageModel,
    PartitionModel, RecordModel, ResponseModel, TopicModel,
};
use crate::zreader::{str_from_utf8, Extent, ZReader};
use std::sync::Arc;
use vstd::prelude::*;
use vstd::string::StringSliceAdditionalSpecFns;
use vstd::utf8::valid_utf8;

verus! {

/// `Arc::clone`: another handle to the buffer behind `buf`. The result
/// holds the bytes that `buf` holds.
#[verifier::external_body]
fn share(buf: &Arc<Vec<u8>>) -> (r: Arc<Vec<u8>>)
    ensures
        (*r)@ == (**buf)@,
{
    Arc::clone(buf)
}

/// Where a key or a value lies in a buffer.
#[derive(Clone, Copy)]
struct Span {
    start: usize,
    len: usize,
}

impl Span {
    spec fn extent(self) -> Extent {
        Extent { start: self.start as int, len: self.len as int }
    }
}

/// A message of a message set, by the places of its key and value.
#[derive(Clone, Copy)]
struct Entry {
    offset: i64,
    key: Span,
    value: Span,
}

impl Entry {
    spec fn within(self, n: nat) -> bool {
        self.key.start + self.key.len <= n && self.value.start + self.value.len <= n
    }

    spec fn message(self, buf: Seq<u8>) -> MessageModel {
        MessageModel {
            offset: self.offset,
            key: self.key.extent().of(buf),
            value: self.value.extent().of(buf),
        }
    }
}

spec fn entries_within(entries: Seq<Entry>, n: nat) -> bool {
    forall|i: int| 0 <= i < entries.len() ==> (#[trigger] entries[i]).within(n)
}

spec fn messages_of(entries: Seq<Entry>, buf: Seq<u8>) -> Seq<MessageModel> {
    Seq::new(entries.len(), |i: int| entries[i].message(buf))
}

/// A message exactly as the protocol defines it. Key and value are parts of
/// the bytes it was read from, and `key_at` and `value_at` say where in
/// them they start.
pub struct ProtocolMessage<'a> {
    pub crc: i32,
    pub magic: i8,
    pub attr: i8,
    pub key: &'a [u8],
    pub value: &'a [u8],
    pub key_at: usize,
    pub value_at: usize,
}

impl<'a> ProtocolMessage<'a> {
    /// The record that the message stands for.
    pub open spec fn model(&self) -> RecordModel {
        RecordModel {
            crc: self.crc,
            magic: self.magic,
            attr: self.attr,
            key: Extent { start: self.key_at as int, len: self.key@.len() as int },
            value: Extent { start: self.value_at as int, len: self.value@.len() as int },
        }
    }

    /// Reads one message from the bytes of its body. Compression is not
    /// looked at, the checksum is not verified, and any magic byte is
    /// accepted.
    pub fn from_slice(raw_data: &'a [u8]) -> (r: Result<ProtocolMessage<'a>, Error>)
        ensures
            match spec_raw_record(raw_data@) {
                Ok(record) => r matches Ok(m) && m.model() == record && m.key@ == record.key.of(
                    raw_data@,
                ) && m.value@ == record.value.of(raw_data@) && record.key.within(raw_data@)
                    && record.value.within(raw_data@),
                Err(e) => r == Err::<ProtocolMessage, Error>(e),
            },
    {
        let mut r = ZReader::new(raw_data);
        let msg_crc = r.read_i32()?;
        let msg_magic = r.read_i8()?;
        let msg_attr = r.read_i8()?;
        let msg_key = r.read_bytes()?;
        let key_end = r.position();
        let msg_val = r.read_bytes()?;
        let val_end = r.position();
        Ok(
            ProtocolMessage {
                crc: msg_crc,
                magic: msg_magic,
                attr: msg_attr,
                key: msg_key,
                value: msg_val,
                key_at: key_end - msg_key.len(),
                value_at: val_end - msg_val.len(),
            },
        )
    }
}

/// What one walk over a message set found.
struct Scan<'a> {
    entries: Vec<Entry>,
    packed: Option<(i8, &'a [u8])>,
}

/// The messages of one partition, together with the buffer that their keys
/// and values lie in: the reply's own, or the one that a compressed set was
/// expanded into.
pub struct MessageSet {
    raw_data: Arc<Vec<u8>>,
    messages: Vec<Entry>,
}

/// A message fetched from a partition. Key and value are empty where the
/// message has none.
pub struct Message<'a> {
    /// The offset of the message in its partition.
    pub offset: i64,
    /// The key of the message.
    pub key: &'a [u8],
    /// The value of the message.
    pub value: &'a [u8],
}

impl<'a> Message<'a> {
    /// The message as plain data.
    pub open spec fn view(&self) -> MessageModel {
        MessageModel { offset: self.offset, key: self.key@, value: self.value@ }
    }
}

/// The messages in `v` as plain data.
pub open spec fn message_views(v: Seq<Message>) -> Seq<MessageModel> {
    Seq::new(v.len(), |i: int| v[i]@)
}

impl MessageSet {
    #[verifier::type_invariant]
    spec fn in_buffer(self) -> bool {
        entries_within(self.messages@, (*self.raw_data)@.len())
    }

    /// The messages of the set, in the order of the wire.
    pub closed spec fn view(&self) -> Seq<MessageModel> {
        messages_of(self.messages@, (*self.raw_data)@)
    }

    /// The bytes that the keys and values of the set lie in.
    pub closed spec fn buffer(&self) -> Seq<u8> {
        (*self.raw_data)@
    }

    /// Where in `buffer()` the key of message `i` lies.
    pub closed spec fn key_extent(&self, i: int) -> Extent {
        self.messages@[i].key.extent()
    }

    /// Where in `buffer()` the value of message `i` lies.
    pub closed spec fn value_extent(&self, i: int) -> Extent {
        self.messages@[i].value.extent()
    }

    /// Reads the entry at the reader's position: the offset, where in the
    /// reader's bytes the body of the record starts, and the record.
    fn next_message<'b>(r: &mut ZReader<'b>) -> (res: Result<
        (i64, usize, ProtocolMessage<'b>),
        Error,
    >)
        ensures
            final(r).data() == old(r).data(),
            match spec_next_message(old(r).data(), old(r).pos()) {
                Ok(entry) => res matches Ok((offset, at, m)) && offset == entry.offset && m.attr
                    == entry.attr && m.model().key.shifted(at as int) == entry.key
                    && m.model().value.shifted(at as int) == entry.value && m.key@
                    == entry.key.of(old(r).data()) && m.value@ == entry.value.of(old(r).data())
                    && entry.key.within(old(r).data()) && entry.value.within(old(r).data())
                    && final(r).pos() == entry.next && old(r).pos() < entry.next && entry.next
                    <= old(r).data().len(),
                Err(e) => res == Err::<(i64, usize, ProtocolMessage), Error>(e),
            },
    {
        proof {
            reveal(spec_next_message);
        }
        let offset = r.read_i64()?;
        let msg_data = r.read_bytes()?;
        let at: usize = r.position() - msg_data.len();
        let m = ProtocolMessage::from_slice(msg_data)?;
        proof {
            let s = old(r).data();
            let body = Extent { start: at as int, len: msg_data@.len() as int };
            assert(msg_data@ == body.of(s));
            assert(m.key@ =~= m.model().key.shifted(at as int).of(s));
            assert(m.value@ =~= m.model().value.shifted(at as int).of(s));
        }
        Ok((offset, at, m))
    }

    /// Walks over the message set in `all[start..start + len]`. The places
    /// of the messages found are places in `all`.
    fn scan<'b>(all: &'b [u8], start: usize, len: usize, expand: bool) -> (r: Result<
        Scan<'b>,
        Error,
    >)
        requires
            start + len <= all@.len(),
        ensures
            match spec_scan(all@.subrange(start as int, start + len), 0, Seq::empty(), expand) {
                Ok(found) => r matches Ok(sc) && entries_within(sc.entries@, all@.len())
                    && messages_of(sc.entries@, all@) == found.messages && match found.packed {
                    None => sc.packed.is_none(),
                    Some((codec, payload)) => sc.packed matches Some((c, p)) && c == codec && p@
                        == payload,
                },
                Err(e) => r == Err::<Scan, Error>(e),
            },
    {
        let _total = all.len();
        let block = &all[start..start + len];
        let mut rd = ZReader::new(block);
        let mut entries: Vec<Entry> = Vec::new();
        assert(messages_of(entries@, all@) =~= Seq::empty());
        while !rd.is_empty()
            invariant
                start + len <= all@.len(),
                all@.len() <= usize::MAX,
                block@ == all@.subrange(start as int, start + len),
                rd.data() == block@,
                0 <= rd.pos() <= block@.len(),
                entries_within(entries@, all@.len()),
                spec_scan(block@, 0, Seq::empty(), expand) == spec_scan(
                    block@,
                    rd.pos(),
                    messages_of(entries@, all@),
                    expand,
                ),
            decreases block@.len() - rd.pos(),
        {
            let ghost before = messages_of(entries@, all@);
            let ghost at_entry = rd.pos();
            match Self::next_message(&mut rd) {
                Err(Error::UnexpectedEOF) => {
                    return Ok(Scan { entries, packed: None });
                },
                Err(e) => {
                    return Err(e);
                },
                Ok((offset, at, m)) => {
                    let ghost entry = spec_next_message(block@, at_entry).unwrap();
                    let codec = m.attr & 0x03;
                    if codec == 0 || (!expand && (codec == 1 || codec == 2)) {
                        let e = Entry {
                            offset,
                            key: Span { start: start + at + m.key_at, len: m.key.len() },
                            value: Span { start: start + at + m.value_at, len: m.value.len() },
                        };
                        entries.push(e);
                        proof {
                            assert(e.key.extent().of(all@) =~= entry.key.of(block@));
                            assert(e.value.extent().of(all@) =~= entry.value.of(block@));
                            assert(e.message(all@) == entry.message(block@));
                            assert(messages_of(entries@, all@) =~= before.push(e.message(all@)));
                        }
                    } else if codec == 1 || codec == 2 {
                        return Ok(Scan { entries, packed: Some((codec, m.value)) });
                    } else {
                        return Err(Error::InvalidData);
                    }
                },
            }
        }
        Ok(Scan { entries, packed: None })
    }

    /// Decodes a message set that is not expanded any further, and keeps
    /// `data` as the buffer of its messages. Every whole entry is one
    /// message, compressed or not; an entry that is cut short ends the set.
    pub fn from_vec(data: Vec<u8>) -> (r: Result<MessageSet, Error>)
        ensures
            match spec_inner_set(data@) {
                Ok(messages) => r matches Ok(ms) && ms@ == messages && ms.buffer() == data@,
                Err(e) => r == Err::<MessageSet, Error>(e),
            },
    {
        let n = data.len();
        let buf = Arc::new(data);
        assert((*buf)@.subrange(0, n as int) =~= (*buf)@);
        let entries = Self::scan(buf.as_slice(), 0, n, false)?.entries;
        Ok(MessageSet { raw_data: buf, messages: entries })
    }

    /// Decodes the message set in `buf[start..start + len]`.
    ///
    /// Where the set holds no compressed record, its messages lie in `buf`,
    /// which the result shares. At the first compressed record, the value
    /// of that record is expanded, and the set decoded from the expansion
    /// is the result.
    pub fn from_slice(buf: &Arc<Vec<u8>>, start: usize, len: usize) -> (r: Result<
        MessageSet,
        Error,
    >)
        requires
            start + len <= (**buf)@.len(),
        ensures
            match spec_message_set((**buf)@.subrange(start as int, start + len)) {
                Ok(set) => r matches Ok(ms) && ms@ == set.messages && ms.buffer() == match set.expanded {
                    Some(inner) => inner,
                    None => (**buf)@,
                },
                Err(e) => r == Err::<MessageSet, Error>(e),
            },
    {
        let sc = Self::scan(buf.as_slice(), start, len, true)?;
        match sc.packed {
            None => Ok(MessageSet { raw_data: share(buf), messages: sc.entries }),
            Some((codec, payload)) => {
                let inner = if codec == 1 {
                    gzip_uncompress(payload)?
                } else {
                    snappy_uncompress(payload)?
                };
                Self::from_vec(inner)
            },
        }
    }

    /// The messages of the set. No key or value is copied: each is a part
    /// of the set's buffer.
    pub fn messages(&self) -> (r: Vec<Message<'_>>)
        ensures
            message_views(r@) == self@,
            forall|i: int|
                0 <= i < r@.len() ==> (#[trigger] self.key_extent(i)).within(self.buffer()),
            forall|i: int|
                0 <= i < r@.len() ==> (#[trigger] self.value_extent(i)).within(self.buffer()),
            forall|i: int|
                0 <= i < r@.len() ==> (#[trigger] r@[i]).key@ == self.key_extent(i).of(
                    self.buffer(),
                ) && r@[i].value@ == self.value_extent(i).of(self.buffer()),
    {
        proof {
            use_type_invariant(self);
        }
        let all = self.raw_data.as_slice();
        let _total = all.len();
        let mut out: Vec<Message<'_>> = Vec::new();
        let mut i: usize = 0;
        while i < self.messages.len()
            invariant
                i <= self.messages@.len(),
                all@ == (*self.raw_data)@,
                all@.len() <= usize::MAX,
                entries_within(self.messages@, all@.len()),
                out@.len() == i,
                forall|j: int|
                    0 <= j < i ==> {
                        &&& (#[trigger] out@[j]).offset == self.messages@[j].offset
                        &&& out@[j].key@ == self.messages@[j].key.extent().of(all@)
                        &&& out@[j].value@ == self.messages@[j].value.extent().of(all@)
                    },
            decreases self.messages@.len() - i,
        {
            let e = self.messages[i];
            assert(self.messages@[i as int].within(all@.len()));
            let key = &all[e.key.start..e.key.start + e.key.len];
            let value = &all[e.value.start..e.value.start + e.value.len];
            out.push(Message { offset: e.offset, key, value });
            i += 1;
        }
        assert(message_views(out@) =~= self@);
        out
    }
}

/// The payload of a partition that was fetched without error.
pub struct PartitionData {
    highwatermark_offset: i64,
    message_set: MessageSet,
}

impl PartitionData {
    /// The payload as plain data.
    pub closed spec fn view(&self) -> DataModel {
        DataModel {
            highwatermark_offset: self.highwatermark_offset,
            messages: self.message_set@,
            buffer: self.message_set.buffer(),
        }
    }

    /// Where in the partition's buffer the key of message `i` lies.
    pub closed spec fn key_extent(&self, i: int) -> Extent {
        self.message_set.key_extent(i)
    }

    /// Where in the partition's buffer the value of message `i` lies.
    pub closed spec fn value_extent(&self, i: int) -> Extent {
        self.message_set.value_extent(i)
    }

    /// The "high watermark offset": the latest offset of the partition at
    /// the broker. It tells a client how far behind it is.
    pub fn highwatermark_offset(&self) -> (r: i64)
        ensures
            r == self@.highwatermark_offset,
    {
        self.highwatermark_offset
    }

    /// The messages fetched for the partition. No key or value is copied:
    /// each is a part of the partition's buffer.
    pub fn messages(&self) -> (r: Vec<Message<'_>>)
        ensures
            message_views(r@) == self@.messages,
            forall|i: int|
                0 <= i < r@.len() ==> (#[trigger] self.key_extent(i)).within(self@.buffer),
            forall|i: int|
                0 <= i < r@.len() ==> (#[trigger] self.value_extent(i)).within(self@.buffer),
            forall|i: int|
                0 <= i < r@.len() ==> (#[trigger] r@[i]).key@ == self.key_extent(i).of(
                    self@.buffer,
                ) && r@[i].value@ == self.value_extent(i).of(self@.buffer),
    {
        self.message_set.messages()
    }
}

/// What a partition holds, as plain data: its payload or its error.
pub open spec fn data_view(data: Result<PartitionData, Error>) -> Result<DataModel, Error> {
    match data {
        Ok(d) => Ok(d@),
        Err(e) => Err(e),
    }
}

/// The part of a reply that is about one partition of a topic. A broker
/// may report an error for one partition and data for another.
pub struct PartitionFetchResponse {
    partition: i32,
    data: Result<PartitionData, Error>,
}

/// The partitions in `v` as plain data.
pub open spec fn partition_views(v: Seq<PartitionFetchResponse>) -> Seq<PartitionModel> {
    Seq::new(v.len(), |i: int| v[i]@)
}

impl PartitionFetchResponse {
    /// The partition as plain data.
    pub closed spec fn view(&self) -> PartitionModel {
        PartitionModel { partition: self.partition, data: data_view(self.data) }
    }

    /// Reads one partition at the reader's position. `buf` is the buffer
    /// that the reader reads.
    ///
    /// The error code, the high watermark and the message set are read
    /// whatever the error code is, so that the reader ends up at the next
    /// partition. The message set is decoded only where the code is zero.
    pub(crate) fn read<'a>(r: &mut ZReader<'a>, buf: &Arc<Vec<u8>>) -> (res: Result<
        PartitionFetchResponse,
        Error,
    >)
        requires
            old(r).data() == (**buf)@,
        ensures
            final(r).data() == old(r).data(),
            match spec_partition(old(r).data(), old(r).pos()) {
                Ok((partition, next)) => res matches Ok(p) && p@ == partition && final(r).pos()
                    == next,
                Err(e) => res == Err::<PartitionFetchResponse, Error>(e),
            },
    {
        proof {
            reveal(spec_partition);
        }
        let partition = r.read_i32()?;
        let code = r.read_i16()?;
        let highwatermark = r.read_i64()?;
        let body = r.read_bytes()?;
        let start: usize = r.position() - body.len();
        match Error::from_protocol_error(code) {
            Some(error) => Ok(PartitionFetchResponse { partition, data: Err(error) }),
            None => {
                let message_set = MessageSet::from_slice(buf, start, body.len())?;
                Ok(
                    PartitionFetchResponse {
                        partition,
                        data: Ok(PartitionData { highwatermark_offset: highwatermark, message_set }),
                    },
                )
            },
        }
    }

    /// The number of the partition.
    pub fn partition(&self) -> (r: i32)
        ensures
            r == self@.partition,
    {
        self.partition
    }

    /// The payload of the partition, or the error the broker reported.
    pub fn data(&self) -> (r: &Result<PartitionData, Error>)
        ensures
            data_view(*r) == self@.data,
    {
        &self.data
    }
}

/// The part of a reply that is about one topic: its name, and the
/// partitions of it that messages were asked from.
pub struct TopicFetchResponse {
    raw_data: Arc<Vec<u8>>,
    topic: Span,
    partitions: Vec<PartitionFetchResponse>,
}

/// The topics in `v` as plain data.
pub open spec fn topic_views(v: Seq<TopicFetchResponse>) -> Seq<TopicModel> {
    Seq::new(v.len(), |i: int| v[i]@)
}

impl TopicFetchResponse {
    #[verifier::type_invariant]
    spec fn named(self) -> bool {
        &&& self.topic.start + self.topic.len <= (*self.raw_data)@.len()
        &&& valid_utf8(self.topic.extent().of((*self.raw_data)@))
    }

    /// The topic as plain data.
    pub closed spec fn view(&self) -> TopicModel {
        TopicModel {
            topic: self.topic.extent().of((*self.raw_data)@),
            partitions: partition_views(self.partitions@),
        }
    }

    /// Reads one topic at the reader's position. `buf` is the buffer that
    /// the reader reads.
    pub(crate) fn read<'a>(r: &mut ZReader<'a>, buf: &Arc<Vec<u8>>) -> (res: Result<
        TopicFetchResponse,
        Error,
    >)
        requires
            old(r).data() == (**buf)@,
        ensures
            final(r).data() == old(r).data(),
            match spec_topic(old(r).data(), old(r).pos()) {
                Ok((topic, next)) => res matches Ok(t) && t@ == topic && final(r).pos() == next,
                Err(e) => res == Err::<TopicFetchResponse, Error>(e),
            },
    {
        proof {
            reveal(spec_topic);
        }
        let name = r.read_str()?;
        let topic = Span { start: r.position() - name.len(), len: name.len() };
        let n = r.read_array_len()?;
        let ghost first = r.pos();
        let ghost whole = spec_partitions(r.data(), first, n as int, Seq::empty());
        let mut partitions: Vec<PartitionFetchResponse> = Vec::new();
        let mut i: usize = 0;
        assert(partition_views(partitions@) =~= Seq::empty());
        while i < n
            invariant
                i <= n,
                r.data() == (**buf)@,
                r.data() == old(r).data(),
                whole is Err ==> spec_topic(old(r).data(), old(r).pos()) == Err::<
                    (TopicModel, int),
                    Error,
                >(whole->Err_0),
                whole == spec_partitions(r.data(), r.pos(), n - i, partition_views(partitions@)),
            decreases n - i,
        {
            let ghost before = partition_views(partitions@);
            let p = PartitionFetchResponse::read(r, buf)?;
            partitions.push(p);
            assert(partition_views(partitions@) =~= before.push(p@));
            i += 1;
        }
        Ok(TopicFetchResponse { raw_data: share(buf), topic, partitions })
    }

    /// The name of the topic.
    pub fn topic(&self) -> (r: &str)
        ensures
            r.spec_bytes() == self@.topic,
    {
        proof {
            use_type_invariant(self);
        }
        let all = self.raw_data.as_slice();
        let _total = all.len();
        match str_from_utf8(&all[self.topic.start..self.topic.start + self.topic.len]) {
            Some(name) => name,
            None => "",
        }
    }

    /// The partitions of the topic, in the order of the wire.
    pub fn partitions(&self) -> (r: &[PartitionFetchResponse])
        ensures
            partition_views(r@) == self@.partitions,
    {
        self.partitions.as_slice()
    }
}

/// The reply of one broker to a "fetch messages" request. It may hold
/// messages of several topics and partitions.
pub struct FetchResponse {
    raw_data: Arc<Vec<u8>>,
    correlation_id: i32,
    topics: Vec<TopicFetchResponse>,
}

/// Whether `r` is what decoding the bytes `s` yields: the reply that the
/// bytes hold, with `s` as its buffer, or the error that decoding them
/// runs into.
pub open spec fn decodes_to(s: Seq<u8>, r: Result<FetchResponse, Error>) -> bool {
    match spec_response(s) {
        Ok(reply) => r matches Ok(f) && f@ == reply && f.buffer() == s,
        Err(e) => r == Err::<FetchResponse, Error>(e),
    }
}

impl FetchResponse {
    /// The reply as plain data.
    pub closed spec fn view(&self) -> ResponseModel {
        ResponseModel { correlation_id: self.correlation_id, topics: topic_views(self.topics@) }
    }

    /// The bytes that the reply was decoded from.
    pub closed spec fn buffer(&self) -> Seq<u8> {
        (*self.raw_data)@
    }

    /// Decodes a reply from the bytes of its body, and keeps them.
    pub fn from_response(response: Vec<u8>) -> (r: Result<FetchResponse, Error>)
        ensures
            decodes_to(response@, r),
    {
        FetchResponse::from_vec(response)
    }

    /// Decodes a reply from the bytes of its body, and keeps them.
    ///
    /// Any failure of the decoder fails the whole reply. An error that the
    /// broker reports for a partition does not: it is found at that
    /// partition.
    pub fn from_vec(response: Vec<u8>) -> (r: Result<FetchResponse, Error>)
        ensures
            decodes_to(response@, r),
    {
        let buf = Arc::new(response);
        let mut r = ZReader::new(buf.as_slice());
        let correlation_id = r.read_i32()?;
        let n = r.read_array_len()?;
        let ghost first = r.pos();
        let ghost whole = spec_topics(r.data(), first, n as int, Seq::empty());
        let mut topics: Vec<TopicFetchResponse> = Vec::new();
        let mut i: usize = 0;
        assert(topic_views(topics@) =~= Seq::empty());
        while i < n
            invariant
                i <= n,
                r.data() == (*buf)@,
                (*buf)@ == response@,
                whole is Err ==> spec_response(response@) == Err::<ResponseModel, Error>(
                    whole->Err_0,
                ),
                whole == spec_topics(r.data(), r.pos(), n - i, topic_views(topics@)),
            decreases n - i,
        {
            let ghost before = topic_views(topics@);
            let t = TopicFetchResponse::read(&mut r, &buf)?;
            topics.push(t);
            assert(topic_views(topics@) =~= before.push(t@));
            i += 1;
        }
        Ok(FetchResponse { raw_data: buf, correlation_id, topics })
    }

    /// The id of the request that this is the reply to.
    pub fn correlation_id(&self) -> (r: i32)
        ensures
            r == self@.correlation_id,
    {
        self.correlation_id
    }

    /// The topics of the reply, in the order of the wire.
    pub fn topics(&self) -> (r: &[TopicFetchResponse])
        ensures
            topic_views(r@) == self@.topics,
    {
        self.topics.as_slice()
    }
}

} // verus!
