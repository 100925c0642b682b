//! What holds of the decoder whatever the bytes are: a cut-off tail does
//! not matter, the three codecs give the same messages, an error of one
//! partition stays with that partition, decoding is a function of the
//! bytes, empty inputs decode to empty results, and every key and value is
//! a part of a buffer that the reply keeps.

use crate::compression::spec_expanded;
use crate::error::{spec_kafka_code, Error};
use crate::fetch::{decodes_to, FetchResponse};
use crate::model::{
    spec_codec, spec_inner_set, spec_message_set, spec_next_message, spec_partition,
    spec_partition_frame, spec_partitions, spec_response, spec_scan, spec_topic, spec_topics,
    EntryModel, MessageModel, PartitionModel, ResponseModel, SetModel, TopicModel,
};
use crate::zreader::{
    available, spec_read_array_len, spec_read_bytes, spec_read_i32, spec_read_str, Extent,
};
use vstd::prelude::*;

verus! {

/// Whether the message set `s` consists of whole entries from `pos` up to
/// its very end.
pub open spec fn whole_entries(s: Seq<u8>, pos: int) -> bool
    decreases s.len() - pos,
{
    if pos >= s.len() {
        pos == s.len()
    } else {
        match spec_next_message(s, pos) {
            Err(_) => false,
            Ok(entry) => {
                proof {
                    reveal(spec_next_message);
                }
                whole_entries(s, entry.next)
            },
        }
    }
}

/// Whether `tail` is an entry that was cut off: reading an entry from it
/// runs out of bytes.
pub open spec fn cut_off(tail: Seq<u8>) -> bool {
    spec_next_message(tail, 0) == Err::<EntryModel, Error>(Error::UnexpectedEOF)
}

/// An entry that can be read from `s` reads the same from `s` with more
/// bytes after it, and ends inside `s`.
pub proof fn lemma_entry_ignores_what_follows(s: Seq<u8>, more: Seq<u8>, pos: int)
    requires
        0 <= pos,
        spec_next_message(s, pos).is_ok(),
    ensures
        spec_next_message(s + more, pos) == spec_next_message(s, pos),
        spec_next_message(s, pos).unwrap().message(s + more) == spec_next_message(
            s,
            pos,
        ).unwrap().message(s),
        spec_next_message(s, pos).unwrap().value.of(s + more) == spec_next_message(
            s,
            pos,
        ).unwrap().value.of(s),
        pos < spec_next_message(s, pos).unwrap().next <= s.len(),
{
    reveal(spec_next_message);
    let t = s + more;
    assert(forall|i: int| 0 <= i < s.len() ==> t[i] == s[i]);
    let body = spec_read_bytes(s, pos + 8).unwrap().0;
    assert(body.of(t) =~= body.of(s));
    let entry = spec_next_message(s, pos).unwrap();
    assert(entry.key.of(t) =~= entry.key.of(s));
    assert(entry.value.of(t) =~= entry.value.of(s));
}

/// Where reading an entry from `tail` runs out of bytes, so does reading
/// one at the end of `s` from `s` followed by `tail`.
pub proof fn lemma_cut_off_entry_after(s: Seq<u8>, tail: Seq<u8>)
    requires
        cut_off(tail),
    ensures
        spec_next_message(s + tail, s.len() as int) == Err::<EntryModel, Error>(
            Error::UnexpectedEOF,
        ),
{
    reveal(spec_next_message);
    let t = s + tail;
    let base = s.len() as int;
    assert(forall|i: int| 0 <= i < tail.len() ==> t[base + i] == tail[i]);
    if spec_read_bytes(tail, 8).is_ok() && available(tail, 0, 8) {
        let body = spec_read_bytes(tail, 8).unwrap().0;
        assert(body.shifted(base).of(t) =~= body.of(tail));
    }
}

/// A message set of whole entries, followed by an entry that was cut off,
/// is walked like the set without that tail.
pub proof fn lemma_scan_ignores_cut_off_tail(
    s: Seq<u8>,
    tail: Seq<u8>,
    pos: int,
    acc: Seq<MessageModel>,
    expand: bool,
)
    requires
        0 <= pos <= s.len(),
        whole_entries(s, pos),
        cut_off(tail),
    ensures
        spec_scan(s + tail, pos, acc, expand) == spec_scan(s, pos, acc, expand),
    decreases s.len() - pos,
{
    if pos == s.len() {
        lemma_cut_off_entry_after(s, tail);
    } else {
        lemma_entry_ignores_what_follows(s, tail, pos);
        let entry = spec_next_message(s, pos).unwrap();
        let codec = spec_codec(entry.attr);
        if codec == 0 || (!expand && (codec == 1 || codec == 2)) {
            lemma_scan_ignores_cut_off_tail(s, tail, entry.next, acc.push(entry.message(s)), expand);
        }
    }
}

/// Truncation is tolerated: where the last entry of a message set was cut
/// off at any byte, decoding succeeds or fails as it does without that
/// tail, and yields the same messages.
pub proof fn lemma_truncation_tolerated(s: Seq<u8>, tail: Seq<u8>)
    requires
        whole_entries(s, 0),
        cut_off(tail),
    ensures
        spec_message_set(s + tail) == spec_message_set(s),
        spec_inner_set(s + tail) == spec_inner_set(s),
{
    lemma_scan_ignores_cut_off_tail(s, tail, 0, Seq::empty(), true);
    lemma_scan_ignores_cut_off_tail(s, tail, 0, Seq::empty(), false);
}

/// Every proper prefix of a whole entry is an entry that was cut off.
pub proof fn lemma_prefix_of_entry_is_cut_off(entry: Seq<u8>, k: int)
    requires
        spec_next_message(entry, 0).is_ok(),
        spec_next_message(entry, 0).unwrap().next == entry.len(),
        0 <= k < entry.len(),
    ensures
        cut_off(entry.subrange(0, k)),
{
    reveal(spec_next_message);
    let tail = entry.subrange(0, k);
    assert(forall|i: int| 0 <= i < k ==> tail[i] == entry[i]);
}

/// A walk that expands and finds neither a compressed record nor an error
/// finds what the walk that does not expand finds.
pub proof fn lemma_scan_without_compression(s: Seq<u8>, pos: int, acc: Seq<MessageModel>)
    requires
        spec_scan(s, pos, acc, true) matches Ok(found) && found.packed.is_none(),
    ensures
        spec_scan(s, pos, acc, false) == spec_scan(s, pos, acc, true),
    decreases s.len() - pos,
{
    if pos < s.len() {
        match spec_next_message(s, pos) {
            Err(_) => {},
            Ok(entry) => {
                reveal(spec_next_message);
                if spec_codec(entry.attr) == 0 {
                    lemma_scan_without_compression(s, entry.next, acc.push(entry.message(s)));
                }
            },
        }
    }
}

/// Whether the message set `s` starts with a record of the given codec
/// whose value expands to `plain`.
pub open spec fn wraps(s: Seq<u8>, codec: i8, plain: Seq<u8>) -> bool {
    &&& 0 < s.len()
    &&& spec_next_message(s, 0) matches Ok(entry) && spec_codec(entry.attr) == codec
        && spec_expanded(codec as int, entry.value.of(s)) == Some(plain)
}

/// The codecs are equivalent: a message set without compressed records,
/// the same set compressed with GZIP and the same set compressed with
/// Snappy decode to the same messages.
pub proof fn lemma_codec_equivalence(plain: Seq<u8>, gzip: Seq<u8>, snappy: Seq<u8>)
    requires
        spec_message_set(plain) matches Ok(set) && set.expanded.is_none(),
        wraps(gzip, 1, plain),
        wraps(snappy, 2, plain),
    ensures
        spec_message_set(gzip) == Ok::<SetModel, Error>(
            SetModel {
                expanded: Some(plain),
                messages: spec_message_set(plain).unwrap().messages,
            },
        ),
        spec_message_set(snappy) == spec_message_set(gzip),
{
    lemma_scan_without_compression(plain, 0, Seq::empty());
}

/// An error stays with its partition: a partition whose four fields can be
/// read and whose error code is not zero decodes to that error, whatever
/// its message set holds, and the partitions after it are decoded from
/// where its fields end.
pub proof fn lemma_error_isolation(s: Seq<u8>, pos: int, n: int, acc: Seq<PartitionModel>)
    requires
        spec_partition_frame(s, pos) matches Ok(frame) && frame.1 != 0,
        n > 0,
    ensures
        ({
            let frame = spec_partition_frame(s, pos).unwrap();
            let failed = PartitionModel {
                partition: frame.0,
                data: Err(Error::Kafka(spec_kafka_code(frame.1))),
            };
            &&& spec_partition(s, pos) == Ok::<(PartitionModel, int), Error>((failed, frame.4))
            &&& spec_partitions(s, pos, n, acc) == spec_partitions(
                s,
                frame.4,
                n - 1,
                acc.push(failed),
            )
        }),
{
    reveal(spec_partition);
}

/// A partition that decodes ends where its four fields end, whatever it
/// holds: what it holds does not move the partitions after it.
pub proof fn lemma_partition_ends_with_its_frame(s: Seq<u8>, pos: int)
    requires
        spec_partition(s, pos).is_ok(),
    ensures
        spec_partition_frame(s, pos) matches Ok(frame) && spec_partition(s, pos).unwrap().1
            == frame.4 && spec_partition(s, pos).unwrap().0.partition == frame.0,
{
    reveal(spec_partition);
}

/// Decoding is a function of the bytes: two results of decoding the same
/// bytes fail alike, or hold the same reply.
pub proof fn lemma_decoding_is_deterministic(
    s: Seq<u8>,
    a: Result<FetchResponse, Error>,
    b: Result<FetchResponse, Error>,
)
    requires
        decodes_to(s, a),
        decodes_to(s, b),
    ensures
        a.is_ok() == b.is_ok(),
        a matches Err(e) ==> b == Err::<FetchResponse, Error>(e),
        a matches Ok(f) ==> b matches Ok(g) && f@ == g@ && f.buffer() == g.buffer(),
{
}

/// An empty message set decodes to no messages.
pub proof fn lemma_empty_message_set()
    ensures
        spec_message_set(Seq::empty()) == Ok::<SetModel, Error>(
            SetModel { expanded: None, messages: Seq::empty() },
        ),
        spec_inner_set(Seq::empty()) == Ok::<Seq<MessageModel>, Error>(Seq::empty()),
{
}

/// A topic whose number of partitions is zero decodes to a topic without
/// partitions.
pub proof fn lemma_topic_without_partitions(s: Seq<u8>, pos: int)
    requires
        spec_read_str(s, pos) matches Ok((name, after_name)) && spec_read_array_len(s, after_name)
            matches Ok((n, _)) && n == 0,
    ensures
        ({
            let (name, after_name) = spec_read_str(s, pos).unwrap();
            spec_topic(s, pos) == Ok::<(TopicModel, int), Error>(
                (TopicModel { topic: name.of(s), partitions: Seq::empty() }, after_name + 4),
            )
        }),
{
    reveal(spec_topic);
}

/// A reply whose number of topics is zero decodes to a reply without
/// topics.
pub proof fn lemma_response_without_topics(s: Seq<u8>)
    requires
        spec_read_i32(s, 0).is_ok(),
        spec_read_array_len(s, 4) matches Ok((n, _)) && n == 0,
    ensures
        spec_response(s) == Ok::<ResponseModel, Error>(
            ResponseModel { correlation_id: spec_read_i32(s, 0).unwrap().0, topics: Seq::empty() },
        ),
{
}

/// Whether `x` is a contiguous part of `buf`.
pub open spec fn part_of(x: Seq<u8>, buf: Seq<u8>) -> bool {
    exists|e: Extent| e.within(buf) && x == #[trigger] e.of(buf)
}

/// Whether key and value of every message in `ms` are parts of `buf`.
pub open spec fn messages_in(ms: Seq<MessageModel>, buf: Seq<u8>) -> bool {
    forall|i: int|
        0 <= i < ms.len() ==> part_of((#[trigger] ms[i]).key, buf) && part_of(ms[i].value, buf)
}

/// Whether `buf` is what a compressed payload that is a part of `s` expands
/// to.
pub open spec fn expanded_from(buf: Seq<u8>, s: Seq<u8>) -> bool {
    exists|codec: int, payload: Seq<u8>|
        part_of(payload, s) && #[trigger] spec_expanded(codec, payload) == Some(buf)
}

/// Whether the messages of the partition `p`, where it has any, lie in
/// `s` or in what a compressed payload in `s` expands to.
pub open spec fn partition_retained(p: PartitionModel, s: Seq<u8>) -> bool {
    p.data matches Ok(d) ==> (d.buffer == s || expanded_from(d.buffer, s)) && messages_in(
        d.messages,
        d.buffer,
    )
}

/// Whether `partition_retained` holds of every partition in `ps`.
pub open spec fn partitions_retained(ps: Seq<PartitionModel>, s: Seq<u8>) -> bool {
    forall|i: int| 0 <= i < ps.len() ==> partition_retained(#[trigger] ps[i], s)
}

/// Whether `partition_retained` holds of every partition of every topic in
/// `ts`.
pub open spec fn topics_retained(ts: Seq<TopicModel>, s: Seq<u8>) -> bool {
    forall|i: int| 0 <= i < ts.len() ==> partitions_retained((#[trigger] ts[i]).partitions, s)
}

/// A part of a part of `buf` is a part of `buf`.
pub proof fn lemma_part_of_part(x: Seq<u8>, inner: Extent, buf: Seq<u8>)
    requires
        inner.within(buf),
        part_of(x, inner.of(buf)),
    ensures
        part_of(x, buf),
{
    let e = choose|e: Extent| e.within(inner.of(buf)) && x == #[trigger] e.of(inner.of(buf));
    let outer = e.shifted(inner.start);
    assert(outer.of(buf) =~= e.of(inner.of(buf)));
    assert(outer.within(buf));
}

/// Key and value of an entry of a message set lie inside the set.
pub proof fn lemma_entry_lies_in_set(s: Seq<u8>, pos: int)
    requires
        0 <= pos,
        spec_next_message(s, pos).is_ok(),
    ensures
        spec_next_message(s, pos).unwrap().key.within(s),
        spec_next_message(s, pos).unwrap().value.within(s),
        pos < spec_next_message(s, pos).unwrap().next <= s.len(),
{
    reveal(spec_next_message);
}

/// The messages that a walk over a message set gathers are parts of the
/// set, and so is the payload of the compressed record it stops at.
pub proof fn lemma_scan_lies_in_set(s: Seq<u8>, pos: int, acc: Seq<MessageModel>, expand: bool)
    requires
        0 <= pos,
        messages_in(acc, s),
        spec_scan(s, pos, acc, expand).is_ok(),
    ensures
        messages_in(spec_scan(s, pos, acc, expand).unwrap().messages, s),
        spec_scan(s, pos, acc, expand).unwrap().packed matches Some((_, payload)) ==> part_of(
            payload,
            s,
        ),
    decreases s.len() - pos,
{
    if pos < s.len() {
        match spec_next_message(s, pos) {
            Err(_) => {},
            Ok(entry) => {
                lemma_entry_lies_in_set(s, pos);
                assert(entry.key.within(s) && entry.message(s).key == entry.key.of(s));
                assert(entry.value.within(s) && entry.message(s).value == entry.value.of(s));
                let codec = spec_codec(entry.attr);
                if codec == 0 || (!expand && (codec == 1 || codec == 2)) {
                    let more = acc.push(entry.message(s));
                    assert forall|i: int| 0 <= i < more.len() implies part_of(
                        (#[trigger] more[i]).key,
                        s,
                    ) && part_of(more[i].value, s) by {
                        if i < acc.len() {
                            assert(more[i] == acc[i]);
                        }
                    }
                    lemma_scan_lies_in_set(s, entry.next, more, expand);
                }
            },
        }
    }
}

/// The messages of a partition lie in the bytes of the reply, or in what a
/// compressed payload in them expands to.
pub proof fn lemma_partition_retained(s: Seq<u8>, pos: int)
    requires
        spec_partition(s, pos).is_ok(),
    ensures
        partition_retained(spec_partition(s, pos).unwrap().0, s),
{
    reveal(spec_partition);
    let frame = spec_partition_frame(s, pos).unwrap();
    let body = frame.3;
    let p = spec_partition(s, pos).unwrap().0;
    if p.data.is_ok() {
        let d = p.data.unwrap();
        let block = body.of(s);
        let none = Seq::<MessageModel>::empty();
        lemma_scan_lies_in_set(block, 0, none, true);
        let scan = spec_scan(block, 0, none, true).unwrap();
        match scan.packed {
            None => {
                assert forall|i: int| 0 <= i < d.messages.len() implies part_of(
                    (#[trigger] d.messages[i]).key,
                    s,
                ) && part_of(d.messages[i].value, s) by {
                    lemma_part_of_part(d.messages[i].key, body, s);
                    lemma_part_of_part(d.messages[i].value, body, s);
                }
            },
            Some((codec, payload)) => {
                lemma_part_of_part(payload, body, s);
                let inner = spec_expanded(codec as int, payload).unwrap();
                assert(spec_expanded(codec as int, payload) == Some(inner));
                lemma_scan_lies_in_set(inner, 0, none, false);
            },
        }
    }
}

/// `partition_retained` holds of all partitions that are decoded one after
/// the other.
pub proof fn lemma_partitions_retained(s: Seq<u8>, pos: int, n: int, acc: Seq<PartitionModel>)
    requires
        partitions_retained(acc, s),
        spec_partitions(s, pos, n, acc).is_ok(),
    ensures
        partitions_retained(spec_partitions(s, pos, n, acc).unwrap().0, s),
    decreases n,
{
    if n > 0 {
        lemma_partition_retained(s, pos);
        let (p, next) = spec_partition(s, pos).unwrap();
        let more = acc.push(p);
        assert forall|i: int| 0 <= i < more.len() implies partition_retained(
            #[trigger] more[i],
            s,
        ) by {
            if i < acc.len() {
                assert(more[i] == acc[i]);
            }
        }
        lemma_partitions_retained(s, next, n - 1, more);
    }
}

/// `partition_retained` holds of all partitions of all topics that are
/// decoded one after the other.
pub proof fn lemma_topics_retained(s: Seq<u8>, pos: int, n: int, acc: Seq<TopicModel>)
    requires
        topics_retained(acc, s),
        spec_topics(s, pos, n, acc).is_ok(),
    ensures
        topics_retained(spec_topics(s, pos, n, acc).unwrap().0, s),
    decreases n,
{
    if n > 0 {
        reveal(spec_topic);
        let (t, next) = spec_topic(s, pos).unwrap();
        let after_name = spec_read_str(s, pos).unwrap().1;
        let (count, first) = spec_read_array_len(s, after_name).unwrap();
        lemma_partitions_retained(s, first, count, Seq::empty());
        let more = acc.push(t);
        assert forall|i: int| 0 <= i < more.len() implies partitions_retained(
            (#[trigger] more[i]).partitions,
            s,
        ) by {
            if i < acc.len() {
                assert(more[i] == acc[i]);
            }
        }
        lemma_topics_retained(s, next, n - 1, more);
    }
}

/// Nothing is copied out of its buffer: key and value of every message of
/// a decoded reply are contiguous parts of the bytes the reply was decoded
/// from, or of the bytes that a compressed payload in them was expanded
/// into.
pub proof fn lemma_messages_lie_in_retained_buffers(s: Seq<u8>)
    requires
        spec_response(s).is_ok(),
    ensures
        topics_retained(spec_response(s).unwrap().topics, s),
{
    let n = spec_read_array_len(s, 4).unwrap().0;
    lemma_topics_retained(s, 8, n, Seq::empty());
}

} // verus!
