use kafka_fetch::compression::{gzip_uncompress, snappy_uncompress};
use kafka_fetch::error::{Error, KafkaCode};
use kafka_fetch::fetch::{FetchResponse, Message, MessageSet, ProtocolMessage};
use kafka_fetch::iter::iter_responses;
use std::io::Write;
use std::sync::Arc;

// building wire data ---------------------------------------------------

const LINES: [&str; 8] = [
    "Alles Gute zum Geburtstag",
    "the quick brown fox jumps over the lazy dog",
    "",
    "0123456789",
    "a line with umlauts: äöüß",
    "the quick brown fox jumps over the lazy dog",
    "the quick brown fox jumps over the lazy dog, again and again and again",
    "last line",
];

fn put_bytes(out: &mut Vec<u8>, data: Option<&[u8]>) {
    match data {
        None => out.extend_from_slice(&(-1i32).to_be_bytes()),
        Some(d) => {
            out.extend_from_slice(&(d.len() as i32).to_be_bytes());
            out.extend_from_slice(d);
        }
    }
}

fn put_str(out: &mut Vec<u8>, s: &str) {
    out.extend_from_slice(&(s.len() as i16).to_be_bytes());
    out.extend_from_slice(s.as_bytes());
}

fn body(crc: i32, magic: i8, attr: i8, key: Option<&[u8]>, value: Option<&[u8]>) -> Vec<u8> {
    let mut out = Vec::new();
    out.extend_from_slice(&crc.to_be_bytes());
    out.push(magic as u8);
    out.push(attr as u8);
    put_bytes(&mut out, key);
    put_bytes(&mut out, value);
    out
}

fn entry(offset: i64, attr: i8, key: Option<&[u8]>, value: Option<&[u8]>) -> Vec<u8> {
    let mut out = Vec::new();
    out.extend_from_slice(&offset.to_be_bytes());
    put_bytes(&mut out, Some(&body(0x1234_5678, 0, attr, key, value)));
    out
}

fn plain_set(lines: &[&str]) -> Vec<u8> {
    let mut out = Vec::new();
    for (i, line) in lines.iter().enumerate() {
        out.extend_from_slice(&entry(i as i64, 0, None, Some(line.as_bytes())));
    }
    out
}

fn gzip(data: &[u8]) -> Vec<u8> {
    let mut e = flate2::write::GzEncoder::new(Vec::new(), flate2::Compression::default());
    e.write_all(data).unwrap();
    e.finish().unwrap()
}

fn snappy_framed(data: &[u8], chunk: usize) -> Vec<u8> {
    let mut out = vec![0x82, b'S', b'N', b'A', b'P', b'P', b'Y', 0];
    out.extend_from_slice(&1i32.to_be_bytes());
    out.extend_from_slice(&1i32.to_be_bytes());
    for part in data.chunks(chunk) {
        let packed = snap::raw::Encoder::new().compress_vec(part).unwrap();
        out.extend_from_slice(&(packed.len() as i32).to_be_bytes());
        out.extend_from_slice(&packed);
    }
    out
}

fn partition(id: i32, code: i16, highwatermark: i64, set: &[u8]) -> Vec<u8> {
    let mut out = Vec::new();
    out.extend_from_slice(&id.to_be_bytes());
    out.extend_from_slice(&code.to_be_bytes());
    out.extend_from_slice(&highwatermark.to_be_bytes());
    put_bytes(&mut out, Some(set));
    out
}

fn topic(name: &str, partitions: &[Vec<u8>]) -> Vec<u8> {
    let mut out = Vec::new();
    put_str(&mut out, name);
    out.extend_from_slice(&(partitions.len() as i32).to_be_bytes());
    for p in partitions {
        out.extend_from_slice(p);
    }
    out
}

fn reply(correlation_id: i32, topics: &[Vec<u8>]) -> Vec<u8> {
    let mut out = Vec::new();
    out.extend_from_slice(&correlation_id.to_be_bytes());
    out.extend_from_slice(&(topics.len() as i32).to_be_bytes());
    for t in topics {
        out.extend_from_slice(t);
    }
    out
}

fn one_partition_reply(set: &[u8]) -> Vec<u8> {
    reply(7, &[topic("my-topic", &[partition(0, 0, 8, set)])])
}

fn fetch1_nocompression() -> Vec<u8> {
    one_partition_reply(&plain_set(&LINES))
}

fn fetch1_gzip() -> Vec<u8> {
    one_partition_reply(&entry(7, 1, None, Some(&gzip(&plain_set(&LINES)))))
}

// many small chunks
fn fetch1_snappy_k0821() -> Vec<u8> {
    one_partition_reply(&entry(7, 2, None, Some(&snappy_framed(&plain_set(&LINES), 50))))
}

// one chunk
fn fetch1_snappy_k0822() -> Vec<u8> {
    one_partition_reply(&entry(7, 2, None, Some(&snappy_framed(&plain_set(&LINES), 1 << 20))))
}

fn into_messages(r: &FetchResponse) -> Vec<Message<'_>> {
    let mut all_msgs = Vec::new();
    for t in r.topics() {
        for p in t.partitions() {
            match p.data() {
                Err(_) => {
                    println!("Skipping error partition: {}:{}", t.topic(), p.partition());
                }
                Ok(data) => {
                    all_msgs.extend(data.messages());
                }
            }
        }
    }
    all_msgs
}

fn values(r: &FetchResponse) -> Vec<String> {
    into_messages(r).iter().map(|m| String::from_utf8(m.value.to_vec()).unwrap()).collect()
}

fn test_decode_new_fetch_response(lines: &[&str], response: Vec<u8>) {
    let resp = FetchResponse::from_vec(response);
    let resp = resp.unwrap();

    // ~ response for exactly one topic expected
    assert_eq!(1, resp.topics().len());
    // ~ topic name
    assert_eq!("my-topic", resp.topics()[0].topic());
    // ~ exactly one partition
    assert_eq!(1, resp.topics()[0].partitions().len());
    // ~ the first partition
    assert_eq!(0, resp.topics()[0].partitions()[0].partition());
    // ~ no error
    assert!(resp.topics()[0].partitions()[0].data().is_ok());

    let msgs = into_messages(&resp);
    assert_eq!(lines.len(), msgs.len());
    for (msg, line) in msgs.into_iter().zip(lines.iter()) {
        assert_eq!(std::str::from_utf8(msg.value).unwrap(), *line);
    }
}

// the four encodings of one batch ---------------------------------------

#[test]
fn test_from_slice_nocompression_k0821() {
    test_decode_new_fetch_response(&LINES, fetch1_nocompression());
}

#[test]
fn test_from_slice_snappy_k0821() {
    test_decode_new_fetch_response(&LINES, fetch1_snappy_k0821());
}

#[test]
fn test_from_slice_snappy_k0822() {
    test_decode_new_fetch_response(&LINES, fetch1_snappy_k0822());
}

#[test]
fn test_from_slice_gzip_k0821() {
    test_decode_new_fetch_response(&LINES, fetch1_gzip());
}

#[test]
fn the_three_codecs_decode_to_the_same_messages() {
    let plain = FetchResponse::from_vec(fetch1_nocompression()).unwrap();
    let gz = FetchResponse::from_vec(fetch1_gzip()).unwrap();
    let sn1 = FetchResponse::from_vec(fetch1_snappy_k0821()).unwrap();
    let sn2 = FetchResponse::from_vec(fetch1_snappy_k0822()).unwrap();
    let expected: Vec<(i64, Vec<u8>, Vec<u8>)> =
        LINES.iter().enumerate().map(|(i, l)| (i as i64, Vec::new(), l.as_bytes().to_vec())).collect();
    for r in [&plain, &gz, &sn1, &sn2] {
        let got: Vec<(i64, Vec<u8>, Vec<u8>)> =
            into_messages(r).iter().map(|m| (m.offset, m.key.to_vec(), m.value.to_vec())).collect();
        assert_eq!(got, expected);
    }
}

// fields -----------------------------------------------------------------

#[test]
fn the_fields_of_a_reply_are_decoded() {
    let set = {
        let mut s = entry(40, 0, Some(b"k1"), Some(b"v1"));
        s.extend_from_slice(&entry(41, 0, Some(b""), None));
        s.extend_from_slice(&entry(-5, 0, None, Some(b"v3")));
        s
    };
    let bytes = reply(-77, &[topic("τόπος", &[partition(3, 0, 1 << 40, &set)])]);
    let r = FetchResponse::from_response(bytes).unwrap();
    assert_eq!(r.correlation_id(), -77);
    assert_eq!(r.topics().len(), 1);
    let t = &r.topics()[0];
    assert_eq!(t.topic(), "τόπος");
    let p = &t.partitions()[0];
    assert_eq!(p.partition(), 3);
    let data = p.data().as_ref().unwrap();
    assert_eq!(data.highwatermark_offset(), 1 << 40);
    let msgs = data.messages();
    assert_eq!(msgs.len(), 3);
    assert_eq!((msgs[0].offset, msgs[0].key, msgs[0].value), (40, &b"k1"[..], &b"v1"[..]));
    assert_eq!((msgs[1].offset, msgs[1].key, msgs[1].value), (41, &b""[..], &b""[..]));
    assert_eq!((msgs[2].offset, msgs[2].key, msgs[2].value), (-5, &b""[..], &b"v3"[..]));
}

#[test]
fn a_raw_message_is_read_field_by_field() {
    let raw = body(-2, 1, 0x42, Some(b"key"), Some(b"value"));
    let m = ProtocolMessage::from_slice(&raw).unwrap();
    assert_eq!(m.crc, -2);
    assert_eq!(m.magic, 1);
    assert_eq!(m.attr, 0x42);
    assert_eq!(m.key, b"key");
    assert_eq!(m.value, b"value");
    assert_eq!(m.key_at, 10);
    assert_eq!(m.value_at, 17);
    assert_eq!(&raw[m.key_at..m.key_at + 3], b"key");
    assert_eq!(&raw[m.value_at..m.value_at + 5], b"value");

    let raw = body(0, 0, 0, None, None);
    let m = ProtocolMessage::from_slice(&raw).unwrap();
    assert!(m.key.is_empty() && m.value.is_empty());

    for k in 0..raw.len() {
        assert!(matches!(ProtocolMessage::from_slice(&raw[..k]), Err(Error::UnexpectedEOF)));
    }
}

// truncation ---------------------------------------------------------------

#[test]
fn a_cut_off_record_ends_the_set() {
    let mut set = plain_set(&LINES);
    let further = entry(99, 0, Some(b"key"), Some(b"a further record"));
    set.extend_from_slice(&further[..3]);
    test_decode_new_fetch_response(&LINES, one_partition_reply(&set));
}

#[test]
fn a_record_cut_off_at_any_byte_is_tolerated() {
    let whole = plain_set(&LINES[..3]);
    let further = entry(99, 0, Some(b"key"), Some(b"a further record"));
    for k in 0..further.len() {
        let mut set = whole.clone();
        set.extend_from_slice(&further[..k]);
        let r = FetchResponse::from_vec(one_partition_reply(&set)).unwrap();
        assert_eq!(values(&r), LINES[..3].to_vec());
    }
    let mut set = whole.clone();
    set.extend_from_slice(&further);
    let r = FetchResponse::from_vec(one_partition_reply(&set)).unwrap();
    assert_eq!(values(&r).len(), 4);
    assert_eq!(values(&r)[3], "a further record");
}

#[test]
fn a_cut_off_reply_is_an_error() {
    let bytes = fetch1_nocompression();
    // the message set may be cut short, the framing around it may not
    for k in 0..30 {
        assert!(matches!(FetchResponse::from_vec(bytes[..k].to_vec()), Err(Error::UnexpectedEOF)));
    }
    assert!(matches!(
        FetchResponse::from_vec(bytes[..bytes.len() - 1].to_vec()),
        Err(Error::UnexpectedEOF)
    ));
}

// partition errors ---------------------------------------------------------

#[test]
fn a_partition_error_stays_with_its_partition() {
    let bytes = reply(
        1,
        &[topic("t", &[partition(0, 3, -1, &[]), partition(1, 0, 1, &entry(0, 0, None, Some(b"hi")))])],
    );
    let replies = vec![FetchResponse::from_vec(bytes).unwrap()];
    let mut it = iter_responses(&replies);

    let first = it.next().unwrap();
    assert_eq!(first.topic, "t");
    assert_eq!(first.partition, 0);
    assert!(matches!(first.data, Err(Error::Kafka(KafkaCode::UnknownTopicOrPartition))));

    let second = it.next().unwrap();
    assert_eq!(second.topic, "t");
    assert_eq!(second.partition, 1);
    let data = second.data.as_ref().unwrap();
    assert_eq!(data.highwatermark_offset(), 1);
    let msgs = data.messages();
    assert_eq!(msgs.len(), 1);
    assert_eq!(msgs[0].value, b"hi");

    assert!(it.next().is_none());
    assert!(it.next().is_none());
}

#[test]
fn the_message_set_of_a_failed_partition_is_passed_over() {
    // a record with a codec that does not exist, and one that does not expand
    let mut junk = entry(0, 3, None, Some(b"x"));
    junk.extend_from_slice(&entry(1, 1, None, Some(b"not gzip")));
    let ok = plain_set(&LINES[..2]);
    let bytes = reply(
        1,
        &[topic("t", &[partition(0, 0, 2, &ok), partition(1, 6, 0, &junk), partition(2, 0, 2, &ok)])],
    );
    let r = FetchResponse::from_vec(bytes).unwrap();
    let parts = r.topics()[0].partitions();
    assert_eq!(parts.len(), 3);
    assert!(matches!(parts[1].data(), Err(Error::Kafka(KafkaCode::NotLeaderForPartition))));
    for i in [0usize, 2] {
        let msgs = parts[i].data().as_ref().unwrap().messages();
        assert_eq!(msgs.len(), 2);
        assert_eq!(msgs[0].value, LINES[0].as_bytes());
        assert_eq!(msgs[1].value, LINES[1].as_bytes());
    }
    // the same set under error code zero fails the reply
    let bytes = reply(1, &[topic("t", &[partition(1, 0, 0, &junk)])]);
    assert!(matches!(FetchResponse::from_vec(bytes), Err(Error::InvalidData)));
}

// the walk over partitions ---------------------------------------------------

#[test]
fn partitions_come_in_the_order_of_the_wire() {
    let set = plain_set(&LINES[..1]);
    let a = reply(
        1,
        &[
            topic("a", &[partition(0, 0, 0, &set), partition(1, 1, 0, &[])]),
            topic("empty", &[]),
            topic("b", &[partition(5, 0, 0, &[])]),
        ],
    );
    let none = reply(2, &[]);
    let only_empty = reply(3, &[topic("nothing", &[])]);
    let c = reply(4, &[topic("c", &[partition(9, 0, 0, &set), partition(8, 0, 0, &set), partition(7, 2, 0, &set)])]);
    let replies: Vec<FetchResponse> =
        [none.clone(), a, none, only_empty, c].into_iter().map(|b| FetchResponse::from_vec(b).unwrap()).collect();

    let expected = vec![("a", 0, true), ("a", 1, false), ("b", 5, true), ("c", 9, true), ("c", 8, true), ("c", 7, false)];

    let mut got = Vec::new();
    let mut it = iter_responses(&replies);
    loop {
        match it.next() {
            None => break,
            Some(r) => got.push((r.topic, r.partition, r.data.is_ok())),
        }
    }
    assert_eq!(got, expected);
    assert!(it.next().is_none());

    let all: Vec<(&str, i32, bool)> =
        iter_responses(&replies).into_vec().iter().map(|r| (r.topic, r.partition, r.data.is_ok())).collect();
    assert_eq!(all, expected);

    // the walk agrees with the nested loops
    let mut nested = Vec::new();
    for r in &replies {
        for t in r.topics() {
            for p in t.partitions() {
                nested.push((t.topic(), p.partition(), p.data().is_ok()));
            }
        }
    }
    assert_eq!(nested, expected);
}

#[test]
fn a_walk_can_be_taken_up_in_the_middle() {
    let set = plain_set(&LINES[..1]);
    let bytes = reply(1, &[topic("a", &[partition(0, 0, 0, &set), partition(1, 0, 0, &set), partition(2, 0, 0, &set)])]);
    let replies = vec![FetchResponse::from_vec(bytes).unwrap()];
    let mut it = iter_responses(&replies);
    assert_eq!(it.next().unwrap().partition, 0);
    let rest: Vec<i32> = it.into_vec().iter().map(|r| r.partition).collect();
    assert_eq!(rest, vec![1, 2]);
}

#[test]
fn no_replies_give_no_records() {
    let replies: Vec<FetchResponse> = Vec::new();
    let mut it = iter_responses(&replies);
    assert!(it.next().is_none());
    assert!(iter_responses(&replies).into_vec().is_empty());
}

// empty inputs ---------------------------------------------------------------

#[test]
fn empty_inputs_decode_to_empty_results() {
    let r = FetchResponse::from_vec(reply(5, &[])).unwrap();
    assert_eq!(r.correlation_id(), 5);
    assert!(r.topics().is_empty());

    let r = FetchResponse::from_vec(reply(5, &[topic("t", &[])])).unwrap();
    assert_eq!(r.topics().len(), 1);
    assert_eq!(r.topics()[0].topic(), "t");
    assert!(r.topics()[0].partitions().is_empty());

    let r = FetchResponse::from_vec(reply(5, &[topic("", &[partition(0, 0, 0, &[])])])).unwrap();
    assert_eq!(r.topics()[0].topic(), "");
    let p = &r.topics()[0].partitions()[0];
    assert!(p.data().as_ref().unwrap().messages().is_empty());

    assert!(MessageSet::from_vec(Vec::new()).unwrap().messages().is_empty());
    let buf = Arc::new(vec![1u8, 2, 3]);
    assert!(MessageSet::from_slice(&buf, 3, 0).unwrap().messages().is_empty());
}

#[test]
fn a_missing_topic_name_and_a_missing_set_read_as_empty() {
    let mut bytes = Vec::new();
    bytes.extend_from_slice(&9i32.to_be_bytes());
    bytes.extend_from_slice(&1i32.to_be_bytes());
    bytes.extend_from_slice(&(-1i16).to_be_bytes());
    bytes.extend_from_slice(&1i32.to_be_bytes());
    bytes.extend_from_slice(&4i32.to_be_bytes());
    bytes.extend_from_slice(&0i16.to_be_bytes());
    bytes.extend_from_slice(&17i64.to_be_bytes());
    bytes.extend_from_slice(&(-1i32).to_be_bytes());
    let r = FetchResponse::from_vec(bytes).unwrap();
    assert_eq!(r.topics()[0].topic(), "");
    let p = &r.topics()[0].partitions()[0];
    assert_eq!(p.partition(), 4);
    let data = p.data().as_ref().unwrap();
    assert_eq!(data.highwatermark_offset(), 17);
    assert!(data.messages().is_empty());
}

// decoder errors ---------------------------------------------------------------

#[test]
fn no_bytes_are_an_unexpected_end() {
    assert!(matches!(FetchResponse::from_vec(Vec::new()), Err(Error::UnexpectedEOF)));
    assert!(matches!(FetchResponse::from_response(vec![0, 0, 0]), Err(Error::UnexpectedEOF)));
}

#[test]
fn a_negative_array_length_is_invalid() {
    let mut bytes = Vec::new();
    bytes.extend_from_slice(&1i32.to_be_bytes());
    bytes.extend_from_slice(&(-1i32).to_be_bytes());
    assert!(matches!(FetchResponse::from_vec(bytes), Err(Error::InvalidData)));

    let mut bytes = Vec::new();
    bytes.extend_from_slice(&1i32.to_be_bytes());
    bytes.extend_from_slice(&1i32.to_be_bytes());
    put_str(&mut bytes, "t");
    bytes.extend_from_slice(&(-2i32).to_be_bytes());
    assert!(matches!(FetchResponse::from_vec(bytes), Err(Error::InvalidData)));
}

#[test]
fn a_topic_name_that_is_not_utf8_is_invalid() {
    let mut bytes = Vec::new();
    bytes.extend_from_slice(&1i32.to_be_bytes());
    bytes.extend_from_slice(&1i32.to_be_bytes());
    bytes.extend_from_slice(&2i16.to_be_bytes());
    bytes.extend_from_slice(&[0xff, 0xfe]);
    bytes.extend_from_slice(&0i32.to_be_bytes());
    assert!(matches!(FetchResponse::from_vec(bytes), Err(Error::InvalidData)));
}

#[test]
fn a_codec_that_does_not_exist_is_invalid() {
    let mut set = plain_set(&LINES[..2]);
    set.extend_from_slice(&entry(2, 3, None, Some(b"x")));
    assert!(matches!(FetchResponse::from_vec(one_partition_reply(&set)), Err(Error::InvalidData)));
    assert!(matches!(MessageSet::from_vec(set.clone()), Err(Error::InvalidData)));
    // only the two lowest bits count
    let set = entry(2, 0x7c, None, Some(b"x"));
    let r = FetchResponse::from_vec(one_partition_reply(&set)).unwrap();
    assert_eq!(values(&r), vec!["x"]);
    let set = entry(2, -1, None, Some(b"x"));
    assert!(matches!(FetchResponse::from_vec(one_partition_reply(&set)), Err(Error::InvalidData)));
}

#[test]
fn data_that_does_not_expand_is_a_decompression_error() {
    let set = entry(0, 1, None, Some(b"this is not gzip"));
    assert!(matches!(FetchResponse::from_vec(one_partition_reply(&set)), Err(Error::Decompression)));
    let set = entry(0, 2, None, Some(b"this is not snappy"));
    assert!(matches!(FetchResponse::from_vec(one_partition_reply(&set)), Err(Error::Decompression)));
    // an error inside the expanded set fails the reply too
    let set = entry(0, 1, None, Some(&gzip(&entry(0, 3, None, Some(b"x")))));
    assert!(matches!(FetchResponse::from_vec(one_partition_reply(&set)), Err(Error::InvalidData)));
}

// compression -------------------------------------------------------------------

#[test]
fn gzip_data_is_expanded() {
    let text = b"to be, or not to be, or not to be, or not to be: that is the question".to_vec();
    let packed = gzip(&text);
    assert_ne!(packed, text);
    assert_eq!(gzip_uncompress(&packed), Ok(text));
    assert_eq!(gzip_uncompress(&gzip(b"")), Ok(Vec::new()));
    assert_eq!(gzip_uncompress(b""), Err(Error::Decompression));
    assert_eq!(gzip_uncompress(&packed[..packed.len() - 3]), Err(Error::Decompression));
    let mut damaged = packed.clone();
    let last = damaged.len() - 5;
    damaged[last] ^= 0xff;
    assert_eq!(gzip_uncompress(&damaged), Err(Error::Decompression));
}

#[test]
fn framed_snappy_data_is_expanded() {
    let text = b"to be, or not to be, or not to be, or not to be: that is the question".to_vec();
    for chunk in [1usize, 7, 64, 1000] {
        let packed = snappy_framed(&text, chunk);
        assert_ne!(packed, text);
        assert_eq!(snappy_uncompress(&packed), Ok(text.clone()));
    }
    // a header without chunks is an empty stream
    assert_eq!(snappy_uncompress(&snappy_framed(b"", 10)), Ok(Vec::new()));
}

#[test]
fn damaged_snappy_framing_is_a_decompression_error() {
    let text = b"to be, or not to be".to_vec();
    let packed = snappy_framed(&text, 1000);
    assert_eq!(snappy_uncompress(b""), Err(Error::Decompression));
    // the header cut short
    for k in 0..16 {
        assert_eq!(snappy_uncompress(&packed[..k]), Err(Error::Decompression));
    }
    // a chunk cut short
    for k in 17..packed.len() {
        assert_eq!(snappy_uncompress(&packed[..k]), Err(Error::Decompression));
    }
    // wrong magic, version, compatible version
    for at in [0usize, 7, 11, 15] {
        let mut bad = packed.clone();
        bad[at] ^= 1;
        assert_eq!(snappy_uncompress(&bad), Err(Error::Decompression));
    }
    // a chunk of length zero, and one of negative length
    let mut bad = packed[..16].to_vec();
    bad.extend_from_slice(&0i32.to_be_bytes());
    assert_eq!(snappy_uncompress(&bad), Err(Error::Decompression));
    let mut bad = packed[..16].to_vec();
    bad.extend_from_slice(&(-1i32).to_be_bytes());
    assert_eq!(snappy_uncompress(&bad), Err(Error::Decompression));
    // a chunk that is not snappy data
    let mut bad = packed[..16].to_vec();
    bad.extend_from_slice(&4i32.to_be_bytes());
    bad.extend_from_slice(&[0xff, 0xff, 0xff, 0xff]);
    assert_eq!(snappy_uncompress(&bad), Err(Error::Decompression));
    // raw snappy data without the framing
    let raw = snap::raw::Encoder::new().compress_vec(&text).unwrap();
    assert_eq!(snappy_uncompress(&raw), Err(Error::Decompression));
}

#[test]
fn a_compressed_record_stands_for_the_whole_set() {
    // what comes before and after the compressed record is dropped
    let mut set = entry(100, 0, None, Some(b"before"));
    set.extend_from_slice(&entry(101, 1, Some(b"outer key"), Some(&gzip(&plain_set(&LINES[..2])))));
    set.extend_from_slice(&entry(102, 0, None, Some(b"after")));
    let r = FetchResponse::from_vec(one_partition_reply(&set)).unwrap();
    assert_eq!(values(&r), LINES[..2].to_vec());
    let offsets: Vec<i64> = into_messages(&r).iter().map(|m| m.offset).collect();
    assert_eq!(offsets, vec![0, 1]);
}

#[test]
fn compression_is_expanded_one_level_deep() {
    let innermost = plain_set(&LINES[..2]);
    let packed = gzip(&innermost);
    let mut inner = entry(10, 0, None, Some(b"plain"));
    inner.extend_from_slice(&entry(11, 1, Some(b"k"), Some(&packed)));
    inner.extend_from_slice(&entry(12, 2, None, Some(b"not even snappy")));
    let outer = entry(0, 2, None, Some(&snappy_framed(&inner, 40)));
    let r = FetchResponse::from_vec(one_partition_reply(&outer)).unwrap();
    let msgs = into_messages(&r);
    assert_eq!(msgs.len(), 3);
    assert_eq!((msgs[0].offset, msgs[0].value), (10, &b"plain"[..]));
    assert_eq!((msgs[1].offset, msgs[1].key, msgs[1].value), (11, &b"k"[..], &packed[..]));
    assert_eq!((msgs[2].offset, msgs[2].value), (12, &b"not even snappy"[..]));
}

#[test]
fn a_cut_off_record_inside_an_expanded_set_is_tolerated() {
    let mut inner = plain_set(&LINES[..4]);
    let further = entry(4, 0, None, Some(b"further"));
    inner.extend_from_slice(&further[..further.len() - 1]);
    let outer = entry(0, 1, None, Some(&gzip(&inner)));
    let r = FetchResponse::from_vec(one_partition_reply(&outer)).unwrap();
    assert_eq!(values(&r), LINES[..4].to_vec());
}

// message sets --------------------------------------------------------------------

#[test]
fn a_message_set_is_decoded_from_a_part_of_a_buffer() {
    let set = plain_set(&LINES[..3]);
    let mut bytes = vec![0xaa; 5];
    bytes.extend_from_slice(&set);
    bytes.extend_from_slice(&[0xbb; 7]);
    let buf = Arc::new(bytes);
    let ms = MessageSet::from_slice(&buf, 5, set.len()).unwrap();
    let msgs = ms.messages();
    assert_eq!(msgs.len(), 3);
    for (m, line) in msgs.iter().zip(LINES.iter()) {
        assert_eq!(m.value, line.as_bytes());
        assert!(m.key.is_empty());
    }
    // nothing was copied: the values are parts of the buffer
    let base = buf.as_ptr() as usize;
    for m in &msgs {
        let at = m.value.as_ptr() as usize;
        assert!(base + 5 <= at && at + m.value.len() <= base + 5 + set.len());
    }
}

#[test]
fn an_owned_message_set_is_not_expanded() {
    let packed = gzip(&plain_set(&LINES[..2]));
    let mut set = entry(1, 0, None, Some(b"one"));
    set.extend_from_slice(&entry(2, 1, None, Some(&packed)));
    let ms = MessageSet::from_vec(set.clone()).unwrap();
    let msgs = ms.messages();
    assert_eq!(msgs.len(), 2);
    assert_eq!(msgs[0].value, b"one");
    assert_eq!(msgs[1].value, &packed[..]);

    let buf = Arc::new(set);
    let n = buf.len();
    let expanded = MessageSet::from_slice(&buf, 0, n).unwrap();
    let lines: Vec<&[u8]> = expanded.messages().iter().map(|m| m.value).collect();
    assert_eq!(lines, vec![LINES[0].as_bytes(), LINES[1].as_bytes()]);
}

// purity ----------------------------------------------------------------------------

#[test]
fn decoding_twice_gives_the_same_reply() {
    for bytes in [fetch1_nocompression(), fetch1_gzip(), fetch1_snappy_k0821()] {
        let a = FetchResponse::from_vec(bytes.clone()).unwrap();
        let b = FetchResponse::from_vec(bytes).unwrap();
        assert_eq!(a.correlation_id(), b.correlation_id());
        assert_eq!(values(&a), values(&b));
        // reading a reply does not change it
        assert_eq!(values(&a), values(&a));
        let replies = vec![a, b];
        let seen: Vec<(&str, i32)> = iter_responses(&replies).into_vec().iter().map(|r| (r.topic, r.partition)).collect();
        assert_eq!(seen, vec![("my-topic", 0), ("my-topic", 0)]);
    }
    assert_eq!(FetchResponse::from_vec(vec![1, 2]).err(), FetchResponse::from_vec(vec![1, 2]).err());
}
