//! A walk over the partitions of several replies, one after the other.

use crate::error::Error;
use crate::fetch::{data_view, partition_views, topic_views, FetchResponse, PartitionData};
use crate::model::{DataModel, ResponseModel, TopicModel};
use vstd::prelude::*;
use vstd::string::StringSliceAdditionalSpecFns;

verus! {

/// What the walk yields for one partition: the bytes of the topic's name,
/// the number of the partition, and its payload or error.
pub struct PartitionRecord {
    pub topic: Seq<u8>,
    pub partition: i32,
    pub data: Result<DataModel, Error>,
}

/// The records of the partitions of one topic, in their order.
pub open spec fn topic_records(t: TopicModel) -> Seq<PartitionRecord> {
    Seq::new(
        t.partitions.len(),
        |i: int|
            PartitionRecord {
                topic: t.topic,
                partition: t.partitions[i].partition,
                data: t.partitions[i].data,
            },
    )
}

/// The records of the partitions of the topics `ts`: those of the first
/// topic, then those of the second, and so on.
pub open spec fn topics_records(ts: Seq<TopicModel>) -> Seq<PartitionRecord>
    decreases ts.len(),
{
    if ts.len() == 0 {
        Seq::empty()
    } else {
        topic_records(ts[0]) + topics_records(ts.skip(1))
    }
}

/// The records of the partitions of the replies `rs`: those of the first
/// reply, then those of the second, and so on.
pub open spec fn responses_records(rs: Seq<ResponseModel>) -> Seq<PartitionRecord>
    decreases rs.len(),
{
    if rs.len() == 0 {
        Seq::empty()
    } else {
        topics_records(rs[0].topics) + responses_records(rs.skip(1))
    }
}

/// The replies in `v` as plain data.
pub open spec fn response_views(v: Seq<FetchResponse>) -> Seq<ResponseModel> {
    Seq::new(v.len(), |i: int| v[i]@)
}

/// The records that are still to come when the walk stands at partition
/// `pi` of topic `ti` of reply `ri`.
pub open spec fn records_from(rs: Seq<ResponseModel>, ri: int, ti: int, pi: int) -> Seq<
    PartitionRecord,
> {
    if ri >= rs.len() {
        Seq::empty()
    } else if ti >= rs[ri].topics.len() {
        responses_records(rs.skip(ri + 1))
    } else {
        topic_records(rs[ri].topics[ti]).skip(pi) + topics_records(rs[ri].topics.skip(ti + 1))
            + responses_records(rs.skip(ri + 1))
    }
}

/// The records of the topics from index `k` on start with those of topic
/// `k`.
pub proof fn lemma_topics_records_step(ts: Seq<TopicModel>, k: int)
    requires
        0 <= k <= ts.len(),
    ensures
        k == ts.len() ==> topics_records(ts.skip(k)) == Seq::<PartitionRecord>::empty(),
        k < ts.len() ==> topics_records(ts.skip(k)) == topic_records(ts[k]) + topics_records(
            ts.skip(k + 1),
        ),
{
    if k < ts.len() {
        assert(ts.skip(k).skip(1) =~= ts.skip(k + 1));
    }
}

/// The records of the replies from index `k` on start with those of reply
/// `k`.
pub proof fn lemma_responses_records_step(rs: Seq<ResponseModel>, k: int)
    requires
        0 <= k <= rs.len(),
    ensures
        k == rs.len() ==> responses_records(rs.skip(k)) == Seq::<PartitionRecord>::empty(),
        k < rs.len() ==> responses_records(rs.skip(k)) == topics_records(rs[k].topics)
            + responses_records(rs.skip(k + 1)),
{
    if k < rs.len() {
        assert(rs.skip(k).skip(1) =~= rs.skip(k + 1));
    }
}

/// What the walk yields for one partition.
pub struct Response<'a> {
    /// The name of the topic that the partition belongs to.
    pub topic: &'a str,
    /// The number of the partition.
    pub partition: i32,
    /// The messages fetched for the partition, or the error the broker
    /// reported for it.
    pub data: &'a Result<PartitionData, Error>,
}

impl<'a> Response<'a> {
    /// The record as plain data.
    pub open spec fn view(&self) -> PartitionRecord {
        PartitionRecord {
            topic: self.topic.spec_bytes(),
            partition: self.partition,
            data: data_view(*self.data),
        }
    }
}

/// The records in `v` as plain data.
pub open spec fn record_views(v: Seq<Response>) -> Seq<PartitionRecord> {
    Seq::new(v.len(), |i: int| v[i]@)
}

/// The name of the first topic of reply `reply`, where there is one.
fn first_topic<'a>(responses: &'a [FetchResponse], reply: usize) -> (name: &'a str)
    ensures
        reply < responses@.len() && responses@[reply as int]@.topics.len() > 0
            ==> name.spec_bytes() == responses@[reply as int]@.topics[0].topic,
{
    if reply < responses.len() {
        let topics = responses[reply].topics();
        if topics.len() > 0 {
            assert(topic_views(topics@)[0] == topics@[0]@);
            return topics[0].topic();
        }
    }
    ""
}

/// A walk over all partitions of a list of replies, in the order in which
/// they stand there. It cannot be started again.
pub struct ResponseIter<'a> {
    responses: &'a [FetchResponse],
    reply: usize,
    topic: usize,
    partition: usize,
    curr_topic: &'a str,
}

impl<'a> ResponseIter<'a> {
    #[verifier::type_invariant]
    spec fn in_range(self) -> bool {
        let rs = response_views(self.responses@);
        &&& self.reply <= rs.len()
        &&& self.reply < rs.len() ==> self.topic <= rs[self.reply as int].topics.len()
        &&& self.reply < rs.len() && self.topic < rs[self.reply as int].topics.len() ==> {
            &&& self.partition <= rs[self.reply as int].topics[self.topic as int].partitions.len()
            &&& self.curr_topic.spec_bytes() == rs[self.reply as int].topics[self.topic as int].topic
        }
    }

    /// The replies that the walk goes over.
    pub closed spec fn source(&self) -> Seq<ResponseModel> {
        response_views(self.responses@)
    }

    /// The records that the walk has still to yield, in their order.
    pub closed spec fn view(&self) -> Seq<PartitionRecord> {
        records_from(
            response_views(self.responses@),
            self.reply as int,
            self.topic as int,
            self.partition as int,
        )
    }

    /// The record of the next partition, or nothing once every partition of
    /// every reply has been yielded. A reply without topics and a topic
    /// without partitions are passed over.
    pub fn next(&mut self) -> (r: Option<Response<'a>>)
        ensures
            final(self).source() == old(self).source(),
            old(self)@.len() == 0 ==> r.is_none() && final(self)@.len() == 0,
            old(self)@.len() > 0 ==> (r matches Some(x) && x@ == old(self)@[0] && final(self)@
                == old(self)@.skip(1)),
    {
        let responses: &'a [FetchResponse] = self.responses;
        let ghost rs = response_views(responses@);
        loop
            invariant
                self.responses == responses,
                rs == response_views(responses@),
                rs == old(self).source(),
                self@ == old(self)@,
            decreases
                    responses@.len() - self.reply,
                    if self.reply < responses@.len() {
                        rs[self.reply as int].topics.len() - self.topic
                    } else {
                        0
                    },
        {
            proof {
                use_type_invariant(&*self);
            }
            if self.reply >= responses.len() {
                return None;
            }
            let topics = responses[self.reply].topics();
            assert(topic_views(topics@) == rs[self.reply as int].topics);
            if self.topic >= topics.len() {
                proof {
                    lemma_responses_records_step(rs, self.reply + 1);
                    if self.reply + 1 < rs.len() {
                        lemma_topics_records_step(rs[self.reply + 1].topics, 0);
                        assert(rs[self.reply + 1].topics.skip(0) =~= rs[self.reply + 1].topics);
                        let first = rs[self.reply + 1].topics;
                        if first.len() > 0 {
                            assert(topic_records(first[0]).skip(0) =~= topic_records(first[0]));
                        }
                    }
                }
                let reply = self.reply + 1;
                let curr_topic = first_topic(responses, reply);
                *self = ResponseIter { responses, reply, topic: 0, partition: 0, curr_topic };
                continue ;
            }
            let partitions = topics[self.topic].partitions();
            assert(partition_views(partitions@) == rs[self.reply as int].topics[self.topic as int].partitions);
            if self.partition >= partitions.len() {
                proof {
                    let ts = rs[self.reply as int].topics;
                    lemma_topics_records_step(ts, self.topic + 1);
                    assert(topic_records(ts[self.topic as int]).skip(self.partition as int)
                        =~= Seq::<PartitionRecord>::empty());
                    if self.topic + 1 < ts.len() {
                        assert(topic_records(ts[self.topic + 1]).skip(0) =~= topic_records(
                            ts[self.topic + 1],
                        ));
                    }
                }
                let topic = self.topic + 1;
                let curr_topic: &'a str = if topic < topics.len() {
                    topics[topic].topic()
                } else {
                    ""
                };
                *self = ResponseIter {
                    responses,
                    reply: self.reply,
                    topic,
                    partition: 0,
                    curr_topic,
                };
                continue ;
            }
            let p = &partitions[self.partition];
            let item = Response { topic: self.curr_topic, partition: p.partition(), data: p.data() };
            proof {
                let t = rs[self.reply as int].topics[self.topic as int];
                let here = topic_records(t).skip(self.partition as int);
                assert(here[0] == item@);
                assert(here.skip(1) =~= topic_records(t).skip(self.partition + 1));
                let rest = topics_records(rs[self.reply as int].topics.skip(self.topic + 1))
                    + responses_records(rs.skip(self.reply + 1));
                assert(self@ =~= here + rest);
                assert((here + rest).skip(1) =~= here.skip(1) + rest);
            }
            *self = ResponseIter {
                responses,
                reply: self.reply,
                topic: self.topic,
                partition: self.partition + 1,
                curr_topic: self.curr_topic,
            };
            return Some(item);
        }
    }

    /// All records that the walk has still to yield, in their order.
    pub fn into_vec(self) -> (v: Vec<Response<'a>>)
        ensures
            record_views(v@) == self@,
    {
        let mut it = self;
        let mut out: Vec<Response<'a>> = Vec::new();
        assert(record_views(out@) =~= Seq::empty());
        loop
            invariant
                record_views(out@) + it@ == self@,
            decreases it@.len(),
        {
            let ghost before = record_views(out@);
            let ghost ahead = it@;
            match it.next() {
                None => {
                    assert(before + ahead =~= before);
                    return out;
                },
                Some(x) => {
                    out.push(x);
                    assert(record_views(out@) =~= before.push(x@));
                    assert(before.push(ahead[0]) + ahead.skip(1) =~= before + ahead);
                },
            }
        }
    }
}

/// A walk over all partitions of the given replies, in the order in which
/// they stand there: reply by reply, in each reply topic by topic, in each
/// topic partition by partition. Since a broker may fail on one partition
/// and not on another, a partition is the smallest unit that can be worked
/// on.
pub fn iter_responses<'a>(responses: &'a [FetchResponse]) -> (it: ResponseIter<'a>)
    ensures
        it.source() == response_views(responses@),
        it@ == responses_records(response_views(responses@)),
{
    let curr_topic = first_topic(responses, 0);
    proof {
        let rs = response_views(responses@);
        lemma_responses_records_step(rs, 0);
        assert(rs.skip(0) =~= rs);
        if rs.len() > 0 {
            let ts = rs[0].topics;
            lemma_topics_records_step(ts, 0);
            assert(ts.skip(0) =~= ts);
            if ts.len() > 0 {
                assert(topic_records(ts[0]).skip(0) =~= topic_records(ts[0]));
            }
        }
    }
    ResponseIter { responses, reply: 0, topic: 0, partition: 0, curr_topic }
}

} // verus!
