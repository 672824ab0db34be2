//! Topic-based publish/subscribe: a registry from topic to subscriber set
//! with per-subscriber monotonic sequencing, and a self-healing `publish`
//! that prunes subscribers whose connection is gone.
use crate::basics::{ConnectionId, WsResponse, WsResponseModel, WsStreamResponse};
use crate::json::JsonValue;
use crate::toolbox::{appended_msgs, send_reaches, Toolbox};
use vstd::prelude::*;

verus! {

/// One subscriber's cursor on one topic: the sequence number its next
/// delivery will carry.
#[derive(Clone, Copy, Debug, PartialEq, Eq, Structural)]
pub struct SubscriberContext {
    pub connection_id: ConnectionId,
    pub stream_seq: u32,
}

/// A topic's subscriber set and the method code its deliveries carry.
#[derive(Debug)]
pub struct Subscribers {
    pub subscribers: Vec<SubscriberContext>,
    pub method: u32,
}

/// The subscriber registered under `id`, first match.
pub open spec fn sub_lookup(subs: Seq<SubscriberContext>, id: ConnectionId) -> Option<
    SubscriberContext,
>
    decreases subs.len(),
{
    if subs.len() == 0 {
        None
    } else if subs[0].connection_id == id {
        Some(subs[0])
    } else {
        sub_lookup(subs.drop_first(), id)
    }
}

proof fn lemma_sub_lookup_at(subs: Seq<SubscriberContext>, id: ConnectionId, i: int)
    requires
        0 <= i < subs.len(),
        subs[i].connection_id == id,
        forall|k: int| 0 <= k < i ==> subs[k].connection_id != id,
    ensures
        sub_lookup(subs, id) == Some(subs[i]),
    decreases i,
{
    if i > 0 {
        lemma_sub_lookup_at(subs.drop_first(), id, i - 1);
    }
}

proof fn lemma_sub_lookup_none(subs: Seq<SubscriberContext>, id: ConnectionId)
    requires
        forall|k: int| 0 <= k < subs.len() ==> subs[k].connection_id != id,
    ensures
        sub_lookup(subs, id) is None,
    decreases subs.len(),
{
    if subs.len() > 0 {
        lemma_sub_lookup_none(subs.drop_first(), id);
    }
}

proof fn lemma_sub_lookup_has(subs: Seq<SubscriberContext>, id: ConnectionId)
    ensures
        (sub_lookup(subs, id) is Some) <==> exists|k: int|
            0 <= k < subs.len() && #[trigger] subs[k].connection_id == id,
    decreases subs.len(),
{
    if subs.len() > 0 {
        lemma_sub_lookup_has(subs.drop_first(), id);
        if sub_lookup(subs, id) is Some {
            if subs[0].connection_id != id {
                let k = choose|k: int|
                    0 <= k < subs.drop_first().len()
                        && #[trigger] subs.drop_first()[k].connection_id == id;
                assert(subs[k + 1].connection_id == id);
            }
        }
        if exists|k: int| 0 <= k < subs.len() && #[trigger] subs[k].connection_id == id {
            let k = choose|k: int| 0 <= k < subs.len() && #[trigger] subs[k].connection_id == id;
            if k > 0 {
                assert(subs.drop_first()[k - 1].connection_id == id);
            }
        }
    }
}

proof fn lemma_sub_lookup_push(subs: Seq<SubscriberContext>, e: SubscriberContext, id: ConnectionId)
    ensures
        sub_lookup(subs.push(e), id) == if sub_lookup(subs, id) is Some {
            sub_lookup(subs, id)
        } else if e.connection_id == id {
            Some(e)
        } else {
            None
        },
    decreases subs.len(),
{
    if subs.len() == 0 {
        assert(subs.push(e)[0] == e);
        assert(subs.push(e).drop_first() =~= Seq::<SubscriberContext>::empty());
    } else {
        assert(subs.push(e)[0] == subs[0]);
        assert(subs.push(e).drop_first() =~= subs.drop_first().push(e));
        lemma_sub_lookup_push(subs.drop_first(), e, id);
    }
}

/// The next cursor value after a delivery.
pub open spec fn next_seq(s: u32) -> u32 {
    if s == u32::MAX {
        0
    } else {
        (s + 1) as u32
    }
}

/// The subscriber set after one publish: subscribers whose connection the
/// toolbox still reaches stay, their cursor advanced by one; the rest are
/// removed. Order is kept.
pub open spec fn publish_survivors(subs: Seq<SubscriberContext>, tb: Toolbox) -> Seq<
    SubscriberContext,
>
    decreases subs.len(),
{
    if subs.len() == 0 {
        Seq::empty()
    } else {
        let rest = publish_survivors(subs.drop_first(), tb);
        if send_reaches(tb, subs[0].connection_id) {
            seq![
                SubscriberContext {
                    connection_id: subs[0].connection_id,
                    stream_seq: next_seq(subs[0].stream_seq),
                },
            ] + rest
        } else {
            rest
        }
    }
}

proof fn lemma_publish_survivors_push(
    subs: Seq<SubscriberContext>,
    e: SubscriberContext,
    tb: Toolbox,
)
    ensures
        publish_survivors(subs.push(e), tb) == if send_reaches(tb, e.connection_id) {
            publish_survivors(subs, tb).push(
                SubscriberContext {
                    connection_id: e.connection_id,
                    stream_seq: next_seq(e.stream_seq),
                },
            )
        } else {
            publish_survivors(subs, tb)
        },
    decreases subs.len(),
{
    if subs.len() == 0 {
        reveal_with_fuel(publish_survivors, 3);
        assert(subs.push(e)[0] == e);
        assert(subs.push(e).drop_first() =~= Seq::<SubscriberContext>::empty());
        if send_reaches(tb, e.connection_id) {
            assert(publish_survivors(subs.push(e), tb) =~= publish_survivors(subs, tb).push(
                SubscriberContext {
                    connection_id: e.connection_id,
                    stream_seq: next_seq(e.stream_seq),
                },
            ));
        }
    } else {
        assert(subs.push(e)[0] == subs[0]);
        assert(subs.push(e).drop_first() =~= subs.drop_first().push(e));
        lemma_publish_survivors_push(subs.drop_first(), e, tb);
        if send_reaches(tb, subs[0].connection_id) && send_reaches(tb, e.connection_id) {
            assert(publish_survivors(subs.push(e), tb) =~= publish_survivors(subs, tb).push(
                SubscriberContext {
                    connection_id: e.connection_id,
                    stream_seq: next_seq(e.stream_seq),
                },
            ));
        }
    }
}

/// What one publish of `data` on a topic looks like to the subscriber whose
/// cursor is `s`.
pub open spec fn stream_msg_model(
    method: u32,
    s: SubscriberContext,
    resource: Seq<char>,
    data: crate::json::JsonModel,
) -> WsResponseModel {
    WsResponseModel::Stream { method: method, stream_seq: s.stream_seq, resource, data }
}

/// `subs` with the subscriber registered under `id` removed; `subs` itself
/// where none is.
pub open spec fn sub_remove(subs: Seq<SubscriberContext>, id: ConnectionId) -> Seq<
    SubscriberContext,
>
    decreases subs.len(),
{
    if subs.len() == 0 {
        Seq::empty()
    } else if subs[0].connection_id == id {
        subs.drop_first()
    } else {
        seq![subs[0]] + sub_remove(subs.drop_first(), id)
    }
}

proof fn lemma_sub_remove_at(subs: Seq<SubscriberContext>, id: ConnectionId, i: int)
    requires
        0 <= i < subs.len(),
        subs[i].connection_id == id,
        forall|k: int| 0 <= k < i ==> subs[k].connection_id != id,
    ensures
        sub_remove(subs, id) == subs.remove(i),
    decreases i,
{
    if i == 0 {
        assert(subs.remove(0) =~= subs.drop_first());
    } else {
        lemma_sub_remove_at(subs.drop_first(), id, i - 1);
        assert(subs.remove(i).drop_first() =~= subs.drop_first().remove(i - 1));
        assert(sub_remove(subs, id) =~= seq![subs[0]] + subs.drop_first().remove(i - 1));
        assert(subs.remove(i) =~= seq![subs[0]] + subs.remove(i).drop_first());
    }
}

proof fn lemma_sub_remove_none(subs: Seq<SubscriberContext>, id: ConnectionId)
    requires
        forall|k: int| 0 <= k < subs.len() ==> subs[k].connection_id != id,
    ensures
        sub_remove(subs, id) == subs,
    decreases subs.len(),
{
    if subs.len() > 0 {
        lemma_sub_remove_none(subs.drop_first(), id);
        assert(sub_remove(subs, id) =~= subs);
    }
}

/// How one publish relates a subscriber set and the toolbox before it to the
/// toolbox after it: each reachable subscriber is delivered exactly its one
/// stream message, and no other queue moves.
pub open spec fn published(
    subs: Seq<SubscriberContext>,
    method: u32,
    resource: Seq<char>,
    data: crate::json::JsonModel,
    pre: Toolbox,
    post: Toolbox,
) -> bool {
    &&& post.delivery == pre.delivery
    &&& forall|c: ConnectionId| post.states.has_conn(c) == pre.states.has_conn(c)
    &&& forall|c: ConnectionId|
        match #[trigger] sub_lookup(subs, c) {
            Some(s) => if send_reaches(pre, c) {
                post.states.queue_of(c) == pre.states.queue_of(c) + appended_msgs(
                    pre.delivery,
                    stream_msg_model(method, s, resource, data),
                )
            } else {
                post.states.queue_of(c) == pre.states.queue_of(c)
            },
            None => post.states.queue_of(c) == pre.states.queue_of(c),
        }
}

/// The method code and subscriber set registered under a topic key, first
/// match.
spec fn lookup_topic(ts: Seq<(String, Subscribers)>, key: Seq<char>) -> Option<
    (u32, Seq<SubscriberContext>),
>
    decreases ts.len(),
{
    if ts.len() == 0 {
        None
    } else if ts[0].0@ == key {
        Some((ts[0].1.method, ts[0].1.subscribers@))
    } else {
        lookup_topic(ts.drop_first(), key)
    }
}

proof fn lemma_lookup_topic_at(ts: Seq<(String, Subscribers)>, key: Seq<char>, i: int)
    requires
        0 <= i < ts.len(),
        ts[i].0@ == key,
        forall|k: int| 0 <= k < i ==> ts[k].0@ != key,
    ensures
        lookup_topic(ts, key) == Some((ts[i].1.method, ts[i].1.subscribers@)),
    decreases i,
{
    if i > 0 {
        lemma_lookup_topic_at(ts.drop_first(), key, i - 1);
    }
}

proof fn lemma_lookup_topic_none(ts: Seq<(String, Subscribers)>, key: Seq<char>)
    requires
        forall|k: int| 0 <= k < ts.len() ==> ts[k].0@ != key,
    ensures
        lookup_topic(ts, key) is None,
    decreases ts.len(),
{
    if ts.len() > 0 {
        lemma_lookup_topic_none(ts.drop_first(), key);
    }
}

proof fn lemma_lookup_topic_has(ts: Seq<(String, Subscribers)>, key: Seq<char>)
    ensures
        (lookup_topic(ts, key) is Some) <==> exists|k: int|
            0 <= k < ts.len() && #[trigger] ts[k].0@ == key,
    decreases ts.len(),
{
    if ts.len() > 0 {
        lemma_lookup_topic_has(ts.drop_first(), key);
        if lookup_topic(ts, key) is Some {
            if ts[0].0@ != key {
                let k = choose|k: int|
                    0 <= k < ts.drop_first().len() && #[trigger] ts.drop_first()[k].0@ == key;
                assert(ts[k + 1].0@ == key);
            }
        }
        if exists|k: int| 0 <= k < ts.len() && #[trigger] ts[k].0@ == key {
            let k = choose|k: int| 0 <= k < ts.len() && #[trigger] ts[k].0@ == key;
            if k > 0 {
                assert(ts.drop_first()[k - 1].0@ == key);
            }
        }
    }
}

proof fn lemma_lookup_topic_update_other(
    ts: Seq<(String, Subscribers)>,
    i: int,
    e2: (String, Subscribers),
    key: Seq<char>,
)
    requires
        0 <= i < ts.len(),
        e2.0@ == ts[i].0@,
        key != ts[i].0@,
    ensures
        lookup_topic(ts.update(i, e2), key) == lookup_topic(ts, key),
    decreases i,
{
    let s2 = ts.update(i, e2);
    if i == 0 {
        assert(s2.drop_first() =~= ts.drop_first());
    } else {
        assert(s2.drop_first() =~= ts.drop_first().update(i - 1, e2));
        lemma_lookup_topic_update_other(ts.drop_first(), i - 1, e2, key);
    }
}

proof fn lemma_lookup_topic_push(
    ts: Seq<(String, Subscribers)>,
    e: (String, Subscribers),
    key: Seq<char>,
)
    ensures
        lookup_topic(ts.push(e), key) == if lookup_topic(ts, key) is Some {
            lookup_topic(ts, key)
        } else if e.0@ == key {
            Some((e.1.method, e.1.subscribers@))
        } else {
            None
        },
    decreases ts.len(),
{
    if ts.len() == 0 {
        assert(ts.push(e)[0] == e);
        assert(ts.push(e).drop_first() =~= Seq::<(String, Subscribers)>::empty());
        if e.0@ != key {
            assert(lookup_topic(ts.push(e), key) == lookup_topic(ts.push(e).drop_first(), key));
            assert(lookup_topic(ts.push(e).drop_first(), key) is None);
        }
    } else {
        assert(ts.push(e)[0] == ts[0]);
        assert(ts.push(e).drop_first() =~= ts.drop_first().push(e));
        lemma_lookup_topic_push(ts.drop_first(), e, key);
        if ts[0].0@ != key {
            assert(lookup_topic(ts.push(e), key) == lookup_topic(ts.drop_first().push(e), key));
            assert(lookup_topic(ts, key) == lookup_topic(ts.drop_first(), key));
        }
    }
}

/// Topic-keyed registry of subscriber sets. `publish` fans one message out
/// to every subscriber of a topic, sequencing and self-healing as it goes.
pub struct SubscribeManager {
    topics: Vec<(String, Subscribers)>,
}

impl SubscribeManager {
    /// Topic keys are unique, and within each topic subscriber connection
    /// ids are unique.
    pub closed spec fn wf(&self) -> bool {
        &&& forall|i: int, j: int|
            0 <= i < j < self.topics@.len() ==> self.topics@[i].0@ != self.topics@[j].0@
        &&& forall|t: int, i: int, j: int|
            0 <= t < self.topics@.len() && 0 <= i < j < self.topics@[t].1.subscribers@.len()
                ==> self.topics@[t].1.subscribers@[i].connection_id
                != self.topics@[t].1.subscribers@[j].connection_id
    }

    /// Whether a topic is registered under `key`.
    pub closed spec fn has_topic(&self, key: Seq<char>) -> bool {
        lookup_topic(self.topics@, key) is Some
    }

    /// The method code the topic's deliveries carry.
    pub closed spec fn method_of(&self, key: Seq<char>) -> u32 {
        match lookup_topic(self.topics@, key) {
            Some(t) => t.0,
            None => 0,
        }
    }

    /// The topic's subscribers, in registration order.
    pub closed spec fn subs_of(&self, key: Seq<char>) -> Seq<SubscriberContext> {
        match lookup_topic(self.topics@, key) {
            Some(t) => t.1,
            None => Seq::empty(),
        }
    }

    pub fn new() -> (r: Self)
        ensures
            r.wf(),
            forall|k: Seq<char>| !r.has_topic(k),
    {
        let r = Self { topics: Vec::new() };
        proof {
            assert forall|k: Seq<char>| !r.has_topic(k) by {
                lemma_lookup_topic_none(r.topics@, k);
            }
        }
        r
    }

    fn find_topic(&self, key: &str) -> (r: Option<usize>)
        ensures
            match r {
                Some(i) => i < self.topics@.len() && self.topics@[i as int].0@ == key@ && (
                forall|k: int| 0 <= k < i ==> self.topics@[k].0@ != key@) && self.has_topic(key@)
                    && self.method_of(key@) == self.topics@[i as int].1.method && self.subs_of(
                    key@,
                ) == self.topics@[i as int].1.subscribers@,
                None => !self.has_topic(key@),
            },
    {
        let n = self.topics.len();
        let mut i: usize = 0;
        while i < n
            invariant
                0 <= i <= n,
                forall|k: int| 0 <= k < i ==> self.topics@[k].0@ != key@,
            decreases n - i,
        {
            if crate::text::str_eq(self.topics[i].0.as_str(), key) {
                proof {
                    lemma_lookup_topic_at(self.topics@, key@, i as int);
                }
                return Some(i);
            }
            i += 1;
        }
        proof {
            lemma_lookup_topic_none(self.topics@, key@);
        }
        None
    }

    /// Declare a topic with the method code its deliveries will carry; a
    /// no-op if the topic already exists.
    pub fn add_topic(&mut self, topic: String, method: u32)
        requires
            old(self).wf(),
        ensures
            final(self).wf(),
            final(self).has_topic(topic@),
            old(self).has_topic(topic@) ==> *final(self) == *old(self),
            !old(self).has_topic(topic@) ==> final(self).method_of(topic@) == method && final(self).subs_of(topic@) == Seq::<SubscriberContext>::empty(),
            forall|k: Seq<char>|
                k != topic@ ==> final(self).has_topic(k) == old(self).has_topic(k) && final(self).method_of(k) == old(self).method_of(k) && final(self).subs_of(k) == old(self).subs_of(k),
    {
        match self.find_topic(topic.as_str()) {
            Some(_) => {},
            None => {
                let ghost pre = self.topics@;
                let entry = (topic, Subscribers { subscribers: Vec::new(), method });
                let ghost ge = entry;
                self.topics.push(entry);
                proof {
                    assert(self.topics@ =~= pre.push(ge));
                    assert forall|k: Seq<char>| true implies lookup_topic(self.topics@, k)
                        == if lookup_topic(pre, k) is Some {
                        lookup_topic(pre, k)
                    } else if ge.0@ == k {
                        Some((ge.1.method, ge.1.subscribers@))
                    } else {
                        None
                    } by {
                        lemma_lookup_topic_push(pre, ge, k);
                    }
                    lemma_lookup_topic_has(pre, ge.0@);
                    assert forall|i: int, j: int|
                        0 <= i < j < self.topics@.len() implies self.topics@[i].0@
                        != self.topics@[j].0@ by {
                        if j == self.topics@.len() - 1 {
                            assert(self.topics@[i] == pre[i]);
                        }
                    }
                }
            },
        }
    }

    /// Declare several topics under one method code.
    pub fn add_topics(&mut self, topics: Vec<String>, method: u32)
        requires
            old(self).wf(),
        ensures
            final(self).wf(),
            forall|i: int| 0 <= i < topics@.len() ==> final(self).has_topic(topics@[i]@),
            forall|k: Seq<char>|
                (forall|i: int| 0 <= i < topics@.len() ==> topics@[i]@ != k) ==> final(self).has_topic(k) == old(self).has_topic(k) && final(self).method_of(k) == old(self).method_of(k) && final(self).subs_of(k) == old(self).subs_of(k),
    {
        let mut idx: usize = 0;
        let n = topics.len();
        while idx < n
            invariant
                0 <= idx <= n,
                self.wf(),
                forall|i: int| 0 <= i < idx ==> self.has_topic(topics@[i]@),
                forall|k: Seq<char>|
                    (forall|i: int| 0 <= i < topics@.len() ==> topics@[i]@ != k) ==> self.has_topic(
                        k,
                    ) == old(self).has_topic(k) && self.method_of(k) == old(self).method_of(k)
                        && self.subs_of(k) == old(self).subs_of(k),
            decreases n - idx,
        {
            let t = topics[idx].clone();
            self.add_topic(t, method);
            idx += 1;
        }
    }

    /// Join `connection_id` to a topic with a fresh cursor at 0; subscribing
    /// twice has no additional effect. An unknown topic is created bare,
    /// with method code 0, to be declared by `add_topic` later.
    pub fn subscribe(&mut self, topic: String, connection_id: ConnectionId)
        requires
            old(self).wf(),
        ensures
            final(self).wf(),
            final(self).has_topic(topic@),
            final(self).method_of(topic@) == if old(self).has_topic(topic@) {
                old(self).method_of(topic@)
            } else {
                0u32
            },
            final(self).subs_of(topic@) == if sub_lookup(old(self).subs_of(topic@), connection_id)
                is Some {
                old(self).subs_of(topic@)
            } else {
                old(self).subs_of(topic@).push(
                    SubscriberContext { connection_id, stream_seq: 0 },
                )
            },
            forall|k: Seq<char>|
                k != topic@ ==> final(self).has_topic(k) == old(self).has_topic(k) && final(self).method_of(k) == old(self).method_of(k) && final(self).subs_of(k) == old(self).subs_of(k),
    {
        let sub = SubscriberContext { connection_id, stream_seq: 0 };
        match self.find_topic(topic.as_str()) {
            Some(i) => {
                let ghost pre = self.topics@;
                let ghost subs0 = self.topics@[i as int].1.subscribers@;
                let mut found = false;
                let n = self.topics[i].1.subscribers.len();
                let mut j: usize = 0;
                while j < n && !found
                    invariant
                        0 <= j <= n,
                        found ==> sub_lookup(subs0, connection_id) is Some,
                        !found ==> forall|k: int|
                            0 <= k < j ==> subs0[k].connection_id != connection_id,
                    decreases n - j + (if found { 0int } else { 1int }),
                {
                    if self.topics[i].1.subscribers[j].connection_id == connection_id {
                        proof {
                            lemma_sub_lookup_at(subs0, connection_id, j as int);
                        }
                        found = true;
                    } else {
                        j += 1;
                    }
                }
                if !found {
                    proof {
                        lemma_sub_lookup_none(subs0, connection_id);
                        lemma_sub_lookup_has(subs0, connection_id);
                    }
                    self.topics[i].1.subscribers.push(sub);
                    proof {
                        let e2 = self.topics@[i as int];
                        assert(self.topics@ =~= pre.update(i as int, e2));
                        assert forall|k: Seq<char>| k != topic@ implies lookup_topic(
                            self.topics@,
                            k,
                        ) == lookup_topic(pre, k) by {
                            lemma_lookup_topic_update_other(pre, i as int, e2, k);
                        }
                        lemma_lookup_topic_at(self.topics@, topic@, i as int);
                        lemma_lookup_topic_at(pre, topic@, i as int);
                    }
                }
            },
            None => {
                let ghost pre = self.topics@;
                let mut subs: Vec<SubscriberContext> = Vec::new();
                subs.push(sub);
                let entry = (topic, Subscribers { subscribers: subs, method: 0 });
                let ghost ge = entry;
                self.topics.push(entry);
                proof {
                    assert(self.topics@ =~= pre.push(ge));
                    assert forall|k: Seq<char>| true implies lookup_topic(self.topics@, k)
                        == if lookup_topic(pre, k) is Some {
                        lookup_topic(pre, k)
                    } else if ge.0@ == k {
                        Some((ge.1.method, ge.1.subscribers@))
                    } else {
                        None
                    } by {
                        lemma_lookup_topic_push(pre, ge, k);
                    }
                    lemma_lookup_topic_has(pre, ge.0@);
                    assert forall|i: int, j: int|
                        0 <= i < j < self.topics@.len() implies self.topics@[i].0@
                        != self.topics@[j].0@ by {
                        if j == self.topics@.len() - 1 {
                            assert(self.topics@[i] == pre[i]);
                        }
                    }
                    assert(ge.1.subscribers@ =~= Seq::<SubscriberContext>::empty().push(sub));
                }
            },
        }
    }

    /// Leave a topic; a no-op if the connection is not subscribed or the
    /// topic does not exist.
    pub fn unsubscribe(&mut self, topic: &str, connection_id: ConnectionId)
        requires
            old(self).wf(),
        ensures
            final(self).wf(),
            final(self).subs_of(topic@) == sub_remove(old(self).subs_of(topic@), connection_id),
            final(self).has_topic(topic@) == old(self).has_topic(topic@),
            final(self).method_of(topic@) == old(self).method_of(topic@),
            forall|k: Seq<char>|
                k != topic@ ==> final(self).has_topic(k) == old(self).has_topic(k) && final(self).method_of(k) == old(self).method_of(k) && final(self).subs_of(k) == old(self).subs_of(k),
    {
        match self.find_topic(topic) {
            Some(i) => {
                let ghost pre = self.topics@;
                let ghost subs0 = self.topics@[i as int].1.subscribers@;
                let n = self.topics[i].1.subscribers.len();
                let mut j: usize = 0;
                while j < n
                    invariant
                        0 <= j <= n,
                        i < self.topics@.len(),
                        self.topics@ == old(self).topics@,
                        subs0 == self.topics@[i as int].1.subscribers@,
                        n == subs0.len(),
                        forall|k: int| 0 <= k < j ==> subs0[k].connection_id != connection_id,
                    decreases n - j,
                {
                    if self.topics[i].1.subscribers[j].connection_id == connection_id {
                        proof {
                            lemma_sub_remove_at(subs0, connection_id, j as int);
                        }
                        self.topics[i].1.subscribers.remove(j);
                        proof {
                            let e2 = self.topics@[i as int];
                            assert(self.topics@ =~= pre.update(i as int, e2));
                            assert forall|k: Seq<char>| k != topic@ implies lookup_topic(
                                self.topics@,
                                k,
                            ) == lookup_topic(pre, k) by {
                                lemma_lookup_topic_update_other(pre, i as int, e2, k);
                            }
                            lemma_lookup_topic_at(self.topics@, topic@, i as int);
                            lemma_lookup_topic_at(pre, topic@, i as int);
                            assert forall|t: int, a: int, b: int|
                                0 <= t < self.topics@.len() && 0 <= a < b
                                    < self.topics@[t].1.subscribers@.len() implies self.topics@[t].1.subscribers@[a].connection_id
                                != self.topics@[t].1.subscribers@[b].connection_id by {
                                if t == i {
                                    assert(self.topics@[t].1.subscribers@ == subs0.remove(
                                        j as int,
                                    ));
                                    if a < j {
                                        assert(subs0.remove(j as int)[a] == subs0[a]);
                                    } else {
                                        assert(subs0.remove(j as int)[a] == subs0[a + 1]);
                                    }
                                    if b < j {
                                        assert(subs0.remove(j as int)[b] == subs0[b]);
                                    } else {
                                        assert(subs0.remove(j as int)[b] == subs0[b + 1]);
                                    }
                                }
                            }
                        }
                        return ;
                    }
                    j += 1;
                }
                proof {
                    lemma_sub_remove_none(subs0, connection_id);
                }
            },
            None => {},
        }
    }

    /// Join several topics at once.
    pub fn subscribe_multi(&mut self, topics: Vec<String>, connection_id: ConnectionId)
        requires
            old(self).wf(),
        ensures
            final(self).wf(),
            forall|i: int|
                0 <= i < topics@.len() ==> final(self).has_topic(topics@[i]@) && sub_lookup(
                    final(self).subs_of(topics@[i]@),
                    connection_id,
                ) is Some,
            forall|k: Seq<char>|
                (forall|i: int| 0 <= i < topics@.len() ==> topics@[i]@ != k) ==> final(self).has_topic(k) == old(self).has_topic(k) && final(self).method_of(k) == old(self).method_of(k) && final(self).subs_of(k) == old(self).subs_of(k),
    {
        let mut idx: usize = 0;
        let n = topics.len();
        while idx < n
            invariant
                0 <= idx <= n,
                self.wf(),
                forall|i: int|
                    0 <= i < idx ==> self.has_topic(topics@[i]@) && sub_lookup(
                        self.subs_of(topics@[i]@),
                        connection_id,
                    ) is Some,
                forall|k: Seq<char>|
                    (forall|i: int| 0 <= i < topics@.len() ==> topics@[i]@ != k) ==> self.has_topic(
                        k,
                    ) == old(self).has_topic(k) && self.method_of(k) == old(self).method_of(k)
                        && self.subs_of(k) == old(self).subs_of(k),
            decreases n - idx,
        {
            let t = topics[idx].clone();
            let ghost pre_subs = self.subs_of(t@);
            self.subscribe(t, connection_id);
            proof {
                if sub_lookup(pre_subs, connection_id) is None {
                    lemma_sub_lookup_push(
                        pre_subs,
                        SubscriberContext { connection_id, stream_seq: 0 },
                        connection_id,
                    );
                }
            }
            idx += 1;
        }
    }

    /// Leave several topics at once.
    pub fn unsubscribe_multi(&mut self, topics: Vec<String>, connection_id: ConnectionId)
        requires
            old(self).wf(),
        ensures
            final(self).wf(),
            forall|k: Seq<char>|
                (forall|i: int| 0 <= i < topics@.len() ==> topics@[i]@ != k) ==> final(self).has_topic(k) == old(self).has_topic(k) && final(self).method_of(k) == old(self).method_of(k) && final(self).subs_of(k) == old(self).subs_of(k),
    {
        let mut idx: usize = 0;
        let n = topics.len();
        while idx < n
            invariant
                0 <= idx <= n,
                self.wf(),
                forall|k: Seq<char>|
                    (forall|i: int| 0 <= i < topics@.len() ==> topics@[i]@ != k) ==> self.has_topic(
                        k,
                    ) == old(self).has_topic(k) && self.method_of(k) == old(self).method_of(k)
                        && self.subs_of(k) == old(self).subs_of(k),
            decreases n - idx,
        {
            self.unsubscribe(topics[idx].as_str(), connection_id);
            idx += 1;
        }
    }

    /// Publish `msg` on a topic: build each subscriber its own `Stream`
    /// response carrying that subscriber's cursor, advance the cursor by
    /// one, deliver via the toolbox, and after the fan-out remove every
    /// subscriber whose delivery reported the connection gone. Publishing to
    /// an unknown topic is a no-op, not an error.
    pub fn publish(&mut self, toolbox: &mut Toolbox, topic: &str, msg: &JsonValue)
        requires
            old(self).wf(),
            old(toolbox).wf(),
        ensures
            final(self).wf(),
            final(toolbox).wf(),
            final(toolbox).delivery == old(toolbox).delivery,
            forall|c: ConnectionId|
                final(toolbox).states.has_conn(c) == old(toolbox).states.has_conn(c),
            !old(self).has_topic(topic@) ==> *final(self) == *old(self) && *final(toolbox) == *old(toolbox),
            old(self).has_topic(topic@) ==> {
                &&& published(
                    old(self).subs_of(topic@),
                    old(self).method_of(topic@),
                    topic@,
                    msg@,
                    *old(toolbox),
                    *final(toolbox),
                )
                &&& final(self).subs_of(topic@) == publish_survivors(
                    old(self).subs_of(topic@),
                    *old(toolbox),
                )
                &&& final(self).has_topic(topic@)
                &&& final(self).method_of(topic@) == old(self).method_of(topic@)
                &&& forall|k: Seq<char>|
                    k != topic@ ==> final(self).has_topic(k) == old(self).has_topic(k) && final(self).method_of(k) == old(self).method_of(k) && final(self).subs_of(k) == old(self).subs_of(k)
            },
    {
        match self.find_topic(topic) {
            Some(i) => {
                let ghost pre = self.topics@;
                let ghost subs0 = self.topics@[i as int].1.subscribers@;
                let ghost tb0 = *toolbox;
                let method = self.topics[i].1.method;
                let n = self.topics[i].1.subscribers.len();
                let mut new_subs: Vec<SubscriberContext> = Vec::new();
                let mut k: usize = 0;
                proof {
                    assert(subs0.subrange(0, 0) =~= Seq::<SubscriberContext>::empty());
                }
                while k < n
                    invariant
                        0 <= k <= n,
                        i < self.topics@.len(),
                        self.topics@ == pre,
                        subs0 == self.topics@[i as int].1.subscribers@,
                        n == subs0.len(),
                        method == self.topics@[i as int].1.method,
                        toolbox.wf(),
                        toolbox.delivery == tb0.delivery,
                        forall|c: ConnectionId|
                            toolbox.states.has_conn(c) == tb0.states.has_conn(c),
                        new_subs@ == publish_survivors(subs0.subrange(0, k as int), tb0),
                        forall|a: int|
                            0 <= a < new_subs@.len() ==> exists|b: int|
                                0 <= b < k && subs0[b].connection_id
                                    == #[trigger] new_subs@[a].connection_id,
                        forall|a: int, b: int|
                            0 <= a < b < new_subs@.len() ==> new_subs@[a].connection_id
                                != new_subs@[b].connection_id,
                        forall|c: ConnectionId|
                            match #[trigger] sub_lookup(subs0.subrange(0, k as int), c) {
                                Some(s) => if send_reaches(tb0, c) {
                                    toolbox.states.queue_of(c) == tb0.states.queue_of(c)
                                        + appended_msgs(
                                        tb0.delivery,
                                        stream_msg_model(method, s, topic@, msg@),
                                    )
                                } else {
                                    toolbox.states.queue_of(c) == tb0.states.queue_of(c)
                                },
                                None => toolbox.states.queue_of(c) == tb0.states.queue_of(c),
                            },
                    decreases n - k,
                {
                    let s = self.topics[i].1.subscribers[k];
                    let resource = self.topics[i].0.clone();
                    let data = msg.duplicate();
                    let resp = WsResponse::Stream(
                        WsStreamResponse { method, stream_seq: s.stream_seq, resource, data },
                    );
                    proof {
                        assert(resp@ == stream_msg_model(method, s, topic@, msg@));
                        assert(forall|b: int|
                            0 <= b < k ==> subs0[b].connection_id != s.connection_id);
                        lemma_sub_lookup_none(subs0.subrange(0, k as int), s.connection_id);
                    }
                    let ok = toolbox.send(s.connection_id, resp);
                    if ok {
                        let bumped = SubscriberContext {
                            connection_id: s.connection_id,
                            stream_seq: if s.stream_seq == u32::MAX {
                                0
                            } else {
                                s.stream_seq + 1
                            },
                        };
                        new_subs.push(bumped);
                    }
                    proof {
                        assert(subs0.subrange(0, k + 1) =~= subs0.subrange(0, k as int).push(s));
                        lemma_publish_survivors_push(subs0.subrange(0, k as int), s, tb0);
                        assert(new_subs@ =~= publish_survivors(subs0.subrange(0, k + 1), tb0));
                        assert forall|c: ConnectionId| true implies match #[trigger] sub_lookup(
                            subs0.subrange(0, k + 1),
                            c,
                        ) {
                            Some(s2) => if send_reaches(tb0, c) {
                                toolbox.states.queue_of(c) == tb0.states.queue_of(c)
                                    + appended_msgs(
                                    tb0.delivery,
                                    stream_msg_model(method, s2, topic@, msg@),
                                )
                            } else {
                                toolbox.states.queue_of(c) == tb0.states.queue_of(c)
                            },
                            None => toolbox.states.queue_of(c) == tb0.states.queue_of(c),
                        } by {
                            lemma_sub_lookup_push(subs0.subrange(0, k as int), s, c);
                        }
                    }
                    k += 1;
                }
                proof {
                    assert(subs0.subrange(0, n as int) =~= subs0);
                }
                let ghost new_subs_snap = new_subs@;
                self.topics[i].1.subscribers = new_subs;
                proof {
                    let e2 = self.topics@[i as int];
                    assert(self.topics@ =~= pre.update(i as int, e2));
                    assert(e2.1.subscribers@ == new_subs_snap);
                    assert forall|kk: Seq<char>| kk != topic@ implies lookup_topic(
                        self.topics@,
                        kk,
                    ) == lookup_topic(pre, kk) by {
                        lemma_lookup_topic_update_other(pre, i as int, e2, kk);
                    }
                    lemma_lookup_topic_at(self.topics@, topic@, i as int);
                    lemma_lookup_topic_at(pre, topic@, i as int);
                }
            },
            None => {},
        }
    }

    /// The connection ids currently subscribed to a topic, in registration
    /// order.
    pub fn subscriber_ids(&self, topic: &str) -> (r: Vec<ConnectionId>)
        ensures
            r@.len() == self.subs_of(topic@).len(),
            forall|i: int|
                0 <= i < r@.len() ==> r@[i] == self.subs_of(topic@)[i].connection_id,
    {
        let mut r: Vec<ConnectionId> = Vec::new();
        match self.find_topic(topic) {
            Some(i) => {
                let n = self.topics[i].1.subscribers.len();
                let mut j: usize = 0;
                while j < n
                    invariant
                        0 <= j <= n,
                        r@.len() == j,
                        forall|k: int|
                            0 <= k < j ==> r@[k] == self.subs_of(topic@)[k].connection_id,
                    decreases n - j,
                {
                    r.push(self.topics[i].1.subscribers[j].connection_id);
                    j += 1;
                }
                r
            },
            None => r,
        }
    }
}

/// Law: one publish advances exactly the reachable subscribers. A subscriber
/// whose connection the toolbox still reaches stays subscribed with its
/// cursor advanced by exactly one; a subscriber whose delivery failed — the
/// connection gone — is absent from the set after the publish; and either
/// way the outcome for one connection is independent of every other
/// subscriber.
pub proof fn lemma_publish_cursor(subs: Seq<SubscriberContext>, tb: Toolbox, id: ConnectionId)
    requires
        forall|i: int, j: int|
            0 <= i < j < subs.len() ==> subs[i].connection_id != subs[j].connection_id,
    ensures
        sub_lookup(publish_survivors(subs, tb), id) == (match sub_lookup(subs, id) {
            Some(s) => if send_reaches(tb, id) {
                Some(
                    SubscriberContext {
                        connection_id: s.connection_id,
                        stream_seq: next_seq(s.stream_seq),
                    },
                )
            } else {
                None::<SubscriberContext>
            },
            None => None::<SubscriberContext>,
        }),
    decreases subs.len(),
{
    if subs.len() == 0 {
    } else {
        let h = subs[0];
        let tail = subs.drop_first();
        assert(forall|i: int, j: int|
            0 <= i < j < tail.len() ==> tail[i].connection_id != tail[j].connection_id);
        lemma_publish_cursor(tail, tb, id);
        if h.connection_id == id {
            assert(forall|k: int| 0 <= k < tail.len() ==> tail[k].connection_id != id);
            lemma_sub_lookup_none(tail, id);
            if send_reaches(tb, id) {
                let bumped = SubscriberContext {
                    connection_id: h.connection_id,
                    stream_seq: next_seq(h.stream_seq),
                };
                assert((seq![bumped] + publish_survivors(tail, tb))[0] == bumped);
            }
        } else {
            if send_reaches(tb, h.connection_id) {
                let bumped = SubscriberContext {
                    connection_id: h.connection_id,
                    stream_seq: next_seq(h.stream_seq),
                };
                let survivors = seq![bumped] + publish_survivors(tail, tb);
                assert(survivors[0] == bumped);
                assert(survivors.drop_first() =~= publish_survivors(tail, tb));
            }
        }
    }
}

/// Law: a publish on a topic with N subscribers, all of whose connections
/// are still reachable, delivers to all N of them: the subscriber set keeps
/// its size and order, and every cursor is advanced by exactly one.
pub proof fn lemma_publish_all_live(subs: Seq<SubscriberContext>, tb: Toolbox)
    requires
        forall|i: int| 0 <= i < subs.len() ==> send_reaches(tb, #[trigger] subs[i].connection_id),
    ensures
        publish_survivors(subs, tb).len() == subs.len(),
        forall|i: int|
            0 <= i < subs.len() ==> #[trigger] publish_survivors(subs, tb)[i] == (SubscriberContext {
                connection_id: subs[i].connection_id,
                stream_seq: next_seq(subs[i].stream_seq),
            }),
    decreases subs.len(),
{
    if subs.len() > 0 {
        let tail = subs.drop_first();
        lemma_publish_all_live(tail, tb);
        let bumped = SubscriberContext {
            connection_id: subs[0].connection_id,
            stream_seq: next_seq(subs[0].stream_seq),
        };
        let survivors = seq![bumped] + publish_survivors(tail, tb);
        assert(survivors[0] == bumped);
        assert forall|i: int| 0 < i < subs.len() implies #[trigger] survivors[i]
            == SubscriberContext {
            connection_id: subs[i].connection_id,
            stream_seq: next_seq(subs[i].stream_seq),
        } by {
            assert(survivors[i] == publish_survivors(tail, tb)[i - 1]);
            assert(tail[i - 1] == subs[i]);
        }
    }
}

} // verus!
