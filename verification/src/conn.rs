//! Per-connection outbound state: for every registered connection, the queue
//! of responses waiting to be flushed to its transport. Lookup is by
//! connection id; ids are unique while a connection is registered.
use crate::basics::{ConnectionId, WsResponse, WsResponseModel};
use vstd::prelude::*;

verus! {

/// The outbound side of one registered connection.
#[derive(Debug)]
pub struct WsStreamState {
    pub connection_id: ConnectionId,
    pub message_queue: Vec<WsResponse>,
}

/// The models of the queued responses, in queue order.
pub open spec fn resp_models(q: Seq<WsResponse>) -> Seq<WsResponseModel> {
    q.map_values(|m: WsResponse| m@)
}

/// The queue registered under `id`, first match.
spec fn lookup_state(s: Seq<WsStreamState>, id: ConnectionId) -> Option<Seq<WsResponseModel>>
    decreases s.len(),
{
    if s.len() == 0 {
        None
    } else if s[0].connection_id == id {
        Some(resp_models(s[0].message_queue@))
    } else {
        lookup_state(s.drop_first(), id)
    }
}

proof fn lemma_lookup_at(s: Seq<WsStreamState>, id: ConnectionId, i: int)
    requires
        0 <= i < s.len(),
        s[i].connection_id == id,
        forall|k: int| 0 <= k < i ==> s[k].connection_id != id,
    ensures
        lookup_state(s, id) == Some(resp_models(s[i].message_queue@)),
    decreases i,
{
    if i > 0 {
        lemma_lookup_at(s.drop_first(), id, i - 1);
    }
}

proof fn lemma_lookup_none(s: Seq<WsStreamState>, id: ConnectionId)
    requires
        forall|k: int| 0 <= k < s.len() ==> s[k].connection_id != id,
    ensures
        lookup_state(s, id) is None,
    decreases s.len(),
{
    if s.len() > 0 {
        lemma_lookup_none(s.drop_first(), id);
    }
}

proof fn lemma_lookup_has(s: Seq<WsStreamState>, id: ConnectionId)
    ensures
        (lookup_state(s, id) is Some) <==> exists|k: int|
            0 <= k < s.len() && #[trigger] s[k].connection_id == id,
    decreases s.len(),
{
    if s.len() > 0 {
        lemma_lookup_has(s.drop_first(), id);
        if lookup_state(s, id) is Some {
            if s[0].connection_id != id {
                let k = choose|k: int|
                    0 <= k < s.drop_first().len() && #[trigger] s.drop_first()[k].connection_id
                        == id;
                assert(s[k + 1].connection_id == id);
            }
        }
        if exists|k: int| 0 <= k < s.len() && #[trigger] s[k].connection_id == id {
            let k = choose|k: int| 0 <= k < s.len() && #[trigger] s[k].connection_id == id;
            if k > 0 {
                assert(s.drop_first()[k - 1].connection_id == id);
            }
        }
    }
}

proof fn lemma_lookup_update_other(
    s: Seq<WsStreamState>,
    i: int,
    e2: WsStreamState,
    id2: ConnectionId,
)
    requires
        0 <= i < s.len(),
        e2.connection_id == s[i].connection_id,
        id2 != s[i].connection_id,
    ensures
        lookup_state(s.update(i, e2), id2) == lookup_state(s, id2),
    decreases i,
{
    let s2 = s.update(i, e2);
    if i == 0 {
        assert(s2.drop_first() =~= s.drop_first());
    } else {
        assert(s2.drop_first() =~= s.drop_first().update(i - 1, e2));
        lemma_lookup_update_other(s.drop_first(), i - 1, e2, id2);
    }
}

proof fn lemma_lookup_remove(s: Seq<WsStreamState>, i: int, id2: ConnectionId)
    requires
        0 <= i < s.len(),
        id2 != s[i].connection_id,
    ensures
        lookup_state(s.remove(i), id2) == lookup_state(s, id2),
    decreases i,
{
    if i == 0 {
        assert(s.remove(0) =~= s.drop_first());
    } else {
        assert(s.remove(i).drop_first() =~= s.drop_first().remove(i - 1));
        lemma_lookup_remove(s.drop_first(), i - 1, id2);
    }
}

proof fn lemma_lookup_push(s: Seq<WsStreamState>, e: WsStreamState, id2: ConnectionId)
    ensures
        lookup_state(s.push(e), id2) == if lookup_state(s, id2) is Some {
            lookup_state(s, id2)
        } else if e.connection_id == id2 {
            Some(resp_models(e.message_queue@))
        } else {
            None
        },
    decreases s.len(),
{
    if s.len() == 0 {
        assert(s.push(e)[0] == e);
        assert(s.push(e).drop_first() =~= Seq::<WsStreamState>::empty());
        if e.connection_id == id2 {
            assert(lookup_state(s.push(e), id2) == Some(resp_models(e.message_queue@)));
        } else {
            assert(lookup_state(s.push(e), id2) == lookup_state(s.push(e).drop_first(), id2));
            assert(lookup_state(s.push(e).drop_first(), id2) is None);
        }
    } else {
        assert(s.push(e)[0] == s[0]);
        assert(s.push(e).drop_first() =~= s.drop_first().push(e));
        lemma_lookup_push(s.drop_first(), e, id2);
        if s[0].connection_id != id2 {
            assert(lookup_state(s.push(e), id2) == lookup_state(s.drop_first().push(e), id2));
            assert(lookup_state(s, id2) == lookup_state(s.drop_first(), id2));
        }
    }
}

/// The registry of connections and their outbound queues.
pub struct WebsocketStates {
    states: Vec<WsStreamState>,
}

impl WebsocketStates {
    /// Connection ids are unique while registered.
    pub closed spec fn wf(&self) -> bool {
        forall|i: int, j: int|
            0 <= i < j < self.states@.len() ==> self.states@[i].connection_id
                != self.states@[j].connection_id
    }

    /// Whether `id` is currently registered.
    pub closed spec fn has_conn(&self, id: ConnectionId) -> bool {
        lookup_state(self.states@, id) is Some
    }

    /// The models of the responses queued for `id`, oldest first.
    pub closed spec fn queue_of(&self, id: ConnectionId) -> Seq<WsResponseModel> {
        match lookup_state(self.states@, id) {
            Some(q) => q,
            None => Seq::empty(),
        }
    }

    pub fn new() -> (r: Self)
        ensures
            r.wf(),
            forall|c: ConnectionId| !r.has_conn(c),
    {
        let r = Self { states: Vec::new() };
        proof {
            assert forall|c: ConnectionId| !r.has_conn(c) by {
                lemma_lookup_none(r.states@, c);
            }
        }
        r
    }

    fn find_index(&self, id: ConnectionId) -> (r: Option<usize>)
        ensures
            match r {
                Some(i) => i < self.states@.len() && self.states@[i as int].connection_id == id
                    && (forall|k: int| 0 <= k < i ==> self.states@[k].connection_id != id)
                    && self.has_conn(id) && self.queue_of(id) == resp_models(
                    self.states@[i as int].message_queue@,
                ),
                None => !self.has_conn(id),
            },
    {
        let n = self.states.len();
        let mut i: usize = 0;
        while i < n
            invariant
                0 <= i <= n,
                forall|k: int| 0 <= k < i ==> self.states@[k].connection_id != id,
            decreases n - i,
        {
            if self.states[i].connection_id == id {
                proof {
                    lemma_lookup_at(self.states@, id, i as int);
                }
                return Some(i);
            }
            i += 1;
        }
        proof {
            lemma_lookup_none(self.states@, id);
        }
        None
    }

    /// Whether `id` is currently registered.
    pub fn contains_conn(&self, id: ConnectionId) -> (r: bool)
        ensures
            r == self.has_conn(id),
    {
        match self.find_index(id) {
            Some(_) => true,
            None => false,
        }
    }

    /// Register `id` with an empty outbound queue; a previous registration
    /// under the same id is discarded.
    pub fn insert(&mut self, id: ConnectionId)
        requires
            old(self).wf(),
        ensures
            final(self).wf(),
            final(self).has_conn(id),
            final(self).queue_of(id) == Seq::<WsResponseModel>::empty(),
            forall|c: ConnectionId| c != id ==> final(self).has_conn(c) == old(self).has_conn(c),
            forall|c: ConnectionId| c != id ==> final(self).queue_of(c) == old(self).queue_of(c),
    {
        self.remove(id);
        let ghost pre = self.states@;
        let entry = WsStreamState { connection_id: id, message_queue: Vec::new() };
        let ghost ge = entry;
        proof {
            lemma_lookup_has(pre, id);
        }
        self.states.push(entry);
        proof {
            assert(self.states@ =~= pre.push(ge));
            assert forall|c: ConnectionId| true implies lookup_state(self.states@, c)
                == if lookup_state(pre, c) is Some {
                lookup_state(pre, c)
            } else if c == id {
                Some(resp_models(ge.message_queue@))
            } else {
                None
            } by {
                lemma_lookup_push(pre, ge, c);
            }
            assert(resp_models(ge.message_queue@) =~= Seq::<WsResponseModel>::empty());
            lemma_lookup_has(pre, id);
            assert forall|i: int, j: int|
                0 <= i < j < self.states@.len() implies self.states@[i].connection_id
                != self.states@[j].connection_id by {
                if j == self.states@.len() - 1 {
                    assert(self.states@[i] == pre[i]);
                }
            }
        }
    }

    /// Deregister `id`; a no-op if it is not registered.
    pub fn remove(&mut self, id: ConnectionId)
        requires
            old(self).wf(),
        ensures
            final(self).wf(),
            !final(self).has_conn(id),
            forall|c: ConnectionId| c != id ==> final(self).has_conn(c) == old(self).has_conn(c),
            forall|c: ConnectionId| c != id ==> final(self).queue_of(c) == old(self).queue_of(c),
    {
        let idx = self.find_index(id);
        match idx {
            Some(i) => {
                let ghost pre = self.states@;
                self.states.remove(i);
                proof {
                    assert forall|c: ConnectionId| c != id implies lookup_state(self.states@, c)
                        == lookup_state(pre, c) by {
                        lemma_lookup_remove(pre, i as int, c);
                    }
                    assert forall|k: int|
                        0 <= k < self.states@.len() implies self.states@[k].connection_id
                        != id by {
                        if k < i {
                            assert(self.states@[k] == pre[k]);
                        } else {
                            assert(self.states@[k] == pre[k + 1]);
                        }
                    }
                    lemma_lookup_none(self.states@, id);
                }
            },
            None => {},
        }
    }

    /// Append `resp` to the queue of `id`, reporting `false` if the
    /// connection is not registered.
    pub fn push_msg(&mut self, id: ConnectionId, resp: WsResponse) -> (r: bool)
        requires
            old(self).wf(),
        ensures
            final(self).wf(),
            r == old(self).has_conn(id),
            forall|c: ConnectionId| final(self).has_conn(c) == old(self).has_conn(c),
            forall|c: ConnectionId| c != id ==> final(self).queue_of(c) == old(self).queue_of(c),
            r ==> final(self).queue_of(id) == old(self).queue_of(id).push(resp@),
            !r ==> final(self).queue_of(id) == old(self).queue_of(id),
    {
        let ghost rv = resp@;
        match self.find_index(id) {
            Some(i) => {
                let ghost pre = self.states@;
                self.states[i].message_queue.push(resp);
                proof {
                    let e2 = self.states@[i as int];
                    assert(self.states@ =~= pre.update(i as int, e2));
                    assert(resp_models(e2.message_queue@) =~= resp_models(
                        pre[i as int].message_queue@,
                    ).push(rv));
                    assert forall|c: ConnectionId| c != id implies lookup_state(self.states@, c)
                        == lookup_state(pre, c) by {
                        lemma_lookup_update_other(pre, i as int, e2, c);
                    }
                    lemma_lookup_at(self.states@, id, i as int);
                    lemma_lookup_at(pre, id, i as int);
                    assert forall|i2: int, j2: int|
                        0 <= i2 < j2 < self.states@.len() implies self.states@[i2].connection_id
                        != self.states@[j2].connection_id by {}
                }
                true
            },
            None => false,
        }
    }

    /// Take the oldest queued response for `id`, if any.
    pub fn pop_msg(&mut self, id: ConnectionId) -> (r: Option<WsResponse>)
        requires
            old(self).wf(),
        ensures
            final(self).wf(),
            forall|c: ConnectionId| final(self).has_conn(c) == old(self).has_conn(c),
            forall|c: ConnectionId| c != id ==> final(self).queue_of(c) == old(self).queue_of(c),
            match r {
                Some(m) => old(self).queue_of(id).len() > 0 && m@ == old(self).queue_of(id)[0]
                    && final(self).queue_of(id) == old(self).queue_of(id).drop_first(),
                None => old(self).queue_of(id).len() == 0 && final(self).queue_of(id) == old(
                    self,
                ).queue_of(id),
            },
    {
        match self.find_index(id) {
            Some(i) => {
                if self.states[i].message_queue.len() == 0 {
                    return None;
                }
                let ghost pre = self.states@;
                let m = self.states[i].message_queue.remove(0);
                proof {
                    let e2 = self.states@[i as int];
                    assert(self.states@ =~= pre.update(i as int, e2));
                    assert(resp_models(e2.message_queue@) =~= resp_models(
                        pre[i as int].message_queue@,
                    ).drop_first());
                    assert forall|c: ConnectionId| c != id implies lookup_state(self.states@, c)
                        == lookup_state(pre, c) by {
                        lemma_lookup_update_other(pre, i as int, e2, c);
                    }
                    lemma_lookup_at(self.states@, id, i as int);
                    lemma_lookup_at(pre, id, i as int);
                    assert(resp_models(pre[i as int].message_queue@)[0] == pre[i as int].message_queue@[0]@);
                }
                Some(m)
            },
            None => None,
        }
    }
}

} // verus!
