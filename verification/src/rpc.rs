use vstd::prelude::*;

verus! {

/// Names a message that waits for an answer.
#[derive(Debug, Clone, Copy, PartialEq, Eq, Structural, Hash)]
pub struct MessageId(pub i32);

/// Names a session: starting a source once makes one, and a resume goes
/// back to it.
#[derive(Debug, Clone, Copy, PartialEq, Eq, Structural, Hash)]
pub struct SessionId(pub i32);

impl MessageId {
    /// The id that comes after this one.
    pub fn next(&self) -> (r: Self)
        requires
            self.0 < i32::MAX,
        ensures
            r.0 == self.0 + 1,
    {
        MessageId(self.0 + 1)
    }
}

impl SessionId {
    /// The id that comes after this one.
    pub fn next(&self) -> (r: Self)
        requires
            self.0 < i32::MAX,
        ensures
            r.0 == self.0 + 1,
    {
        SessionId(self.0 + 1)
    }
}

/// A message from the editor.
#[derive(Debug)]
pub struct MsgDe {
    pub id: Option<MessageId>,
    pub body: MsgDeBody,
}

/// What a message from the editor asks or answers.
#[derive(Debug)]
pub enum MsgDeBody {
    Source(SourceRequest),
    Query(QueryRequest),
    Preload(Result<PreloadResponse, PreloadError>),
}

impl Clone for MsgDeBody {
    fn clone(&self) -> (r: Self)
        ensures
            r == *self,
    {
        match self {
            MsgDeBody::Source(r) => MsgDeBody::Source(r.clone()),
            MsgDeBody::Query(r) => MsgDeBody::Query(r.clone()),
            MsgDeBody::Preload(Ok(r)) => MsgDeBody::Preload(Ok(*r)),
            MsgDeBody::Preload(Err(e)) => MsgDeBody::Preload(Err(*e)),
        }
    }
}

/// Asks to start the source `name` in a session.
#[derive(Debug)]
pub struct SourceRequest {
    pub session: SessionId,
    pub name: String,
}

impl Clone for SourceRequest {
    fn clone(&self) -> (r: Self)
        ensures
            r == *self,
    {
        SourceRequest { session: self.session, name: self.name.clone() }
    }
}

/// The answer to a source request that succeeded.
#[derive(Debug, Clone)]
pub struct SourceResponse {}

/// Why a source request failed.
#[derive(Debug, Clone)]
pub enum SourceError {
    SourceNotFound(String),
}

/// Asks to match the items of a session against `query`.
#[derive(Debug)]
pub struct QueryRequest {
    pub session: SessionId,
    pub query: String,
}

impl Clone for QueryRequest {
    fn clone(&self) -> (r: Self)
        ensures
            r == *self,
    {
        QueryRequest { session: self.session, query: self.query.clone() }
    }
}

/// The answer to a query that succeeded.
#[derive(Debug, Clone)]
pub struct QueryResponse {}

/// Why a query failed.
#[derive(Debug, Clone)]
pub struct QueryError {}

/// The editor took the preloaded items.
#[derive(Debug, Clone, Copy, PartialEq, Eq, Structural)]
pub struct PreloadResponse {}

/// The editor could not take the preloaded items.
#[derive(Debug, Clone, Copy, PartialEq, Eq, Structural)]
pub struct PreloadError {}

/// The requests sent and not answered yet, each with what is to be done
/// with its answer, and the id that the next request gets.
pub struct Requests<C> {
    id: MessageId,
    waiting: Vec<(MessageId, C)>,
}

/// The ids of the requests waiting in `w`, in the order they were sent.
pub open spec fn waiting_ids<C>(w: Seq<(MessageId, C)>) -> Seq<i32> {
    w.map_values(|p: (MessageId, C)| p.0.0)
}

/// `w` without its entry at `i`.
pub open spec fn without<C>(w: Seq<(MessageId, C)>, i: int) -> Seq<(MessageId, C)> {
    w.take(i) + w.skip(i + 1)
}

impl<C> Requests<C> {
    /// The id that the next request gets.
    pub closed spec fn next_id(&self) -> MessageId {
        self.id
    }

    /// The requests waiting for an answer, oldest first.
    pub closed spec fn waiting(&self) -> Seq<(MessageId, C)> {
        self.waiting@
    }

    /// Every waiting request has an id below the next one, and no two share one.
    pub closed spec fn wf(&self) -> bool {
        &&& self.id.0 >= 1
        &&& forall|i: int| 0 <= i < self.waiting@.len() ==> 1 <= #[trigger] self.waiting@[i].0.0 < self.id.0
        &&& forall|i: int, j: int|
            0 <= i < j < self.waiting@.len() ==> #[trigger] self.waiting@[i].0.0 != #[trigger] self.waiting@[j].0.0
    }

    /// No request sent yet; the first one gets the id 1.
    pub fn new() -> (r: Self)
        ensures
            r.wf(),
            r.next_id() == MessageId(1),
            r.waiting() == Seq::<(MessageId, C)>::empty(),
    {
        Requests { id: MessageId(1), waiting: Vec::new() }
    }

    /// The id that the next request gets.
    pub fn upcoming(&self) -> (r: MessageId)
        ensures
            r == self.next_id(),
    {
        self.id
    }

    /// Records a request whose answer goes to `callback`, and gives the id
    /// to send it under.
    pub fn register(&mut self, callback: C) -> (id: MessageId)
        requires
            old(self).wf(),
            old(self).next_id().0 < i32::MAX,
        ensures
            final(self).wf(),
            id == old(self).next_id(),
            final(self).next_id().0 == id.0 + 1,
            final(self).waiting() == old(self).waiting().push((id, callback)),
    {
        let id = self.id;
        let ghost before = self.waiting@;
        self.waiting.push((id, callback));
        self.id = id.next();
        proof {
            assert forall|i: int| 0 <= i < self.waiting@.len() implies 1 <= #[trigger] self.waiting@[i].0.0
                < self.id.0 by {
                if i < before.len() {
                    assert(self.waiting@[i] == before[i]);
                }
            }
            assert forall|i: int, j: int|
                0 <= i < j < self.waiting@.len() implies #[trigger] self.waiting@[i].0.0
                != #[trigger] self.waiting@[j].0.0 by {
                assert(self.waiting@[i] == before[i]);
                if j < before.len() {
                    assert(self.waiting@[j] == before[j]);
                }
            }
        }
        id
    }

    /// Takes out what waits for the answer to the message `id`, if a
    /// request is waiting under it; an answer comes at most once.
    pub fn answer(&mut self, id: Option<MessageId>) -> (r: Option<C>)
        requires
            old(self).wf(),
        ensures
            final(self).wf(),
            final(self).next_id() == old(self).next_id(),
            match id {
                None => r is None && final(self).waiting() == old(self).waiting(),
                Some(m) => match r {
                    None => final(self).waiting() == old(self).waiting() && !waiting_ids(
                        old(self).waiting(),
                    ).contains(m.0),
                    Some(c) => exists|i: int|
                        0 <= i < old(self).waiting().len() && old(self).waiting()[i] == (m, c)
                            && final(self).waiting() == without(old(self).waiting(), i),
                },
            },
    {
        let m = match id {
            None => {
                return None;
            },
            Some(m) => m,
        };
        let mut i: usize = 0;
        while i < self.waiting.len()
            invariant
                self.waiting@ == old(self).waiting@,
                self.id == old(self).id,
                self.wf(),
                id == Some(m),
                i <= self.waiting@.len(),
                forall|k: int| 0 <= k < i ==> #[trigger] self.waiting@[k].0.0 != m.0,
            decreases self.waiting@.len() - i,
        {
            if self.waiting[i].0.0 == m.0 {
                let ghost before = self.waiting@;
                let (_, c) = self.waiting.remove(i);
                proof {
                    assert(self.waiting@ =~= without(before, i as int));
                    assert(before[i as int] == (m, c));
                    assert forall|a: int| 0 <= a < self.waiting@.len() implies 1 <= #[trigger] self.waiting@[a].0.0
                        < self.id.0 by {
                        if a < i {
                            assert(self.waiting@[a] == before[a]);
                            assert(1 <= before[a].0.0 < self.id.0);
                        } else {
                            assert(self.waiting@[a] == before[a + 1]);
                            assert(1 <= before[a + 1].0.0 < self.id.0);
                        }
                    }
                    assert forall|a: int, b: int|
                        0 <= a < b < self.waiting@.len() implies #[trigger] self.waiting@[a].0.0
                        != #[trigger] self.waiting@[b].0.0 by {
                        let a2 = if a < i { a } else { a + 1 };
                        let b2 = if b < i { b } else { b + 1 };
                        assert(self.waiting@[a] == before[a2]);
                        assert(self.waiting@[b] == before[b2]);
                        assert(a2 < b2);
                        assert(before[a2].0.0 != before[b2].0.0);
                    }
                    assert(0 <= i < old(self).waiting().len() && old(self).waiting()[i as int] == (m, c)
                        && self.waiting() == without(old(self).waiting(), i as int));
                }
                return Some(c);
            }
            i = i + 1;
        }
        proof {
            assert forall|k: int| 0 <= k < waiting_ids(old(self).waiting()).len() implies waiting_ids(
                old(self).waiting(),
            )[k] != m.0 by {
                assert(self.waiting@[k].0.0 != m.0);
            }
        }
        None
    }
}

/// An answer reaches what its request registered, and only once: after a
/// request is registered, the answer to its id gives back its callback, and
/// a second answer to the same id gives nothing.
pub proof fn law_answer_returns_registered<C>(w: Seq<(MessageId, C)>, next: MessageId, c: C)
    requires
        next.0 >= 1,
        forall|i: int| 0 <= i < w.len() ==> 1 <= #[trigger] w[i].0.0 < next.0,
    ensures
        ({
            let w2 = w.push((next, c));
            &&& exists|i: int| 0 <= i < w2.len() && w2[i] == (next, c)
            &&& forall|i: int| 0 <= i < w2.len() && #[trigger] w2[i].0 == next ==> w2[i] == (next, c) && i
                == w.len()
            &&& !waiting_ids(without(w2, w.len() as int)).contains(next.0)
        }),
{
    let w2 = w.push((next, c));
    assert(w2[w.len() as int] == (next, c));
    assert(without(w2, w.len() as int) =~= w);
    assert forall|i: int| 0 <= i < w2.len() && #[trigger] w2[i].0 == next implies w2[i] == (next, c) && i
        == w.len() by {
        if i < w.len() {
            assert(w2[i] == w[i]);
        }
    }
    if waiting_ids(w).contains(next.0) {
        let k = choose|k: int| 0 <= k < waiting_ids(w).len() && waiting_ids(w)[k] == next.0;
        assert(w[k].0.0 < next.0);
    }
}

} // verus!
