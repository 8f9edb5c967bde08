use vstd::prelude::*;
use std::sync::Arc;
use std::collections::VecDeque;
use crate::interface::{Vars, Reusable, SourceRegistry, MatcherRegistry};
use crate::flow::{Flow, Scenario, Reuse, UsedScenario, FlowWorks};
use crate::interface::MapConvertError;

verus! {

/// Names a session; the first session is 1, since 0 reads as nothing in vim.
#[derive(Debug, Clone, Copy, PartialEq, Eq, Structural, Hash)]
pub struct SessionId(pub i32);

/// Names a flow within its session: its place among the session's flows.
#[derive(Debug, Clone, Copy, PartialEq, Eq, Structural, Hash)]
pub struct FlowId(pub usize);

/// Why a request on the sessions failed.
#[derive(Debug)]
pub enum Error {
    SourceNotFound(String),
    MatcherNotFound(String),
    ConverterNotFound(String),
    SessionNotFound(SessionId),
    FlowNotFound(SessionId, FlowId),
    /// Flow must have the same source in session
    ScenarioSource(String, String),
    /// Flow must have the same matcher in session
    ScenarioMatcher(String, String),
    /// Flow must have the same converters in session
    ScenarioConverters(Vec<String>, Vec<String>),
    /// What a source or matcher said of its parameters
    Others(String),
    FlowDisposed(SessionId, FlowId),
}

impl Error {
    /// Whether the error comes from a recipe that lacks a source, matcher or
    /// converter the flow named, so that building the registry anew may help.
    pub fn is_related_recipe(&self) -> (r: bool)
        ensures
            r == (self is SourceNotFound || self is MatcherNotFound || self is ConverterNotFound),
    {
        match self {
            Error::SourceNotFound(_) | Error::MatcherNotFound(_) | Error::ConverterNotFound(_) => true,
            _ => false,
        }
    }
}

/// The flows that one session has run, oldest first.
pub struct Session<A: ?Sized, S, M> {
    pub(crate) flows: Vec<Flow<A, S, M>>,
}

/// The sessions, least recently used first, and the last id handed out.
pub struct State<A: ?Sized, S, M> {
    pub(crate) last_id: SessionId,
    pub(crate) sessions: VecDeque<(SessionId, Session<A, S, M>)>,
}

impl<A: ?Sized, S, M> Session<A, S, M> {
    pub closed spec fn spec_flows(&self) -> Seq<Flow<A, S, M>> {
        self.flows@
    }

    /// A session with no flow yet.
    pub fn empty() -> (s: Self)
        ensures
            s.spec_flows() == Seq::<Flow<A, S, M>>::empty(),
    {
        Session { flows: Vec::new() }
    }

    /// Adds a flow; its id is its place.
    pub fn push(&mut self, flow: Flow<A, S, M>) -> (id: FlowId)
        ensures
            final(self).spec_flows() == old(self).spec_flows().push(flow),
            id.0 == old(self).spec_flows().len(),
    {
        self.flows.push(flow);
        FlowId(self.flows.len() - 1)
    }

    /// The flow `id`, if there is one.
    pub fn flow(&self, id: FlowId) -> (r: Option<&Flow<A, S, M>>)
        ensures
            r == (if id.0 < self.spec_flows().len() {
                Some(&self.spec_flows()[id.0 as int])
            } else {
                None::<&Flow<A, S, M>>
            }),
    {
        if id.0 < self.flows.len() {
            Some(&self.flows[id.0])
        } else {
            None
        }
    }

    /// How many flows the session has run.
    pub fn flow_count(&self) -> (r: usize)
        ensures
            r == self.spec_flows().len(),
    {
        self.flows.len()
    }

    /// Stops every flow of the session.
    pub fn dispose_flows(&mut self)
        ensures
            final(self).spec_flows().len() == old(self).spec_flows().len(),
            forall|i: int|
                0 <= i < final(self).spec_flows().len() ==> {
                    let (f, g) = (#[trigger] final(self).spec_flows()[i], old(self).spec_flows()[i]);
                    &&& f.spec_at() == g.spec_at()
                    &&& f.spec_scenario() == g.spec_scenario()
                    &&& f.spec_source() is None
                    &&& f.spec_matcher() is None
                },
    {
        let n = self.flows.len();
        let mut i: usize = 0;
        while i < n
            invariant
                n == self.flows@.len(),
                n == old(self).flows@.len(),
                0 <= i <= n,
                forall|j: int|
                    0 <= j < n ==> {
                        let (f, g) = (#[trigger] self.flows@[j], old(self).flows@[j]);
                        &&& f.spec_at() == g.spec_at()
                        &&& f.spec_scenario() == g.spec_scenario()
                        &&& (j < i ==> f.spec_source() is None && f.spec_matcher() is None)
                        &&& (j >= i ==> f == g)
                    },
            decreases n - i,
        {
            let mut f = self.flows.remove(i);
            f.dispose();
            self.flows.insert(i, f);
            i = i + 1;
        }
    }
}

/// Whether the sessions `s` hold the id `id`.
pub open spec fn holds_id<A: ?Sized, S, M>(s: Seq<(SessionId, Session<A, S, M>)>, id: SessionId) -> bool {
    exists|i: int| 0 <= i < s.len() && (#[trigger] s[i]).0 == id
}

/// Session ids are never 0 and never reused: the id that the next new
/// session gets is positive and held by no session there is.
pub proof fn law_next_session_id_fresh<A: ?Sized, S, M>(st: State<A, S, M>)
    requires
        st.wf(),
        st.spec_last_id().0 < i32::MAX,
    ensures
        st.spec_last_id().0 + 1 > 0,
        !holds_id(st.spec_sessions(), SessionId((st.spec_last_id().0 + 1) as i32)),
{
    let s = st.spec_sessions();
    assert forall|i: int| 0 <= i < s.len() implies (#[trigger] s[i]).0 != SessionId(
        (st.spec_last_id().0 + 1) as i32,
    ) by {
        assert(s[i].0.0 <= st.spec_last_id().0);
    }
}

/// Whether going from `a` to `b` keeps what the ids promise: `b` is well
/// formed and its last id is no lower. Every call that changes the state
/// (`start_flow`, `resume`, `remove_session`, `remove_all_sesions`,
/// `take_session`) makes such a step from a well-formed state.
pub open spec fn ids_step<A: ?Sized, S, M>(a: State<A, S, M>, b: State<A, S, M>) -> bool {
    b.wf() && a.spec_last_id().0 <= b.spec_last_id().0
}

proof fn lemma_last_ids_grow<A: ?Sized, S, M>(states: Seq<State<A, S, M>>, i: int, j: int)
    requires
        forall|k: int| #![trigger states[k]] 0 <= k < states.len() - 1 ==> ids_step(states[k], states[k + 1]),
        0 <= i <= j < states.len(),
    ensures
        states[i].spec_last_id().0 <= states[j].spec_last_id().0,
    decreases j - i,
{
    if i < j {
        lemma_last_ids_grow(states, i, j - 1);
        assert(ids_step(states[j - 1], states[j]));
    }
}

/// Session ids are never 0 and never reused, over any run of calls: every
/// state of the run is well formed (its sessions have distinct positive
/// ids), the last id never goes down, and of two steps that hand out a new
/// id the later one hands out the larger.
pub proof fn law_session_ids_over_runs<A: ?Sized, S, M>(states: Seq<State<A, S, M>>)
    requires
        states.len() > 0,
        states[0].wf(),
        forall|k: int| #![trigger states[k]] 0 <= k < states.len() - 1 ==> ids_step(states[k], states[k + 1]),
    ensures
        forall|i: int| 0 <= i < states.len() ==> #[trigger] states[i].wf(),
        forall|i: int, j: int|
            0 <= i <= j < states.len() ==> #[trigger] states[i].spec_last_id().0 <= #[trigger] states[j].spec_last_id().0,
        forall|i: int, j: int|
            0 <= i < j < states.len() - 1 && #[trigger] states[i].spec_last_id().0 < states[i + 1].spec_last_id().0
                && #[trigger] states[j].spec_last_id().0 < states[j + 1].spec_last_id().0 ==> 0
                < states[i + 1].spec_last_id().0 < states[j + 1].spec_last_id().0,
{
    assert forall|i: int| 0 <= i < states.len() implies #[trigger] states[i].wf() by {
        if i > 0 {
            assert(ids_step(states[i - 1], states[i]));
        }
    }
    assert forall|i: int, j: int| 0 <= i <= j < states.len() implies #[trigger] states[i].spec_last_id().0
        <= #[trigger] states[j].spec_last_id().0 by {
        lemma_last_ids_grow(states, i, j);
    }
    assert forall|i: int, j: int|
        0 <= i < j < states.len() - 1 && #[trigger] states[i].spec_last_id().0 < states[i + 1].spec_last_id().0
            && #[trigger] states[j].spec_last_id().0 < states[j + 1].spec_last_id().0 implies 0
            < states[i + 1].spec_last_id().0 < states[j + 1].spec_last_id().0 by {
        lemma_last_ids_grow(states, i + 1, j);
        assert(states[i].wf());
    }
}

/// Where the session `id` stands among the sessions `s`, where it does.
pub open spec fn session_at<A: ?Sized, S, M>(s: Seq<(SessionId, Session<A, S, M>)>, id: SessionId) -> int {
    choose|i: int| 0 <= i < s.len() && (#[trigger] s[i]).0 == id
}

/// The settings that the last flow of the session `id` sorted with.
pub open spec fn last_vars<A: ?Sized, S, M>(s: Seq<(SessionId, Session<A, S, M>)>, id: SessionId) -> Vars {
    *s[session_at(s, id)].1.spec_flows().last().spec_scenario().sorted_vars
}

/// Where ids do not repeat, the session of an id stands in one place only.
proof fn lemma_session_at<A: ?Sized, S, M>(s: Seq<(SessionId, Session<A, S, M>)>, id: SessionId, i: int)
    requires
        forall|x: int, y: int| 0 <= x < y < s.len() ==> (#[trigger] s[x]).0 != (#[trigger] s[y]).0,
        0 <= i < s.len(),
        s[i].0 == id,
    ensures
        session_at(s, id) == i,
{
    let k = session_at(s, id);
    assert(0 <= k < s.len() && s[k].0 == id);
    if k < i {
        assert(s[k].0 != s[i].0);
    } else if i < k {
        assert(s[i].0 != s[k].0);
    }
}

impl<A: ?Sized, S, M> State<A, S, M> {
    pub closed spec fn spec_last_id(&self) -> SessionId {
        self.last_id
    }

    pub closed spec fn spec_sessions(&self) -> Seq<(SessionId, Session<A, S, M>)> {
        self.sessions@
    }

    /// Every session has a flow, no id occurs twice, and every id is
    /// positive and no later than the last id handed out.
    pub open spec fn wf(&self) -> bool {
        let s = self.spec_sessions();
        &&& self.spec_last_id().0 >= 0
        &&& forall|i: int|
            0 <= i < s.len() ==> (#[trigger] s[i]).1.spec_flows().len() > 0 && 0 < s[i].0.0
                <= self.spec_last_id().0
        &&& forall|i: int, j: int| 0 <= i < j < s.len() ==> (#[trigger] s[i]).0 != (#[trigger] s[j]).0
    }

    /// No session yet.
    pub fn new() -> (s: Self)
        ensures
            s.wf(),
            s.spec_last_id() == SessionId(0),
            s.spec_sessions() == Seq::<(SessionId, Session<A, S, M>)>::empty(),
    {
        State { last_id: SessionId(0), sessions: VecDeque::new() }
    }

    /// Where the session `id` is, counting from the back.
    fn find_last(&self, id: SessionId) -> (r: Option<usize>)
        ensures
            match r {
                Some(i) => i < self.sessions@.len() && self.sessions@[i as int].0 == id && forall|
                    j: int,
                |
                    i < j < self.sessions@.len() ==> (#[trigger] self.sessions@[j]).0 != id,
                None => !holds_id(self.sessions@, id),
            },
    {
        let mut i = self.sessions.len();
        while i > 0
            invariant
                i <= self.sessions@.len(),
                forall|j: int| i <= j < self.sessions@.len() ==> (#[trigger] self.sessions@[j]).0 != id,
            decreases i,
        {
            if self.sessions[i - 1].0 == id {
                return Some(i - 1);
            }
            i = i - 1;
        }
        None
    }

    /// Where the session `id` is, counting from the front.
    fn find_first(&self, id: SessionId) -> (r: Option<usize>)
        ensures
            match r {
                Some(i) => i < self.sessions@.len() && self.sessions@[i as int].0 == id && forall|
                    j: int,
                |
                    0 <= j < i ==> (#[trigger] self.sessions@[j]).0 != id,
                None => !holds_id(self.sessions@, id),
            },
    {
        let mut i: usize = 0;
        while i < self.sessions.len()
            invariant
                i <= self.sessions@.len(),
                forall|j: int| 0 <= j < i ==> (#[trigger] self.sessions@[j]).0 != id,
            decreases self.sessions@.len() - i,
        {
            if self.sessions[i].0 == id {
                return Some(i);
            }
            i = i + 1;
        }
        None
    }

    /// The session `id`, if there is one (the last one of that id).
    pub fn session(&self, id: SessionId) -> (r: Option<&Session<A, S, M>>)
        ensures
            match r {
                Some(s) => exists|i: int|
                    0 <= i < self.spec_sessions().len() && self.spec_sessions()[i].0 == id && *s
                        == self.spec_sessions()[i].1 && forall|j: int|
                        i < j < self.spec_sessions().len() ==> (#[trigger] self.spec_sessions()[j]).0
                            != id,
                None => !holds_id(self.spec_sessions(), id),
            },
    {
        match self.find_last(id) {
            Some(i) => {
                assert(self.spec_sessions()[i as int] == self.sessions@[i as int]);
                Some(&self.sessions[i].1)
            },
            None => None,
        }
    }

    /// Takes the session `id` (the first one of that id) out of the state.
    pub fn take_session(&mut self, id: SessionId) -> (r: Option<Session<A, S, M>>)
        ensures
            final(self).spec_last_id() == old(self).spec_last_id(),
            old(self).wf() ==> final(self).wf(),
            match r {
                Some(s) => exists|i: int|
                    0 <= i < old(self).spec_sessions().len() && old(self).spec_sessions()[i].0 == id
                        && s == old(self).spec_sessions()[i].1 && final(self).spec_sessions()
                        == old(self).spec_sessions().remove(i) && forall|j: int|
                        0 <= j < i ==> (#[trigger] old(self).spec_sessions()[j]).0 != id,
                None => !holds_id(old(self).spec_sessions(), id) && final(self).spec_sessions()
                    == old(self).spec_sessions(),
            },
    {
        match self.find_first(id) {
            Some(i) => {
                let ghost old_s = self.sessions@;
                let (_, s) = self.sessions.remove(i).unwrap();
                assert(old_s[i as int].1 == s);
                assert(self.spec_sessions() == old_s.remove(i as int));
                let ghost k = i as int;
                assert(old(self).spec_sessions() == old_s);
                assert(0 <= k < old(self).spec_sessions().len() && old(self).spec_sessions()[k].0
                    == id && s == old(self).spec_sessions()[k].1 && self.spec_sessions() == old(self).spec_sessions().remove(k) && forall|j: int|
                    0 <= j < k ==> (#[trigger] old(self).spec_sessions()[j]).0 != id);
                proof {
                    if old(self).wf() {
                        let t = self.sessions@;
                        assert forall|a: int| 0 <= a < t.len() implies (#[trigger] t[a]).1.spec_flows().len()
                            > 0 && 0 < t[a].0.0 <= self.last_id.0 by {
                            let ia = if a < k { a } else { a + 1 };
                            assert(t[a] == old_s[ia]);
                        }
                        assert forall|a: int, b: int| 0 <= a < b < t.len() implies (#[trigger] t[a]).0
                            != (#[trigger] t[b]).0 by {
                            let ia = if a < k { a } else { a + 1 };
                            let ib = if b < k { b } else { b + 1 };
                            assert(t[a] == old_s[ia] && t[b] == old_s[ib]);
                        }
                    }
                }
                Some(s)
            },
            None => None,
        }
    }

    /// Makes the session `id` the most recently used one; gives its last flow.
    pub fn resume(&mut self, id: SessionId) -> (r: Result<FlowId, Error>)
        requires
            old(self).wf(),
        ensures
            final(self).wf(),
            final(self).spec_last_id() == old(self).spec_last_id(),
            match r {
                Ok(fid) => exists|i: int|
                    0 <= i < old(self).spec_sessions().len() && old(self).spec_sessions()[i].0 == id
                        && final(self).spec_sessions() == old(self).spec_sessions().remove(i).push(
                        old(self).spec_sessions()[i],
                    ) && fid.0 == old(self).spec_sessions()[i].1.spec_flows().len() - 1,
                Err(e) => e == Error::SessionNotFound(id) && !holds_id(
                    old(self).spec_sessions(),
                    id,
                ) && final(self).spec_sessions() == old(self).spec_sessions(),
            },
    {
        let ghost old_s = self.sessions@;
        let sess = match self.take_session(id) {
            Some(s) => s,
            None => return Err(Error::SessionNotFound(id)),
        };
        let ghost i = choose|i: int|
            0 <= i < old_s.len() && old_s[i].0 == id && sess == old_s[i].1 && self.sessions@
                == old_s.remove(i) && forall|j: int| 0 <= j < i ==> (#[trigger] old_s[j]).0 != id;
        assert(old_s[i] == (id, sess));
        let fid = FlowId(sess.flows.len() - 1);
        self.sessions.push_back((id, sess));
        proof {
            let s = self.sessions@;
            assert forall|a: int, b: int| 0 <= a < b < s.len() implies (#[trigger] s[a]).0 != (
            #[trigger] s[b]).0 by {
                let ia = if a < i { a } else { a + 1 };
                if b < s.len() - 1 {
                    let ib = if b < i { b } else { b + 1 };
                    assert(s[a] == old_s[ia] && s[b] == old_s[ib]);
                } else {
                    assert(s[a] == old_s[ia]);
                }
            }
            assert forall|a: int| 0 <= a < s.len() implies (#[trigger] s[a]).1.spec_flows().len()
                > 0 && 0 < s[a].0.0 <= self.last_id.0 by {
                if a < s.len() - 1 {
                    let ia = if a < i { a } else { a + 1 };
                    assert(s[a] == old_s[ia]);
                }
            }
        }
        Ok(fid)
    }

    /// The flow `f` of the session `s`, if both are there.
    pub fn get_flow(&self, s: SessionId, f: FlowId) -> (r: Option<&Flow<A, S, M>>)
        ensures
            match r {
                Some(flow) => exists|i: int|
                    0 <= i < self.spec_sessions().len() && self.spec_sessions()[i].0 == s && f.0
                        < self.spec_sessions()[i].1.spec_flows().len() && *flow
                        == self.spec_sessions()[i].1.spec_flows()[f.0 as int] && forall|j: int|
                        i < j < self.spec_sessions().len() ==> (#[trigger] self.spec_sessions()[j]).0
                            != s,
                None => !holds_id(self.spec_sessions(), s) || exists|i: int|
                    0 <= i < self.spec_sessions().len() && self.spec_sessions()[i].0 == s && f.0
                        >= self.spec_sessions()[i].1.spec_flows().len() && forall|j: int|
                        i < j < self.spec_sessions().len() ==> (#[trigger] self.spec_sessions()[j]).0
                            != s,
            },
    {
        let i = match self.find_last(s) {
            Some(i) => i,
            None => return None,
        };
        let sess = &self.sessions[i].1;
        assert(self.spec_sessions()[i as int] == self.sessions@[i as int]);
        sess.flow(f)
    }

    /// The flow `f` of the session `s`, or the error that names them.
    pub fn try_get_flow(&self, s: SessionId, f: FlowId) -> (r: Result<&Flow<A, S, M>, Error>)
        ensures
            match r {
                Ok(flow) => exists|i: int|
                    0 <= i < self.spec_sessions().len() && self.spec_sessions()[i].0 == s && f.0
                        < self.spec_sessions()[i].1.spec_flows().len() && *flow
                        == self.spec_sessions()[i].1.spec_flows()[f.0 as int] && forall|j: int|
                        i < j < self.spec_sessions().len() ==> (#[trigger] self.spec_sessions()[j]).0
                            != s,
                Err(e) => e == Error::FlowNotFound(s, f) && (!holds_id(self.spec_sessions(), s)
                    || exists|i: int|
                    0 <= i < self.spec_sessions().len() && self.spec_sessions()[i].0 == s && f.0
                        >= self.spec_sessions()[i].1.spec_flows().len() && forall|j: int|
                        i < j < self.spec_sessions().len() ==> (#[trigger] self.spec_sessions()[j]).0
                            != s),
            },
    {
        match self.get_flow(s, f) {
            Some(flow) => Ok(flow),
            None => Err(Error::FlowNotFound(s, f)),
        }
    }

    /// Drops the session `id`, if there is one, with its flows.
    pub fn remove_session(&mut self, id: SessionId)
        requires
            old(self).wf(),
        ensures
            final(self).wf(),
            final(self).spec_last_id() == old(self).spec_last_id(),
            !holds_id(final(self).spec_sessions(), id),
            holds_id(old(self).spec_sessions(), id) ==> exists|i: int|
                0 <= i < old(self).spec_sessions().len() && old(self).spec_sessions()[i].0 == id
                    && final(self).spec_sessions() == old(self).spec_sessions().remove(i),
            !holds_id(old(self).spec_sessions(), id) ==> final(self).spec_sessions() == old(self).spec_sessions(),
    {
        let ghost old_s = self.sessions@;
        let r = self.take_session(id);
        proof {
            if r.is_some() {
                let i = choose|i: int|
                    0 <= i < old_s.len() && old_s[i].0 == id && r.unwrap() == old_s[i].1
                        && self.sessions@ == old_s.remove(i) && forall|j: int|
                        0 <= j < i ==> (#[trigger] old_s[j]).0 != id;
                let s = self.sessions@;
                assert forall|a: int| 0 <= a < s.len() implies (#[trigger] s[a]).1.spec_flows().len()
                    > 0 && 0 < s[a].0.0 <= self.last_id.0 && s[a].0 != id by {
                    let ia = if a < i { a } else { a + 1 };
                    assert(s[a] == old_s[ia]);
                }
                assert forall|a: int, b: int| 0 <= a < b < s.len() implies (#[trigger] s[a]).0 != (
                #[trigger] s[b]).0 by {
                    let ia = if a < i { a } else { a + 1 };
                    let ib = if b < i { b } else { b + 1 };
                    assert(s[a] == old_s[ia] && s[b] == old_s[ib]);
                }
            }
        }
    }

    /// Drops every session.
    pub fn remove_all_sesions(&mut self)
        requires
            old(self).wf(),
        ensures
            final(self).wf(),
            final(self).spec_last_id() == old(self).spec_last_id(),
            final(self).spec_sessions() == Seq::<(SessionId, Session<A, S, M>)>::empty(),
    {
        self.sessions.clear();
    }

    /// The sessions, least recently used first.
    pub fn sessions(&self) -> (r: &VecDeque<(SessionId, Session<A, S, M>)>)
        ensures
            r@ == self.spec_sessions(),
    {
        &self.sessions
    }

    /// The last session id handed out.
    pub fn last_id(&self) -> (r: SessionId)
        ensures
            r == self.spec_last_id(),
    {
        self.last_id
    }
}

/// Where a flow stands: in the session being started, by its place there,
/// or in a stored session, by the places of the session and of the flow.
#[derive(Debug, Clone, Copy)]
pub enum Place {
    Target(usize),
    Stored(usize, usize),
}

pub const NANOS_PER_SEC: u64 = 1_000_000_000;

/// Whole seconds from `at` to `started`; none if `at` is later.
pub open spec fn elapsed_secs(started: u64, at: u64) -> int {
    if started >= at {
        (started - at) / (NANOS_PER_SEC as int)
    } else {
        0
    }
}

/// Whether the cache of a flow started at `at` is young enough for `vars`.
pub open spec fn use_cache(vars: Vars, started: u64, at: u64) -> bool {
    elapsed_secs(started, at) < vars.cache_sec
}

/// A cache expires: the cache of a flow started at `at` is used for a flow
/// started at `started` exactly when fewer whole seconds than `cache_sec`
/// have passed from `at` to `started`; a flow started no later than `at`
/// counts as no time passed.
pub proof fn law_cache_expires(vars: Vars, started: u64, at: u64)
    ensures
        started >= at ==> (use_cache(vars, started, at) <==> (started - at) / 1_000_000_000int
            < vars.cache_sec),
        started <= at ==> (use_cache(vars, started, at) <==> 0 < vars.cache_sec),
{
}

/// A stale cache is never reused: when `cache_sec` whole seconds or more
/// have passed since the flow started, the stages that reuse a cache (the
/// first and third, whose registries answer `Cache`) reject it.
pub proof fn law_stale_cache_rejected<A: ?Sized, S, M, SR: SourceRegistry<A>, MR: MatcherRegistry<A>>(
    stage: int,
    source: SR,
    matcher: MR,
    f: Flow<A, S, M>,
    scenario: Scenario<Arc<Vars>, Arc<A>>,
    started: u64,
)
    requires
        stage == 1 || stage == 3,
        started >= f.spec_at(),
        (started - f.spec_at()) / 1_000_000_000int >= scenario.linearf.cache_sec,
    ensures
        !stage_accepts(stage, source, matcher, f, scenario, started),
{
}

/// Two reuse verdicts together: the same only if both are.
pub open spec fn both_reusable(a: Reusable, b: Reusable) -> Reusable {
    match (a, b) {
        (Reusable::Same, Reusable::Same) => Reusable::Same,
        (Reusable::Cache, Reusable::Same) => Reusable::Cache,
        (Reusable::Same, Reusable::Cache) => Reusable::Cache,
        (Reusable::Cache, Reusable::Cache) => Reusable::Cache,
        _ => Reusable::NoReuse,
    }
}

/// Whether the stream of `f` can serve `scenario`: it must still be cached
/// and come from the same source through the same converters, and the
/// source must agree.
pub open spec fn source_reusable<A: ?Sized, S, M, SR: SourceRegistry<A>>(
    source: SR,
    f: Flow<A, S, M>,
    scenario: Scenario<Arc<Vars>, Arc<A>>,
) -> Reusable {
    let used = f.spec_scenario();
    if f.spec_source() is None || (*used.stream_vars).source@ != (*scenario.linearf).source@ || (
    *used.stream_vars).converters.deep_view() != (*scenario.linearf).converters.deep_view() {
        Reusable::NoReuse
    } else {
        source.spec_reusable(
            (*scenario.linearf).source@,
            (used.stream_vars, used.source),
            (scenario.linearf, scenario.source),
        )
    }
}

/// Whether the scores of `f` can serve `scenario`: the same matcher, and
/// both its stream and its scores reusable.
pub open spec fn matcher_reusable<A: ?Sized, S, M, SR: SourceRegistry<A>, MR: MatcherRegistry<A>>(
    source: SR,
    matcher: MR,
    f: Flow<A, S, M>,
    scenario: Scenario<Arc<Vars>, Arc<A>>,
) -> Reusable {
    let used = f.spec_scenario();
    if (*used.sorted_vars).matcher@ != (*scenario.linearf).matcher@ {
        Reusable::NoReuse
    } else {
        both_reusable(
            source_reusable(source, f, scenario),
            matcher.spec_reusable(
                (*scenario.linearf).matcher@,
                (used.sorted_vars, used.matcher),
                (scenario.linearf, scenario.matcher),
            ),
        )
    }
}

/// The four stages of the search for a flow to reuse, by priority: scores
/// that are the same, cached scores young enough, a stream that is the
/// same, a cached stream young enough.
pub open spec fn stage_accepts<A: ?Sized, S, M, SR: SourceRegistry<A>, MR: MatcherRegistry<A>>(
    stage: int,
    source: SR,
    matcher: MR,
    f: Flow<A, S, M>,
    scenario: Scenario<Arc<Vars>, Arc<A>>,
    started: u64,
) -> bool {
    let young = use_cache(*scenario.linearf, started, f.spec_at());
    if stage == 0 {
        matcher_reusable(source, matcher, f, scenario) == Reusable::Same
    } else if stage == 1 {
        young && matcher_reusable(source, matcher, f, scenario) == Reusable::Cache
    } else if stage == 2 {
        source_reusable(source, f, scenario) == Reusable::Same
    } else {
        young && source_reusable(source, f, scenario) == Reusable::Cache
    }
}

/// Whether a stage looks into other sessions than the one being started.
pub open spec fn stage_across(stage: int, vars: Vars) -> bool {
    stage == 0 || stage == 2 || vars.cache_across_sessions
}

/// Whether `p` names a flow.
pub open spec fn valid_place<A: ?Sized, S, M>(
    target: Seq<Flow<A, S, M>>,
    sessions: Seq<(SessionId, Session<A, S, M>)>,
    p: Place,
) -> bool {
    match p {
        Place::Target(f) => f < target.len(),
        Place::Stored(s, f) => s < sessions.len() && f < sessions[s as int].1.spec_flows().len(),
    }
}

/// The flow that `p` names.
pub open spec fn flow_at_place<A: ?Sized, S, M>(
    target: Seq<Flow<A, S, M>>,
    sessions: Seq<(SessionId, Session<A, S, M>)>,
    p: Place,
) -> Flow<A, S, M> {
    match p {
        Place::Target(f) => target[f as int],
        Place::Stored(s, f) => sessions[s as int].1.spec_flows()[f as int],
    }
}

/// Whether the search looks at `p` before `q`: the session being started
/// first, then the stored sessions from the most recently used, each from
/// its newest flow.
pub open spec fn place_before(p: Place, q: Place) -> bool {
    match (p, q) {
        (Place::Target(a), Place::Target(b)) => a > b,
        (Place::Target(_), Place::Stored(_, _)) => true,
        (Place::Stored(_, _), Place::Target(_)) => false,
        (Place::Stored(s1, f1), Place::Stored(s2, f2)) => s1 > s2 || (s1 == s2 && f1 > f2),
    }
}

/// Whether stage `stage` of the search accepts the flow at `p`.
pub open spec fn stage_hit<A: ?Sized, S, M, SR: SourceRegistry<A>, MR: MatcherRegistry<A>>(
    stage: int,
    target: Seq<Flow<A, S, M>>,
    sessions: Seq<(SessionId, Session<A, S, M>)>,
    p: Place,
    source: SR,
    matcher: MR,
    scenario: Scenario<Arc<Vars>, Arc<A>>,
    started: u64,
) -> bool {
    &&& valid_place(target, sessions, p)
    &&& (p is Stored ==> stage_across(stage, *scenario.linearf))
    &&& stage_accepts(stage, source, matcher, flow_at_place(target, sessions, p), scenario, started)
}

/// Whether `p` is the first place that stage `stage` accepts.
pub open spec fn first_hit<A: ?Sized, S, M, SR: SourceRegistry<A>, MR: MatcherRegistry<A>>(
    stage: int,
    target: Seq<Flow<A, S, M>>,
    sessions: Seq<(SessionId, Session<A, S, M>)>,
    p: Place,
    source: SR,
    matcher: MR,
    scenario: Scenario<Arc<Vars>, Arc<A>>,
    started: u64,
) -> bool {
    &&& stage_hit(stage, target, sessions, p, source, matcher, scenario, started)
    &&& forall|q: Place|
        #![trigger place_before(q, p)]
        stage_hit(stage, target, sessions, q, source, matcher, scenario, started) ==> !place_before(
            q,
            p,
        )
}

/// The kind of reuse that a stage finds.
pub open spec fn stage_kind(stage: int) -> Reuse<()> {
    if stage < 2 {
        Reuse::Matcher(())
    } else {
        Reuse::Source(())
    }
}

/// What the search finds for `scenario`: the first place of the first stage
/// that accepts any, with the kind of reuse of that stage; or nothing.
pub open spec fn search_result<A: ?Sized, S, M, SR: SourceRegistry<A>, MR: MatcherRegistry<A>>(
    r: Option<(Reuse<()>, Place)>,
    target: Seq<Flow<A, S, M>>,
    sessions: Seq<(SessionId, Session<A, S, M>)>,
    source: SR,
    matcher: MR,
    scenario: Scenario<Arc<Vars>, Arc<A>>,
    started: u64,
) -> bool {
    match r {
        Some((kind, p)) => exists|stage: int|
            0 <= stage < 4 && kind == stage_kind(stage) && first_hit(
                stage,
                target,
                sessions,
                p,
                source,
                matcher,
                scenario,
                started,
            ) && forall|s2: int, q: Place|
                0 <= s2 < stage ==> !#[trigger] stage_hit(
                    s2,
                    target,
                    sessions,
                    q,
                    source,
                    matcher,
                    scenario,
                    started,
                ),
        None => forall|s2: int, q: Place|
            0 <= s2 < 4 ==> !#[trigger] stage_hit(
                s2,
                target,
                sessions,
                q,
                source,
                matcher,
                scenario,
                started,
            ),
    }
}

fn source_reusable_exec<A: ?Sized, S, M, SR: SourceRegistry<A>>(
    source: &SR,
    f: &Flow<A, S, M>,
    scenario: &Scenario<Arc<Vars>, Arc<A>>,
) -> (r: Reusable)
    ensures
        r == source_reusable(*source, *f, *scenario),
{
    let used = f.scenario();
    if !f.has_cache() || used.stream_vars.source != scenario.linearf.source || !strings_eq(
        &used.stream_vars.converters,
        &scenario.linearf.converters,
    ) {
        return Reusable::NoReuse;
    }
    source.reusable(
        scenario.linearf.source.as_str(),
        (used.stream_vars, used.source),
        (&scenario.linearf, &scenario.source),
    )
}

fn matcher_reusable_exec<A: ?Sized, S, M, SR: SourceRegistry<A>, MR: MatcherRegistry<A>>(
    source: &SR,
    matcher: &MR,
    f: &Flow<A, S, M>,
    scenario: &Scenario<Arc<Vars>, Arc<A>>,
) -> (r: Reusable)
    ensures
        r == matcher_reusable(*source, *matcher, *f, *scenario),
{
    let used = f.scenario();
    if used.sorted_vars.matcher != scenario.linearf.matcher {
        return Reusable::NoReuse;
    }
    let a = source_reusable_exec(source, f, scenario);
    let b = matcher.reusable(
        scenario.linearf.matcher.as_str(),
        (used.sorted_vars, used.matcher),
        (&scenario.linearf, &scenario.matcher),
    );
    match (a, b) {
        (Reusable::Same, Reusable::Same) => Reusable::Same,
        (Reusable::Cache, Reusable::Same) => Reusable::Cache,
        (Reusable::Same, Reusable::Cache) => Reusable::Cache,
        (Reusable::Cache, Reusable::Cache) => Reusable::Cache,
        _ => Reusable::NoReuse,
    }
}

fn use_cache_exec(vars: &Vars, started: u64, at: u64) -> (r: bool)
    ensures
        r == use_cache(*vars, started, at),
{
    let elapsed = if started >= at {
        started - at
    } else {
        0
    };
    elapsed / NANOS_PER_SEC < vars.cache_sec as u64
}

fn stage_accepts_exec<A: ?Sized, S, M, SR: SourceRegistry<A>, MR: MatcherRegistry<A>>(
    stage: u8,
    source: &SR,
    matcher: &MR,
    f: &Flow<A, S, M>,
    scenario: &Scenario<Arc<Vars>, Arc<A>>,
    started: u64,
) -> (r: bool)
    requires
        stage < 4,
    ensures
        r == stage_accepts(stage as int, *source, *matcher, *f, *scenario, started),
{
    if stage == 0 {
        matcher_reusable_exec(source, matcher, f, scenario) == Reusable::Same
    } else if stage == 1 {
        use_cache_exec(&scenario.linearf, started, f.at()) && matcher_reusable_exec(
            source,
            matcher,
            f,
            scenario,
        ) == Reusable::Cache
    } else if stage == 2 {
        source_reusable_exec(source, f, scenario) == Reusable::Same
    } else {
        use_cache_exec(&scenario.linearf, started, f.at()) && source_reusable_exec(
            source,
            f,
            scenario,
        ) == Reusable::Cache
    }
}

/// Whether two lists of names are the same.
pub fn strings_eq(a: &Vec<String>, b: &Vec<String>) -> (r: bool)
    ensures
        r == (a.deep_view() == b.deep_view()),
{
    if a.len() != b.len() {
        assert(a.deep_view().len() != b.deep_view().len());
        return false;
    }
    let mut i: usize = 0;
    while i < a.len()
        invariant
            a.len() == b.len(),
            i <= a.len(),
            forall|j: int| 0 <= j < i ==> a@[j]@ == b@[j]@,
        decreases a.len() - i,
    {
        if a[i] != b[i] {
            assert(a.deep_view()[i as int] != b.deep_view()[i as int]);
            return false;
        }
        i = i + 1;
    }
    assert(a.deep_view() =~= b.deep_view());
    true
}

impl<A: ?Sized, S, M> State<A, S, M> {
    /// The first place that stage `stage` accepts, in the order of the search.
    fn find_stage<SR: SourceRegistry<A>, MR: MatcherRegistry<A>>(
        &self,
        target: &Session<A, S, M>,
        stage: u8,
        source: &SR,
        matcher: &MR,
        scenario: &Scenario<Arc<Vars>, Arc<A>>,
        started: u64,
    ) -> (r: Option<Place>)
        requires
            stage < 4,
        ensures
            match r {
                Some(p) => first_hit(
                    stage as int,
                    target.spec_flows(),
                    self.spec_sessions(),
                    p,
                    *source,
                    *matcher,
                    *scenario,
                    started,
                ),
                None => forall|q: Place|
                    !#[trigger] stage_hit(
                        stage as int,
                        target.spec_flows(),
                        self.spec_sessions(),
                        q,
                        *source,
                        *matcher,
                        *scenario,
                        started,
                    ),
            },
    {
        let ghost tf = target.spec_flows();
        let ghost ss = self.spec_sessions();
        let ghost st = stage as int;
        let mut fi = target.flows.len();
        while fi > 0
            invariant
                fi <= tf.len(),
                tf == target.flows@,
                ss == self.sessions@,
                st == stage as int,
                stage < 4,
                forall|q: Place|
                    #![trigger stage_hit(st, tf, ss, q, *source, *matcher, *scenario, started)]
                    q matches Place::Target(b) && b >= fi ==> !stage_hit(
                        st,
                        tf,
                        ss,
                        q,
                        *source,
                        *matcher,
                        *scenario,
                        started,
                    ),
            decreases fi,
        {
            let f = &target.flows[fi - 1];
            if stage_accepts_exec(stage, source, matcher, f, scenario, started) {
                let p = Place::Target(fi - 1);
                assert(stage_hit(st, tf, ss, p, *source, *matcher, *scenario, started));
                return Some(p);
            }
            fi = fi - 1;
        }
        let across = stage == 0 || stage == 2 || scenario.linearf.cache_across_sessions;
        if across {
            let mut si = self.sessions.len();
            while si > 0
                invariant
                    si <= ss.len(),
                    tf == target.flows@,
                    ss == self.sessions@,
                    st == stage as int,
                    stage < 4,
                    stage_across(st, *scenario.linearf),
                    forall|q: Place|
                        #![trigger stage_hit(st, tf, ss, q, *source, *matcher, *scenario, started)]
                        (q is Target || (q matches Place::Stored(a, _) && a >= si)) ==> !stage_hit(
                            st,
                            tf,
                            ss,
                            q,
                            *source,
                            *matcher,
                            *scenario,
                            started,
                        ),
                decreases si,
            {
                let sess = &self.sessions[si - 1].1;
                let mut fj = sess.flows.len();
                while fj > 0
                    invariant
                        0 < si <= ss.len(),
                        fj <= ss[si - 1].1.spec_flows().len(),
                        *sess == ss[si - 1].1,
                        tf == target.flows@,
                        ss == self.sessions@,
                        st == stage as int,
                        stage < 4,
                        stage_across(st, *scenario.linearf),
                        forall|q: Place|
                            #![trigger stage_hit(st, tf, ss, q, *source, *matcher, *scenario, started)]
                            (q is Target || (q matches Place::Stored(a, _) && a >= si) || (
                            q matches Place::Stored(a, b) && a == si - 1 && b >= fj)) ==> !stage_hit(
                                st,
                                tf,
                                ss,
                                q,
                                *source,
                                *matcher,
                                *scenario,
                                started,
                            ),
                    decreases fj,
                {
                    let f = &sess.flows[fj - 1];
                    if stage_accepts_exec(stage, source, matcher, f, scenario, started) {
                        let p = Place::Stored(si - 1, fj - 1);
                        assert(stage_hit(st, tf, ss, p, *source, *matcher, *scenario, started));
                        return Some(p);
                    }
                    fj = fj - 1;
                }
                si = si - 1;
            }
        }
        None
    }

    /// Looks for a flow whose work can serve `scenario`; the session being
    /// started comes first, and, for stages that look across sessions, the
    /// stored sessions from the most recently used.
    pub fn reusable<SR: SourceRegistry<A>, MR: MatcherRegistry<A>>(
        &self,
        target: &Session<A, S, M>,
        source: &SR,
        matcher: &MR,
        scenario: &Scenario<Arc<Vars>, Arc<A>>,
        started: u64,
    ) -> (r: Option<(Reuse<()>, Place)>)
        ensures
            search_result(
                r,
                target.spec_flows(),
                self.spec_sessions(),
                *source,
                *matcher,
                *scenario,
                started,
            ),
            r matches Some((_, p)) ==> valid_place(target.spec_flows(), self.spec_sessions(), p),
    {
        let mut stage: u8 = 0;
        while stage < 4
            invariant
                stage <= 4,
                forall|s2: int, q: Place|
                    0 <= s2 < stage ==> !#[trigger] stage_hit(
                        s2,
                        target.spec_flows(),
                        self.spec_sessions(),
                        q,
                        *source,
                        *matcher,
                        *scenario,
                        started,
                    ),
            decreases 4 - stage,
        {
            match self.find_stage(target, stage, source, matcher, scenario, started) {
                Some(p) => {
                    let kind = if stage < 2 {
                        Reuse::Matcher(())
                    } else {
                        Reuse::Source(())
                    };
                    assert(kind == stage_kind(stage as int));
                    return Some((kind, p));
                },
                None => {},
            }
            stage = stage + 1;
        }
        None
    }
}

/// A request to start a flow: in the session `id`, or in a new session; with
/// the finder's settings and what the registries made of the parameters of
/// the source and of the matcher (nothing if they do not know the name, or
/// the reason they could not read them).
pub struct StartFlow<A: ?Sized> {
    pub id: Option<SessionId>,
    pub scenario: Scenario<Vars, Option<Result<Arc<A>, String>>>,
}

/// A copy of each name.
pub fn clone_strings(v: &Vec<String>) -> (r: Vec<String>)
    ensures
        r@ == v@,
{
    let mut r: Vec<String> = Vec::new();
    let mut i: usize = 0;
    while i < v.len()
        invariant
            i <= v@.len(),
            r@ == v@.subrange(0, i as int),
        decreases v@.len() - i,
    {
        r.push(v[i].clone());
        i = i + 1;
        assert(r@ =~= v@.subrange(0, i as int));
    }
    assert(v@.subrange(0, i as int) =~= v@);
    r
}

/// The error for a flow that does not keep to the source, matcher and
/// converters of the session's last flow, if it does not.
pub open spec fn mismatch(prev: Vars, vars: Vars) -> bool {
    prev.source@ != vars.source@ || prev.matcher@ != vars.matcher@ || prev.converters.deep_view()
        != vars.converters.deep_view()
}

/// Checks that a new flow keeps to the source, matcher and converters of the
/// last flow of `session`.
pub fn validate_scenario<A: ?Sized, S, M>(session: &Session<A, S, M>, vars: &Vars) -> (r: Result<
    (),
    Error,
>)
    requires
        session.spec_flows().len() > 0,
    ensures
        ({
            let prev = *session.spec_flows().last().spec_scenario().sorted_vars;
            &&& r is Ok <==> !mismatch(prev, *vars)
            &&& prev.source@ != vars.source@ ==> r == Err::<(), Error>(
                Error::ScenarioSource(prev.source, vars.source),
            )
            &&& prev.source@ == vars.source@ && prev.matcher@ != vars.matcher@ ==> r == Err::<
                (),
                Error,
            >(Error::ScenarioMatcher(prev.matcher, vars.matcher))
            &&& prev.source@ == vars.source@ && prev.matcher@ == vars.matcher@
                && prev.converters.deep_view() != vars.converters.deep_view() ==> (r matches Err(
                Error::ScenarioConverters(a, b),
            ) && a@ == prev.converters@ && b@ == vars.converters@)
        }),
{
    let flow = &session.flows[session.flows.len() - 1];
    let prev = flow.scenario().sorted_vars;
    if prev.source != vars.source {
        return Err(Error::ScenarioSource(prev.source.clone(), vars.source.clone()));
    }
    if prev.matcher != vars.matcher {
        return Err(Error::ScenarioMatcher(prev.matcher.clone(), vars.matcher.clone()));
    }
    if !strings_eq(&prev.converters, &vars.converters) {
        return Err(
            Error::ScenarioConverters(
                clone_strings(&prev.converters),
                clone_strings(&vars.converters),
            ),
        );
    }
    Ok(())
}

/// What the registries made of the parameters of a scenario, as a scenario
/// ready to run; the source's verdict is read first.
pub open spec fn parsed<A: ?Sized>(
    vars: Vars,
    source: Option<Result<Arc<A>, String>>,
    matcher: Option<Result<Arc<A>, String>>,
) -> Result<(Arc<A>, Arc<A>), Error> {
    match (source, matcher) {
        (None, _) => Err(Error::SourceNotFound(vars.source)),
        (Some(Err(e)), _) => Err(Error::Others(e)),
        (Some(Ok(_)), None) => Err(Error::MatcherNotFound(vars.matcher)),
        (Some(Ok(_)), Some(Err(e))) => Err(Error::Others(e)),
        (Some(Ok(s)), Some(Ok(m))) => Ok((s, m)),
    }
}

/// Turns what the registries made of the parameters into a scenario ready
/// to run, or the error for the first one they could not take.
pub fn parse_scenario<A: ?Sized>(scenario: Scenario<Vars, Option<Result<Arc<A>, String>>>) -> (r:
    Result<Scenario<Arc<Vars>, Arc<A>>, Error>)
    ensures
        match parsed(scenario.linearf, scenario.source, scenario.matcher) {
            Ok((s, m)) => r matches Ok(sc) && *sc.linearf == scenario.linearf && sc.source == s
                && sc.matcher == m,
            Err(e) => r == Err::<Scenario<Arc<Vars>, Arc<A>>, Error>(e),
        },
{
    let Scenario { linearf, source, matcher } = scenario;
    let source = match source {
        None => return Err(Error::SourceNotFound(linearf.source)),
        Some(Err(e)) => return Err(Error::Others(e)),
        Some(Ok(s)) => s,
    };
    let matcher = match matcher {
        None => return Err(Error::MatcherNotFound(linearf.matcher)),
        Some(Err(e)) => return Err(Error::Others(e)),
        Some(Ok(m)) => m,
    };
    Ok(Scenario { linearf: Arc::new(linearf), source, matcher })
}

/// What a flow started on `scenario` without reuse runs on.
pub open spec fn fresh_used<A: ?Sized>(scenario: Scenario<Arc<Vars>, Arc<A>>) -> UsedScenario<
    Arc<Vars>,
    Arc<A>,
> {
    UsedScenario {
        source: scenario.source,
        stream_vars: scenario.linearf,
        matcher: scenario.matcher,
        sorted_vars: scenario.linearf,
    }
}

/// Whether `new` is what starting a flow on `scenario` gives, reusing the
/// work that the search `found` in `target` or `sessions`.
pub open spec fn started_as<A: ?Sized, S, M>(
    new: Flow<A, S, M>,
    found: Option<(Reuse<()>, Place)>,
    target: Seq<Flow<A, S, M>>,
    sessions: Seq<(SessionId, Session<A, S, M>)>,
    scenario: Scenario<Arc<Vars>, Arc<A>>,
    started: u64,
) -> bool {
    &&& new.spec_source() is Some
    &&& new.spec_matcher() is Some
    &&& match found {
        None => new.spec_at() == started && new.spec_scenario() == fresh_used(scenario),
        Some((kind, p)) => {
            let prev = flow_at_place(target, sessions, p);
            &&& new.spec_at() == prev.spec_at()
            &&& kind is Matcher ==> new.spec_scenario() == prev.spec_scenario()
            &&& kind is Source ==> new.spec_scenario() == UsedScenario {
                source: prev.spec_scenario().source,
                stream_vars: prev.spec_scenario().stream_vars,
                matcher: scenario.matcher,
                sorted_vars: scenario.linearf,
            }
        },
    }
}

/// How a flow `fid` started in the session `sid` relates the sessions
/// before (`old`) and after (`fs`): `i` is where the session was (when it
/// existed), `found` what the search found, and `linearf` the settings.
pub open spec fn start_outcome<A: ?Sized, S, M, SR: SourceRegistry<A>, MR: MatcherRegistry<A>>(
    old: Seq<(SessionId, Session<A, S, M>)>,
    fs: Seq<(SessionId, Session<A, S, M>)>,
    id: Option<SessionId>,
    vars: Vars,
    sp: Arc<A>,
    mp: Arc<A>,
    sid: SessionId,
    fid: FlowId,
    i: int,
    found: Option<(Reuse<()>, Place)>,
    linearf: Arc<Vars>,
    source: SR,
    matcher: MR,
    started: u64,
) -> bool {
    let (target, others) = match id {
        Some(_) => (old[i].1.spec_flows(), old.remove(i)),
        None => (Seq::empty(), old),
    };
    let scenario = Scenario { linearf, source: sp, matcher: mp };
    &&& *linearf == vars
    &&& (id is Some ==> 0 <= i < old.len() && old[i].0 == sid)
    &&& fid.0 == target.len()
    &&& fs.len() == others.len() + 1
    &&& forall|k: int| 0 <= k < others.len() ==> (#[trigger] fs[k]).0 == others[k].0
    &&& search_result(found, target, others, source, matcher, scenario, started)
    &&& started_as(fs.last().1.spec_flows()[fid.0 as int], found, target, others, scenario, started)
}

/// Whether the search for a flow to take over, for a flow of the session
/// `id` (a new one when there is none) on the parameters `sp` and `mp` and
/// the settings `linearf`, finds nothing among the sessions `old`.
pub open spec fn nothing_to_reuse<A: ?Sized, S, M, SR: SourceRegistry<A>, MR: MatcherRegistry<A>>(
    old: Seq<(SessionId, Session<A, S, M>)>,
    id: Option<SessionId>,
    sp: Arc<A>,
    mp: Arc<A>,
    linearf: Arc<Vars>,
    source: SR,
    matcher: MR,
    started: u64,
) -> bool {
    let (target, others) = match id {
        Some(sid) => (old[session_at(old, sid)].1.spec_flows(), old.remove(session_at(old, sid))),
        None => (Seq::empty(), old),
    };
    search_result(
        None,
        target,
        others,
        source,
        matcher,
        Scenario { linearf, source: sp, matcher: mp },
        started,
    )
}

/// What starting the flow `fid` in the session `sid` on `request` made of
/// the sessions `old`, giving `fs`.
pub open spec fn start_holds<A: ?Sized, S, M, SR: SourceRegistry<A>, MR: MatcherRegistry<A>>(
    old: Seq<(SessionId, Session<A, S, M>)>,
    fs: Seq<(SessionId, Session<A, S, M>)>,
    request: StartFlow<A>,
    sid: SessionId,
    fid: FlowId,
    source: SR,
    matcher: MR,
    started: u64,
) -> bool {
    let pr = parsed(request.scenario.linearf, request.scenario.source, request.scenario.matcher);
    exists|i: int, found: Option<(Reuse<()>, Place)>, linearf: Arc<Vars>|
        #[trigger] start_outcome(
            old,
            fs,
            request.id,
            request.scenario.linearf,
            pr->Ok_0.0,
            pr->Ok_0.1,
            sid,
            fid,
            i,
            found,
            linearf,
            source,
            matcher,
            started,
        )
}

impl<A: ?Sized, S, M> State<A, S, M> {
    /// Starts a flow: in a new session, whose id is the next one, or as the
    /// next flow of the session `id`, which must keep to the source, matcher
    /// and converters of its last flow. The flow takes over the work of the
    /// first flow that the search finds, or starts afresh. Its session then
    /// becomes the most recently used one. Once the session is taken out (or
    /// the new id handed out), an error in the parameters or a missing
    /// converter loses it.
    #[verifier::spinoff_prover]
    pub fn start_flow<SR: SourceRegistry<A>, MR: MatcherRegistry<A>, W: FlowWorks<A, S, M>>(
        &mut self,
        works: &W,
        source: &SR,
        matcher: &MR,
        request: StartFlow<A>,
        started: u64,
    ) -> (r: Result<(SessionId, FlowId), Error>)
        requires
            old(self).wf(),
            request.id is None ==> old(self).spec_last_id().0 < i32::MAX,
        ensures
            final(self).wf(),
            request.id is None ==> final(self).spec_last_id() == SessionId(
                (old(self).spec_last_id().0 + 1) as i32,
            ),
            request.id is Some ==> final(self).spec_last_id() == old(self).spec_last_id(),
            match request.id {
                Some(sid) => {
                    &&& !holds_id(old(self).spec_sessions(), sid) ==> r == Err::<
                        (SessionId, FlowId),
                        Error,
                    >(Error::SessionNotFound(sid)) && final(self).spec_sessions() == old(self).spec_sessions()
                    &&& r is Ok ==> r->Ok_0.0 == sid
                    &&& holds_id(old(self).spec_sessions(), sid) ==> {
                        let prev = last_vars(old(self).spec_sessions(), sid);
                        let vars = request.scenario.linearf;
                        &&& mismatch(prev, vars) ==> final(self).spec_sessions() == old(self).spec_sessions()
                        &&& prev.source@ != vars.source@ ==> r == Err::<(SessionId, FlowId), Error>(
                            Error::ScenarioSource(prev.source, vars.source),
                        )
                        &&& prev.source@ == vars.source@ && prev.matcher@ != vars.matcher@ ==> r == Err::<
                            (SessionId, FlowId),
                            Error,
                        >(Error::ScenarioMatcher(prev.matcher, vars.matcher))
                        &&& prev.source@ == vars.source@ && prev.matcher@ == vars.matcher@
                            && prev.converters.deep_view() != vars.converters.deep_view() ==> (r matches Err(
                            Error::ScenarioConverters(a, b),
                        ) && a@ == prev.converters@ && b@ == vars.converters@)
                        &&& !mismatch(prev, vars) && r is Err ==> final(self).spec_sessions() == old(
                            self,
                        ).spec_sessions().remove(session_at(old(self).spec_sessions(), sid))
                    }
                },
                None => r is Err ==> final(self).spec_sessions() == old(self).spec_sessions(),
            },
            ({
                let vars = request.scenario.linearf;
                let pr = parsed(vars, request.scenario.source, request.scenario.matcher);
                &&& pr is Ok
                &&& request.id matches Some(sid) ==> holds_id(old(self).spec_sessions(), sid) && !mismatch(
                    last_vars(old(self).spec_sessions(), sid),
                    vars,
                )
                &&& vars.converters@.len() == 0 || forall|l: Arc<Vars>|
                    *l == vars ==> (#[trigger] works.spec_missing_converter(
                        Scenario { linearf: l, source: pr->Ok_0.0, matcher: pr->Ok_0.1 },
                    )) is None || !nothing_to_reuse(
                        old(self).spec_sessions(),
                        request.id,
                        pr->Ok_0.0,
                        pr->Ok_0.1,
                        l,
                        *source,
                        *matcher,
                        started,
                    )
            }) ==> r is Ok,
            r matches Err(Error::ConverterNotFound(n)) ==> ({
                let pr = parsed(request.scenario.linearf, request.scenario.source, request.scenario.matcher);
                &&& pr is Ok
                &&& exists|l: Arc<Vars>|
                    *l == request.scenario.linearf && #[trigger] works.spec_missing_converter(
                        Scenario { linearf: l, source: pr->Ok_0.0, matcher: pr->Ok_0.1 },
                    ) == Some(MapConvertError::ConverterNotFound(n)) && nothing_to_reuse(
                        old(self).spec_sessions(),
                        request.id,
                        pr->Ok_0.0,
                        pr->Ok_0.1,
                        l,
                        *source,
                        *matcher,
                        started,
                    )
            }),
            r matches Ok((sid, fid)) ==> (request.scenario.linearf.dispose_flow ==> forall|k: int|
                0 <= k < fid.0 ==> (#[trigger] final(self).spec_sessions().last().1.spec_flows()[k]).spec_source() is None
                    && final(self).spec_sessions().last().1.spec_flows()[k].spec_matcher() is None),
            request.id is None && r is Ok ==> r->Ok_0.0 == final(self).spec_last_id(),
            parsed(
                request.scenario.linearf,
                request.scenario.source,
                request.scenario.matcher,
            ) is Err ==> r is Err,
            r is Ok ==> parsed(
                request.scenario.linearf,
                request.scenario.source,
                request.scenario.matcher,
            ) is Ok,
            r matches Ok((sid, fid)) ==> final(self).spec_sessions().len() > 0
                && final(self).spec_sessions().last().0 == sid && fid.0 == final(
                self).spec_sessions().last().1.spec_flows().len() - 1,
            r matches Ok((sid, fid)) ==> start_holds(
                old(self).spec_sessions(),
                final(self).spec_sessions(),
                request,
                sid,
                fid,
                *source,
                *matcher,
                started,
            ),
    {
        let ghost old_s = self.sessions@;
        let ghost req = request;
        let StartFlow { id: req_id, scenario: req_scenario } = request;
        let (id, mut target) = self.open_session(req_id, &req_scenario.linearf)?;
        let ghost target0 = target.flows@;
        let ghost others = self.sessions@;
        let ghost ti: int = if req_id is Some {
            choose|i: int|
                #![trigger old_s[i]]
                0 <= i < old_s.len() && old_s[i] == (id, target) && others == old_s.remove(i)
        } else {
            0
        };
        let scenario = parse_scenario(req_scenario)?;
        let found = self.reusable(&target, source, matcher, &scenario, started);
        assert(search_result(found, target0, others, *source, *matcher, scenario, started));
        let dispose_flow = scenario.linearf.dispose_flow;
        let ghost sc = scenario;
        let flow = match self.run_found(&mut target, found, works, scenario, started) {
            Ok(f) => f,
            Err(e) => {
                proof {
                    let pr = parsed(req.scenario.linearf, req.scenario.source, req.scenario.matcher);
                    assert(sc == Scenario { linearf: sc.linearf, source: pr->Ok_0.0, matcher: pr->Ok_0.1 });
                    assert(found is None);
                    assert(sc == Scenario { linearf: sc.linearf, source: sc.source, matcher: sc.matcher });
                    if let Some(sid) = req_id {
                        assert(target0 == old_s[session_at(old_s, sid)].1.spec_flows());
                        assert(others == old_s.remove(session_at(old_s, sid)));
                    } else {
                        assert(target0 =~= Seq::<Flow<A, S, M>>::empty());
                        assert(others == old_s);
                    }
                    assert(nothing_to_reuse(old_s, req_id, sc.source, sc.matcher, sc.linearf, *source, *matcher, started));
                }
                return Err(e);
            },
        };
        if dispose_flow {
            target.dispose_flows();
        }
        let fid = target.push(flow);
        let ghost mid = self.sessions@;
        self.sessions.push_back((id, target));
        proof {
            let fs = self.sessions@;
            assert forall|k: int| 0 <= k < fs.len() implies (#[trigger] fs[k]).1.spec_flows().len()
                > 0 && 0 < fs[k].0.0 <= self.last_id.0 by {
                if k < mid.len() {
                    assert(fs[k] == mid[k]);
                }
            }
            assert forall|x: int, y: int| 0 <= x < y < fs.len() implies (#[trigger] fs[x]).0 != (
            #[trigger] fs[y]).0 by {
                if y < mid.len() {
                    assert(fs[x] == mid[x] && fs[y] == mid[y]);
                } else {
                    assert(fs[x] == mid[x]);
                }
            }
            assert(fs.last() == (id, target));
            assert(fs.drop_last() == mid);
            let ii = ti;
            let (tg, ot) = match req_id {
                Some(_) => (old_s[ii].1.spec_flows(), old_s.remove(ii)),
                None => (Seq::empty(), old_s),
            };
            assert(tg == target0);
            assert(ot == others);
            assert(*sc.linearf == req_scenario.linearf);
            assert(fid.0 == tg.len());
            assert(fs.len() == ot.len() + 1);
            assert(forall|k: int| 0 <= k < ot.len() ==> (#[trigger] fs[k]).0 == ot[k].0);
            assert(search_result(found, tg, ot, *source, *matcher, sc, started));
            assert(started_as(fs.last().1.spec_flows()[fid.0 as int], found, tg, ot, sc, started));
            assert(start_outcome(
                old_s,
                fs,
                req_id,
                *sc.linearf,
                sc.source,
                sc.matcher,
                id,
                fid,
                ii,
                found,
                sc.linearf,
                *source,
                *matcher,
                started,
            ));
            let pr = parsed(req.scenario.linearf, req.scenario.source, req.scenario.matcher);
            assert(pr == Ok::<(Arc<A>, Arc<A>), Error>((sc.source, sc.matcher)));
            assert(old(self).spec_sessions() == old_s);
            assert(self.spec_sessions() == fs);
            assert(req.id == req_id);
            assert(fid.0 == fs.last().1.spec_flows().len() - 1);
            assert(start_holds(old_s, fs, req, id, fid, *source, *matcher, started));
        }
        Ok((id, fid))
    }

    /// Hands out the session the flow is to join: a new one under the next
    /// id, or the session `id`, taken out of the state once it is known to
    /// keep to the settings `vars`.
    fn open_session(&mut self, id: Option<SessionId>, vars: &Vars) -> (r: Result<
        (SessionId, Session<A, S, M>),
        Error,
    >)
        requires
            old(self).wf(),
            id is None ==> old(self).spec_last_id().0 < i32::MAX,
        ensures
            id is None ==> (final(self).spec_last_id() == SessionId(
                (old(self).spec_last_id().0 + 1) as i32,
            ) && final(self).spec_sessions() == old(self).spec_sessions() && (r matches Ok((s, t))
                && s == final(self).spec_last_id() && t.spec_flows().len() == 0)),
            id is Some ==> final(self).spec_last_id() == old(self).spec_last_id(),
            id matches Some(sid) ==> (match r {
                Ok((s, t)) => s == sid && exists|i: int|
                    #![trigger old(self).spec_sessions()[i]]
                    0 <= i < old(self).spec_sessions().len() && old(self).spec_sessions()[i] == (
                        sid,
                        t,
                    ) && final(self).spec_sessions() == old(self).spec_sessions().remove(i),
                Err(e) => final(self).spec_sessions() == old(self).spec_sessions() && (!holds_id(
                    old(self).spec_sessions(),
                    sid,
                ) ==> e == Error::SessionNotFound(sid)),
            }),
            final(self).spec_last_id().0 >= 0,
            forall|k: int|
                0 <= k < final(self).spec_sessions().len() ==> final(self).spec_sessions()[k].1.spec_flows().len() > 0 && 0 < final(self).spec_sessions()[k].0.0 <= final(self).spec_last_id().0,
            forall|x: int, y: int|
                0 <= x < y < final(self).spec_sessions().len() ==> final(self).spec_sessions()[x].0 != final(self).spec_sessions()[y].0,
            r matches Ok((s, _)) ==> (0 < s.0 <= final(self).spec_last_id().0 && !holds_id(
                final(self).spec_sessions(),
                s,
            )),
            id matches Some(sid) ==> (holds_id(old(self).spec_sessions(), sid) ==> {
                let prev = last_vars(old(self).spec_sessions(), sid);
                &&& r is Ok <==> !mismatch(prev, *vars)
                &&& prev.source@ != vars.source@ ==> r == Err::<(SessionId, Session<A, S, M>), Error>(
                    Error::ScenarioSource(prev.source, vars.source),
                )
                &&& prev.source@ == vars.source@ && prev.matcher@ != vars.matcher@ ==> r == Err::<
                    (SessionId, Session<A, S, M>),
                    Error,
                >(Error::ScenarioMatcher(prev.matcher, vars.matcher))
                &&& prev.source@ == vars.source@ && prev.matcher@ == vars.matcher@
                    && prev.converters.deep_view() != vars.converters.deep_view() ==> (r matches Err(
                    Error::ScenarioConverters(a, b),
                ) && a@ == prev.converters@ && b@ == vars.converters@)
                &&& r is Ok ==> final(self).spec_sessions() == old(self).spec_sessions().remove(
                    session_at(old(self).spec_sessions(), sid),
                ) && r->Ok_0.1 == old(self).spec_sessions()[session_at(old(self).spec_sessions(), sid)].1
            }),
    {
        let ghost old_s = self.sessions@;
        match id {
            None => {
                self.last_id = SessionId(self.last_id.0 + 1);
                proof {
                    assert forall|k: int| 0 <= k < old_s.len() implies (#[trigger] old_s[k]).0
                        != self.last_id by {}
                }
                Ok((self.last_id, Session::empty()))
            },
            Some(id) => {
                let sess = match self.session(id) {
                    Some(s) => s,
                    None => return Err(Error::SessionNotFound(id)),
                };
                proof {
                    let i = choose|i: int|
                        0 <= i < old_s.len() && old_s[i].0 == id && *sess == old_s[i].1 && forall|j: int|
                            i < j < old_s.len() ==> (#[trigger] old_s[j]).0 != id;
                    lemma_session_at(old_s, id, i);
                }
                validate_scenario(sess, vars)?;
                let sess = self.take_session(id).unwrap();
                proof {
                    let i = choose|i: int|
                        0 <= i < old_s.len() && old_s[i].0 == id && sess == old_s[i].1
                            && self.sessions@ == old_s.remove(i) && forall|j: int|
                            0 <= j < i ==> (#[trigger] old_s[j]).0 != id;
                    assert(old_s[i] == (id, sess));
                    lemma_session_at(old_s, id, i);
                    let s = self.sessions@;
                    assert forall|a: int| 0 <= a < s.len() implies (#[trigger] s[a]).1.spec_flows().len()
                        > 0 && 0 < s[a].0.0 <= self.last_id.0 && s[a].0 != id by {
                        let ia = if a < i { a } else { a + 1 };
                        assert(s[a] == old_s[ia]);
                    }
                    assert forall|a: int, b: int| 0 <= a < b < s.len() implies (#[trigger] s[a]).0
                        != (#[trigger] s[b]).0 by {
                        let ia = if a < i { a } else { a + 1 };
                        let ib = if b < i { b } else { b + 1 };
                        assert(s[a] == old_s[ia] && s[b] == old_s[ib]);
                    }
                }
                Ok((id, sess))
            },
        }
    }

    /// Starts the flow on the work that the search found, or afresh.
    fn run_found<W: FlowWorks<A, S, M>>(
        &mut self,
        target: &mut Session<A, S, M>,
        found: Option<(Reuse<()>, Place)>,
        works: &W,
        scenario: Scenario<Arc<Vars>, Arc<A>>,
        started: u64,
    ) -> (r: Result<Flow<A, S, M>, Error>)
        requires
            found matches Some((_, p)) ==> valid_place(
                old(target).spec_flows(),
                old(self).spec_sessions(),
                p,
            ),
            found matches Some((_, p)) ==> flow_at_place(
                old(target).spec_flows(),
                old(self).spec_sessions(),
                p,
            ).spec_source() is Some,
        ensures
            final(self).spec_last_id() == old(self).spec_last_id(),
            final(self).spec_sessions().len() == old(self).spec_sessions().len(),
            final(target).spec_flows().len() == old(target).spec_flows().len(),
            forall|k: int|
                0 <= k < final(self).spec_sessions().len() ==> final(self).spec_sessions()[k].0 == old(self).spec_sessions()[k].0 && final(self).spec_sessions()[k].1.spec_flows().len() == old(self).spec_sessions()[k].1.spec_flows().len(),
            match r {
                Ok(f) => started_as(
                    f,
                    found,
                    old(target).spec_flows(),
                    old(self).spec_sessions(),
                    scenario,
                    started,
                ),
                Err(e) => found is None && (e matches Error::ConverterNotFound(n)
                    && works.spec_missing_converter(scenario) == Some(MapConvertError::ConverterNotFound(n))),
            },
            works.spec_missing_converter(scenario) is None ==> r is Ok,
            scenario.linearf.converters@.len() == 0 ==> r is Ok,
            r is Err ==> final(self).spec_sessions() == old(self).spec_sessions() && final(target).spec_flows()
                == old(target).spec_flows(),
    {
        match found {
            None => match Flow::start_fresh(works, scenario, started) {
                Ok(f) => Ok(f),
                Err(MapConvertError::ConverterNotFound(n)) => Err(Error::ConverterNotFound(n)),
            },
            Some((kind, Place::Target(fi))) => {
                let ghost t0 = target.flows@;
                let mut prev = target.flows.remove(fi);
                assert(prev == t0[fi as int]);
                let f = Flow::start_reused(works, kind, &mut prev, scenario);
                target.flows.insert(fi, prev);
                Ok(f)
            },
            Some((kind, Place::Stored(si, fi))) => {
                let ghost s0 = self.sessions@;
                let (sid2, mut sess) = self.sessions.remove(si).unwrap();
                let ghost f0 = sess.flows@;
                let mut prev = sess.flows.remove(fi);
                assert(prev == f0[fi as int]);
                let f = Flow::start_reused(works, kind, &mut prev, scenario);
                sess.flows.insert(fi, prev);
                self.sessions.insert(si, (sid2, sess));
                proof {
                    let s1 = self.sessions@;
                    assert forall|k: int| 0 <= k < s1.len() implies (#[trigger] s1[k]).0 == s0[k].0
                        && s1[k].1.spec_flows().len() == s0[k].1.spec_flows().len() by {
                        if k != si {
                            assert(s1[k] == s0[k]);
                        }
                    }
                }
                Ok(f)
            },
        }
    }
}

} // verus!
