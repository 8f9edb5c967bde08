use vstd::prelude::*;
use std::collections::VecDeque;
use std::sync::Arc;

verus! {

/// Names a session of the first model of sessions.
#[derive(Debug, Clone, Copy, PartialEq, Eq, Structural, Hash, Default)]
pub struct SessionId(pub i32);

/// Names a flow within its session.
#[derive(Debug, Clone, Copy, PartialEq, Eq, Structural, Hash, Default)]
pub struct FlowId(pub i32);

impl FlowId {
    /// The id of the flow that starts a session.
    pub fn first() -> (r: FlowId)
        ensures
            r == FlowId(1),
    {
        FlowId(1)
    }
}

/// The settings of a flow.
#[derive(Debug)]
pub struct Vars {
    pub source: String,
    pub matcher: String,
    pub converters: Vec<String>,
    pub query: String,
}

/// What a registry is told about the flow it is asked to reuse.
#[derive(Debug, Clone, Copy)]
pub struct ReusableContext {
    pub same_session: bool,
}

/// Parameters of a source or matcher that takes none: written as a unit or
/// as an empty object.
#[derive(Debug, Clone, Copy)]
pub enum BlankParams {
    Unit(()),
    Obj {},
}

/// What a flow is started with: the settings, and the parameters of the
/// source and of the matcher.
#[derive(Clone)]
pub struct Senario<V, P> {
    pub linearf: V,
    pub source: P,
    pub matcher: P,
}

impl<V, P> Senario<V, P> {
    /// The same scenario, borrowed.
    pub fn as_ref(&self) -> (r: Senario<&V, &P>)
        ensures
            *r.linearf == self.linearf,
            *r.source == self.source,
            *r.matcher == self.matcher,
    {
        Senario { linearf: &self.linearf, source: &self.source, matcher: &self.matcher }
    }
}

/// Why a request on the sessions failed.
#[derive(Debug)]
pub enum Error {
    SessionNotFound(SessionId),
    FlowNotFound(FlowId),
    SourceNotFound(String),
    MatcherNotFound(String),
    /// The session runs another source: the one it runs, the one asked for
    SourceMismatch(String, String),
    /// The session runs another matcher: the one it runs, the one asked for
    MatcherMismatch(String, String),
    /// What a source or matcher said of its parameters
    Params(String),
}

/// The sources a user's registry knows: says whether the items of an earlier
/// flow can serve a new one.
pub trait SourceRegistry<P: ?Sized> {
    /// What `reusable` answers.
    closed spec fn spec_reusable(
        &self,
        name: Seq<char>,
        ctx: ReusableContext,
        prev: (Arc<Vars>, Arc<P>),
        senario: (Arc<Vars>, Arc<P>),
    ) -> bool {
        vstd::pervasive::arbitrary()
    }

    /// Whether the source `name`, run with `prev`, can serve `senario`.
    fn reusable(
        &self,
        name: &str,
        ctx: ReusableContext,
        prev: (&Arc<Vars>, &Arc<P>),
        senario: (&Arc<Vars>, &Arc<P>),
    ) -> (r: bool)
        ensures
            r == self.spec_reusable(name@, ctx, (*prev.0, *prev.1), (*senario.0, *senario.1)),
    ;
}

/// The matchers a user's registry knows: says whether the scores of an
/// earlier flow can serve a new one.
pub trait MatcherRegistry<P: ?Sized> {
    /// What `reusable` answers.
    closed spec fn spec_reusable(
        &self,
        name: Seq<char>,
        ctx: ReusableContext,
        prev: (Arc<Vars>, Arc<P>),
        senario: (Arc<Vars>, Arc<P>),
    ) -> bool {
        vstd::pervasive::arbitrary()
    }

    /// Whether the matcher `name`, run with `prev`, can serve `senario`.
    fn reusable(
        &self,
        name: &str,
        ctx: ReusableContext,
        prev: (&Arc<Vars>, &Arc<P>),
        senario: (&Arc<Vars>, &Arc<P>),
    ) -> (r: bool)
        ensures
            r == self.spec_reusable(name@, ctx, (*prev.0, *prev.1), (*senario.0, *senario.1)),
    ;
}

/// A flow: what it was started with.
pub struct Flow<P: ?Sized> {
    vars: Arc<Vars>,
    source_params: Arc<P>,
    matcher_params: Arc<P>,
}

impl<P: ?Sized> Flow<P> {
    pub closed spec fn spec_vars(&self) -> Arc<Vars> {
        self.vars
    }

    pub closed spec fn spec_source_params(&self) -> Arc<P> {
        self.source_params
    }

    pub closed spec fn spec_matcher_params(&self) -> Arc<P> {
        self.matcher_params
    }

    /// A flow started with `senario`.
    pub fn new(senario: Senario<Arc<Vars>, Arc<P>>) -> (r: Self)
        ensures
            r.spec_vars() == senario.linearf,
            r.spec_source_params() == senario.source,
            r.spec_matcher_params() == senario.matcher,
    {
        let Senario { linearf, source, matcher } = senario;
        Flow { vars: linearf, source_params: source, matcher_params: matcher }
    }

    /// The settings the flow was started with.
    pub fn vars(&self) -> (r: &Arc<Vars>)
        ensures
            *r == self.spec_vars(),
    {
        &self.vars
    }

    /// The parameters of its source.
    pub fn source_params(&self) -> (r: &Arc<P>)
        ensures
            *r == self.spec_source_params(),
    {
        &self.source_params
    }

    /// The parameters of its matcher.
    pub fn matcher_params(&self) -> (r: &Arc<P>)
        ensures
            *r == self.spec_matcher_params(),
    {
        &self.matcher_params
    }
}

/// Whether a flow with these ids is among `flows`.
pub open spec fn holds_flow<P: ?Sized>(flows: Seq<(FlowId, Flow<P>)>, id: FlowId) -> bool {
    exists|i: int| 0 <= i < flows.len() && (#[trigger] flows[i]).0 == id
}

/// Where the first flow `id` of `flows` is.
pub open spec fn first_flow_at<P: ?Sized>(flows: Seq<(FlowId, Flow<P>)>, id: FlowId, i: int) -> bool {
    &&& 0 <= i < flows.len()
    &&& flows[i].0 == id
    &&& forall|j: int| 0 <= j < i ==> (#[trigger] flows[j]).0 != id
}

/// The flows of a session, the one in use last; a session has at least one.
pub struct Session<P: ?Sized> {
    last_id: FlowId,
    flows: Vec<(FlowId, Flow<P>)>,
}

impl<P: ?Sized> Session<P> {
    pub closed spec fn spec_flows(&self) -> Seq<(FlowId, Flow<P>)> {
        self.flows@
    }

    pub closed spec fn spec_last_id(&self) -> FlowId {
        self.last_id
    }

    /// A session that runs `flow` as its first flow.
    pub fn start(flow: Flow<P>) -> (r: Self)
        ensures
            r.spec_flows() == seq![(FlowId(1), flow)],
            r.spec_last_id() == FlowId(1),
    {
        let mut flows = Vec::new();
        flows.push((FlowId::first(), flow));
        Session { last_id: FlowId::first(), flows }
    }

    /// The flows, the one in use last.
    pub fn flows(&self) -> (r: &Vec<(FlowId, Flow<P>)>)
        ensures
            r@ == self.spec_flows(),
    {
        &self.flows
    }

    /// The flow in use.
    pub fn last_flow(&self) -> (r: (FlowId, &Flow<P>))
        requires
            self.spec_flows().len() > 0,
        ensures
            r.0 == self.spec_flows().last().0,
            *r.1 == self.spec_flows().last().1,
    {
        let last = &self.flows[self.flows.len() - 1];
        (last.0, &last.1)
    }

    /// The id that a new flow of the session gets.
    pub fn next_id(&self) -> (r: FlowId)
        requires
            self.spec_last_id().0 < i32::MAX,
        ensures
            r.0 == self.spec_last_id().0 + 1,
    {
        FlowId(self.last_id.0 + 1)
    }

    /// Takes out the first flow `id`, if there is one.
    pub fn remove_flow(&mut self, id: FlowId) -> (r: Option<Flow<P>>)
        ensures
            final(self).spec_last_id() == old(self).spec_last_id(),
            match r {
                None => !holds_flow(old(self).spec_flows(), id) && final(self).spec_flows() == old(self).spec_flows(),
                Some(f) => exists|i: int|
                    first_flow_at(old(self).spec_flows(), id, i) && f == old(self).spec_flows()[i].1
                        && final(self).spec_flows() == old(self).spec_flows().remove(i),
            },
    {
        let mut i: usize = 0;
        while i < self.flows.len()
            invariant
                self.flows@ == old(self).flows@,
                self.last_id == old(self).last_id,
                i <= self.flows@.len(),
                forall|j: int| 0 <= j < i ==> (#[trigger] self.flows@[j]).0 != id,
            decreases self.flows@.len() - i,
        {
            if self.flows[i].0 == id {
                let (_, f) = self.flows.remove(i);
                assert(first_flow_at(old(self).spec_flows(), id, i as int));
                return Some(f);
            }
            i = i + 1;
        }
        None
    }

    /// Makes the flow `id` the one in use: moves it to the back.
    pub fn resume_flow(&mut self, id: FlowId) -> (r: Result<(), Error>)
        ensures
            final(self).spec_last_id() == old(self).spec_last_id(),
            match r {
                Err(e) => e == Error::FlowNotFound(id) && !holds_flow(old(self).spec_flows(), id)
                    && final(self).spec_flows() == old(self).spec_flows(),
                Ok(_) => exists|i: int|
                    first_flow_at(old(self).spec_flows(), id, i) && final(self).spec_flows() == old(self).spec_flows().remove(i).push(old(self).spec_flows()[i]),
            },
    {
        match self.remove_flow(id) {
            None => Err(Error::FlowNotFound(id)),
            Some(flow) => {
                self.flows.push((id, flow));
                Ok(())
            },
        }
    }
}

/// Whether `flow`, of the session `sid`, can serve `senario` for the session
/// that would get `next_sid`: it runs the same source and matcher, and both
/// registries say its work can be reused.
pub open spec fn flow_serves<P: ?Sized, S: SourceRegistry<P>, M: MatcherRegistry<P>>(
    source: &S,
    matcher: &M,
    senario: Senario<Arc<Vars>, Arc<P>>,
    next_sid: SessionId,
    sid: SessionId,
    flow: Flow<P>,
) -> bool {
    let vars = flow.spec_vars();
    let ctx = ReusableContext { same_session: sid == next_sid };
    &&& vars.source@ == senario.linearf.source@
    &&& vars.matcher@ == senario.linearf.matcher@
    &&& source.spec_reusable(
        senario.linearf.source@,
        ctx,
        (vars, flow.spec_source_params()),
        (senario.linearf, senario.source),
    )
    &&& matcher.spec_reusable(
        senario.linearf.matcher@,
        ctx,
        (vars, flow.spec_matcher_params()),
        (senario.linearf, senario.matcher),
    )
}

/// Whether flow `j` of session `i` of `ss` serves `senario`.
pub open spec fn hit_at<P: ?Sized, S: SourceRegistry<P>, M: MatcherRegistry<P>>(
    ss: Seq<(SessionId, Session<P>)>,
    source: &S,
    matcher: &M,
    senario: Senario<Arc<Vars>, Arc<P>>,
    next_sid: SessionId,
    i: int,
    j: int,
) -> bool {
    &&& 0 <= i < ss.len()
    &&& 0 <= j < ss[i].1.spec_flows().len()
    &&& flow_serves(source, matcher, senario, next_sid, ss[i].0, ss[i].1.spec_flows()[j].1)
}

/// Whether flow `j2` of session `i2` is looked at before flow `j` of
/// session `i`: the search goes from the last session back, and within a
/// session from the last flow back.
pub open spec fn seen_before(i2: int, j2: int, i: int, j: int) -> bool {
    i2 > i || (i2 == i && j2 > j)
}

/// Whether some flow of the session `next_sid` itself serves `senario`.
pub open spec fn same_session_hit<P: ?Sized, S: SourceRegistry<P>, M: MatcherRegistry<P>>(
    ss: Seq<(SessionId, Session<P>)>,
    source: &S,
    matcher: &M,
    senario: Senario<Arc<Vars>, Arc<P>>,
    next_sid: SessionId,
) -> bool {
    exists|i: int, j: int| #[trigger] hit_at(ss, source, matcher, senario, next_sid, i, j) && ss[i].0 == next_sid
}

/// Whether flow `j` of session `i` is the one that the search settles on:
/// the first that serves, among the flows of the session `next_sid` when one
/// of them serves, else among all.
pub open spec fn chosen_hit<P: ?Sized, S: SourceRegistry<P>, M: MatcherRegistry<P>>(
    ss: Seq<(SessionId, Session<P>)>,
    source: &S,
    matcher: &M,
    senario: Senario<Arc<Vars>, Arc<P>>,
    next_sid: SessionId,
    i: int,
    j: int,
) -> bool {
    &&& hit_at(ss, source, matcher, senario, next_sid, i, j)
    &&& if same_session_hit(ss, source, matcher, senario, next_sid) {
        &&& ss[i].0 == next_sid
        &&& forall|i2: int, j2: int|
            #[trigger] hit_at(ss, source, matcher, senario, next_sid, i2, j2) && ss[i2].0 == next_sid
                ==> !seen_before(i2, j2, i, j)
    } else {
        forall|i2: int, j2: int|
            #[trigger] hit_at(ss, source, matcher, senario, next_sid, i2, j2) ==> !seen_before(
                i2,
                j2,
                i,
                j,
            )
    }
}

/// A flow is reused only for the source and matcher it ran with: whatever
/// the registries say, a flow that serves a request ran with the requested
/// source and matcher.
pub proof fn law_served_flow_keeps_source_and_matcher<P: ?Sized, S: SourceRegistry<P>, M: MatcherRegistry<P>>(
    source: &S,
    matcher: &M,
    senario: Senario<Arc<Vars>, Arc<P>>,
    next_sid: SessionId,
    sid: SessionId,
    flow: Flow<P>,
)
    requires
        flow_serves(source, matcher, senario, next_sid, sid, flow),
    ensures
        flow.spec_vars().source@ == senario.linearf.source@,
        flow.spec_vars().matcher@ == senario.linearf.matcher@,
{
}

/// The flow that the search for reuse settles on ran with the requested
/// source and matcher.
pub proof fn law_chosen_flow_keeps_source_and_matcher<P: ?Sized, S: SourceRegistry<P>, M: MatcherRegistry<P>>(
    ss: Seq<(SessionId, Session<P>)>,
    source: &S,
    matcher: &M,
    senario: Senario<Arc<Vars>, Arc<P>>,
    next_sid: SessionId,
    i: int,
    j: int,
)
    requires
        chosen_hit(ss, source, matcher, senario, next_sid, i, j),
    ensures
        ss[i].1.spec_flows()[j].1.spec_vars().source@ == senario.linearf.source@,
        ss[i].1.spec_flows()[j].1.spec_vars().matcher@ == senario.linearf.matcher@,
{
}

/// Whether `ss` holds a session `id`.
pub open spec fn holds_session<P: ?Sized>(ss: Seq<(SessionId, Session<P>)>, id: SessionId) -> bool {
    exists|i: int| 0 <= i < ss.len() && (#[trigger] ss[i]).0 == id
}

/// The sessions, least recently used first, and the last id handed out.
pub struct Sessions<P: ?Sized> {
    last_id: SessionId,
    sessions: VecDeque<(SessionId, Session<P>)>,
}

fn flow_serves_exec<P: ?Sized, S: SourceRegistry<P>, M: MatcherRegistry<P>>(
    source: &S,
    matcher: &M,
    senario: &Senario<Arc<Vars>, Arc<P>>,
    next_sid: SessionId,
    sid: SessionId,
    flow: &Flow<P>,
) -> (r: bool)
    ensures
        r == flow_serves(source, matcher, *senario, next_sid, sid, *flow),
{
    let vars = flow.vars();
    if vars.source != senario.linearf.source || vars.matcher != senario.linearf.matcher {
        return false;
    }
    let same = sid == next_sid;
    source.reusable(
        senario.linearf.source.as_str(),
        ReusableContext { same_session: same },
        (vars, flow.source_params()),
        (&senario.linearf, &senario.source),
    ) && matcher.reusable(
        senario.linearf.matcher.as_str(),
        ReusableContext { same_session: same },
        (vars, flow.matcher_params()),
        (&senario.linearf, &senario.matcher),
    )
}

impl<P: ?Sized> Sessions<P> {
    pub closed spec fn spec_sessions(&self) -> Seq<(SessionId, Session<P>)> {
        self.sessions@
    }

    pub closed spec fn spec_last_id(&self) -> SessionId {
        self.last_id
    }

    /// No two sessions share an id, none has an id past the last handed out,
    /// and each has a flow.
    pub open spec fn wf(&self) -> bool {
        &&& forall|i: int|
            0 <= i < self.spec_sessions().len() ==> (#[trigger] self.spec_sessions()[i]).0.0
                <= self.spec_last_id().0
        &&& forall|i: int, j: int|
            0 <= i < j < self.spec_sessions().len() ==> (#[trigger] self.spec_sessions()[i]).0
                != (#[trigger] self.spec_sessions()[j]).0
        &&& forall|i: int|
            0 <= i < self.spec_sessions().len() ==> (#[trigger] self.spec_sessions()[i]).1.spec_flows().len()
                > 0
    }

    /// No session yet; the first gets the id 1.
    pub fn new() -> (r: Self)
        ensures
            r.wf(),
            r.spec_last_id() == SessionId(0),
            r.spec_sessions() == Seq::<(SessionId, Session<P>)>::empty(),
    {
        Sessions { last_id: SessionId(0), sessions: VecDeque::new() }
    }

    /// The sessions, least recently used first.
    pub fn sessions(&self) -> (r: &VecDeque<(SessionId, Session<P>)>)
        ensures
            r@ == self.spec_sessions(),
    {
        &self.sessions
    }

    /// The id that a new session gets.
    pub fn next_id(&self) -> (r: SessionId)
        requires
            self.spec_last_id().0 < i32::MAX,
        ensures
            r.0 == self.spec_last_id().0 + 1,
    {
        SessionId(self.last_id.0 + 1)
    }

    /// Hands out the id that a new session gets.
    pub fn use_next_id(&mut self) -> (r: SessionId)
        requires
            old(self).wf(),
            old(self).spec_last_id().0 < i32::MAX,
        ensures
            final(self).wf(),
            r.0 == old(self).spec_last_id().0 + 1,
            final(self).spec_last_id() == r,
            final(self).spec_sessions() == old(self).spec_sessions(),
    {
        self.last_id = self.next_id();
        assert forall|i: int| 0 <= i < self.spec_sessions().len() implies (#[trigger] self.spec_sessions()[i]).0.0
            <= self.spec_last_id().0 by {
            assert(old(self).spec_sessions()[i].0.0 <= old(self).spec_last_id().0);
        }
        self.last_id
    }

    /// The session `id`, looked for from the most recently used.
    pub fn session(&self, id: SessionId) -> (r: Option<&Session<P>>)
        ensures
            match r {
                None => !holds_session(self.spec_sessions(), id),
                Some(s) => exists|i: int|
                    0 <= i < self.spec_sessions().len() && self.spec_sessions()[i].0 == id && *s
                        == self.spec_sessions()[i].1 && forall|j: int|
                        i < j < self.spec_sessions().len() ==> (#[trigger] self.spec_sessions()[j]).0 != id,
            },
    {
        let mut i = self.sessions.len();
        while i > 0
            invariant
                i <= self.sessions@.len(),
                forall|j: int| i <= j < self.sessions@.len() ==> (#[trigger] self.sessions@[j]).0 != id,
            decreases i,
        {
            if self.sessions[i - 1].0 == id {
                assert(self.spec_sessions()[i - 1].0 == id);
                return Some(&self.sessions[i - 1].1);
            }
            i = i - 1;
        }
        None
    }

    /// Takes out the first session `id`, if there is one.
    pub fn remove_session(&mut self, id: SessionId) -> (r: Option<Session<P>>)
        requires
            old(self).wf(),
        ensures
            final(self).wf(),
            final(self).spec_last_id() == old(self).spec_last_id(),
            match r {
                None => !holds_session(old(self).spec_sessions(), id) && final(self).spec_sessions()
                    == old(self).spec_sessions(),
                Some(s) => exists|i: int|
                    0 <= i < old(self).spec_sessions().len() && old(self).spec_sessions()[i].0 == id
                        && s == old(self).spec_sessions()[i].1 && final(self).spec_sessions() == old(self).spec_sessions().remove(i),
            },
    {
        let mut i: usize = 0;
        while i < self.sessions.len()
            invariant
                self.sessions@ == old(self).sessions@,
                self.last_id == old(self).last_id,
                old(self).wf(),
                i <= self.sessions@.len(),
                forall|j: int| 0 <= j < i ==> (#[trigger] self.sessions@[j]).0 != id,
            decreases self.sessions@.len() - i,
        {
            if self.sessions[i].0 == id {
                let ghost before = self.sessions@;
                let (_, s) = self.sessions.remove(i).unwrap();
                proof {
                    assert(self.sessions@ =~= before.remove(i as int));
                    assert forall|a: int, b: int|
                        0 <= a < b < self.spec_sessions().len() implies (#[trigger] self.spec_sessions()[a]).0
                        != (#[trigger] self.spec_sessions()[b]).0 by {
                        let a2 = if a < i { a } else { a + 1 };
                        let b2 = if b < i { b } else { b + 1 };
                        assert(self.spec_sessions()[a] == before[a2]);
                        assert(self.spec_sessions()[b] == before[b2]);
                        assert(old(self).spec_sessions()[a2].0 != old(self).spec_sessions()[b2].0);
                    }
                    assert forall|a: int| 0 <= a < self.spec_sessions().len() implies (#[trigger] self.spec_sessions()[a]).0.0
                        <= self.spec_last_id().0 by {
                        let a2 = if a < i { a } else { a + 1 };
                        assert(self.spec_sessions()[a] == before[a2]);
                        assert(old(self).spec_sessions()[a2].0.0 <= old(self).spec_last_id().0);
                    }
                    assert forall|a: int| 0 <= a < self.spec_sessions().len() implies (#[trigger] self.spec_sessions()[a]).1.spec_flows().len()
                        > 0 by {
                        let a2 = if a < i { a } else { a + 1 };
                        assert(self.spec_sessions()[a] == before[a2]);
                        assert(old(self).spec_sessions()[a2].1.spec_flows().len() > 0);
                    }
                }
                return Some(s);
            }
            i = i + 1;
        }
        assert(self.spec_sessions() == old(self).spec_sessions());
        None
    }
}

impl<P: ?Sized> Sessions<P> {
    /// The first flow that serves `senario`, searching from the last session
    /// back and within a session from the last flow back, among the sessions
    /// `next_sid` only when `same_only`.
    fn find_hit<S: SourceRegistry<P>, M: MatcherRegistry<P>>(
        &self,
        source: &S,
        matcher: &M,
        senario: &Senario<Arc<Vars>, Arc<P>>,
        next_sid: SessionId,
        same_only: bool,
    ) -> (r: Option<(usize, usize)>)
        ensures
            match r {
                None => forall|i: int, j: int|
                    #[trigger] hit_at(self.spec_sessions(), source, matcher, *senario, next_sid, i, j) ==> (
                    same_only && self.spec_sessions()[i].0 != next_sid),
                Some((i, j)) => {
                    &&& hit_at(self.spec_sessions(), source, matcher, *senario, next_sid, i as int, j as int)
                    &&& (same_only ==> self.spec_sessions()[i as int].0 == next_sid)
                    &&& forall|i2: int, j2: int|
                        #[trigger] hit_at(self.spec_sessions(), source, matcher, *senario, next_sid, i2, j2)
                            && (same_only ==> self.spec_sessions()[i2].0 == next_sid) ==> !seen_before(
                            i2,
                            j2,
                            i as int,
                            j as int,
                        )
                },
            },
    {
        let ghost ss = self.spec_sessions();
        let mut i = self.sessions.len();
        while i > 0
            invariant
                ss == self.spec_sessions(),
                i <= ss.len(),
                forall|i2: int, j2: int|
                    #[trigger] hit_at(ss, source, matcher, *senario, next_sid, i2, j2) && i2 >= i ==> (same_only
                        && ss[i2].0 != next_sid),
            decreases i,
        {
            let sid = self.sessions[i - 1].0;
            if !same_only || sid == next_sid {
                let flows = self.sessions[i - 1].1.flows();
                let mut j = flows.len();
                while j > 0
                    invariant
                        ss == self.spec_sessions(),
                        0 < i <= ss.len(),
                        sid == ss[i - 1].0,
                        !same_only || sid == next_sid,
                        flows@ == ss[i - 1].1.spec_flows(),
                        j <= flows@.len(),
                        forall|i2: int, j2: int|
                            #[trigger] hit_at(ss, source, matcher, *senario, next_sid, i2, j2) && i2 >= i
                                ==> (same_only && ss[i2].0 != next_sid),
                        forall|j2: int|
                            j <= j2 ==> !#[trigger] hit_at(ss, source, matcher, *senario, next_sid, i - 1, j2),
                    decreases j,
                {
                    if flow_serves_exec(source, matcher, senario, next_sid, sid, &flows[j - 1].1) {
                        proof {
                            assert(hit_at(ss, source, matcher, *senario, next_sid, i - 1, j - 1));
                            assert forall|i2: int, j2: int|
                                #[trigger] hit_at(ss, source, matcher, *senario, next_sid, i2, j2) && (same_only
                                    ==> ss[i2].0 == next_sid) implies !seen_before(
                                i2,
                                j2,
                                i - 1,
                                j - 1,
                            ) by {}
                        }
                        return Some((i - 1, j - 1));
                    }
                    j = j - 1;
                }
            }
            i = i - 1;
        }
        None
    }

    /// The session and flow whose work can serve `senario` for the session
    /// that would get `next_sid`: the flows of the session `next_sid` come
    /// first, the most recently used first, then those of all sessions.
    pub fn reusable<S: SourceRegistry<P>, M: MatcherRegistry<P>>(
        &self,
        source: &S,
        matcher: &M,
        senario: &Senario<Arc<Vars>, Arc<P>>,
        next_sid: SessionId,
    ) -> (r: Option<(SessionId, FlowId)>)
        ensures
            r is None <==> !exists|i: int, j: int| #[trigger]
                hit_at(self.spec_sessions(), source, matcher, *senario, next_sid, i, j),
            r matches Some((sid, fid)) ==> exists|i: int, j: int|
                #[trigger] chosen_hit(self.spec_sessions(), source, matcher, *senario, next_sid, i, j)
                    && self.spec_sessions()[i].0 == sid && self.spec_sessions()[i].1.spec_flows()[j].0 == fid,
    {
        let ghost ss = self.spec_sessions();
        match self.find_hit(source, matcher, senario, next_sid, true) {
            Some((i, j)) => {
                let sid = self.sessions[i].0;
                let fid = self.sessions[i].1.flows()[j].0;
                proof {
                    assert(same_session_hit(ss, source, matcher, *senario, next_sid));
                    assert(chosen_hit(ss, source, matcher, *senario, next_sid, i as int, j as int));
                }
                Some((sid, fid))
            },
            None => {
                proof {
                    assert(!same_session_hit(ss, source, matcher, *senario, next_sid));
                }
                match self.find_hit(source, matcher, senario, next_sid, false) {
                    Some((i, j)) => {
                        let sid = self.sessions[i].0;
                        let fid = self.sessions[i].1.flows()[j].0;
                        proof {
                            assert(chosen_hit(ss, source, matcher, *senario, next_sid, i as int, j as int));
                        }
                        Some((sid, fid))
                    },
                    None => None,
                }
            },
        }
    }
}

impl<P: ?Sized> Sessions<P> {
    /// Makes the session `id` the most recently used, and gives the flow it
    /// uses.
    pub fn resume(&mut self, id: SessionId) -> (r: Result<FlowId, Error>)
        requires
            old(self).wf(),
        ensures
            final(self).wf(),
            final(self).spec_last_id() == old(self).spec_last_id(),
            match r {
                Err(e) => e == Error::SessionNotFound(id) && !holds_session(old(self).spec_sessions(), id)
                    && final(self).spec_sessions() == old(self).spec_sessions(),
                Ok(fid) => exists|i: int|
                    0 <= i < old(self).spec_sessions().len() && old(self).spec_sessions()[i].0 == id
                        && fid == old(self).spec_sessions()[i].1.spec_flows().last().0 && final(self).spec_sessions() == old(self).spec_sessions().remove(i).push(
                        old(self).spec_sessions()[i],
                    ),
            },
    {
        let s = match self.remove_session(id) {
            None => {
                return Err(Error::SessionNotFound(id));
            },
            Some(s) => s,
        };
        let ghost mid = self.spec_sessions();
        let fid = s.last_flow().0;
        self.sessions.push_back((id, s));
        proof {
            self.lemma_push_keeps_wf(mid, id, s);
        }
        Ok(fid)
    }

    proof fn lemma_push_keeps_wf(&self, mid: Seq<(SessionId, Session<P>)>, id: SessionId, s: Session<P>)
        requires
            self.spec_sessions() == mid.push((id, s)),
            forall|i: int| 0 <= i < mid.len() ==> (#[trigger] mid[i]).0.0 <= self.spec_last_id().0,
            forall|i: int, j: int| 0 <= i < j < mid.len() ==> (#[trigger] mid[i]).0 != (#[trigger] mid[j]).0,
            forall|i: int| 0 <= i < mid.len() ==> (#[trigger] mid[i]).1.spec_flows().len() > 0,
            !holds_session(mid, id),
            id.0 <= self.spec_last_id().0,
            s.spec_flows().len() > 0,
        ensures
            self.wf(),
    {
        let ss = self.spec_sessions();
        assert forall|i: int| 0 <= i < ss.len() implies (#[trigger] ss[i]).0.0 <= self.spec_last_id().0 by {
            if i < mid.len() {
                assert(ss[i] == mid[i]);
            }
        }
        assert forall|i: int, j: int| 0 <= i < j < ss.len() implies (#[trigger] ss[i]).0 != (#[trigger] ss[j]).0 by {
            assert(ss[i] == mid[i]);
            if j < mid.len() {
                assert(ss[j] == mid[j]);
            } else {
                assert(mid[i].0 != id);
            }
        }
        assert forall|i: int| 0 <= i < ss.len() implies (#[trigger] ss[i]).1.spec_flows().len() > 0 by {
            if i < mid.len() {
                assert(ss[i] == mid[i]);
            }
        }
    }

    /// Starts a session for `senario`: when a flow of some session can serve
    /// it (see `reusable`), that session becomes the most recently used with
    /// that flow in use; else a new session runs a new flow. Gives the ids of
    /// the session and the flow.
    pub fn start_session<S: SourceRegistry<P>, M: MatcherRegistry<P>>(
        &mut self,
        source: &S,
        matcher: &M,
        senario: Senario<Arc<Vars>, Arc<P>>,
    ) -> (r: (SessionId, FlowId))
        requires
            old(self).wf(),
            old(self).spec_last_id().0 < i32::MAX,
        ensures
            final(self).wf(),
            final(self).spec_sessions().len() > 0,
            final(self).spec_sessions().last().0 == r.0,
            final(self).spec_sessions().last().1.spec_flows().len() > 0,
            final(self).spec_sessions().last().1.spec_flows().last().0 == r.1,
            ({
                let ss = old(self).spec_sessions();
                let next = SessionId((old(self).spec_last_id().0 + 1) as i32);
                if exists|i: int, j: int| #[trigger] hit_at(ss, source, matcher, senario, next, i, j) {
                    exists|i: int, j: int, k: int|
                        #[trigger] chosen_hit(ss, source, matcher, senario, next, i, j) && r == (
                            ss[i].0,
                            ss[i].1.spec_flows()[j].0,
                        ) && final(self).spec_last_id() == old(self).spec_last_id() && #[trigger] first_flow_at(
                            ss[i].1.spec_flows(),
                            r.1,
                            k,
                        ) && final(self).spec_sessions().len() == ss.len() && final(self).spec_sessions().drop_last() == ss.remove(i) && final(self).spec_sessions().last().0 == r.0 && final(self).spec_sessions().last().1.spec_flows() == ss[i].1.spec_flows().remove(k).push(
                            ss[i].1.spec_flows()[k],
                        )
                } else {
                    &&& r == (next, FlowId(1))
                    &&& final(self).spec_last_id() == next
                    &&& final(self).spec_sessions().drop_last() == ss
                    &&& final(self).spec_sessions().last().0 == next
                    &&& final(self).spec_sessions().last().1.spec_flows().len() == 1
                    &&& final(self).spec_sessions().last().1.spec_flows()[0].0 == FlowId(1)
                    &&& final(self).spec_sessions().last().1.spec_flows()[0].1.spec_vars() == senario.linearf
                    &&& final(self).spec_sessions().last().1.spec_flows()[0].1.spec_source_params()
                        == senario.source
                    &&& final(self).spec_sessions().last().1.spec_flows()[0].1.spec_matcher_params()
                        == senario.matcher
                }
            }),
    {
        let ghost ss = self.spec_sessions();
        let next_id = self.next_id();
        let reusable = self.reusable(source, matcher, &senario, next_id);
        match reusable {
            Some((sid, fid)) => {
                let ghost (gi, gj) = choose|i: int, j: int|
                    #[trigger] chosen_hit(ss, source, matcher, senario, next_id, i, j) && ss[i].0 == sid
                        && ss[i].1.spec_flows()[j].0 == fid;
                let removed = self.remove_session(sid);
                let mut s = match removed {
                    Some(s) => s,
                    None => {
                        proof {
                            assert(ss[gi].0 == sid);
                        }
                        return (sid, fid);
                    },
                };
                proof {
                    let i2 = choose|i: int|
                        0 <= i < ss.len() && ss[i].0 == sid && s == ss[i].1 && self.spec_sessions()
                            == ss.remove(i);
                    if i2 != gi {
                        if i2 < gi {
                            assert(ss[i2].0 != ss[gi].0);
                        } else {
                            assert(ss[gi].0 != ss[i2].0);
                        }
                    }
                    assert(i2 == gi);
                    assert(s.spec_flows()[gj].0 == fid);
                }
                let ghost mid = self.spec_sessions();
                let resumed = s.resume_flow(fid);
                let ghost k = choose|k: int|
                    first_flow_at(ss[gi].1.spec_flows(), fid, k) && s.spec_flows()
                        == ss[gi].1.spec_flows().remove(k).push(ss[gi].1.spec_flows()[k]);
                proof {
                    if resumed is Err {
                        assert(s.spec_flows()[gj].0 == fid);
                        assert(false);
                    }
                    assert(s.spec_flows().len() > 0);
                    assert(!holds_session(mid, sid)) by {
                        if holds_session(mid, sid) {
                            let a = choose|a: int| 0 <= a < mid.len() && (#[trigger] mid[a]).0 == sid;
                            let a2 = if a < gi { a } else { a + 1 };
                            assert(mid[a] == ss[a2]);
                            if a2 < gi {
                                assert(ss[a2].0 != ss[gi].0);
                            } else {
                                assert(ss[gi].0 != ss[a2].0);
                            }
                        }
                    }
                    assert(sid.0 <= self.spec_last_id().0);
                    assert forall|a: int| 0 <= a < mid.len() implies (#[trigger] mid[a]).0.0
                        <= self.spec_last_id().0 by {}
                }
                self.sessions.push_back((sid, s));
                proof {
                    self.lemma_push_keeps_wf(mid, sid, s);
                    assert(self.spec_sessions().drop_last() =~= mid);
                    assert(chosen_hit(ss, source, matcher, senario, next_id, gi, gj));
                    assert(first_flow_at(ss[gi].1.spec_flows(), fid, k));
                    assert(s.spec_flows().last() == ss[gi].1.spec_flows()[k]);
                    assert(next_id == SessionId((old(self).spec_last_id().0 + 1) as i32));
                    assert(self.spec_last_id() == old(self).spec_last_id());
                    assert(self.spec_sessions().len() == ss.len());
                    assert(mid == ss.remove(gi));
                    assert(self.spec_sessions().last() == (sid, s));
                    assert(ss[gi].0 == sid);
                    assert(ss[gi].1.spec_flows()[gj].0 == fid);
                }
                (sid, fid)
            },
            None => {
                let flow = Flow::new(senario);
                let s = Session::start(flow);
                let ghost mid = self.spec_sessions();
                self.last_id = next_id;
                proof {
                    assert(!holds_session(mid, next_id)) by {
                        if holds_session(mid, next_id) {
                            let a = choose|a: int| 0 <= a < mid.len() && (#[trigger] mid[a]).0 == next_id;
                            assert(ss[a].0.0 <= old(self).spec_last_id().0);
                        }
                    }
                    assert forall|a: int| 0 <= a < mid.len() implies (#[trigger] mid[a]).0.0
                        <= self.spec_last_id().0 by {
                        assert(ss[a].0.0 <= old(self).spec_last_id().0);
                    }
                }
                self.sessions.push_back((next_id, s));
                proof {
                    self.lemma_push_keeps_wf(mid, next_id, s);
                    assert(self.spec_sessions().drop_last() =~= mid);
                }
                (next_id, FlowId::first())
            },
        }
    }
}

/// Checks that `senario` keeps to the source and matcher of the flow that
/// `session` uses.
pub fn validate_senario<P: ?Sized, D>(session: &Session<P>, senario: &Senario<Vars, D>) -> (r: Result<
    (),
    Error,
>)
    requires
        session.spec_flows().len() > 0,
    ensures
        ({
            let prev = session.spec_flows().last().1.spec_vars();
            if prev.source@ != senario.linearf.source@ {
                r matches Err(Error::SourceMismatch(a, b)) && a@ == prev.source@ && b@
                    == senario.linearf.source@
            } else if prev.matcher@ != senario.linearf.matcher@ {
                r matches Err(Error::MatcherMismatch(a, b)) && a@ == prev.matcher@ && b@
                    == senario.linearf.matcher@
            } else {
                r is Ok
            }
        }),
{
    let flow = session.last_flow().1;
    let prev = flow.vars();
    if prev.source != senario.linearf.source {
        return Err(Error::SourceMismatch(prev.source.clone(), senario.linearf.source.clone()));
    }
    if prev.matcher != senario.linearf.matcher {
        return Err(Error::MatcherMismatch(prev.matcher.clone(), senario.linearf.matcher.clone()));
    }
    Ok(())
}

/// Puts together the scenario of a flow from its settings and what the
/// source and matcher registries made of their parameters: `Ok(None)` means
/// that the registry knows no such name.
pub fn parse_params<P: ?Sized>(
    vars: Vars,
    source: Result<Option<Arc<P>>, String>,
    matcher: Result<Option<Arc<P>>, String>,
) -> (r: Result<Senario<Arc<Vars>, Arc<P>>, Error>)
    ensures
        match source {
            Err(e) => r matches Err(Error::Params(m)) && m == e,
            Ok(None) => r matches Err(Error::SourceNotFound(n)) && n@ == vars.source@,
            Ok(Some(sp)) => match matcher {
                Err(e) => r matches Err(Error::Params(m)) && m == e,
                Ok(None) => r matches Err(Error::MatcherNotFound(n)) && n@ == vars.matcher@,
                Ok(Some(mp)) => r matches Ok(sc) && *sc.linearf == vars && sc.source == sp
                    && sc.matcher == mp,
            },
        },
{
    let source_params = match source {
        Err(e) => {
            return Err(Error::Params(e));
        },
        Ok(None) => {
            return Err(Error::SourceNotFound(vars.source.clone()));
        },
        Ok(Some(p)) => p,
    };
    let matcher_params = match matcher {
        Err(e) => {
            return Err(Error::Params(e));
        },
        Ok(None) => {
            return Err(Error::MatcherNotFound(vars.matcher.clone()));
        },
        Ok(Some(p)) => p,
    };
    Ok(Senario { linearf: Arc::new(vars), source: source_params, matcher: matcher_params })
}

} // verus!
