use vstd::prelude::*;
use std::sync::Arc;
use crate::interface::{MapConvertError, Vars};

verus! {

/// `Arc::clone`: a new pointer to the same allocation, so the same value.
#[verifier::external_body]
pub(crate) fn arc_clone<T: ?Sized>(a: &Arc<T>) -> (r: Arc<T>)
    ensures
        r == *a,
{
    Arc::clone(a)
}

/// What a flow was asked for: the finder's settings and the parameters of
/// its source and of its matcher.
pub struct Scenario<V, P> {
    pub linearf: V,
    pub source: P,
    pub matcher: P,
}

impl<V, P> Scenario<V, P> {
    /// The same scenario, by reference.
    pub fn as_ref(&self) -> (r: Scenario<&V, &P>)
        ensures
            *r.linearf == self.linearf,
            *r.source == self.source,
            *r.matcher == self.matcher,
    {
        Scenario { linearf: &self.linearf, source: &self.source, matcher: &self.matcher }
    }
}

/// What a flow runs on: the settings and parameters its items were streamed
/// with, and those they were sorted with. A flow that reuses the stream of
/// another keeps that flow's stream settings.
pub struct UsedScenario<V, P> {
    pub source: P,
    pub stream_vars: V,
    pub matcher: P,
    pub sorted_vars: V,
}

impl<V, P> UsedScenario<V, P> {
    /// The same scenario, by reference.
    pub fn as_ref(&self) -> (r: UsedScenario<&V, &P>)
        ensures
            *r.source == self.source,
            *r.stream_vars == self.stream_vars,
            *r.matcher == self.matcher,
            *r.sorted_vars == self.sorted_vars,
    {
        UsedScenario {
            source: &self.source,
            stream_vars: &self.stream_vars,
            matcher: &self.matcher,
            sorted_vars: &self.sorted_vars,
        }
    }
}

/// Another handle on each part of a used scenario.
pub fn clone_used<A: ?Sized>(s: &UsedScenario<Arc<Vars>, Arc<A>>) -> (r: UsedScenario<
    Arc<Vars>,
    Arc<A>,
>)
    ensures
        r == *s,
{
    UsedScenario {
        source: arc_clone(&s.source),
        stream_vars: arc_clone(&s.stream_vars),
        matcher: arc_clone(&s.matcher),
        sorted_vars: arc_clone(&s.sorted_vars),
    }
}

/// What an earlier flow lends to a new one: its stream only, or its stream
/// and its sorted items.
#[derive(Debug)]
pub enum Reuse<R> {
    Source(R),
    Matcher(R),
}

impl<T> Reuse<T> {
    /// The same kind of reuse, of `f` applied to what is reused.
    pub fn map<U, F: FnOnce(T) -> U>(self, f: F) -> (r: Reuse<U>)
        requires
            f.requires((self.inner(),)),
        ensures
            f.ensures((self.inner(),), r.inner()),
            r is Matcher <==> self is Matcher,
    {
        match self {
            Reuse::Matcher(x) => Reuse::Matcher(f(x)),
            Reuse::Source(x) => Reuse::Source(f(x)),
        }
    }

    /// The same kind of reuse, by reference.
    pub fn as_ref(&self) -> (r: Reuse<&T>)
        ensures
            *r.inner() == self.inner(),
            r is Matcher <==> self is Matcher,
    {
        match self {
            Reuse::Matcher(x) => Reuse::Matcher(x),
            Reuse::Source(x) => Reuse::Source(x),
        }
    }

    /// What is reused.
    pub open spec fn inner(self) -> T {
        match self {
            Reuse::Matcher(x) => x,
            Reuse::Source(x) => x,
        }
    }
}

impl<T> Reuse<Option<T>> {
    /// The reuse of something that may be missing, or nothing.
    pub fn optional(self) -> (r: Option<Reuse<T>>)
        ensures
            match self.inner() {
                Some(x) => r == Some(if self is Matcher {
                    Reuse::Matcher(x)
                } else {
                    Reuse::Source(x)
                }),
                None => r is None,
            },
    {
        match self {
            Reuse::Matcher(x) => match x {
                Some(y) => Some(Reuse::Matcher(y)),
                None => None,
            },
            Reuse::Source(x) => match x {
                Some(y) => Some(Reuse::Source(y)),
                None => None,
            },
        }
    }
}

/// The work that starting a flow hands to the runtime: streaming, scoring
/// and caching the items of a source, and sorting them. The flow keeps what
/// comes back and drops it when the flow is disposed of. The runtime's
/// handles are not values that two calls share, so what a call does is
/// stated as a relation between its arguments and the handle it gave. The
/// relations are left open by default, so that an impl written in plain
/// Rust need not name them; the methods' contracts are what it keeps.
pub trait FlowWorks<A: ?Sized, S, M> {
    /// Which converter of `scenario` the registry does not know, if any: the
    /// first of its names that the registry's converters lack.
    closed spec fn spec_missing_converter(&self, scenario: Scenario<Arc<Vars>, Arc<A>>) -> Option<
        MapConvertError,
    > {
        vstd::pervasive::arbitrary()
    }

    /// Whether `cache` is filled with the items of the source of `scenario`,
    /// streamed with its settings through its converters and scored by its
    /// matcher.
    closed spec fn spec_streams(&self, scenario: Scenario<Arc<Vars>, Arc<A>>, cache: S) -> bool {
        vstd::pervasive::arbitrary()
    }

    /// Whether `cache` holds the items that `prev` caches, in their order,
    /// scored again by the matcher of `scenario` with its sort settings.
    closed spec fn spec_rescores(&self, prev: S, scenario: UsedScenario<Arc<Vars>, Arc<A>>, cache: S) -> bool {
        vstd::pervasive::arbitrary()
    }

    /// Whether `sorted` sorts what `cache` holds.
    closed spec fn spec_sorts(&self, cache: S, sorted: M) -> bool {
        vstd::pervasive::arbitrary()
    }

    /// Streams the source of `scenario` through its converters and matcher
    /// into a cache; fails when a converter is not found, which a scenario
    /// that names no converter never does.
    fn fresh_source(&self, scenario: &Scenario<Arc<Vars>, Arc<A>>) -> (r: Result<S, MapConvertError>)
        ensures
            match r {
                Ok(c) => {
                    &&& self.spec_missing_converter(*scenario) is None
                    &&& self.spec_streams(*scenario, c)
                },
                Err(e) => self.spec_missing_converter(*scenario) == Some(e),
            },
            scenario.linearf.converters@.len() == 0 ==> r is Ok,
    ;

    /// Scores the cached items of `prev` again with the matcher of `scenario`
    /// into a new cache.
    fn rescored_source(&self, prev: &S, scenario: &UsedScenario<Arc<Vars>, Arc<A>>) -> (r: S)
        ensures
            self.spec_rescores(*prev, *scenario, r),
    ;

    /// Sorts what `source` caches.
    fn sorting(&self, source: &S) -> (r: M)
        ensures
            self.spec_sorts(*source, r),
    ;
}

/// The sizes of the chunks a flow caches its items in: the first chunk of
/// `first_view` items and the others of `chunk_size`, each at least one.
pub fn chunk_bounds(v: &Vars) -> (r: (usize, usize))
    ensures
        r.0 == if v.first_view == 0 { 1 } else { v.first_view },
        r.1 == if v.chunk_size == 0 { 1 } else { v.chunk_size },
{
    let first = if v.first_view == 0 { 1 } else { v.first_view };
    let size = if v.chunk_size == 0 { 1 } else { v.chunk_size };
    (first, size)
}

/// One run of a source and a matcher: when it started, what it runs on, and
/// the runtime's handles on its cached items and its sorted items. Either is
/// gone once the flow is disposed of or another flow took it over.
pub struct Flow<A: ?Sized, S, M> {
    pub(crate) at: u64,
    pub(crate) scenario: UsedScenario<Arc<Vars>, Arc<A>>,
    pub(crate) source: Option<S>,
    pub(crate) matcher: Option<M>,
}

impl<A: ?Sized, S, M> Flow<A, S, M> {
    /// When the flow started, in nanoseconds.
    pub closed spec fn spec_at(&self) -> u64 {
        self.at
    }

    pub closed spec fn spec_scenario(&self) -> UsedScenario<Arc<Vars>, Arc<A>> {
        self.scenario
    }

    pub closed spec fn spec_source(&self) -> Option<S> {
        self.source
    }

    pub closed spec fn spec_matcher(&self) -> Option<M> {
        self.matcher
    }

    /// What the flow runs on.
    pub fn scenario(&self) -> (r: UsedScenario<&Arc<Vars>, &Arc<A>>)
        ensures
            *r.source == self.spec_scenario().source,
            *r.stream_vars == self.spec_scenario().stream_vars,
            *r.matcher == self.spec_scenario().matcher,
            *r.sorted_vars == self.spec_scenario().sorted_vars,
    {
        self.scenario.as_ref()
    }

    /// When the flow started, in nanoseconds.
    pub fn at(&self) -> (r: u64)
        ensures
            r == self.spec_at(),
    {
        self.at
    }

    /// Whether the flow still has its cached items.
    pub fn has_cache(&self) -> (r: bool)
        ensures
            r == self.spec_source() is Some,
    {
        self.source.is_some()
    }

    /// The runtime's handle on the sorted items, unless disposed of.
    pub fn sorted(&self) -> (r: Option<&M>)
        ensures
            r == match self.spec_matcher() {
                Some(m) => Some(&m),
                None => None::<&M>,
            },
    {
        match &self.matcher {
            Some(m) => Some(m),
            None => None,
        }
    }

    /// Drops the runtime's handles, which stops the flow's work.
    pub fn dispose(&mut self)
        ensures
            final(self).spec_at() == old(self).spec_at(),
            final(self).spec_scenario() == old(self).spec_scenario(),
            final(self).spec_source() is None,
            final(self).spec_matcher() is None,
    {
        self.matcher = None;
        self.source = None;
    }

    /// A flow that streams, scores and sorts afresh, started at `started`.
    pub fn start_fresh<W: FlowWorks<A, S, M>>(
        works: &W,
        scenario: Scenario<Arc<Vars>, Arc<A>>,
        started: u64,
    ) -> (r: Result<Self, MapConvertError>)
        ensures
            works.spec_missing_converter(scenario) matches Some(e) ==> r == Err::<Self, MapConvertError>(e),
            works.spec_missing_converter(scenario) is None ==> r is Ok,
            scenario.linearf.converters@.len() == 0 ==> r is Ok,
            r matches Ok(f) ==> {
                &&& f.spec_at() == started
                &&& f.spec_scenario() == UsedScenario {
                    source: scenario.source,
                    stream_vars: scenario.linearf,
                    matcher: scenario.matcher,
                    sorted_vars: scenario.linearf,
                }
                &&& f.spec_source() matches Some(c) && works.spec_streams(scenario, c)
                &&& f.spec_matcher() matches Some(m) && works.spec_sorts(f.spec_source()->0, m)
            },
    {
        let source = match works.fresh_source(&scenario) {
            Ok(source) => source,
            Err(e) => {
                return Err(e);
            },
        };
        let matcher = works.sorting(&source);
        let stream_vars = arc_clone(&scenario.linearf);
        Ok(Flow {
            at: started,
            scenario: UsedScenario {
                source: scenario.source,
                stream_vars,
                matcher: scenario.matcher,
                sorted_vars: scenario.linearf,
            },
            source: Some(source),
            matcher: Some(matcher),
        })
    }

    /// A flow that takes over the work of `prev`. Taking over its sorted
    /// items takes them (and its cache) from `prev`, with its start time and
    /// scenario; taking over its cache alone takes the cache if it is sorted
    /// anew with the scenario of `prev`, and shares it, scored again with the
    /// matcher of `scenario`, otherwise.
    pub fn start_reused<W: FlowWorks<A, S, M>>(
        works: &W,
        kind: Reuse<()>,
        prev: &mut Self,
        scenario: Scenario<Arc<Vars>, Arc<A>>,
    ) -> (r: Self)
        requires
            old(prev).spec_source() is Some,
        ensures
            r.spec_at() == old(prev).spec_at(),
            r.spec_source() is Some,
            r.spec_matcher() is Some,
            final(prev).spec_at() == old(prev).spec_at(),
            final(prev).spec_scenario() == old(prev).spec_scenario(),
            kind is Matcher ==> {
                &&& r.spec_scenario() == old(prev).spec_scenario()
                &&& final(prev).spec_source() is None
                &&& final(prev).spec_matcher() is None
                &&& old(prev).spec_matcher() is Some ==> r.spec_source() == old(prev).spec_source() && r.spec_matcher()
                    == old(prev).spec_matcher()
                &&& old(prev).spec_matcher() is None ==> r.spec_source() == old(prev).spec_source()
                    && works.spec_sorts(r.spec_source()->0, r.spec_matcher()->0)
            },
            kind is Source ==> {
                &&& r.spec_scenario() == UsedScenario {
                    source: old(prev).spec_scenario().source,
                    stream_vars: old(prev).spec_scenario().stream_vars,
                    matcher: scenario.matcher,
                    sorted_vars: scenario.linearf,
                }
                &&& works.spec_rescores(old(prev).spec_source()->0, r.spec_scenario(), r.spec_source()->0)
                &&& works.spec_sorts(r.spec_source()->0, r.spec_matcher()->0)
                &&& final(prev).spec_source() == old(prev).spec_source()
                &&& final(prev).spec_matcher() == old(prev).spec_matcher()
            },
    {
        match kind {
            Reuse::Matcher(_) => {
                if prev.matcher.is_some() {
                    let matcher = prev.matcher.take();
                    let source = prev.source.take();
                    return Flow {
                        at: prev.at,
                        scenario: clone_used(&prev.scenario),
                        source,
                        matcher,
                    };
                }
                let source = prev.source.take().unwrap();
                let matcher = works.sorting(&source);
                Flow {
                    at: prev.at,
                    scenario: clone_used(&prev.scenario),
                    source: Some(source),
                    matcher: Some(matcher),
                }
            },
            Reuse::Source(_) => {
                let used = UsedScenario {
                    source: arc_clone(&prev.scenario.source),
                    stream_vars: arc_clone(&prev.scenario.stream_vars),
                    matcher: scenario.matcher,
                    sorted_vars: scenario.linearf,
                };
                let source = match &prev.source {
                    Some(s) => works.rescored_source(s, &used),
                    None => {
                        assert(false);
                        works.rescored_source(prev.source.as_ref().unwrap(), &used)
                    },
                };
                let matcher = works.sorting(&source);
                Flow { at: prev.at, scenario: used, source: Some(source), matcher: Some(matcher) }
            },
        }
    }
}

} // verus!
