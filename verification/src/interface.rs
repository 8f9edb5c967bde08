use vstd::prelude::*;
use std::sync::Arc;

verus! {

/// How far the work of an earlier flow can serve a new one.
#[derive(Debug, Clone, Copy, PartialEq, Eq, Structural)]
pub enum Reusable {
    /// Not reusable
    NoReuse,
    /// This means
    /// * Not necessarily the same
    /// * Not change often
    /// * Cost is large and cache is preferred
    Cache,
    /// It depends only on the argument and is always the same.
    Same,
}

/// Parameters of a source, matcher or converter that takes none: written as
/// a unit or as an empty object.
#[derive(Debug, Clone, Copy)]
pub enum BlankParams {
    Unit(()),
    Obj {},
}

/// A result type of an action that carries nothing.
#[derive(Debug, Clone, Copy)]
pub enum BlankResult {
    Unit(()),
    Obj {},
}

/// The settings of a flow that the finder itself reads.
#[derive(Debug)]
pub struct Vars {
    pub source: String,
    pub matcher: String,
    pub converters: Vec<String>,
    pub query: String,
    /// How many seconds before you can reuse it
    pub cache_sec: u32,
    /// Whether to reuse flows from different sessions
    pub cache_across_sessions: bool,
    pub first_view: usize,
    pub chunk_size: usize,
    pub dispose_flow: bool,
}

/// Why items could not be converted.
#[derive(Debug)]
pub enum MapConvertError {
    ConverterNotFound(String),
}

/// What a converter registry that knows no converter makes of the names of
/// the converters a flow asks for: the items pass unchanged when it asks for
/// none, else the first name is not found.
pub fn check_no_converters(names: &Vec<String>) -> (r: Result<(), MapConvertError>)
    ensures
        names@.len() == 0 ==> r is Ok,
        names@.len() > 0 ==> (r matches Err(MapConvertError::ConverterNotFound(n)) && n@ == names@[0]@),
{
    if names.len() == 0 {
        Ok(())
    } else {
        Err(MapConvertError::ConverterNotFound(names[0].clone()))
    }
}

/// A source whose parameters are `Params`.
pub trait IsSource {
    type Params: SourceParams;
}

/// Parameters of a source.
pub trait SourceParams {}

impl SourceParams for BlankParams {}

/// A matcher whose parameters are `Params`.
pub trait IsMatcher {
    type Params: MatcherParams;
}

/// Parameters of a matcher.
pub trait MatcherParams {}

impl MatcherParams for BlankParams {}

/// A converter whose parameters are `Params`.
pub trait IsConverter {
    type Params: ConverterParams;
}

/// Parameters of a converter.
pub trait ConverterParams {}

impl ConverterParams for BlankParams {}

/// An action whose parameters are `Params` and whose result is `Result`.
pub trait IsAction {
    type Params: ActionParams;
    type Result: ActionResult;
}

/// Parameters of an action.
pub trait ActionParams {}

/// The result of an action.
pub trait ActionResult {}

impl ActionParams for BlankParams {}

impl ActionResult for BlankResult {}

/// An action that runs on its parameters alone.
pub trait SimpleTask: IsAction {
    fn run(&self, params: <Self as IsAction>::Params) -> <Self as IsAction>::Result;
}

/// The sources that the finder knows, as the user's registry lists them:
/// says whether the stream of an earlier flow can serve a new one.
pub trait SourceRegistry<A: ?Sized> {
    /// What `reusable` answers.
    closed spec fn spec_reusable(
        &self,
        name: Seq<char>,
        prev: (Arc<Vars>, Arc<A>),
        scenario: (Arc<Vars>, Arc<A>),
    ) -> Reusable {
        vstd::pervasive::arbitrary()
    }

    /// Whether the stream of the source `name`, run with `prev`, can serve a
    /// flow with `scenario`. It will be called for every flow and may be
    /// reused across sessions.
    fn reusable(&self, name: &str, prev: (&Arc<Vars>, &Arc<A>), scenario: (&Arc<Vars>, &Arc<A>)) -> (r:
        Reusable)
        ensures
            r == self.spec_reusable(name@, (*prev.0, *prev.1), (*scenario.0, *scenario.1)),
    ;
}

/// The matchers that the finder knows, as the user's registry lists them:
/// says whether the scores of an earlier flow can serve a new one.
pub trait MatcherRegistry<A: ?Sized> {
    /// What `reusable` answers.
    closed spec fn spec_reusable(
        &self,
        name: Seq<char>,
        prev: (Arc<Vars>, Arc<A>),
        scenario: (Arc<Vars>, Arc<A>),
    ) -> Reusable {
        vstd::pervasive::arbitrary()
    }

    /// Whether the scores of the matcher `name`, run with `prev`, can serve
    /// a flow with `scenario`. It will be called for every flow and may be
    /// reused across sessions.
    fn reusable(&self, name: &str, prev: (&Arc<Vars>, &Arc<A>), scenario: (&Arc<Vars>, &Arc<A>)) -> (r:
        Reusable)
        ensures
            r == self.spec_reusable(name@, (*prev.0, *prev.1), (*scenario.0, *scenario.1)),
    ;
}

} // verus!
