use linearf::flow::{chunk_bounds, FlowWorks, Reuse, Scenario, UsedScenario};
use linearf::interface::{check_no_converters, MapConvertError, MatcherRegistry, Reusable, SourceRegistry, Vars};
use linearf::state::{parse_scenario, Error, FlowId, SessionId, StartFlow, State};
use std::sync::Arc;

/// Streams are numbered; a rescored stream adds 100 to the number it came
/// from; sorting adds 1000.
struct Works;

impl FlowWorks<String, u32, u32> for Works {
    fn fresh_source(&self, scenario: &Scenario<Arc<Vars>, Arc<String>>) -> Result<u32, MapConvertError> {
        if scenario.linearf.converters.iter().any(|c| c == "missing") {
            return Err(MapConvertError::ConverterNotFound("missing".into()));
        }
        Ok(scenario.linearf.query.len() as u32)
    }

    fn rescored_source(&self, prev: &u32, _scenario: &UsedScenario<Arc<Vars>, Arc<String>>) -> u32 {
        prev + 100
    }

    fn sorting(&self, source: &u32) -> u32 {
        source + 1000
    }
}

/// The stream is always the same; the scores are the same for the same query.
struct Reg;

impl SourceRegistry<String> for Reg {
    fn reusable(
        &self,
        _name: &str,
        _prev: (&Arc<Vars>, &Arc<String>),
        _scenario: (&Arc<Vars>, &Arc<String>),
    ) -> Reusable {
        Reusable::Same
    }
}

impl MatcherRegistry<String> for Reg {
    fn reusable(
        &self,
        _name: &str,
        prev: (&Arc<Vars>, &Arc<String>),
        scenario: (&Arc<Vars>, &Arc<String>),
    ) -> Reusable {
        if prev.0.query == scenario.0.query { Reusable::Same } else { Reusable::NoReuse }
    }
}

fn vars(source: &str, query: &str) -> Vars {
    Vars {
        source: source.into(),
        matcher: "substring".into(),
        converters: vec![],
        query: query.into(),
        cache_sec: 10,
        cache_across_sessions: false,
        first_view: 10,
        chunk_size: 100,
        dispose_flow: false,
    }
}

fn request(id: Option<SessionId>, v: Vars) -> StartFlow<String> {
    StartFlow {
        id,
        scenario: Scenario {
            linearf: v,
            source: Some(Ok(Arc::new("sp".to_string()))),
            matcher: Some(Ok(Arc::new("mp".to_string()))),
        },
    }
}

#[test]
fn a_new_session_starts_at_one() {
    let mut st: State<String, u32, u32> = State::new();
    let r = st.start_flow(&Works, &Reg, &Reg, request(None, vars("file", "ab")), 0);
    assert_eq!(r.ok(), Some((SessionId(1), FlowId(0))));
    let f = st.get_flow(SessionId(1), FlowId(0)).unwrap();
    assert!(f.has_cache());
    assert_eq!(f.sorted(), Some(&1002));
    assert_eq!(f.at(), 0);
}

#[test]
fn the_same_query_takes_over_the_sorted_items() {
    let mut st: State<String, u32, u32> = State::new();
    st.start_flow(&Works, &Reg, &Reg, request(None, vars("file", "ab")), 0).ok().unwrap();
    let r = st.start_flow(&Works, &Reg, &Reg, request(Some(SessionId(1)), vars("file", "ab")), 5);
    assert_eq!(r.ok(), Some((SessionId(1), FlowId(1))));
    let new = st.get_flow(SessionId(1), FlowId(1)).unwrap();
    assert_eq!(new.sorted(), Some(&1002));
    assert_eq!(new.at(), 0);
    let old = st.get_flow(SessionId(1), FlowId(0)).unwrap();
    assert!(!old.has_cache());
    assert_eq!(old.sorted(), None);
}

#[test]
fn another_query_rescores_the_stream() {
    let mut st: State<String, u32, u32> = State::new();
    st.start_flow(&Works, &Reg, &Reg, request(None, vars("file", "ab")), 0).ok().unwrap();
    let r = st.start_flow(&Works, &Reg, &Reg, request(Some(SessionId(1)), vars("file", "abc")), 5);
    assert_eq!(r.ok(), Some((SessionId(1), FlowId(1))));
    let new = st.get_flow(SessionId(1), FlowId(1)).unwrap();
    assert_eq!(new.sorted(), Some(&1102));
    assert_eq!(*new.scenario().sorted_vars.query, *"abc");
    assert_eq!(*new.scenario().stream_vars.query, *"ab");
    assert!(st.get_flow(SessionId(1), FlowId(0)).unwrap().has_cache());
}

#[test]
fn start_flow_errors() {
    let mut st: State<String, u32, u32> = State::new();
    assert!(matches!(
        st.start_flow(&Works, &Reg, &Reg, request(Some(SessionId(4)), vars("file", "a")), 0),
        Err(Error::SessionNotFound(SessionId(4)))
    ));
    st.start_flow(&Works, &Reg, &Reg, request(None, vars("file", "a")), 0).ok().unwrap();
    assert!(matches!(
        st.start_flow(&Works, &Reg, &Reg, request(Some(SessionId(1)), vars("grep", "a")), 0),
        Err(Error::ScenarioSource(a, b)) if a == "file" && b == "grep"
    ));
    let mut missing = vars("file", "a");
    missing.converters = vec!["missing".into()];
    assert!(matches!(
        st.start_flow(&Works, &Reg, &Reg, request(None, missing), 0),
        Err(Error::ConverterNotFound(n)) if n == "missing"
    ));
}

#[test]
fn sessions_resume_and_go() {
    let mut st: State<String, u32, u32> = State::new();
    st.start_flow(&Works, &Reg, &Reg, request(None, vars("file", "a")), 0).ok().unwrap();
    st.start_flow(&Works, &Reg, &Reg, request(None, vars("grep", "a")), 0).ok().unwrap();
    assert_eq!(st.resume(SessionId(1)).ok(), Some(FlowId(0)));
    let ids: Vec<i32> = st.sessions().iter().map(|(id, _)| id.0).collect();
    assert_eq!(ids, vec![2, 1]);
    assert!(matches!(st.resume(SessionId(9)), Err(Error::SessionNotFound(SessionId(9)))));
    assert!(matches!(st.try_get_flow(SessionId(1), FlowId(3)), Err(Error::FlowNotFound(SessionId(1), FlowId(3)))));
    st.remove_session(SessionId(1));
    assert!(st.session(SessionId(1)).is_none());
    st.remove_all_sesions();
    assert!(st.sessions().is_empty());
}

#[test]
fn parse_scenario_reads_the_source_first() {
    let s: Scenario<Vars, Option<Result<Arc<String>, String>>> =
        Scenario { linearf: vars("file", "a"), source: None, matcher: Some(Err("bad".into())) };
    assert!(matches!(parse_scenario(s), Err(Error::SourceNotFound(n)) if n == "file"));
    let s: Scenario<Vars, Option<Result<Arc<String>, String>>> =
        Scenario { linearf: vars("file", "a"), source: Some(Ok(Arc::new("x".into()))), matcher: Some(Err("bad".into())) };
    assert!(matches!(parse_scenario(s), Err(Error::Others(m)) if m == "bad"));
}

#[test]
fn reuse_maps_and_opens_options() {
    let r = Reuse::Matcher(2).map(|x| x * 10);
    assert!(matches!(r, Reuse::Matcher(20)));
    assert!(matches!(Reuse::Source(Some(1)).optional(), Some(Reuse::Source(1))));
    assert!(Reuse::Source(None::<u8>).optional().is_none());
}

#[test]
fn recipe_errors_are_told_apart() {
    assert!(Error::SourceNotFound("s".into()).is_related_recipe());
    assert!(Error::MatcherNotFound("m".into()).is_related_recipe());
    assert!(Error::ConverterNotFound("c".into()).is_related_recipe());
    assert!(!Error::SessionNotFound(SessionId(1)).is_related_recipe());
    assert!(!Error::Others("x".into()).is_related_recipe());
}

#[test]
fn a_registry_without_converters_takes_only_none() {
    assert!(check_no_converters(&vec![]).is_ok());
    assert!(matches!(check_no_converters(&vec!["a".into(), "b".into()]),
        Err(MapConvertError::ConverterNotFound(n)) if n == "a"));
}

#[test]
fn a_session_keeps_its_matcher_and_converters() {
    let mut st: State<String, u32, u32> = State::new();
    st.start_flow(&Works, &Reg, &Reg, request(None, vars("file", "a")), 0).ok().unwrap();
    let mut other_matcher = vars("file", "a");
    other_matcher.matcher = "fuzzy".into();
    assert!(matches!(
        st.start_flow(&Works, &Reg, &Reg, request(Some(SessionId(1)), other_matcher), 0),
        Err(Error::ScenarioMatcher(a, b)) if a == "substring" && b == "fuzzy"
    ));
    let mut other_converters = vars("file", "a");
    other_converters.converters = vec!["upper".into()];
    assert!(matches!(
        st.start_flow(&Works, &Reg, &Reg, request(Some(SessionId(1)), other_converters), 0),
        Err(Error::ScenarioConverters(a, b)) if a.is_empty() && b == vec!["upper".to_string()]
    ));
    // a refused flow leaves the session as it was
    assert_eq!(st.session(SessionId(1)).unwrap().flow_count(), 1);
    assert_eq!(st.last_id(), SessionId(1));
}

#[test]
fn dispose_flow_stops_the_earlier_flows() {
    let mut st: State<String, u32, u32> = State::new();
    st.start_flow(&Works, &Reg, &Reg, request(None, vars("file", "ab")), 0).ok().unwrap();
    let mut v = vars("file", "abc");
    v.dispose_flow = true;
    let r = st.start_flow(&Works, &Reg, &Reg, request(Some(SessionId(1)), v), 5);
    assert_eq!(r.ok(), Some((SessionId(1), FlowId(1))));
    let old = st.get_flow(SessionId(1), FlowId(0)).unwrap();
    assert!(!old.has_cache());
    assert_eq!(old.sorted(), None);
    let new = st.get_flow(SessionId(1), FlowId(1)).unwrap();
    assert!(new.has_cache());
    assert_eq!(new.sorted(), Some(&1102));
}

#[test]
fn chunk_sizes_are_at_least_one() {
    assert_eq!(chunk_bounds(&vars("file", "a")), (10, 100));
    let mut v = vars("file", "a");
    v.first_view = 0;
    v.chunk_size = 0;
    assert_eq!(chunk_bounds(&v), (1, 1));
}

#[test]
fn session_ids_are_never_reused() {
    let mut st: State<String, u32, u32> = State::new();
    assert_eq!(st.last_id(), SessionId(0));
    st.start_flow(&Works, &Reg, &Reg, request(None, vars("file", "a")), 0).ok().unwrap();
    st.start_flow(&Works, &Reg, &Reg, request(None, vars("file", "b")), 0).ok().unwrap();
    st.remove_session(SessionId(2));
    let r = st.start_flow(&Works, &Reg, &Reg, request(None, vars("file", "c")), 0);
    assert_eq!(r.ok(), Some((SessionId(3), FlowId(0))));
}

#[test]
fn session_ids_go_on_after_all_sessions_are_removed() {
    let mut st: State<String, u32, u32> = State::new();
    st.start_flow(&Works, &Reg, &Reg, request(None, vars("file", "a")), 0).ok().unwrap();
    st.remove_all_sesions();
    let r = st.start_flow(&Works, &Reg, &Reg, request(None, vars("file", "b")), 0);
    assert_eq!(r.ok(), Some((SessionId(2), FlowId(0))));
}
