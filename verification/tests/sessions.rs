use linearf::sessions::{
    parse_params, validate_senario, BlankParams, Error, Flow, FlowId, MatcherRegistry,
    ReusableContext, Senario, Session, SessionId, Sessions, SourceRegistry, Vars
};
use std::sync::Arc;

/// Reuses a flow when the queries are equal; across sessions only when asked.
struct Reg {
    across: bool,
}

impl SourceRegistry<String> for Reg {
    fn reusable(
        &self,
        _name: &str,
        ctx: ReusableContext,
        _prev: (&Arc<Vars>, &Arc<String>),
        _senario: (&Arc<Vars>, &Arc<String>),
    ) -> bool {
        ctx.same_session || self.across
    }
}

impl MatcherRegistry<String> for Reg {
    fn reusable(
        &self,
        _name: &str,
        _ctx: ReusableContext,
        prev: (&Arc<Vars>, &Arc<String>),
        senario: (&Arc<Vars>, &Arc<String>),
    ) -> bool {
        prev.0.query == senario.0.query
    }
}

fn vars(source: &str, query: &str) -> Vars {
    Vars { source: source.into(), matcher: "substring".into(), converters: vec![], query: query.into() }
}

fn senario(source: &str, query: &str) -> Senario<Arc<Vars>, Arc<String>> {
    Senario {
        linearf: Arc::new(vars(source, query)),
        source: Arc::new("sp".to_string()),
        matcher: Arc::new("mp".to_string()),
    }
}

#[test]
fn first_flow_id_is_one() {
    assert_eq!(FlowId::first(), FlowId(1));
}

#[test]
fn new_sessions_get_increasing_ids() {
    let reg = Reg { across: false };
    let mut ss: Sessions<String> = Sessions::new();
    assert_eq!(ss.next_id(), SessionId(1));
    assert_eq!(ss.start_session(&reg, &reg, senario("file", "a")), (SessionId(1), FlowId(1)));
    assert_eq!(ss.start_session(&reg, &reg, senario("file", "b")), (SessionId(2), FlowId(1)));
    assert_eq!(ss.sessions().len(), 2);
    assert_eq!(ss.next_id(), SessionId(3));
}

#[test]
fn a_flow_with_the_same_query_is_reused_across_sessions_when_allowed() {
    let reg = Reg { across: true };
    let mut ss: Sessions<String> = Sessions::new();
    ss.start_session(&reg, &reg, senario("file", "a"));
    ss.start_session(&reg, &reg, senario("file", "b"));
    // session 1 serves query "a" again and becomes the most recently used
    assert_eq!(ss.start_session(&reg, &reg, senario("file", "a")), (SessionId(1), FlowId(1)));
    let ids: Vec<i32> = ss.sessions().iter().map(|(id, _)| id.0).collect();
    assert_eq!(ids, vec![2, 1]);
    assert_eq!(ss.next_id(), SessionId(3));
}

#[test]
fn another_source_is_never_reused() {
    let reg = Reg { across: true };
    let mut ss: Sessions<String> = Sessions::new();
    ss.start_session(&reg, &reg, senario("file", "a"));
    let s = senario("grep", "a");
    assert_eq!(ss.reusable(&reg, &reg, &s, ss.next_id()), None);
    assert_eq!(ss.start_session(&reg, &reg, s), (SessionId(2), FlowId(1)));
}

#[test]
fn the_same_session_comes_first() {
    let apart = Reg { across: false };
    let reg = Reg { across: true };
    let mut ss: Sessions<String> = Sessions::new();
    ss.start_session(&apart, &apart, senario("file", "a"));
    ss.start_session(&apart, &apart, senario("file", "a"));
    assert_eq!(ss.sessions().len(), 2);
    // both sessions could serve; with next id 1 the session 1 is preferred
    assert_eq!(ss.reusable(&reg, &reg, &senario("file", "a"), SessionId(1)), Some((SessionId(1), FlowId(1))));
    // with an unknown next id the most recent session wins
    assert_eq!(ss.reusable(&reg, &reg, &senario("file", "a"), SessionId(9)), Some((SessionId(2), FlowId(1))));
}

#[test]
fn resume_moves_a_session_to_the_back() {
    let reg = Reg { across: false };
    let mut ss: Sessions<String> = Sessions::new();
    ss.start_session(&reg, &reg, senario("file", "a"));
    ss.start_session(&reg, &reg, senario("file", "b"));
    assert_eq!(ss.resume(SessionId(1)).ok(), Some(FlowId(1)));
    let ids: Vec<i32> = ss.sessions().iter().map(|(id, _)| id.0).collect();
    assert_eq!(ids, vec![2, 1]);
    assert!(matches!(ss.resume(SessionId(5)), Err(Error::SessionNotFound(SessionId(5)))));
    assert!(ss.session(SessionId(2)).is_some());
    assert!(ss.remove_session(SessionId(2)).is_some());
    assert!(ss.session(SessionId(2)).is_none());
    assert!(ss.remove_session(SessionId(2)).is_none());
}

#[test]
fn use_next_id_hands_out_ids() {
    let mut ss: Sessions<String> = Sessions::new();
    assert_eq!(ss.use_next_id(), SessionId(1));
    assert_eq!(ss.use_next_id(), SessionId(2));
}

#[test]
fn session_flows_resume_and_remove() {
    let mut s = Session::start(Flow::new(senario("file", "a")));
    assert_eq!(s.last_flow().0, FlowId(1));
    assert_eq!(s.next_id(), FlowId(2));
    assert!(matches!(s.resume_flow(FlowId(3)), Err(Error::FlowNotFound(FlowId(3)))));
    assert!(s.resume_flow(FlowId(1)).is_ok());
    assert!(s.remove_flow(FlowId(1)).is_some());
    assert!(s.flows().is_empty());
}

#[test]
fn validate_senario_checks_source_then_matcher() {
    let s = Session::start(Flow::new(senario("file", "a")));
    let ok = Senario { linearf: vars("file", "zzz"), source: (), matcher: () };
    assert!(validate_senario(&s, &ok).is_ok());
    let bad = Senario { linearf: vars("grep", "a"), source: (), matcher: () };
    assert!(matches!(validate_senario(&s, &bad),
        Err(Error::SourceMismatch(a, b)) if a == "file" && b == "grep"));
    let mut v = vars("file", "a");
    v.matcher = "fuzzy".into();
    let bad = Senario { linearf: v, source: (), matcher: () };
    assert!(matches!(validate_senario(&s, &bad),
        Err(Error::MatcherMismatch(a, b)) if a == "substring" && b == "fuzzy"));
}

#[test]
fn parse_params_reports_what_is_missing() {
    let p = || Ok(Some(Arc::new(BlankParams::Obj {})));
    assert!(parse_params(vars("file", "a"), p(), p()).is_ok());
    assert!(matches!(parse_params(vars("file", "a"), Ok(None), p()),
        Err(Error::SourceNotFound(n)) if n == "file"));
    assert!(matches!(parse_params(vars("file", "a"), p(), Ok(None)),
        Err(Error::MatcherNotFound(n)) if n == "substring"));
    assert!(matches!(parse_params::<BlankParams>(vars("file", "a"), Err("bad".into()), Ok(None)),
        Err(Error::Params(m)) if m == "bad"));
}

#[test]
fn senario_as_ref_borrows_its_parts() {
    let s = senario("file", "q");
    let r = s.as_ref();
    assert_eq!(r.linearf.query, "q");
    assert_eq!(**r.source, "sp");
    assert!(matches!(BlankParams::Unit(()), BlankParams::Unit(())));
}
