use routerify::{compile_source, Action, Event, Method, PathPattern, Router, RouterError, Stage};

fn s(x: &str) -> String {
    x.to_string()
}

#[test]
fn compile_source_placeholder() {
    let (src, names) = compile_source("/users/:id").unwrap();
    assert_eq!(src, "(?s)^/users/([^/]+)$");
    assert_eq!(names, vec![s("id")]);
}

#[test]
fn compile_source_escapes_literals_and_wildcard() {
    let (src, names) = compile_source("/a.b/*").unwrap();
    assert_eq!(src, "(?s)^/a\\.b/(.*)$");
    assert_eq!(names, vec![s("*")]);
}

#[test]
fn compile_source_rejects_empty_name() {
    assert_eq!(compile_source("/users/:"), Err(RouterError::Pattern(s("/users/:"))));
    assert_eq!(compile_source("/:/x"), Err(RouterError::Pattern(s("/:/x"))));
}

#[test]
fn pattern_new_reports_path() {
    assert!(matches!(PathPattern::new(s("/a/:")), Err(RouterError::Pattern(p)) if p == "/a/:"));
    let p = PathPattern::new(s("/a/:x")).unwrap();
    assert_eq!(p.path(), "/a/:x");
    assert_eq!(p.source(), "(?s)^/a/([^/]+)$");
}

#[test]
fn builder_failure_is_kept() {
    let r = Router::builder()
        .add(s("/ok"), vec![])
        .add(s("/bad/:"), vec![])
        .add(s("/later"), vec![])
        .build();
    assert!(matches!(r, Err(RouterError::Pattern(p)) if p == "/bad/:"));
}

#[test]
fn users_route_scenario() {
    let mut router = Router::builder()
        .add(s("/"), vec![Method::Get])
        .add(s("/users/:id"), vec![Method::Get])
        .build()
        .unwrap();
    let mut d = router.begin("/users/7").unwrap();
    assert!(router.is_built());
    assert_eq!(d.next(&router, Event::Begin(Method::Get)), Action::RunRoute(1));
    let params = router.route_params(1, d.path());
    assert_eq!(params.len(), 1);
    assert_eq!(params.get(&s("id")), Some(&s("7")));
    assert_eq!(d.next(&router, Event::RouteOk), Action::Respond);
    assert_eq!(d.stage(), Stage::Done);
}

#[test]
fn one_of_each_phase_in_order() {
    let mut router = Router::builder()
        .pre_middleware(s("/x"))
        .add(s("/x"), vec![])
        .post_middleware(s("/x"))
        .build()
        .unwrap();
    let mut d = router.begin("/x").unwrap();
    assert_eq!(d.next(&router, Event::Begin(Method::Post)), Action::RunPre(0));
    assert_eq!(d.next(&router, Event::PreOk(Method::Post)), Action::RunRoute(0));
    assert_eq!(d.next(&router, Event::RouteOk), Action::RunPost(0));
    assert_eq!(d.next(&router, Event::PostOk), Action::Respond);
    assert_eq!(d.next(&router, Event::PostOk), Action::Unexpected);
}

#[test]
fn first_matching_route_wins() {
    let mut router = Router::builder()
        .add(s("/a/:x"), vec![Method::Get])
        .add(s("/a/b"), vec![Method::Get])
        .build()
        .unwrap();
    let mut d = router.begin("/a/b").unwrap();
    assert_eq!(d.next(&router, Event::Begin(Method::Get)), Action::RunRoute(0));
}

#[test]
fn get_route_never_runs_for_post() {
    let mut router = Router::builder().add(s("/r"), vec![Method::Get]).build().unwrap();
    let mut d = router.begin("/r").unwrap();
    assert_eq!(
        d.next(&router, Event::Begin(Method::Post)),
        Action::Fail(RouterError::NoMatchingRoute)
    );
    let mut router = Router::builder()
        .add(s("/r"), vec![Method::Get])
        .add(s("/r"), vec![Method::Post])
        .build()
        .unwrap();
    let mut d = router.begin("/r").unwrap();
    assert_eq!(d.next(&router, Event::Begin(Method::Post)), Action::RunRoute(1));
}

#[test]
fn method_changed_by_pre_phase_selects_route() {
    let mut router = Router::builder()
        .pre_middleware(s("/r"))
        .add(s("/r"), vec![Method::Put])
        .build()
        .unwrap();
    let mut d = router.begin("/r").unwrap();
    assert_eq!(d.next(&router, Event::Begin(Method::Get)), Action::RunPre(0));
    assert_eq!(d.next(&router, Event::PreOk(Method::Put)), Action::RunRoute(0));
}

#[test]
fn mount_prefixes_patterns() {
    let child = Router::builder().add(s("/items/:id"), vec![]).build().unwrap();
    let mut router = Router::builder().scope("/api", child).build().unwrap();
    let mut d = router.begin("/api/items/42").unwrap();
    assert_eq!(d.next(&router, Event::Begin(Method::Get)), Action::RunRoute(0));
    let params = router.route_params(0, d.path());
    assert_eq!(params.get(&s("id")), Some(&s("42")));
    assert_eq!(params.len(), 1);
    let mut d = router.begin("/items/42").unwrap();
    assert_eq!(
        d.next(&router, Event::Begin(Method::Get)),
        Action::Fail(RouterError::NoMatchingRoute)
    );
}

#[test]
fn mount_keeps_declared_position() {
    let child = Router::builder().add(s("/b"), vec![]).build().unwrap();
    let mut router = Router::builder()
        .add(s("/p/b"), vec![Method::Post])
        .scope("/p", child)
        .add(s("/p/:any"), vec![])
        .err_handler()
        .build()
        .unwrap();
    assert_eq!(router.routes_len(), 3);
    assert!(router.has_err_handler());
    assert_eq!(router.route(1).pattern().path(), "/p/b");
    let mut d = router.begin("/p/b").unwrap();
    assert_eq!(d.next(&router, Event::Begin(Method::Get)), Action::RunRoute(1));
}

#[test]
fn mounted_error_handler_is_dropped() {
    let child = Router::builder().add(s("/b"), vec![]).err_handler().build().unwrap();
    let router = Router::builder().scope("/p", child).build().unwrap();
    assert!(!router.has_err_handler());
}

#[test]
fn pre_failure_short_circuits() {
    let mut router = Router::builder()
        .pre_middleware(s("/x"))
        .pre_middleware(s("/x"))
        .add(s("/x"), vec![])
        .post_middleware(s("/x"))
        .build()
        .unwrap();
    let mut d = router.begin("/x").unwrap();
    assert_eq!(d.next(&router, Event::Begin(Method::Get)), Action::RunPre(0));
    assert_eq!(
        d.next(&router, Event::PreFailed(s("boom"))),
        Action::Fail(RouterError::PreMiddleware(s("boom")))
    );
    assert_eq!(d.next(&router, Event::PreOk(Method::Get)), Action::Unexpected);
    assert_eq!(d.next(&router, Event::RouteOk), Action::Unexpected);
}

#[test]
fn route_failure_with_error_handler_recovers() {
    let mut router = Router::builder()
        .add(s("/x"), vec![])
        .post_middleware(s("/x"))
        .err_handler()
        .build()
        .unwrap();
    let mut d = router.begin("/x").unwrap();
    assert_eq!(d.next(&router, Event::Begin(Method::Get)), Action::RunRoute(0));
    assert_eq!(
        d.next(&router, Event::RouteFailed(s("bad"))),
        Action::RunErrorHandler(RouterError::Route(s("bad")))
    );
    assert_eq!(d.next(&router, Event::Recovered), Action::RunPost(0));
    assert_eq!(
        d.next(&router, Event::PostFailed(s("late"))),
        Action::Fail(RouterError::PostMiddleware(s("late")))
    );
}

#[test]
fn route_failure_without_error_handler_propagates() {
    let mut router = Router::builder()
        .add(s("/x"), vec![])
        .post_middleware(s("/x"))
        .build()
        .unwrap();
    let mut d = router.begin("/x").unwrap();
    assert_eq!(d.next(&router, Event::Begin(Method::Get)), Action::RunRoute(0));
    assert_eq!(
        d.next(&router, Event::RouteFailed(s("bad"))),
        Action::Fail(RouterError::Route(s("bad")))
    );
}

#[test]
fn matching_is_idempotent() {
    let mut router = Router::builder()
        .pre_middleware(s("/*"))
        .add(s("/a"), vec![])
        .add(s("/:x"), vec![])
        .post_middleware(s("/:y"))
        .build()
        .unwrap();
    router.init_regex_set().unwrap();
    let first = router.match_regex_set("/a");
    let second = router.match_regex_set("/a");
    assert_eq!(first, second);
    assert_eq!(first, (vec![0], vec![0, 1], vec![0]));
}

#[test]
fn literal_dot_is_escaped() {
    let mut router = Router::builder().add(s("/a.b"), vec![]).build().unwrap();
    let mut d = router.begin("/axb").unwrap();
    assert_eq!(
        d.next(&router, Event::Begin(Method::Get)),
        Action::Fail(RouterError::NoMatchingRoute)
    );
    let mut d = router.begin("/a.b").unwrap();
    assert_eq!(d.next(&router, Event::Begin(Method::Get)), Action::RunRoute(0));
}

#[test]
fn placeholder_does_not_cross_separator() {
    let mut router = Router::builder().add(s("/u/:id"), vec![]).build().unwrap();
    let mut d = router.begin("/u/1/2").unwrap();
    assert_eq!(
        d.next(&router, Event::Begin(Method::Get)),
        Action::Fail(RouterError::NoMatchingRoute)
    );
}

#[test]
fn path_is_percent_decoded() {
    let mut router = Router::builder().add(s("/u/:id"), vec![]).build().unwrap();
    let mut d = router.begin("/u/a%20b").unwrap();
    assert_eq!(d.path(), "/u/a b");
    assert_eq!(d.next(&router, Event::Begin(Method::Get)), Action::RunRoute(0));
    assert_eq!(router.route_params(0, d.path()).get(&s("id")), Some(&s("a b")));
}

#[test]
fn undecodable_path_fails() {
    let mut router = Router::builder().add(s("/*"), vec![]).build().unwrap();
    assert!(matches!(router.begin("/%FF"), Err(RouterError::PathDecoding(p)) if p == "/%FF"));
}

#[test]
fn wildcard_route_captures_rest() {
    let mut router = Router::builder().add(s("/files/*"), vec![]).build().unwrap();
    let mut d = router.begin("/files/a/b.txt").unwrap();
    assert_eq!(d.next(&router, Event::Begin(Method::Get)), Action::RunRoute(0));
    assert_eq!(router.route_params(0, d.path()).get(&s("*")), Some(&s("a/b.txt")));
}

#[test]
fn no_routes_gives_no_matching_route() {
    let mut router = Router::builder().build().unwrap();
    let mut d = router.begin("/").unwrap();
    assert_eq!(
        d.next(&router, Event::Begin(Method::Get)),
        Action::Fail(RouterError::NoMatchingRoute)
    );
}

#[test]
fn rebuilding_the_set_succeeds_and_keeps_matches() {
    let mut router = Router::builder().add(s("/a"), vec![]).build().unwrap();
    assert!(!router.is_built());
    router.init_regex_set().unwrap();
    let first = router.match_regex_set("/a");
    router.init_regex_set().unwrap();
    assert!(router.is_built());
    assert_eq!(router.match_regex_set("/a"), first);
}

#[test]
fn retrying_a_bad_pattern_fails_again() {
    assert!(PathPattern::new(s("/x/:")).is_err());
    assert!(PathPattern::new(s("/x/:")).is_err());
    assert!(PathPattern::new(s("/x/:y")).is_ok());
}

#[test]
fn builder_reports_failure() {
    let b = Router::builder().add(s("/ok"), vec![]);
    assert!(!b.has_failed());
    let b = b.pre_middleware(s("/no/:"));
    assert!(b.has_failed());
}

#[test]
fn mount_with_bad_prefix_fails() {
    let child = Router::builder().add(s("/b"), vec![]).build().unwrap();
    let r = Router::builder().scope("/:", child).build();
    assert!(matches!(r, Err(RouterError::Pattern(p)) if p == "/:/b"));
}

#[test]
fn pre_middleware_matches_whole_path_only() {
    let m = routerify::PreMiddleware::new(s("/users/:id")).unwrap();
    assert!(m.is_match("/users/7"));
    assert!(!m.is_match("/users/7/x"));
    assert!(!m.is_match("/api/users/7"));
    assert_eq!(m.pattern().source(), "(?s)^/users/([^/]+)$");
}
