use vstd::prelude::*;
use crate::engine::{capture_groups, percent_decode, percent_decoded, set_accepts};
use crate::path_params::PathParams;
use crate::pattern::params_from;
use crate::error::RouterError;
use crate::method::{accepts, Method};
use crate::router::{lemma_match_lists_unique, lists_matches, route_methods, Router};

verus! {

/// Where a request stands in its pipeline.
#[derive(Clone, Copy, Debug, PartialEq, Eq, Structural)]
pub enum Stage {
    /// Nothing has run yet.
    Start,
    /// The pre-phase handler at this position of the matched list runs.
    Pre(usize),
    /// The selected route handler runs.
    Route,
    /// The error handler runs in place of the failed route.
    Recover,
    /// The post-phase handler at this position of the matched list runs.
    Post(usize),
    /// The pipeline is over.
    Done,
}

/// What the caller reports back after carrying out the last action.
#[derive(Debug)]
pub enum Event {
    /// The pipeline starts for a request of this method.
    Begin(Method),
    /// The pre-phase handler succeeded; the request now has this method.
    PreOk(Method),
    /// The pre-phase handler failed with this cause.
    PreFailed(String),
    /// The route handler produced a response.
    RouteOk,
    /// The route handler failed with this cause.
    RouteFailed(String),
    /// The error handler produced a response.
    Recovered,
    /// The post-phase handler transformed the response.
    PostOk,
    /// The post-phase handler failed with this cause.
    PostFailed(String),
}

/// What the caller is to do next.
#[derive(Debug, PartialEq, Eq)]
pub enum Action {
    /// Run the pre-phase handler of this index on the request.
    RunPre(usize),
    /// Run the route handler of this index on the request.
    RunRoute(usize),
    /// Run the error handler on this error.
    RunErrorHandler(RouterError),
    /// Run the post-phase handler of this index on the response.
    RunPost(usize),
    /// Return the response.
    Respond,
    /// Return this error.
    Fail(RouterError),
    /// The event does not fit the stage; nothing is to be done.
    Unexpected,
}

/// The abstract state of one request's pipeline: the matched entries of
/// each phase in ascending order, whether an error handler stands by, and
/// the stage.
pub struct DispatchState {
    pub pre: Seq<usize>,
    pub routes: Seq<usize>,
    pub post: Seq<usize>,
    pub has_err_handler: bool,
    pub stage: Stage,
}

/// The first of the matched `routes` whose methods accept `m`.
pub open spec fn select_route(routes: Seq<usize>, methods: Seq<Seq<Method>>, m: Method) -> Option<
    usize,
>
    decreases routes.len(),
{
    if routes.len() == 0 {
        None
    } else if accepts(methods[routes[0] as int], m) {
        Some(routes[0])
    } else {
        select_route(routes.drop_first(), methods, m)
    }
}

/// The pre-phase handler at position `pos` runs if there is one; else the
/// first route that accepts `m`; else the request fails.
pub open spec fn enter_pre(s: DispatchState, methods: Seq<Seq<Method>>, pos: int, m: Method) -> (
    Stage,
    Action,
) {
    if pos < s.pre.len() {
        (Stage::Pre(pos as usize), Action::RunPre(s.pre[pos]))
    } else {
        match select_route(s.routes, methods, m) {
            Some(r) => (Stage::Route, Action::RunRoute(r)),
            None => (Stage::Done, Action::Fail(RouterError::NoMatchingRoute)),
        }
    }
}

/// The post-phase handler at position `pos` runs if there is one; else the
/// response is returned.
pub open spec fn enter_post(s: DispatchState, pos: int) -> (Stage, Action) {
    if pos < s.post.len() {
        (Stage::Post(pos as usize), Action::RunPost(s.post[pos]))
    } else {
        (Stage::Done, Action::Respond)
    }
}

/// One transition of the pipeline: the next stage and action.
pub open spec fn step(s: DispatchState, methods: Seq<Seq<Method>>, e: Event) -> (Stage, Action) {
    match (s.stage, e) {
        (Stage::Start, Event::Begin(m)) => enter_pre(s, methods, 0, m),
        (Stage::Pre(p), Event::PreOk(m)) => enter_pre(s, methods, p + 1, m),
        (Stage::Pre(_), Event::PreFailed(c)) => (
            Stage::Done,
            Action::Fail(RouterError::PreMiddleware(c)),
        ),
        (Stage::Route, Event::RouteOk) => enter_post(s, 0),
        (Stage::Route, Event::RouteFailed(c)) => if s.has_err_handler {
            (Stage::Recover, Action::RunErrorHandler(RouterError::Route(c)))
        } else {
            (Stage::Done, Action::Fail(RouterError::Route(c)))
        },
        (Stage::Recover, Event::Recovered) => enter_post(s, 0),
        (Stage::Post(p), Event::PostOk) => enter_post(s, p + 1),
        (Stage::Post(_), Event::PostFailed(c)) => (
            Stage::Done,
            Action::Fail(RouterError::PostMiddleware(c)),
        ),
        _ => (s.stage, Action::Unexpected),
    }
}

/// The state after moving to `stage`.
pub open spec fn with_stage(s: DispatchState, stage: Stage) -> DispatchState {
    DispatchState { stage, ..s }
}

/// The actions that a sequence of events draws from the pipeline.
pub open spec fn run(s: DispatchState, methods: Seq<Seq<Method>>, events: Seq<Event>) -> Seq<
    Action,
>
    decreases events.len(),
{
    if events.len() == 0 {
        Seq::empty()
    } else {
        let (stage, a) = step(s, methods, events[0]);
        seq![a] + run(with_stage(s, stage), methods, events.drop_first())
    }
}

proof fn lemma_select_route_first(routes: Seq<usize>, methods: Seq<Seq<Method>>, m: Method)
    ensures
        select_route(routes, methods, m) matches Some(r) ==> exists|k: int|
            0 <= k < routes.len() && routes[k] == r && accepts(methods[r as int], m) && forall|j: int|
                0 <= j < k ==> !accepts(methods[routes[j] as int], m),
        select_route(routes, methods, m) is None ==> forall|j: int|
            0 <= j < routes.len() ==> !accepts(methods[routes[j] as int], m),
    decreases routes.len(),
{
    if routes.len() > 0 && !accepts(methods[routes[0] as int], m) {
        let rest = routes.drop_first();
        lemma_select_route_first(rest, methods, m);
        if let Some(r) = select_route(rest, methods, m) {
            let k = choose|k: int|
                0 <= k < rest.len() && rest[k] == r && accepts(methods[r as int], m) && forall|j: int|
                    0 <= j < k ==> !accepts(methods[rest[j] as int], m);
            assert(routes[k + 1] == r);
            assert forall|j: int| 0 <= j < k + 1 implies !accepts(methods[routes[j] as int], m) by {
                if j > 0 {
                    assert(routes[j] == rest[j - 1]);
                }
            }
        } else {
            assert forall|j: int| 0 <= j < routes.len() implies !accepts(methods[routes[j] as int], m) by {
                if j > 0 {
                    assert(routes[j] == rest[j - 1]);
                }
            }
        }
    }
}

/// First match wins: where two matched routes both accept the method, the
/// one registered first is selected, never the later one.
pub proof fn lemma_first_match_wins(
    routes: Seq<usize>,
    methods: Seq<Seq<Method>>,
    m: Method,
    x: int,
    y: int,
)
    requires
        forall|i: int, j: int| 0 <= i < j < routes.len() ==> routes[i] < routes[j],
        0 <= x < y < routes.len(),
        accepts(methods[routes[x] as int], m),
        accepts(methods[routes[y] as int], m),
    ensures
        select_route(routes, methods, m) is Some,
        select_route(routes, methods, m) != Some(routes[y]),
{
    lemma_select_route_first(routes, methods, m);
    if let Some(r) = select_route(routes, methods, m) {
        let k = choose|k: int|
            0 <= k < routes.len() && routes[k] == r && accepts(methods[r as int], m) && forall|j: int|
                0 <= j < k ==> !accepts(methods[routes[j] as int], m);
        assert(k <= x);
    }
}

/// Method filtering: a selected route accepts the request's method; where
/// no matched route does, a request that reaches the route phase fails with
/// `RouterError::NoMatchingRoute` and no route runs.
pub proof fn lemma_method_filtering(s: DispatchState, methods: Seq<Seq<Method>>, m: Method)
    ensures
        select_route(s.routes, methods, m) matches Some(r) ==> accepts(methods[r as int], m),
        (forall|j: int| 0 <= j < s.routes.len() ==> !accepts(methods[s.routes[j] as int], m))
            ==> enter_pre(s, methods, s.pre.len() as int, m) == (
            Stage::Done,
            Action::Fail(RouterError::NoMatchingRoute),
        ),
{
    lemma_select_route_first(s.routes, methods, m);
    if (forall|j: int| 0 <= j < s.routes.len() ==> !accepts(methods[s.routes[j] as int], m)) {
        if let Some(r) = select_route(s.routes, methods, m) {
            let k = choose|k: int|
                0 <= k < s.routes.len() && s.routes[k] == r && accepts(methods[r as int], m);
            assert(!accepts(methods[s.routes[k] as int], m));
        }
    }
}

/// A pipeline that is over stays over: every event is answered with
/// `Action::Unexpected`.
pub proof fn lemma_done_is_final(s: DispatchState, methods: Seq<Seq<Method>>, events: Seq<Event>)
    requires
        s.stage == Stage::Done,
    ensures
        run(s, methods, events).len() == events.len(),
        forall|i: int| 0 <= i < events.len() ==> run(s, methods, events)[i] == Action::Unexpected,
    decreases events.len(),
{
    if events.len() > 0 {
        lemma_done_is_final(with_stage(s, Stage::Done), methods, events.drop_first());
        assert(with_stage(s, Stage::Done) == s);
    }
}

/// One matched entry of each phase, all succeeding: the pre-phase handler,
/// the route and the post-phase handler each run once, in that order, and
/// the response is returned.
pub proof fn lemma_phases_run_in_order(
    s: DispatchState,
    methods: Seq<Seq<Method>>,
    m: Method,
    m2: Method,
)
    requires
        s.stage == Stage::Start,
        s.pre.len() == 1,
        s.routes.len() == 1,
        s.post.len() == 1,
        accepts(methods[s.routes[0] as int], m2),
    ensures
        run(s, methods, seq![Event::Begin(m), Event::PreOk(m2), Event::RouteOk, Event::PostOk])
            == seq![
            Action::RunPre(s.pre[0]),
            Action::RunRoute(s.routes[0]),
            Action::RunPost(s.post[0]),
            Action::Respond,
        ],
{
    let e = seq![Event::Begin(m), Event::PreOk(m2), Event::RouteOk, Event::PostOk];
    let s1 = with_stage(s, Stage::Pre(0));
    let s2 = with_stage(s, Stage::Route);
    let s3 = with_stage(s, Stage::Post(0));
    let s4 = with_stage(s, Stage::Done);
    assert(s.routes.drop_first().len() == 0);
    assert(e.drop_first() =~= seq![Event::PreOk(m2), Event::RouteOk, Event::PostOk]);
    assert(e.drop_first().drop_first() =~= seq![Event::RouteOk, Event::PostOk]);
    assert(e.drop_first().drop_first().drop_first() =~= seq![Event::PostOk]);
    assert(e.drop_first().drop_first().drop_first().drop_first() =~= Seq::<Event>::empty());
    assert(run(s4, methods, Seq::<Event>::empty()) =~= Seq::<Action>::empty());
    assert(run(s3, methods, seq![Event::PostOk]) =~= seq![Action::Respond]);
    assert(run(s2, methods, seq![Event::RouteOk, Event::PostOk]) =~= seq![
        Action::RunPost(s.post[0]),
        Action::Respond,
    ]);
    assert(with_stage(s1, Stage::Route) == s2);
    assert(run(s1, methods, seq![Event::PreOk(m2), Event::RouteOk, Event::PostOk]) =~= seq![
        Action::RunRoute(s.routes[0]),
        Action::RunPost(s.post[0]),
        Action::Respond,
    ]);
    assert(run(s, methods, e) =~= seq![
        Action::RunPre(s.pre[0]),
        Action::RunRoute(s.routes[0]),
        Action::RunPost(s.post[0]),
        Action::Respond,
    ]);
}

/// Pre-phase short-circuit: when the first pre-phase handler fails, the
/// request fails with its cause, and nothing runs after it, neither another
/// pre-phase handler, nor a route, nor a post-phase handler.
pub proof fn lemma_pre_failure_short_circuits(
    s: DispatchState,
    methods: Seq<Seq<Method>>,
    m: Method,
    cause: String,
    rest: Seq<Event>,
)
    requires
        s.stage == Stage::Start,
        s.pre.len() >= 1,
    ensures
        run(s, methods, seq![Event::Begin(m), Event::PreFailed(cause)] + rest).len() == rest.len() + 2,
        run(s, methods, seq![Event::Begin(m), Event::PreFailed(cause)] + rest)[0] == Action::RunPre(
            s.pre[0],
        ),
        run(s, methods, seq![Event::Begin(m), Event::PreFailed(cause)] + rest)[1] == Action::Fail(
            RouterError::PreMiddleware(cause),
        ),
        forall|i: int|
            2 <= i < rest.len() + 2 ==> run(
                s,
                methods,
                seq![Event::Begin(m), Event::PreFailed(cause)] + rest,
            )[i] == Action::Unexpected,
{
    let e = seq![Event::Begin(m), Event::PreFailed(cause)] + rest;
    let s1 = with_stage(s, Stage::Pre(0));
    let s2 = with_stage(s, Stage::Done);
    assert(e.drop_first()[0] == Event::PreFailed(cause));
    assert(e.drop_first().drop_first() =~= rest);
    lemma_done_is_final(s2, methods, rest);
    assert(with_stage(s1, Stage::Done) == s2);
    let a1 = run(s1, methods, e.drop_first());
    assert(a1 =~= seq![Action::Fail(RouterError::PreMiddleware(cause))] + run(s2, methods, rest));
    let a = run(s, methods, e);
    assert(a =~= seq![Action::RunPre(s.pre[0])] + a1);
    assert forall|i: int| 2 <= i < rest.len() + 2 implies a[i] == Action::Unexpected by {
        assert(a[i] == run(s2, methods, rest)[i - 2]);
    }
}

/// Error-handler recovery: a failed route is handed to the error handler,
/// whose response then goes on through the post phase; with no error
/// handler the route's failure is returned unchanged.
pub proof fn lemma_route_failure_recovery(s: DispatchState, methods: Seq<Seq<Method>>, cause: String)
    requires
        s.stage == Stage::Route,
    ensures
        s.has_err_handler ==> run(s, methods, seq![Event::RouteFailed(cause), Event::Recovered])
            == seq![Action::RunErrorHandler(RouterError::Route(cause)), enter_post(s, 0).1],
        !s.has_err_handler ==> run(s, methods, seq![Event::RouteFailed(cause)]) == seq![
            Action::Fail(RouterError::Route(cause)),
        ],
{
    let e = seq![Event::RouteFailed(cause), Event::Recovered];
    assert(e.drop_first() =~= seq![Event::Recovered]);
    assert(e.drop_first().drop_first() =~= Seq::<Event>::empty());
    assert(seq![Event::RouteFailed(cause)].drop_first() =~= Seq::<Event>::empty());
    let s1 = with_stage(s, Stage::Recover);
    let s2 = with_stage(s1, enter_post(s1, 0).0);
    assert(run(s2, methods, Seq::<Event>::empty()) =~= Seq::<Action>::empty());
    let s3 = with_stage(s, Stage::Done);
    assert(run(s3, methods, Seq::<Event>::empty()) =~= Seq::<Action>::empty());
    assert(run(s1, methods, seq![Event::Recovered]) =~= seq![enter_post(s, 0).1]);
    if s.has_err_handler {
        assert(run(s, methods, e) =~= seq![
            Action::RunErrorHandler(RouterError::Route(cause)),
            enter_post(s, 0).1,
        ]);
    } else {
        assert(run(s, methods, seq![Event::RouteFailed(cause)]) =~= seq![
            Action::Fail(RouterError::Route(cause)),
        ]);
    }
}

/// Matching is idempotent: two pipelines started on the same patterns for
/// the same decoded path hold the same matched entries of every phase.
pub proof fn lemma_matching_idempotent(
    sources: Seq<Seq<char>>,
    counts: (int, int, int),
    d1: DispatchState,
    d2: DispatchState,
    path: Seq<char>,
)
    requires
        lists_matches(d1.pre, sources, path, 0, counts.0),
        lists_matches(d2.pre, sources, path, 0, counts.0),
        lists_matches(d1.routes, sources, path, counts.0, counts.1),
        lists_matches(d2.routes, sources, path, counts.0, counts.1),
        lists_matches(d1.post, sources, path, counts.0 + counts.1, counts.2),
        lists_matches(d2.post, sources, path, counts.0 + counts.1, counts.2),
    ensures
        d1.pre == d2.pre,
        d1.routes == d2.routes,
        d1.post == d2.post,
{
    lemma_match_lists_unique(d1.pre, d2.pre, sources, path, 0, counts.0);
    lemma_match_lists_unique(d1.routes, d2.routes, sources, path, counts.0, counts.1);
    lemma_match_lists_unique(d1.post, d2.post, sources, path, counts.0 + counts.1, counts.2);
}

/// One request's pipeline over a frozen router.
#[derive(Debug)]
pub struct Dispatch {
    path: String,
    pre: Vec<usize>,
    routes: Vec<usize>,
    post: Vec<usize>,
    has_err_handler: bool,
    stage: Stage,
}

impl Dispatch {
    pub closed spec fn view(&self) -> DispatchState {
        DispatchState {
            pre: self.pre@,
            routes: self.routes@,
            post: self.post@,
            has_err_handler: self.has_err_handler,
            stage: self.stage,
        }
    }

    /// The decoded request path.
    pub closed spec fn path_view(&self) -> Seq<char> {
        self.path@
    }

    /// Every matched route index names a route of `router`.
    pub open spec fn valid_for(&self, router: &Router) -> bool {
        forall|j: int|
            0 <= j < self.view().routes.len() ==> #[trigger] self.view().routes[j]
                < router.routes_view().len()
    }

    /// The decoded request path.
    pub fn path(&self) -> (r: &String)
        ensures
            r@ == self.path_view(),
    {
        &self.path
    }

    pub fn stage(&self) -> (r: Stage)
        ensures
            r == self.view().stage,
    {
        self.stage
    }

    fn select_route(&self, router: &Router, m: Method) -> (r: Option<usize>)
        requires
            self.valid_for(router),
        ensures
            r == select_route(self.routes@, route_methods(router.routes_view()), m),
    {
        let ghost methods = route_methods(router.routes_view());
        let mut i: usize = 0;
        assert(self.routes@.skip(0) =~= self.routes@);
        while i < self.routes.len()
            invariant
                self.valid_for(router),
                methods == route_methods(router.routes_view()),
                i <= self.routes@.len(),
                select_route(self.routes@, methods, m) == select_route(
                    self.routes@.skip(i as int),
                    methods,
                    m,
                ),
            decreases self.routes@.len() - i,
        {
            let idx = self.routes[i];
            assert(self.view().routes[i as int] == idx);
            let ghost rest = self.routes@.skip(i as int);
            assert(rest.drop_first() =~= self.routes@.skip(i + 1));
            assert(rest[0] == idx);
            assert(methods[idx as int] == router.routes_view()[idx as int].methods_view());
            if router.route(idx).is_match_method(m) {
                return Some(idx);
            }
            i = i + 1;
        }
        None
    }

    fn enter_pre(&mut self, router: &Router, pos: usize, m: Method) -> (r: Action)
        requires
            old(self).valid_for(router),
        ensures
            (final(self).view().stage, r) == enter_pre(
                old(self).view(),
                route_methods(router.routes_view()),
                pos as int,
                m,
            ),
            final(self).view() == with_stage(old(self).view(), final(self).view().stage),
            final(self).path_view() == old(self).path_view(),
    {
        if pos < self.pre.len() {
            self.stage = Stage::Pre(pos);
            Action::RunPre(self.pre[pos])
        } else {
            match self.select_route(router, m) {
                Some(r) => {
                    self.stage = Stage::Route;
                    Action::RunRoute(r)
                },
                None => {
                    self.stage = Stage::Done;
                    Action::Fail(RouterError::NoMatchingRoute)
                },
            }
        }
    }

    fn enter_post(&mut self, pos: usize) -> (r: Action)
        ensures
            (final(self).view().stage, r) == enter_post(old(self).view(), pos as int),
            final(self).view() == with_stage(old(self).view(), final(self).view().stage),
            final(self).path_view() == old(self).path_view(),
    {
        if pos < self.post.len() {
            self.stage = Stage::Post(pos);
            Action::RunPost(self.post[pos])
        } else {
            self.stage = Stage::Done;
            Action::Respond
        }
    }

    /// Takes the outcome of the last action and says what to do next.
    pub fn next(&mut self, router: &Router, event: Event) -> (r: Action)
        requires
            old(self).valid_for(router),
        ensures
            (final(self).view().stage, r) == step(
                old(self).view(),
                route_methods(router.routes_view()),
                event,
            ),
            final(self).view() == with_stage(old(self).view(), final(self).view().stage),
            final(self).path_view() == old(self).path_view(),
            final(self).valid_for(router),
    {
        let stage = self.stage;
        match (stage, event) {
            (Stage::Start, Event::Begin(m)) => self.enter_pre(router, 0, m),
            (Stage::Pre(p), Event::PreOk(m)) => {
                if p < self.pre.len() {
                    self.enter_pre(router, p + 1, m)
                } else {
                    self.enter_pre(router, p, m)
                }
            },
            (Stage::Pre(_), Event::PreFailed(c)) => {
                self.stage = Stage::Done;
                Action::Fail(RouterError::PreMiddleware(c))
            },
            (Stage::Route, Event::RouteOk) => self.enter_post(0),
            (Stage::Route, Event::RouteFailed(c)) => {
                if self.has_err_handler {
                    self.stage = Stage::Recover;
                    Action::RunErrorHandler(RouterError::Route(c))
                } else {
                    self.stage = Stage::Done;
                    Action::Fail(RouterError::Route(c))
                }
            },
            (Stage::Recover, Event::Recovered) => self.enter_post(0),
            (Stage::Post(p), Event::PostOk) => {
                if p < self.post.len() {
                    self.enter_post(p + 1)
                } else {
                    self.enter_post(p)
                }
            },
            (Stage::Post(_), Event::PostFailed(c)) => {
                self.stage = Stage::Done;
                Action::Fail(RouterError::PostMiddleware(c))
            },
            _ => Action::Unexpected,
        }
    }
}

impl Router {
    /// Starts the pipeline for a request whose raw path is `raw_path`:
    /// builds the pattern set if it is not built yet, percent-decodes the
    /// path, and finds the matching entries of each phase in one search.
    /// Fails with `RouterError::Matcher` where the set cannot be built, and
    /// with `RouterError::PathDecoding(raw_path)` where the path does not
    /// decode; no handler has run then.
    pub fn begin(&mut self, raw_path: &str) -> (r: Result<Dispatch, RouterError>)
        requires
            old(self).wf(),
        ensures
            final(self).wf(),
            final(self).pre_view() == old(self).pre_view(),
            final(self).routes_view() == old(self).routes_view(),
            final(self).post_view() == old(self).post_view(),
            final(self).has_err_handler_view() == old(self).has_err_handler_view(),
            old(self).is_frozen() ==> final(self).is_frozen(),
            final(self).is_frozen() <==> (old(self).is_frozen() || set_accepts(old(self).sources())),
            r matches Err(RouterError::Matcher) <==> !final(self).is_frozen(),
            r matches Err(e) ==> e is Matcher || e is PathDecoding,
            r matches Err(RouterError::PathDecoding(p)) ==> p@ == raw_path@,
            final(self).is_frozen() ==> (r is Ok <==> percent_decoded(raw_path@) is Some),
            r matches Ok(d) ==> {
                &&& percent_decoded(raw_path@) == Some(d.path_view())
                &&& d.valid_for(final(self))
                &&& d.view().stage == Stage::Start
                &&& d.view().has_err_handler == final(self).has_err_handler_view()
                &&& lists_matches(
                    d.view().pre,
                    final(self).sources(),
                    d.path_view(),
                    0,
                    final(self).pre_view().len() as int,
                )
                &&& lists_matches(
                    d.view().routes,
                    final(self).sources(),
                    d.path_view(),
                    final(self).pre_view().len() as int,
                    final(self).routes_view().len() as int,
                )
                &&& lists_matches(
                    d.view().post,
                    final(self).sources(),
                    d.path_view(),
                    (final(self).pre_view().len() + final(self).routes_view().len()) as int,
                    final(self).post_view().len() as int,
                )
            },
    {
        if !self.is_built() {
            match self.init_regex_set() {
                Ok(()) => {},
                Err(e) => {
                    return Err(e);
                },
            }
        }
        let path = match percent_decode(raw_path) {
            Some(p) => p,
            None => {
                return Err(RouterError::PathDecoding(raw_path.to_owned()));
            },
        };
        let (pre, routes, post) = self.match_regex_set(path.as_str());
        Ok(Dispatch { path, pre, routes, post, has_err_handler: self.has_err_handler(), stage: Stage::Start })
    }

    /// The placeholder values that `target_path` gives the route at `route`.
    pub fn route_params(&self, route: usize, target_path: &str) -> (r: PathParams)
        requires
            self.wf(),
            route < self.routes_view().len(),
        ensures
            r.wf(),
            r@ == params_from(
                self.routes_view()[route as int].pattern_view().names_view(),
                capture_groups(
                    self.routes_view()[route as int].pattern_view().source_view(),
                    target_path@,
                ),
            ),
    {
        proof {
            self.lemma_wf_routes(route as int);
        }
        self.route(route).path_params(target_path)
    }
}

} // verus!
