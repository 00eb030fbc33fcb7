use vstd::prelude::*;
use crate::engine::{is_set_match, new_regex_set, set_accepts, set_matches, PatternSet};
use crate::error::RouterError;
use crate::method::Method;
use crate::pattern::compiles;
use crate::route::{PostMiddleware, PreMiddleware, Route};

verus! {

pub open spec fn pre_sources(s: Seq<PreMiddleware>) -> Seq<Seq<char>> {
    s.map_values(|m: PreMiddleware| m.pattern_view().source_view())
}

pub open spec fn route_sources(s: Seq<Route>) -> Seq<Seq<char>> {
    s.map_values(|m: Route| m.pattern_view().source_view())
}

pub open spec fn post_sources(s: Seq<PostMiddleware>) -> Seq<Seq<char>> {
    s.map_values(|m: PostMiddleware| m.pattern_view().source_view())
}

pub open spec fn pre_paths(s: Seq<PreMiddleware>) -> Seq<Seq<char>> {
    s.map_values(|m: PreMiddleware| m.pattern_view().path_view())
}

pub open spec fn route_paths(s: Seq<Route>) -> Seq<Seq<char>> {
    s.map_values(|m: Route| m.pattern_view().path_view())
}

pub open spec fn route_methods(s: Seq<Route>) -> Seq<Seq<Method>> {
    s.map_values(|m: Route| m.methods_view())
}

pub open spec fn post_paths(s: Seq<PostMiddleware>) -> Seq<Seq<char>> {
    s.map_values(|m: PostMiddleware| m.pattern_view().path_view())
}

/// `prefix` put in front of each path.
pub open spec fn prefix_all(prefix: Seq<char>, paths: Seq<Seq<char>>) -> Seq<Seq<char>> {
    paths.map_values(|p: Seq<char>| prefix + p)
}

/// Every path, under `prefix`, compiles.
pub open spec fn all_compile(prefix: Seq<char>, paths: Seq<Seq<char>>) -> bool {
    forall|j: int| 0 <= j < paths.len() ==> compiles(#[trigger] (prefix + paths[j]))
}

/// `r` lists, in ascending order, exactly the local indices `i < count`
/// whose pattern `sources[offset + i]` matches `path`.
pub open spec fn lists_matches(
    r: Seq<usize>,
    sources: Seq<Seq<char>>,
    path: Seq<char>,
    offset: int,
    count: int,
) -> bool {
    &&& forall|i: int, j: int| 0 <= i < j < r.len() ==> r[i] < r[j]
    &&& forall|j: int| 0 <= j < r.len() ==> r[j] < count
    &&& forall|i: usize|
        i < count ==> (#[trigger] r.contains(i) <==> is_set_match(sources[offset + i], path))
}

proof fn lemma_sorted_same_members(a: Seq<usize>, b: Seq<usize>)
    requires
        forall|i: int, j: int| 0 <= i < j < a.len() ==> a[i] < a[j],
        forall|i: int, j: int| 0 <= i < j < b.len() ==> b[i] < b[j],
        forall|x: usize| a.contains(x) <==> b.contains(x),
    ensures
        a == b,
    decreases a.len(),
{
    if a.len() == 0 {
        if b.len() > 0 {
            assert(b.contains(b[0]));
        }
        assert(a =~= b);
    } else {
        assert(a.contains(a[0]));
        assert(b.contains(a[0]));
        assert(b.len() > 0);
        assert(b.contains(b[0]));
        assert(a.contains(b[0]));
        assert(a[0] == b[0]);
        let a1 = a.drop_first();
        let b1 = b.drop_first();
        assert forall|x: usize| a1.contains(x) <==> b1.contains(x) by {
            if a1.contains(x) {
                let i = choose|i: int| 0 <= i < a1.len() && a1[i] == x;
                assert(a[i + 1] == x);
                assert(b.contains(x));
                let j = choose|j: int| 0 <= j < b.len() && b[j] == x;
                assert(j != 0);
                assert(b1[j - 1] == x);
            }
            if b1.contains(x) {
                let i = choose|i: int| 0 <= i < b1.len() && b1[i] == x;
                assert(b[i + 1] == x);
                assert(a.contains(x));
                let j = choose|j: int| 0 <= j < a.len() && a[j] == x;
                assert(j != 0);
                assert(a1[j - 1] == x);
            }
        }
        lemma_sorted_same_members(a1, b1);
        assert(a =~= seq![a[0]] + a1);
        assert(b =~= seq![b[0]] + b1);
    }
}

/// Matching is idempotent: for one set of patterns and one path there is a
/// single list of matches of each phase, so every search returns the same.
pub proof fn lemma_match_lists_unique(
    r1: Seq<usize>,
    r2: Seq<usize>,
    sources: Seq<Seq<char>>,
    path: Seq<char>,
    offset: int,
    count: int,
)
    requires
        lists_matches(r1, sources, path, offset, count),
        lists_matches(r2, sources, path, offset, count),
    ensures
        r1 == r2,
{
    assert forall|x: usize| r1.contains(x) <==> r2.contains(x) by {
        if r1.contains(x) {
            let i = choose|i: int| 0 <= i < r1.len() && r1[i] == x;
            assert(x < count);
        }
        if r2.contains(x) {
            let i = choose|i: int| 0 <= i < r2.len() && r2[i] == x;
            assert(x < count);
        }
    }
    lemma_sorted_same_members(r1, r2);
}

/// Pushing a global index `idx` onto the searched matches, and its local
/// index onto a phase's list, keeps the list's members those of the matches
/// within the phase's range.
proof fn lemma_push_membership(l: Seq<usize>, mk: Seq<usize>, idx: usize, v: usize, off: int, n: int)
    requires
        v + off == idx,
        0 <= off,
        off + n <= usize::MAX,
        off <= idx,
        forall|i: usize| i < n ==> (#[trigger] l.contains(i) <==> mk.contains((i + off) as usize)),
    ensures
        forall|i: usize|
            i < n ==> (#[trigger] l.push(v).contains(i) <==> mk.push(idx).contains(
                (i + off) as usize,
            )),
{
    assert forall|i: usize| i < n implies (#[trigger] l.push(v).contains(i) <==> mk.push(idx).contains(
        (i + off) as usize,
    )) by {
        let g = (i + off) as usize;
        let l1 = l.push(v);
        let m1 = mk.push(idx);
        if m1.contains(g) && g != idx {
            let t = choose|t: int| 0 <= t < m1.len() && m1[t] == g;
            assert(mk[t] == g);
        }
        if l1.contains(i) && i != v {
            let t = choose|t: int| 0 <= t < l1.len() && l1[t] == i;
            assert(l[t] == i);
        }
        if g == idx {
            assert(l1[l1.len() - 1] == i);
            assert(m1[m1.len() - 1] == g);
        }
        if l.contains(i) {
            let t = choose|t: int| 0 <= t < l.len() && l[t] == i;
            assert(l1[t] == i);
        }
        if mk.contains(g) {
            let t = choose|t: int| 0 <= t < mk.len() && mk[t] == g;
            assert(m1[t] == g);
        }
    }
}

/// A router: ordered pre-phase entries, routes and post-phase entries, and
/// whether an error handler stands behind it. Once frozen it holds the one
/// pattern set built from all its patterns, pre-phase first, then routes,
/// then post-phase.
#[derive(Debug)]
pub struct Router {
    pre_middlewares: Vec<PreMiddleware>,
    routes: Vec<Route>,
    post_middlewares: Vec<PostMiddleware>,
    has_err_handler: bool,
    regex_set: Option<PatternSet>,
}

impl Router {
    pub closed spec fn pre_view(&self) -> Seq<PreMiddleware> {
        self.pre_middlewares@
    }

    pub closed spec fn routes_view(&self) -> Seq<Route> {
        self.routes@
    }

    pub closed spec fn post_view(&self) -> Seq<PostMiddleware> {
        self.post_middlewares@
    }

    pub closed spec fn has_err_handler_view(&self) -> bool {
        self.has_err_handler
    }

    /// Whether the pattern set has been built.
    pub closed spec fn is_frozen(&self) -> bool {
        self.regex_set is Some
    }

    /// Every pattern's regex source in the order of the pattern set.
    pub open spec fn sources(&self) -> Seq<Seq<char>> {
        pre_sources(self.pre_view()) + route_sources(self.routes_view()) + post_sources(
            self.post_view(),
        )
    }

    pub closed spec fn wf(&self) -> bool {
        &&& forall|i: int| 0 <= i < self.pre_middlewares@.len() ==> #[trigger] self.pre_middlewares@[i].wf()
        &&& forall|i: int| 0 <= i < self.routes@.len() ==> #[trigger] self.routes@[i].wf()
        &&& forall|i: int| 0 <= i < self.post_middlewares@.len() ==> #[trigger] self.post_middlewares@[i].wf()
        &&& self.pre_middlewares@.len() + self.routes@.len() + self.post_middlewares@.len() <= usize::MAX
        &&& self.regex_set matches Some(set) ==> set.patterns() == self.sources() && set_accepts(self.sources())
    }

    /// A frozen router's patterns are accepted as a set, so building the set
    /// again succeeds.
    pub proof fn lemma_frozen_set_accepted(&self)
        requires
            self.wf(),
            self.is_frozen(),
        ensures
            set_accepts(self.sources()),
    {
    }

    pub proof fn lemma_wf_routes(&self, i: int)
        requires
            self.wf(),
            0 <= i < self.routes_view().len(),
        ensures
            self.routes_view()[i].wf(),
    {
    }

    /// An unfrozen router over the given entries.
    pub fn new(
        pre_middlewares: Vec<PreMiddleware>,
        routes: Vec<Route>,
        post_middlewares: Vec<PostMiddleware>,
        has_err_handler: bool,
    ) -> (r: Router)
        requires
            forall|i: int| 0 <= i < pre_middlewares@.len() ==> #[trigger] pre_middlewares@[i].wf(),
            forall|i: int| 0 <= i < routes@.len() ==> #[trigger] routes@[i].wf(),
            forall|i: int| 0 <= i < post_middlewares@.len() ==> #[trigger] post_middlewares@[i].wf(),
            pre_middlewares@.len() + routes@.len() + post_middlewares@.len() <= usize::MAX,
        ensures
            r.wf(),
            !r.is_frozen(),
            r.pre_view() == pre_middlewares@,
            r.routes_view() == routes@,
            r.post_view() == post_middlewares@,
            r.has_err_handler_view() == has_err_handler,
    {
        Router { pre_middlewares, routes, post_middlewares, has_err_handler, regex_set: None }
    }

    /// A builder to register entries on.
    pub fn builder() -> (r: RouterBuilder)
        ensures
            r.wf(),
            r.failure() is None,
            r.pre_view().len() == 0,
            r.routes_view().len() == 0,
            r.post_view().len() == 0,
            !r.has_err_handler_view(),
    {
        RouterBuilder::new()
    }

    pub fn pre_len(&self) -> (r: usize)
        ensures
            r == self.pre_view().len(),
    {
        self.pre_middlewares.len()
    }

    pub fn routes_len(&self) -> (r: usize)
        ensures
            r == self.routes_view().len(),
    {
        self.routes.len()
    }

    pub fn post_len(&self) -> (r: usize)
        ensures
            r == self.post_view().len(),
    {
        self.post_middlewares.len()
    }

    pub fn has_err_handler(&self) -> (r: bool)
        ensures
            r == self.has_err_handler_view(),
    {
        self.has_err_handler
    }

    pub fn is_built(&self) -> (r: bool)
        ensures
            r == self.is_frozen(),
    {
        self.regex_set.is_some()
    }

    pub fn route(&self, i: usize) -> (r: &Route)
        requires
            i < self.routes_view().len(),
        ensures
            *r == self.routes_view()[i as int],
    {
        &self.routes[i]
    }

    pub fn pre_middleware(&self, i: usize) -> (r: &PreMiddleware)
        requires
            i < self.pre_view().len(),
        ensures
            *r == self.pre_view()[i as int],
    {
        &self.pre_middlewares[i]
    }

    pub fn post_middleware(&self, i: usize) -> (r: &PostMiddleware)
        requires
            i < self.post_view().len(),
        ensures
            *r == self.post_view()[i as int],
    {
        &self.post_middlewares[i]
    }

    /// Builds the one pattern set from every pattern, pre-phase first, then
    /// routes, then post-phase. Fails with `RouterError::Matcher`, keeping
    /// the set held before if any, exactly where the set cannot be built.
    pub fn init_regex_set(&mut self) -> (r: Result<(), RouterError>)
        requires
            old(self).wf(),
        ensures
            final(self).wf(),
            final(self).pre_view() == old(self).pre_view(),
            final(self).routes_view() == old(self).routes_view(),
            final(self).post_view() == old(self).post_view(),
            final(self).has_err_handler_view() == old(self).has_err_handler_view(),
            r is Ok <==> set_accepts(old(self).sources()),
            r is Ok ==> final(self).is_frozen(),
            r is Err ==> final(self).is_frozen() == old(self).is_frozen(),
            r matches Err(e) ==> e is Matcher,
    {
        let mut sources: Vec<String> = Vec::new();
        let ghost all = self.sources();
        let ghost np = self.pre_middlewares@.len();
        let ghost nr = self.routes@.len();
        let mut i: usize = 0;
        while i < self.pre_middlewares.len()
            invariant
                all == self.sources(),
                np == self.pre_middlewares@.len(),
                i <= np,
                sources@.len() == i,
                forall|j: int| 0 <= j < i ==> #[trigger] sources@[j]@ == all[j],
            decreases self.pre_middlewares@.len() - i,
        {
            sources.push(self.pre_middlewares[i].pattern().source().clone());
            i = i + 1;
        }
        let mut i: usize = 0;
        while i < self.routes.len()
            invariant
                all == self.sources(),
                np == self.pre_middlewares@.len(),
                nr == self.routes@.len(),
                i <= nr,
                sources@.len() == np + i,
                forall|j: int| 0 <= j < np + i ==> #[trigger] sources@[j]@ == all[j],
            decreases self.routes@.len() - i,
        {
            sources.push(self.routes[i].pattern().source().clone());
            i = i + 1;
        }
        let mut i: usize = 0;
        while i < self.post_middlewares.len()
            invariant
                all == self.sources(),
                np == self.pre_middlewares@.len(),
                nr == self.routes@.len(),
                i <= self.post_middlewares@.len(),
                sources@.len() == np + nr + i,
                forall|j: int| 0 <= j < np + nr + i ==> #[trigger] sources@[j]@ == all[j],
            decreases self.post_middlewares@.len() - i,
        {
            sources.push(self.post_middlewares[i].pattern().source().clone());
            i = i + 1;
        }
        assert(sources@.map_values(|s: String| s@) =~= all);
        match new_regex_set(&sources) {
            Ok(set) => {
                self.regex_set = Some(set);
                Ok(())
            },
            Err(_) => Err(RouterError::Matcher),
        }
    }

    /// The pre-phase, route and post-phase entries whose patterns match
    /// `target_path`, each as ascending local indices, from one search of
    /// the pattern set.
    pub fn match_regex_set(&self, target_path: &str) -> (r: (Vec<usize>, Vec<usize>, Vec<usize>))
        requires
            self.wf(),
            self.is_frozen(),
        ensures
            lists_matches(r.0@, self.sources(), target_path@, 0, self.pre_view().len() as int),
            lists_matches(
                r.1@,
                self.sources(),
                target_path@,
                self.pre_view().len() as int,
                self.routes_view().len() as int,
            ),
            lists_matches(
                r.2@,
                self.sources(),
                target_path@,
                (self.pre_view().len() + self.routes_view().len()) as int,
                self.post_view().len() as int,
            ),
    {
        let set = self.regex_set.as_ref().unwrap();
        let matches = set_matches(set, target_path);
        let pre_len = self.pre_middlewares.len();
        let routes_len = self.routes.len();
        let post_len = self.post_middlewares.len();
        let ghost total = pre_len + routes_len + post_len;
        let ghost m = matches@;
        assert(self.sources().len() == total);
        let mut pre: Vec<usize> = Vec::new();
        let mut routes: Vec<usize> = Vec::new();
        let mut post: Vec<usize> = Vec::new();
        let mut k: usize = 0;
        while k < matches.len()
            invariant
                m == matches@,
                k <= m.len(),
                total == pre_len + routes_len + post_len,
                pre_len + routes_len + post_len <= usize::MAX,
                forall|i: int, j: int| 0 <= i < j < m.len() ==> m[i] < m[j],
                forall|j: int| 0 <= j < m.len() ==> m[j] < total,
                forall|i: int, j: int| 0 <= i < j < pre@.len() ==> pre@[i] < pre@[j],
                forall|i: int, j: int| 0 <= i < j < routes@.len() ==> routes@[i] < routes@[j],
                forall|i: int, j: int| 0 <= i < j < post@.len() ==> post@[i] < post@[j],
                forall|j: int| 0 <= j < pre@.len() ==> pre@[j] < pre_len,
                forall|j: int| 0 <= j < routes@.len() ==> routes@[j] < routes_len,
                forall|j: int| 0 <= j < post@.len() ==> post@[j] < post_len,
                k < m.len() ==> forall|j: int| 0 <= j < pre@.len() ==> pre@[j] < m[k as int],
                k < m.len() ==> forall|j: int| 0 <= j < routes@.len() ==> routes@[j] + pre_len < m[k as int],
                k < m.len() ==> forall|j: int| 0 <= j < post@.len() ==> post@[j] + pre_len + routes_len < m[k as int],
                forall|i: usize| i < pre_len ==> (#[trigger] pre@.contains(i) <==> m.take(k as int).contains(i)),
                forall|i: usize| i < routes_len ==> (#[trigger] routes@.contains(i) <==> m.take(k as int).contains((i + pre_len) as usize)),
                forall|i: usize| i < post_len ==> (#[trigger] post@.contains(i) <==> m.take(k as int).contains((i + pre_len + routes_len) as usize)),
            decreases m.len() - k,
        {
            let idx = matches[k];
            let ghost old_pre = pre@;
            let ghost old_routes = routes@;
            let ghost old_post = post@;
            let ghost mk = m.take(k as int);
            let ghost mk1 = m.take(k + 1);
            assert(mk1 =~= mk.push(idx));
            if idx < pre_len {
                pre.push(idx);
                proof {
                    lemma_push_membership(old_pre, mk, idx, idx, 0, pre_len as int);
                }
            } else if idx < pre_len + routes_len {
                routes.push(idx - pre_len);
                proof {
                    lemma_push_membership(old_routes, mk, idx, (idx - pre_len) as usize, pre_len as int, routes_len as int);
                }
            } else {
                post.push(idx - pre_len - routes_len);
                proof {
                    lemma_push_membership(old_post, mk, idx, (idx - pre_len - routes_len) as usize, pre_len + routes_len, post_len as int);
                }
            }
            k = k + 1;
        }
        assert(m.take(k as int) =~= m);
        (pre, routes, post)
    }
}

/// Accumulates entries for a router. The first registration that fails is
/// kept, and every later one is ignored.
#[derive(Debug)]
pub struct RouterBuilder {
    pre_middlewares: Vec<PreMiddleware>,
    routes: Vec<Route>,
    post_middlewares: Vec<PostMiddleware>,
    has_err_handler: bool,
    failure: Option<RouterError>,
}

impl RouterBuilder {
    pub closed spec fn pre_view(&self) -> Seq<PreMiddleware> {
        self.pre_middlewares@
    }

    pub closed spec fn routes_view(&self) -> Seq<Route> {
        self.routes@
    }

    pub closed spec fn post_view(&self) -> Seq<PostMiddleware> {
        self.post_middlewares@
    }

    pub closed spec fn has_err_handler_view(&self) -> bool {
        self.has_err_handler
    }

    pub closed spec fn failure(&self) -> Option<RouterError> {
        self.failure
    }

    pub closed spec fn wf(&self) -> bool {
        &&& forall|i: int| 0 <= i < self.pre_middlewares@.len() ==> #[trigger] self.pre_middlewares@[i].wf()
        &&& forall|i: int| 0 <= i < self.routes@.len() ==> #[trigger] self.routes@[i].wf()
        &&& forall|i: int| 0 <= i < self.post_middlewares@.len() ==> #[trigger] self.post_middlewares@[i].wf()
    }

    pub fn new() -> (r: RouterBuilder)
        ensures
            r.wf(),
            r.failure() is None,
            r.pre_view().len() == 0,
            r.routes_view().len() == 0,
            r.post_view().len() == 0,
            !r.has_err_handler_view(),
    {
        RouterBuilder {
            pre_middlewares: Vec::new(),
            routes: Vec::new(),
            post_middlewares: Vec::new(),
            has_err_handler: false,
            failure: None,
        }
    }

    /// Whether a registration has failed.
    pub fn has_failed(&self) -> (r: bool)
        ensures
            r == self.failure() is Some,
    {
        self.failure.is_some()
    }

    /// Keeps the entries, recording `e` as the failure.
    fn failed(self, e: RouterError) -> (r: RouterBuilder)
        requires
            self.wf(),
        ensures
            r.wf(),
            r.failure() == Some(e),
            r.pre_view() == self.pre_view(),
            r.routes_view() == self.routes_view(),
            r.post_view() == self.post_view(),
            r.has_err_handler_view() == self.has_err_handler_view(),
    {
        RouterBuilder { failure: Some(e), ..self }
    }

    /// Registers a pre-phase entry for `path` after those registered so far.
    pub fn pre_middleware(self, path: String) -> (r: RouterBuilder)
        requires
            self.wf(),
        ensures
            r.wf(),
            r.routes_view() == self.routes_view(),
            r.post_view() == self.post_view(),
            r.has_err_handler_view() == self.has_err_handler_view(),
            self.failure() is Some ==> r.failure() == self.failure() && r.pre_view() == self.pre_view(),
            self.failure() is None ==> (r.failure() is None <==> compiles(path@)),
            self.failure() is None ==> (r.failure() matches Some(RouterError::Pattern(p)) ==> p@ == path@),
            self.failure() is None ==> (r.failure() is Some <==> r.pre_view() == self.pre_view()),
            r.failure() is None ==> pre_paths(r.pre_view()) == pre_paths(self.pre_view()).push(path@),
    {
        if self.failure.is_some() {
            return self;
        }
        match PreMiddleware::new(path) {
            Ok(m) => {
                let mut b = self;
                let ghost before = b.pre_middlewares@;
                b.pre_middlewares.push(m);
                assert(pre_paths(b.pre_middlewares@) =~= pre_paths(before).push(m.pattern_view().path_view()));
                b
            },
            Err(e) => self.failed(e),
        }
    }

    /// Registers a route for `path` restricted to `methods` (none: all),
    /// after those registered so far.
    pub fn add(self, path: String, methods: Vec<Method>) -> (r: RouterBuilder)
        requires
            self.wf(),
        ensures
            r.wf(),
            r.pre_view() == self.pre_view(),
            r.post_view() == self.post_view(),
            r.has_err_handler_view() == self.has_err_handler_view(),
            self.failure() is Some ==> r.failure() == self.failure() && r.routes_view() == self.routes_view(),
            self.failure() is None ==> (r.failure() is None <==> compiles(path@)),
            self.failure() is None ==> (r.failure() matches Some(RouterError::Pattern(p)) ==> p@ == path@),
            self.failure() is None ==> (r.failure() is Some <==> r.routes_view() == self.routes_view()),
            r.failure() is None ==> route_paths(r.routes_view()) == route_paths(self.routes_view()).push(path@)
                && route_methods(r.routes_view()) == route_methods(self.routes_view()).push(methods@),
    {
        if self.failure.is_some() {
            return self;
        }
        let ghost ms = methods@;
        match Route::new(path, methods) {
            Ok(m) => {
                let mut b = self;
                let ghost before = b.routes@;
                b.routes.push(m);
                assert(route_paths(b.routes@) =~= route_paths(before).push(m.pattern_view().path_view()));
                assert(route_methods(b.routes@) =~= route_methods(before).push(ms));
                b
            },
            Err(e) => self.failed(e),
        }
    }

    /// Registers a post-phase entry for `path` after those registered so far.
    pub fn post_middleware(self, path: String) -> (r: RouterBuilder)
        requires
            self.wf(),
        ensures
            r.wf(),
            r.pre_view() == self.pre_view(),
            r.routes_view() == self.routes_view(),
            r.has_err_handler_view() == self.has_err_handler_view(),
            self.failure() is Some ==> r.failure() == self.failure() && r.post_view() == self.post_view(),
            self.failure() is None ==> (r.failure() is None <==> compiles(path@)),
            self.failure() is None ==> (r.failure() matches Some(RouterError::Pattern(p)) ==> p@ == path@),
            self.failure() is None ==> (r.failure() is Some <==> r.post_view() == self.post_view()),
            r.failure() is None ==> post_paths(r.post_view()) == post_paths(self.post_view()).push(path@),
    {
        if self.failure.is_some() {
            return self;
        }
        match PostMiddleware::new(path) {
            Ok(m) => {
                let mut b = self;
                let ghost before = b.post_middlewares@;
                b.post_middlewares.push(m);
                assert(post_paths(b.post_middlewares@) =~= post_paths(before).push(m.pattern_view().path_view()));
                b
            },
            Err(e) => self.failed(e),
        }
    }

    /// Records that an error handler stands behind the router.
    pub fn err_handler(self) -> (r: RouterBuilder)
        requires
            self.wf(),
        ensures
            r.wf(),
            r.has_err_handler_view(),
            r.failure() == self.failure(),
            r.pre_view() == self.pre_view(),
            r.routes_view() == self.routes_view(),
            r.post_view() == self.post_view(),
    {
        RouterBuilder { has_err_handler: true, ..self }
    }

    /// Mounts `router` at `prefix`: each of its phase lists, every pattern
    /// under `prefix` and in its own order, goes after the entries
    /// registered so far. Its error handler is dropped. Where a prefixed
    /// pattern does not compile, the builder fails and keeps its entries.
    pub fn scope(self, prefix: &str, router: Router) -> (r: RouterBuilder)
        requires
            self.wf(),
            router.wf(),
        ensures
            r.wf(),
            r.has_err_handler_view() == self.has_err_handler_view(),
            self.failure() is Some ==> r.failure() == self.failure(),
            r.failure() is Some ==> r.pre_view() == self.pre_view() && r.routes_view()
                == self.routes_view() && r.post_view() == self.post_view(),
            self.failure() is None ==> (r.failure() matches Some(e) ==> e is Pattern),
            self.failure() is None ==> (r.failure() is None <==> {
                &&& all_compile(prefix@, pre_paths(router.pre_view()))
                &&& all_compile(prefix@, route_paths(router.routes_view()))
                &&& all_compile(prefix@, post_paths(router.post_view()))
            }),
            r.failure() is None ==> {
                &&& pre_paths(r.pre_view()) == pre_paths(self.pre_view()) + prefix_all(
                    prefix@,
                    pre_paths(router.pre_view()),
                )
                &&& route_paths(r.routes_view()) == route_paths(self.routes_view()) + prefix_all(
                    prefix@,
                    route_paths(router.routes_view()),
                )
                &&& route_methods(r.routes_view()) == route_methods(self.routes_view())
                    + route_methods(router.routes_view())
                &&& post_paths(r.post_view()) == post_paths(self.post_view()) + prefix_all(
                    prefix@,
                    post_paths(router.post_view()),
                )
            },
    {
        if self.failure.is_some() {
            return self;
        }
        let mut pre: Vec<PreMiddleware> = Vec::new();
        let mut i: usize = 0;
        while i < router.pre_len()
            invariant
                router.wf(),
                self.wf(),
                self.failure() is None,
                i <= router.pre_view().len(),
                pre@.len() == i,
                forall|j: int| 0 <= j < i ==> #[trigger] pre@[j].wf(),
                forall|j: int| 0 <= j < i ==> compiles(prefix@ + #[trigger] pre_paths(router.pre_view())[j]),
                forall|j: int| 0 <= j < i ==> #[trigger] pre@[j].pattern_view().path_view() == prefix@
                    + router.pre_view()[j].pattern_view().path_view(),
            decreases router.pre_view().len() - i,
        {
            match router.pre_middleware(i).with_prefix(prefix) {
                Ok(m) => pre.push(m),
                Err(e) => {
                    assert(pre_paths(router.pre_view())[i as int] == router.pre_view()[i as int].pattern_view().path_view());
                    assert(!all_compile(prefix@, pre_paths(router.pre_view())));
                    return self.failed(e);
                },
            }
            i = i + 1;
        }
        let mut routes: Vec<Route> = Vec::new();
        let mut i: usize = 0;
        while i < router.routes_len()
            invariant
                router.wf(),
                self.wf(),
                self.failure() is None,
                i <= router.routes_view().len(),
                routes@.len() == i,
                forall|j: int| 0 <= j < i ==> #[trigger] routes@[j].wf(),
                forall|j: int| 0 <= j < i ==> compiles(prefix@ + #[trigger] route_paths(router.routes_view())[j]),
                forall|j: int| 0 <= j < i ==> #[trigger] routes@[j].pattern_view().path_view() == prefix@
                    + router.routes_view()[j].pattern_view().path_view(),
                forall|j: int| 0 <= j < i ==> #[trigger] routes@[j].methods_view()
                    == router.routes_view()[j].methods_view(),
            decreases router.routes_view().len() - i,
        {
            match router.route(i).with_prefix(prefix) {
                Ok(m) => routes.push(m),
                Err(e) => {
                    assert(route_paths(router.routes_view())[i as int] == router.routes_view()[i as int].pattern_view().path_view());
                    assert(!all_compile(prefix@, route_paths(router.routes_view())));
                    return self.failed(e);
                },
            }
            i = i + 1;
        }
        let mut post: Vec<PostMiddleware> = Vec::new();
        let mut i: usize = 0;
        while i < router.post_len()
            invariant
                router.wf(),
                self.wf(),
                self.failure() is None,
                i <= router.post_view().len(),
                post@.len() == i,
                forall|j: int| 0 <= j < i ==> #[trigger] post@[j].wf(),
                forall|j: int| 0 <= j < i ==> compiles(prefix@ + #[trigger] post_paths(router.post_view())[j]),
                forall|j: int| 0 <= j < i ==> #[trigger] post@[j].pattern_view().path_view() == prefix@
                    + router.post_view()[j].pattern_view().path_view(),
            decreases router.post_view().len() - i,
        {
            match router.post_middleware(i).with_prefix(prefix) {
                Ok(m) => post.push(m),
                Err(e) => {
                    assert(post_paths(router.post_view())[i as int] == router.post_view()[i as int].pattern_view().path_view());
                    assert(!all_compile(prefix@, post_paths(router.post_view())));
                    return self.failed(e);
                },
            }
            i = i + 1;
        }
        let mut b = self;
        let ghost (p0, r0, q0) = (b.pre_middlewares@, b.routes@, b.post_middlewares@);
        let ghost (p1, r1, q1) = (pre@, routes@, post@);
        b.pre_middlewares.append(&mut pre);
        b.routes.append(&mut routes);
        b.post_middlewares.append(&mut post);
        assert(pre_paths(b.pre_middlewares@) =~= pre_paths(p0) + prefix_all(prefix@, pre_paths(router.pre_view())));
        assert(route_paths(b.routes@) =~= route_paths(r0) + prefix_all(prefix@, route_paths(router.routes_view())));
        assert(route_methods(b.routes@) =~= route_methods(r0) + route_methods(router.routes_view()));
        assert(post_paths(b.post_middlewares@) =~= post_paths(q0) + prefix_all(prefix@, post_paths(router.post_view())));
        b
    }

    /// The router registered so far, not yet frozen; the first failure if
    /// there was one. Fails with `RouterError::Matcher` where the entries
    /// are too many to index.
    pub fn build(self) -> (r: Result<Router, RouterError>)
        requires
            self.wf(),
        ensures
            self.failure() matches Some(e) ==> r == Err::<Router, RouterError>(e),
            self.failure() is None && self.pre_view().len() + self.routes_view().len() + self.post_view().len()
                <= usize::MAX ==> r is Ok,
            r matches Err(e) ==> self.failure() is Some || e is Matcher,
            r matches Ok(router) ==> {
                &&& router.wf()
                &&& !router.is_frozen()
                &&& router.pre_view() == self.pre_view()
                &&& router.routes_view() == self.routes_view()
                &&& router.post_view() == self.post_view()
                &&& router.has_err_handler_view() == self.has_err_handler_view()
            },
    {
        match self.failure {
            Some(e) => Err(e),
            None => {
                let n1 = self.pre_middlewares.len();
                let n2 = self.routes.len();
                let n3 = self.post_middlewares.len();
                if n1 > usize::MAX - n2 || n1 + n2 > usize::MAX - n3 {
                    return Err(RouterError::Matcher);
                }
                Ok(Router::new(self.pre_middlewares, self.routes, self.post_middlewares, self.has_err_handler))
            },
        }
    }
}

} // verus!
