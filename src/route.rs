use vstd::prelude::*;
use crate::error::RouterError;
use crate::method::{accepts, Method};
use crate::path_params::PathParams;
use crate::pattern::{compile_spec, compiles, params_from, PathPattern};
use crate::engine::{capture_groups, regex_matches};

verus! {

/// Compiles `prefix` followed by `path`.
fn prefixed_pattern(prefix: &str, path: &String) -> (r: Result<PathPattern, RouterError>)
    ensures
        r matches Ok(p) ==> p.wf() && p.path_view() == prefix@ + path@,
        r matches Ok(p) ==> compile_spec(p.path_view()) == Some((p.source_view(), p.names_view())),
        r is Ok <==> compiles(prefix@ + path@),
        r matches Err(RouterError::Pattern(p)) ==> p@ == prefix@ + path@,
        r matches Err(e) ==> e is Pattern,
{
    let mut full = String::new();
    full.append(prefix);
    full.append(path.as_str());
    PathPattern::new(full)
}

/// A pre-phase entry: a pattern whose handler sees the request before the
/// route does.
#[derive(Debug)]
pub struct PreMiddleware {
    pattern: PathPattern,
}

impl PreMiddleware {
    pub closed spec fn pattern_view(&self) -> &PathPattern {
        &self.pattern
    }

    pub open spec fn wf(&self) -> bool {
        self.pattern_view().wf()
    }

    /// A pre-phase entry for the path specification `path`.
    pub fn new(path: String) -> (r: Result<PreMiddleware, RouterError>)
        ensures
            r matches Ok(m) ==> compile_spec(m.pattern_view().path_view()) == Some(
                (m.pattern_view().source_view(), m.pattern_view().names_view()),
            ),
            r matches Ok(m) ==> m.wf() && m.pattern_view().path_view() == path@,
            r is Ok <==> compiles(path@),
            r matches Err(RouterError::Pattern(p)) ==> p@ == path@,
            r matches Err(e) ==> e is Pattern,
    {
        match PathPattern::new(path) {
            Ok(pattern) => Ok(PreMiddleware { pattern }),
            Err(e) => Err(e),
        }
    }

    pub fn pattern(&self) -> (r: &PathPattern)
        ensures
            r == self.pattern_view(),
    {
        &self.pattern
    }

    /// Whether this entry's pattern matches `target_path`.
    pub fn is_match(&self, target_path: &str) -> (r: bool)
        requires
            self.wf(),
        ensures
            r == regex_matches(self.pattern_view().source_view(), target_path@),
    {
        self.pattern.is_match(target_path)
    }

    /// The same entry under `prefix`.
    pub fn with_prefix(&self, prefix: &str) -> (r: Result<PreMiddleware, RouterError>)
        ensures
            r matches Ok(m) ==> compile_spec(m.pattern_view().path_view()) == Some(
                (m.pattern_view().source_view(), m.pattern_view().names_view()),
            ),
            r matches Ok(m) ==> m.wf() && m.pattern_view().path_view() == prefix@
                + self.pattern_view().path_view(),
            r is Ok <==> compiles(prefix@ + self.pattern_view().path_view()),
            r matches Err(RouterError::Pattern(p)) ==> p@ == prefix@ + self.pattern_view().path_view(),
            r matches Err(e) ==> e is Pattern,
    {
        match prefixed_pattern(prefix, &self.pattern.path()) {
            Ok(pattern) => Ok(PreMiddleware { pattern }),
            Err(e) => Err(e),
        }
    }
}

/// A post-phase entry: a pattern whose handler sees the response after the
/// route produced it.
#[derive(Debug)]
pub struct PostMiddleware {
    pattern: PathPattern,
}

impl PostMiddleware {
    pub closed spec fn pattern_view(&self) -> &PathPattern {
        &self.pattern
    }

    pub open spec fn wf(&self) -> bool {
        self.pattern_view().wf()
    }

    /// A post-phase entry for the path specification `path`.
    pub fn new(path: String) -> (r: Result<PostMiddleware, RouterError>)
        ensures
            r matches Ok(m) ==> compile_spec(m.pattern_view().path_view()) == Some(
                (m.pattern_view().source_view(), m.pattern_view().names_view()),
            ),
            r matches Ok(m) ==> m.wf() && m.pattern_view().path_view() == path@,
            r is Ok <==> compiles(path@),
            r matches Err(RouterError::Pattern(p)) ==> p@ == path@,
            r matches Err(e) ==> e is Pattern,
    {
        match PathPattern::new(path) {
            Ok(pattern) => Ok(PostMiddleware { pattern }),
            Err(e) => Err(e),
        }
    }

    pub fn pattern(&self) -> (r: &PathPattern)
        ensures
            r == self.pattern_view(),
    {
        &self.pattern
    }

    /// The same entry under `prefix`.
    pub fn with_prefix(&self, prefix: &str) -> (r: Result<PostMiddleware, RouterError>)
        ensures
            r matches Ok(m) ==> compile_spec(m.pattern_view().path_view()) == Some(
                (m.pattern_view().source_view(), m.pattern_view().names_view()),
            ),
            r matches Ok(m) ==> m.wf() && m.pattern_view().path_view() == prefix@
                + self.pattern_view().path_view(),
            r is Ok <==> compiles(prefix@ + self.pattern_view().path_view()),
            r matches Err(RouterError::Pattern(p)) ==> p@ == prefix@ + self.pattern_view().path_view(),
            r matches Err(e) ==> e is Pattern,
    {
        match prefixed_pattern(prefix, &self.pattern.path()) {
            Ok(pattern) => Ok(PostMiddleware { pattern }),
            Err(e) => Err(e),
        }
    }
}

/// A route entry: a pattern and the methods it accepts (none listed: all).
#[derive(Debug)]
pub struct Route {
    pattern: PathPattern,
    methods: Vec<Method>,
}

impl Route {
    pub closed spec fn pattern_view(&self) -> &PathPattern {
        &self.pattern
    }

    pub closed spec fn methods_view(&self) -> Seq<Method> {
        self.methods@
    }

    pub open spec fn wf(&self) -> bool {
        self.pattern_view().wf()
    }

    /// A route for the path specification `path`, restricted to `methods`.
    pub fn new(path: String, methods: Vec<Method>) -> (r: Result<Route, RouterError>)
        ensures
            r matches Ok(m) ==> compile_spec(m.pattern_view().path_view()) == Some(
                (m.pattern_view().source_view(), m.pattern_view().names_view()),
            ),
            r matches Ok(m) ==> m.wf() && m.pattern_view().path_view() == path@
                && m.methods_view() == methods@,
            r is Ok <==> compiles(path@),
            r matches Err(RouterError::Pattern(p)) ==> p@ == path@,
            r matches Err(e) ==> e is Pattern,
    {
        match PathPattern::new(path) {
            Ok(pattern) => Ok(Route { pattern, methods }),
            Err(e) => Err(e),
        }
    }

    pub fn pattern(&self) -> (r: &PathPattern)
        ensures
            r == self.pattern_view(),
    {
        &self.pattern
    }

    /// Whether this route accepts requests of method `method`.
    pub fn is_match_method(&self, method: Method) -> (r: bool)
        ensures
            r == accepts(self.methods_view(), method),
    {
        if self.methods.len() == 0 {
            return true;
        }
        let mut i: usize = 0;
        while i < self.methods.len()
            invariant
                i <= self.methods@.len(),
                forall|j: int| 0 <= j < i ==> self.methods@[j] != method,
            decreases self.methods@.len() - i,
        {
            if self.methods[i] == method {
                assert(self.methods@[i as int] == method);
                return true;
            }
            i = i + 1;
        }
        false
    }

    /// The placeholder values that `target_path` gives this route.
    pub fn path_params(&self, target_path: &str) -> (r: PathParams)
        requires
            self.wf(),
        ensures
            r.wf(),
            r@ == params_from(
                self.pattern_view().names_view(),
                capture_groups(self.pattern_view().source_view(), target_path@),
            ),
    {
        self.pattern.path_params(target_path)
    }

    /// The same route under `prefix`, with the same methods.
    pub fn with_prefix(&self, prefix: &str) -> (r: Result<Route, RouterError>)
        ensures
            r matches Ok(m) ==> compile_spec(m.pattern_view().path_view()) == Some(
                (m.pattern_view().source_view(), m.pattern_view().names_view()),
            ),
            r matches Ok(m) ==> m.wf() && m.pattern_view().path_view() == prefix@
                + self.pattern_view().path_view() && m.methods_view() == self.methods_view(),
            r is Ok <==> compiles(prefix@ + self.pattern_view().path_view()),
            r matches Err(RouterError::Pattern(p)) ==> p@ == prefix@ + self.pattern_view().path_view(),
            r matches Err(e) ==> e is Pattern,
    {
        match prefixed_pattern(prefix, &self.pattern.path()) {
            Ok(pattern) => Ok(Route { pattern, methods: self.methods.clone() }),
            Err(e) => Err(e),
        }
    }
}

} // verus!
