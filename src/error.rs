use vstd::prelude::*;

verus! {

/// What can go wrong while registering patterns or dispatching a request.
#[derive(Debug, Clone, PartialEq, Eq)]
pub enum RouterError {
    /// The pattern specification (held here) is malformed or does not
    /// compile. Registering it again cannot succeed.
    Pattern(String),
    /// The combined pattern set could not be built.
    Matcher,
    /// The raw request path (held here) does not percent-decode to text.
    PathDecoding(String),
    /// A pre-phase handler failed with the cause held here.
    PreMiddleware(String),
    /// The selected route handler failed with the cause held here, and no
    /// error handler took it over.
    Route(String),
    /// A post-phase handler failed with the cause held here.
    PostMiddleware(String),
    /// No route matched both the path and the method.
    NoMatchingRoute,
}

} // verus!
