use vstd::prelude::*;

verus! {

/// An HTTP request method. `Other` stands for any method outside the
/// standard nine.
#[derive(Clone, Copy, Debug, PartialEq, Eq, Structural)]
pub enum Method {
    Get,
    Post,
    Put,
    Delete,
    Head,
    Options,
    Connect,
    Patch,
    Trace,
    Other,
}

/// Whether a route restricted to `methods` accepts `m`: an empty set
/// accepts every method.
pub open spec fn accepts(methods: Seq<Method>, m: Method) -> bool {
    methods.len() == 0 || methods.contains(m)
}

} // verus!
