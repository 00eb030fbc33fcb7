//! Request dispatch core: path patterns compiled into one matchable set,
//! three ordered pipeline phases, and composition of routers by prefix.

pub mod dispatch;
pub mod engine;
pub mod error;
pub mod method;
pub mod path_params;
pub mod pattern;
pub mod route;
pub mod router;

pub use error::RouterError;
pub use method::Method;
pub use path_params::PathParams;
pub use pattern::{compile_source, PathPattern};
pub use route::{PostMiddleware, PreMiddleware, Route};
pub use router::{Router, RouterBuilder};
pub use dispatch::{Action, Dispatch, Event, Stage};
