//! A small HTTP-style router: path patterns with literal, parameter and
//! wildcard segments are registered per method, and an incoming request is
//! dispatched to the best-matching handler together with the captured
//! parameters.
//!
//! The routing core is synchronous and self-contained: it decides which
//! registered handler a request belongs to and what its captures are.
//! Running handlers, reading requests off a connection and writing responses
//! back are the business of the surrounding host.

pub mod params;
pub mod pattern;
pub mod router;
pub mod service;
pub mod text;

pub use params::Params;
pub use pattern::{ConfigurationError, Pattern, Segment};
pub use router::{Dispatch, Method, Router};
pub use service::MakeRouterService;
