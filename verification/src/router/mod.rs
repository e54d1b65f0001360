//! Request routing: route patterns and their matching, the responses that
//! handlers and rejected requests produce, and the errors of the
//! extractors.

pub mod route;
pub mod util;
pub mod response;
pub mod extract;
