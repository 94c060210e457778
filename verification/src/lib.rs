//! Route patterns for an HTTP router: a parser that compiles a pattern such as
//! `/users/{id}/posts` into literal runs and named parameters, and a matcher
//! that tests a request path against a compiled pattern and extracts the
//! parameter values.

pub mod class;
pub mod error;
pub mod grammar;
pub mod laws;
pub mod params;
pub mod parser;
pub mod part;
pub mod paths;
pub mod router;
pub mod text;

pub use error::ParseError;
pub use params::Param;
pub use parser::Parser;
pub use part::Part;
pub use paths::{Match, Path};
pub use router::{Middleware, RouterError};
