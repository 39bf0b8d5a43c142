//! HTTP data types: requests, responses and their parts.

pub mod method;
pub mod query_string;
pub mod request;
pub mod response;
pub mod status_code;
pub mod text;

pub use method::Method;
pub use query_string::{QueryString, Value as QueryStringValue};
pub use request::{ParseError, Request};
pub use response::Response;
pub use status_code::StatusCode;
