//! A direct HTTP interpretation: requests and answers stated as values, the paths a program states,
//! routing a request to the first endpoint whose selector reads it, the answers each output kind
//! renders, and the table a router keyed by path reads a route as.

pub mod method;
pub mod path;
pub mod message;
pub mod route;
pub mod output;
pub mod input;
pub mod handler;
pub mod router;
