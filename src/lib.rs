//! Core of a warehouse query gateway: decoding of query responses into rows,
//! typed record extraction, bearer-query request and response handling, and
//! the scheduling decisions of bounded metadata enumeration.

pub mod auth;
pub mod cursor;
pub mod decode;
pub mod error;
pub mod fanout;
pub mod json;
pub mod numeric;
pub mod query;
pub mod record;
pub mod schema;
pub mod tables;
