//! A minimal HTTP/1.1 static-file server library.
//!
//! The library holds the verified core of the server: request-line and
//! `Accept`-header parsing, weighted content negotiation, candidate-file
//! scoring and best-match selection, gzip response encoding, and the
//! bind-retry policy.  Socket and filesystem work lives outside, in a thin
//! shell that feeds plain values into these functions.

pub mod http;
pub mod http_codes;
pub mod http_object;
pub mod strutil;
pub mod tcp;
