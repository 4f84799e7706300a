//! A parser for HTTP requests, from text to a typed request.
//!
//! `httprequest` holds the request types and the functions that read them,
//! `model` says what a text means, and `text` holds the operations on text
//! that both are built on.

pub mod httprequest;
pub mod model;
pub mod text;
