//! A development stand-in for an HTTP service: requests that match a
//! configured rule get a mock response rendered from a template, and
//! every other request is meant to be relayed to a real upstream.
//!
//! The library holds the request classification and rendering pipeline:
//! parsing a raw request head, matching routes with `{name}` segments,
//! extracting path, query and body values, rendering the response body,
//! and preparing the bytes and the connection choice for the relay.
//! The sockets themselves stay outside the library.

pub mod bytes;
pub mod config;
pub mod http;
pub mod json;
pub mod laws;
pub mod params;
pub mod response;
pub mod strmap;
pub mod template;
pub mod text;
