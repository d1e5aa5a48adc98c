//! Client-side adapter for a server-sent-events (SSE) endpoint.
//!
//! The heart of the crate is the filtering / normalization stage in [`sse`]:
//! it turns the transport's raw elements (events, comments, errors) into a
//! normalized sequence of `(event-name, optional payload)` pairs, suppressing
//! protocol noise and passing transport errors through unchanged.  The
//! [`params`] module assembles the query string of the endpoint a stream is
//! opened against.

pub mod params;
pub mod sse;
