//! A small UPnP/DLNA media-server protocol engine.
//!
//! The crate implements the request-side logic of a LAN media server:
//! splitting a request path into segments, percent-decoding it, routing it
//! to the device-description, ContentDirectory SOAP, or media-streaming
//! branches, decoding a SOAP Browse envelope, assembling the DIDL-Lite
//! browse listing, and deciding how each failure is reported (SOAP fault,
//! plain HTTP status, or a terminated stream). All I/O stays outside: the
//! engine maps plain request values to plain response values.

pub mod error;
pub mod percent;
pub mod request;
pub mod server;
pub mod soap;
pub mod strutil;
pub mod tree;
pub mod xml;
