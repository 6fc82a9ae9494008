//! A verified decoder for textual HTTP/1.1 requests.
//!
//! [`httprequest::HttpRequest::decode`] turns a raw request text into a
//! structured value: method, target resource, protocol version, a header
//! map, and a message body.  Decoding is total: malformed input never
//! fails, it degrades to `Uninitialized` or empty fields.  The behaviour
//! is pinned down, line by line, by the specification functions in
//! [`model`].

pub mod headers;
pub mod httprequest;
pub mod model;
pub mod text;

pub use headers::Headers;
pub use httprequest::HttpRequest;
pub use httprequest::Method;
pub use httprequest::Resource;
pub use httprequest::Version;
