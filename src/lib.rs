//! A minimal plaintext HTTP/1.1 GET client: the decomposition of a URL into
//! host, path and query, the text of the request, and the bookkeeping of the
//! exchange (writes that the transport may accept in part, and a response
//! read until the peer closes).
pub mod exchange;
pub mod patterns;
pub mod text;
pub mod uri;
