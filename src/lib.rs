//! Codec core of a small object-storage style file server: a value tree, an
//! XML encoder and key resolver over it, a strict query decoder for listing
//! requests, and the adapter that shapes a directory listing as XML.

pub mod text;
pub mod value;
pub mod xml;
pub mod error;
pub mod request;
pub mod response;
pub mod laws;
