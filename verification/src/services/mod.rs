//! What the gateway does around the routing decision: which mounts a file
//! server serves, and what is made of a decision when a request is proxied.

pub mod dir;

pub mod http;
