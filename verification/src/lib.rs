//! Routing core of a reverse proxy gateway.
//!
//! A configuration is turned into an immutable routing table once, at load
//! time; every request is then answered from that table alone by
//! [`table::RouteConfig::resolve`].  Everything that needs the network or the
//! operating system (reading files, looking names up, listening) is left to the
//! caller, which hands its findings in as plain values.

pub mod text;

pub mod address;

pub mod index;

pub mod config;

pub mod table;

pub mod load;

pub mod resolver;

pub mod engine;

pub mod shared;

pub mod services;

pub mod util;
