//! A minimal HTTP/1.1 server core: a wire codec that parses raw bytes into
//! structured requests and serializes responses back to wire bytes, a
//! method/path router, an in-memory record store behind the persistence
//! trait, and a model of the fixed-size worker pool that bounds concurrency.
//! Listening, sockets and durable storage live outside this crate.
pub mod bytes;
pub mod request;
pub mod response;
pub mod todo;
pub mod pool;
pub mod controllers;
pub mod methods;
pub mod connection;
