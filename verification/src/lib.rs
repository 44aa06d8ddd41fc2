//! A small HTTP server, five times over: blocking, non-blocking, multiplexed
//! over epoll, and twice as tasks on a runtime of its own.
//!
//! The library decides; it never touches a socket. For each server it says what
//! to do next, and takes what came of it:
//!
//! - [`server`]: the five servers and what tells them apart;
//! - [`http`]: the end of a request, and the response;
//! - [`connection`]: one connection, from the request to the flushed response;
//! - [`steps`]: what each outcome does to a connection;
//! - [`trace`]: what holds of a connection over any run of outcomes;
//! - [`acceptor`]: taking up new connections;
//! - [`handler`]: the task that handles one connection, poll by poll;
//! - [`list`]: all connections of the non-blocking server;
//! - [`event`] and [`table`]: epoll events, and all connections of the
//!   multiplexed server;
//! - [`scheduler`], [`reactor`] and [`future`]: the runtime of the task servers.
pub mod acceptor;
pub mod connection;
pub mod event;
pub mod future;
pub mod handler;
pub mod http;
pub mod list;
pub mod reactor;
pub mod scheduler;
pub mod server;
pub mod steps;
pub mod table;
pub mod trace;
