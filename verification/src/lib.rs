//! The core of a relay for signed events: the state machine of a
//! connection, the ingestion pipeline, subscriptions and their matching,
//! reconciliation sessions and the whitelist cache, each with a contract
//! that Verus proves.
//!
//! The database, the cache server and the transport stay outside. The
//! library reads frames and says what to do ([`connection`], [`frame`]),
//! down to the statements for the database ([`query`], [`gateway`]); the
//! program around it does the work and hands the results back. For each
//! backend the library also holds a model in memory ([`store`], [`users`],
//! [`cache`]), on which the whole relay can be run ([`relay`]) and on which
//! its guarantees are proved ([`guarantees`]).

pub mod cache;
pub mod connection;
pub mod descriptor;
pub mod event;
pub mod filter;
pub mod frame;
pub mod gateway;
pub mod guarantees;
pub mod ingest;
pub mod json;
pub mod message;
pub mod query;
pub mod recent;
pub mod reconcile;
pub mod relay;
pub mod rpc;
pub mod store;
pub mod strict;
pub mod subscription;
pub mod text;
pub mod token;
pub mod users;
pub mod whitelist;
