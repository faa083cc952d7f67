//! Routing of radiology analysis requests to model backends.
//!
//! The library holds the decisions of a cluster client: which model a
//! logical context is bound to, which correlation id each outbound request
//! carries, and which waiting caller an inbound response belongs to. The
//! caller of the library owns the connection and performs the sends and
//! receives it is told to perform.
pub mod error;
pub mod cluster;
pub mod correlation;
pub mod registry;
pub mod request;
