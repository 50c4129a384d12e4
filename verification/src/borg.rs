//! The backup tool (borg) on the server side.
pub mod borg_invoker;
pub mod borg_server_configuration;
