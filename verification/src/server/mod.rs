//! The server: what is answered to each request.

pub mod answers;
pub mod connection;
pub mod execute;
pub mod fields;
pub mod laws;
pub mod lifecycle;
pub mod metrics_export;

pub use execute::Server;
