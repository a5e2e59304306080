//! A client for a time-series database's line protocol: typed records
//! become lines of text, lines become write requests, and the database's
//! answers become results.

pub mod attribute;
pub mod classify;
pub mod decimal;
pub mod declaration;
pub mod json;
pub mod line;
pub mod measurement;
pub mod pipeline;
pub mod plan;
pub mod record;
pub mod response;
pub mod text;
pub mod transport;

pub use measurement::Measurement;
pub use response::{InfluxServerError, QueryResponse, QueryResult, Series};
pub use transport::{AsyncDb, InfluxError};
