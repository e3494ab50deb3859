//! What the service's surface computes: the answers to the requests about
//! jobs and metrics, the reading of image references, and the bookkeeping
//! of a pull.

pub mod image;
pub mod job;
pub mod metric;
pub mod pull;
pub mod record;
