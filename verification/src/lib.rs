//! Scheduling core of an image-pull service: the job store and its claim
//! protocol, the admission limiter, the dispatch decisions and the helpers the
//! service surface needs, each with a machine-checked contract.

pub mod config;
pub mod db;
pub mod error;
pub mod gate;
pub mod model;
pub mod number;
pub mod routes;
pub mod tasks;
pub mod text;
pub mod worker;
