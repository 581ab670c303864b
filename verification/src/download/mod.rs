//! Downloading files: sources and their health, requests and retries, the segments of a file,
//! and the group of files that share connections.
pub mod source;
pub mod group;
pub mod candidates;
pub mod request;
pub mod segment;
pub mod task;
