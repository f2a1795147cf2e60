//! A download accelerator: decides between ranged parallel and single-stream
//! transfer, partitions a resource into byte ranges, samples bandwidth over a
//! sliding window and adapts the single-stream read buffer to it.

pub mod config;
pub mod utils;
pub mod downloader;
