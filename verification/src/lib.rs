//! The verified core of the mastacraf audio mastering pipeline.
pub mod text;
pub mod paths;
pub mod cli;
pub mod config;
pub mod ffmpeg;
pub mod pipeline;
