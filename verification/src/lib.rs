//! Transcript and download-plan logic of a desktop video clipping tool.
pub mod text;
pub mod vtt;
pub mod merge;
pub mod transcript;
pub mod downloader;
pub mod transcriber;
pub mod export;
pub mod server;
pub mod sidecar;
pub mod pipeline;
