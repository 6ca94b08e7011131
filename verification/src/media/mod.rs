//! Framework-native media frames, sans-I/O media cores, zero-copy planning,
//! codec backend selection and stream metadata.
pub mod frame;
pub mod stream_metadata;
pub mod planner;
pub mod codec;
pub mod image;
pub mod ops;
pub mod mock;
pub mod color;
pub mod elements;
