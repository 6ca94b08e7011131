//! Verified core of a multi-chip inference framework: tensor datatypes and
//! shapes, shared byte buffers and pools, media processing cores, zero-copy
//! transfer planning, backend I/O layout helpers, graph configuration and
//! bookkeeping, element parameter checks, and the integer side of image
//! preprocessing and text detection.
pub mod error;
pub mod types;
pub mod datatype;
pub mod shape;
pub mod buffer;
pub mod tensor;
pub mod memory;
pub mod device;
pub mod rknn;
pub mod openvino;
pub mod graph;
pub mod capi;
pub mod cli;
pub mod elements;
pub mod media;
pub mod text;
pub mod ocr;
pub mod preprocess;
pub mod tracking;
