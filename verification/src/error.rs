//! Error categories of the core abstractions and of graph execution.
use crate::types::DeviceKind;
use vstd::prelude::*;

verus! {

/// Error categories shared by the core abstractions.
#[derive(Debug, Clone, PartialEq, Eq)]
pub enum Error {
    InvalidArgument(String),
    Config(String),
    Device(String),
    Backend(String),
    Media(String),
    Io(String),
    Shape(String),
    Quantization(String),
    Tensor(String),
    Buffer(String),
    Stream(String),
    Event(String),
    OutOfMemory,
    Unsupported(String),
    UnsupportedDevice(DeviceKind),
}

/// The `Debug` spelling of a device kind.
pub open spec fn device_kind_text(kind: DeviceKind) -> Seq<char> {
    match kind {
        DeviceKind::Cpu => "Cpu"@,
        DeviceKind::IntelGpu => "IntelGpu"@,
        DeviceKind::IntelNpu => "IntelNpu"@,
        DeviceKind::CudaGpu => "CudaGpu"@,
        DeviceKind::RknnNpu => "RknnNpu"@,
        DeviceKind::SophonTpu => "SophonTpu"@,
    }
}

/// The `Display` text of an error.
pub open spec fn error_text(e: Error) -> Seq<char> {
    match e {
        Error::InvalidArgument(m) => "invalid argument: "@ + m@,
        Error::Config(m) => "config error: "@ + m@,
        Error::Device(m) => "device error: "@ + m@,
        Error::Backend(m) => "backend error: "@ + m@,
        Error::Media(m) => "media error: "@ + m@,
        Error::Io(m) => "I/O error: "@ + m@,
        Error::Shape(m) => "shape error: "@ + m@,
        Error::Quantization(m) => "quantization error: "@ + m@,
        Error::Tensor(m) => "tensor error: "@ + m@,
        Error::Buffer(m) => "buffer error: "@ + m@,
        Error::Stream(m) => "stream error: "@ + m@,
        Error::Event(m) => "event error: "@ + m@,
        Error::OutOfMemory => "out of memory"@,
        Error::Unsupported(m) => "unsupported: "@ + m@,
        Error::UnsupportedDevice(kind) => "unsupported device: "@ + device_kind_text(kind),
    }
}

impl Error {
    /// The human-readable rendering of the error (its `Display` text).
    pub fn message(&self) -> (r: String)
        ensures
            r@ == error_text(*self),
    {
        match self {
            Error::InvalidArgument(m) => "invalid argument: ".to_owned().concat(m.as_str()),
            Error::Config(m) => "config error: ".to_owned().concat(m.as_str()),
            Error::Device(m) => "device error: ".to_owned().concat(m.as_str()),
            Error::Backend(m) => "backend error: ".to_owned().concat(m.as_str()),
            Error::Media(m) => "media error: ".to_owned().concat(m.as_str()),
            Error::Io(m) => "I/O error: ".to_owned().concat(m.as_str()),
            Error::Shape(m) => "shape error: ".to_owned().concat(m.as_str()),
            Error::Quantization(m) => "quantization error: ".to_owned().concat(m.as_str()),
            Error::Tensor(m) => "tensor error: ".to_owned().concat(m.as_str()),
            Error::Buffer(m) => "buffer error: ".to_owned().concat(m.as_str()),
            Error::Stream(m) => "stream error: ".to_owned().concat(m.as_str()),
            Error::Event(m) => "event error: ".to_owned().concat(m.as_str()),
            Error::OutOfMemory => "out of memory".to_owned(),
            Error::Unsupported(m) => "unsupported: ".to_owned().concat(m.as_str()),
            Error::UnsupportedDevice(kind) => "unsupported device: ".to_owned().concat(
                device_kind_name(*kind),
            ),
        }
    }
}

/// The `Debug` spelling of a device kind.
pub fn device_kind_name(kind: DeviceKind) -> (r: &'static str)
    ensures
        r@ == device_kind_text(kind),
{
    match kind {
        DeviceKind::Cpu => "Cpu",
        DeviceKind::IntelGpu => "IntelGpu",
        DeviceKind::IntelNpu => "IntelNpu",
        DeviceKind::CudaGpu => "CudaGpu",
        DeviceKind::RknnNpu => "RknnNpu",
        DeviceKind::SophonTpu => "SophonTpu",
    }
}

} // verus!
