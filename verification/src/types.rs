//! Device, memory-domain, layout and deployment tags shared by every layer.
use vstd::prelude::*;

verus! {

/// Device family identifier.
#[derive(Clone, Copy, Debug, PartialEq, Eq, Structural, Hash)]
pub enum DeviceKind {
    Cpu,
    IntelGpu,
    IntelNpu,
    CudaGpu,
    RknnNpu,
    SophonTpu,
}

/// Memory ownership model.
#[derive(Clone, Copy, Debug, PartialEq, Eq, Structural, Hash)]
pub enum MemoryType {
    Host,
    Device,
    Unified,
}

/// Framework-level memory domains used for zero-copy planning and external buffer import.
#[derive(Clone, Copy, Debug, PartialEq, Eq, Structural, Hash)]
pub enum MemoryDomain {
    Host,
    DmaBuf,
    DrmPrime,
    VaapiSurface,
    CudaDevice,
    MppBuffer,
    SophonDevice,
    Opaque,
}

/// Semantic tensor layout tags.
#[derive(Clone, Copy, Debug, PartialEq, Eq, Structural, Hash)]
pub enum DataFormat {
    Auto,
    N,
    NC,
    NCHW,
    NHWC,
    NC4HW,
    NC8HW,
    NCDHW,
    OIHW,
}

/// Deployment mode for inference backends and devices.
#[derive(Clone, Copy, Debug, PartialEq, Eq, Structural, Hash)]
pub enum DeployMode {
    SoC,
    Host,
}

/// Quantization scheme used by a tensor.
#[derive(Clone, Copy, Debug, PartialEq, Eq, Structural, Hash)]
pub enum QuantizationScheme {
    Unquantized,
    AffineAsymmetric,
    Symmetric,
    DynamicFixedPoint,
}

/// Stream kind exposed by the execution layer.
#[derive(Clone, Copy, Debug, PartialEq, Eq, Structural, Hash)]
pub enum StreamKind {
    Cpu,
}

/// Event kind exposed by the execution layer.
#[derive(Clone, Copy, Debug, PartialEq, Eq, Structural, Hash)]
pub enum EventKind {
    Cpu,
}

/// External ownership metadata carried alongside imported buffers.
#[derive(Clone, Copy, Debug, PartialEq, Eq, Structural, Hash)]
pub struct ExternalHandle {
    pub fd: Option<i32>,
    pub raw: u64,
}

impl ExternalHandle {
    /// A handle that names no external resource.
    pub fn none() -> (r: Self)
        ensures
            r.fd is None,
            r.raw == 0,
    {
        ExternalHandle { fd: None, raw: 0 }
    }

    /// A handle carried by a file descriptor.
    pub fn from_fd(fd: i32) -> (r: Self)
        ensures
            r.fd == Some(fd),
            r.raw == 0,
    {
        ExternalHandle { fd: Some(fd), raw: 0 }
    }

    /// A handle carried by an opaque raw token.
    pub fn from_raw(raw: u64) -> (r: Self)
        ensures
            r.fd is None,
            r.raw == raw,
    {
        ExternalHandle { fd: None, raw }
    }
}

/// The `Debug` spelling of a memory domain.
pub fn domain_name(domain: MemoryDomain) -> (r: &'static str)
    ensures
        r@ == domain_name_spec(domain),
{
    match domain {
        MemoryDomain::Host => "Host",
        MemoryDomain::DmaBuf => "DmaBuf",
        MemoryDomain::DrmPrime => "DrmPrime",
        MemoryDomain::VaapiSurface => "VaapiSurface",
        MemoryDomain::CudaDevice => "CudaDevice",
        MemoryDomain::MppBuffer => "MppBuffer",
        MemoryDomain::SophonDevice => "SophonDevice",
        MemoryDomain::Opaque => "Opaque",
    }
}

pub open spec fn domain_name_spec(domain: MemoryDomain) -> Seq<char> {
    match domain {
        MemoryDomain::Host => "Host"@,
        MemoryDomain::DmaBuf => "DmaBuf"@,
        MemoryDomain::DrmPrime => "DrmPrime"@,
        MemoryDomain::VaapiSurface => "VaapiSurface"@,
        MemoryDomain::CudaDevice => "CudaDevice"@,
        MemoryDomain::MppBuffer => "MppBuffer"@,
        MemoryDomain::SophonDevice => "SophonDevice"@,
        MemoryDomain::Opaque => "Opaque"@,
    }
}

/// The memory type a buffer in `domain` lives in: only host memory is host memory.
pub open spec fn memory_type_of(domain: MemoryDomain) -> MemoryType {
    if domain == MemoryDomain::Host {
        MemoryType::Host
    } else {
        MemoryType::Device
    }
}

/// Preferred target memory domain for a device/deployment combination.
pub open spec fn preferred_domain_spec(device: DeviceKind, deploy_mode: DeployMode) -> MemoryDomain {
    match device {
        DeviceKind::Cpu | DeviceKind::IntelGpu | DeviceKind::IntelNpu => MemoryDomain::Host,
        DeviceKind::CudaGpu => MemoryDomain::CudaDevice,
        DeviceKind::RknnNpu => match deploy_mode {
            DeployMode::SoC => MemoryDomain::MppBuffer,
            DeployMode::Host => MemoryDomain::DmaBuf,
        },
        DeviceKind::SophonTpu => MemoryDomain::SophonDevice,
    }
}

} // verus!
