//! The value types and conversions behind the C ABI.
use crate::buffer::Buffer;
use crate::datatype::{DataType, TypeCode};
use crate::graph::spec::GraphFormat;
use crate::types::{DataFormat, DeviceKind, MemoryDomain};
use vstd::prelude::*;

verus! {

/// ABI status returned by every fallible C entry point.
#[derive(Clone, Copy, Debug, PartialEq, Eq, Structural)]
pub enum DgStatus {
    Success,
    Again,
    EndOfStream,
    InvalidArgument,
    NullPointer,
    InvalidHandle,
    ParseError,
    NotBuilt,
    RuntimeError,
    Unsupported,
    Panic,
    InternalError,
}

/// The integer each status has on the C side.
pub open spec fn status_value(s: DgStatus) -> int {
    match s {
        DgStatus::Success => 0,
        DgStatus::Again => 1,
        DgStatus::EndOfStream => 2,
        DgStatus::InvalidArgument => -1,
        DgStatus::NullPointer => -2,
        DgStatus::InvalidHandle => -3,
        DgStatus::ParseError => -4,
        DgStatus::NotBuilt => -5,
        DgStatus::RuntimeError => -6,
        DgStatus::Unsupported => -7,
        DgStatus::Panic => -8,
        DgStatus::InternalError => -9,
    }
}

impl DgStatus {
    /// The status as the C ABI spells it.
    pub fn code(self) -> (r: i32)
        ensures
            r == status_value(self),
    {
        match self {
            DgStatus::Success => 0,
            DgStatus::Again => 1,
            DgStatus::EndOfStream => 2,
            DgStatus::InvalidArgument => -1,
            DgStatus::NullPointer => -2,
            DgStatus::InvalidHandle => -3,
            DgStatus::ParseError => -4,
            DgStatus::NotBuilt => -5,
            DgStatus::RuntimeError => -6,
            DgStatus::Unsupported => -7,
            DgStatus::Panic => -8,
            DgStatus::InternalError => -9,
        }
    }
}

/// Different statuses have different codes.
pub proof fn lemma_status_codes_distinct(a: DgStatus, b: DgStatus)
    ensures
        status_value(a) == status_value(b) ==> a == b,
{
}

/// Graph serialization format.
#[derive(Clone, Copy, Debug, PartialEq, Eq, Structural)]
pub enum DgGraphFormat {
    Yaml,
    Json,
    Toml,
}

/// Supported tensor element types.
#[derive(Clone, Copy, Debug, PartialEq, Eq, Structural)]
pub enum DgDataType {
    U8,
    U16,
    I4,
    I8,
    I16,
    F4,
    F8,
    F16,
    Bf16,
    F32,
    F64,
    U32,
    I32,
    U64,
    I64,
}

/// Tensor layout.
#[derive(Clone, Copy, Debug, PartialEq, Eq, Structural)]
pub enum DgDataFormat {
    Auto,
    N,
    Nc,
    Nchw,
    Nhwc,
    Nc4hw,
    Nc8hw,
    Ncdhw,
    Oihw,
}

/// Logical device family.
#[derive(Clone, Copy, Debug, PartialEq, Eq, Structural)]
pub enum DgDeviceKind {
    Cpu,
    IntelGpu,
    IntelNpu,
    CudaGpu,
    RknnNpu,
    SophonTpu,
}

/// Imported external memory domain.
#[derive(Clone, Copy, Debug, PartialEq, Eq, Structural)]
pub enum DgMemoryDomain {
    Host,
    DmaBuf,
    DrmPrime,
    VaapiSurface,
    CudaDevice,
    MppBuffer,
    SophonDevice,
    Opaque,
}

/// Opaque buffer handle.
pub struct DgBuffer {
    pub buffer: Buffer,
}

pub open spec fn graph_format_of(format: DgGraphFormat) -> GraphFormat {
    match format {
        DgGraphFormat::Yaml => GraphFormat::Yaml,
        DgGraphFormat::Json => GraphFormat::Json,
        DgGraphFormat::Toml => GraphFormat::Toml,
    }
}

pub fn format_from_c(format: DgGraphFormat) -> (r: GraphFormat)
    ensures
        r == graph_format_of(format),
{
    match format {
        DgGraphFormat::Yaml => GraphFormat::Yaml,
        DgGraphFormat::Json => GraphFormat::Json,
        DgGraphFormat::Toml => GraphFormat::Toml,
    }
}

pub open spec fn data_type_of(dtype: DgDataType) -> DataType {
    match dtype {
        DgDataType::U8 => DataType::spec_U8(),
        DgDataType::U16 => DataType::spec_U16(),
        DgDataType::I4 => DataType::spec_I4(),
        DgDataType::I8 => DataType::spec_I8(),
        DgDataType::I16 => DataType::spec_I16(),
        DgDataType::F4 => DataType::spec_F4(),
        DgDataType::F8 => DataType::spec_F8(),
        DgDataType::F16 => DataType::spec_F16(),
        DgDataType::Bf16 => DataType::spec_BF16(),
        DgDataType::F32 => DataType::spec_F32(),
        DgDataType::F64 => DataType::spec_F64(),
        DgDataType::U32 => DataType { code: TypeCode::Uint, bits: 32, lanes: 1 },
        DgDataType::I32 => DataType { code: TypeCode::Int, bits: 32, lanes: 1 },
        DgDataType::U64 => DataType { code: TypeCode::Uint, bits: 64, lanes: 1 },
        DgDataType::I64 => DataType { code: TypeCode::Int, bits: 64, lanes: 1 },
    }
}

pub fn data_type_from_c(dtype: DgDataType) -> (r: DataType)
    ensures
        r == data_type_of(dtype),
{
    match dtype {
        DgDataType::U8 => DataType::U8(),
        DgDataType::U16 => DataType::U16(),
        DgDataType::I4 => DataType::I4(),
        DgDataType::I8 => DataType::I8(),
        DgDataType::I16 => DataType::I16(),
        DgDataType::F4 => DataType::F4(),
        DgDataType::F8 => DataType::F8(),
        DgDataType::F16 => DataType::F16(),
        DgDataType::Bf16 => DataType::BF16(),
        DgDataType::F32 => DataType::F32(),
        DgDataType::F64 => DataType::F64(),
        DgDataType::U32 => DataType::new(TypeCode::Uint, 32, 1),
        DgDataType::I32 => DataType::new(TypeCode::Int, 32, 1),
        DgDataType::U64 => DataType::new(TypeCode::Uint, 64, 1),
        DgDataType::I64 => DataType::new(TypeCode::Int, 64, 1),
    }
}

/// Different C data types denote different data types.
pub proof fn lemma_data_type_from_c_injective(a: DgDataType, b: DgDataType)
    ensures
        data_type_of(a) == data_type_of(b) ==> a == b,
{
}

pub open spec fn data_format_of(format: DgDataFormat) -> DataFormat {
    match format {
        DgDataFormat::Auto => DataFormat::Auto,
        DgDataFormat::N => DataFormat::N,
        DgDataFormat::Nc => DataFormat::NC,
        DgDataFormat::Nchw => DataFormat::NCHW,
        DgDataFormat::Nhwc => DataFormat::NHWC,
        DgDataFormat::Nc4hw => DataFormat::NC4HW,
        DgDataFormat::Nc8hw => DataFormat::NC8HW,
        DgDataFormat::Ncdhw => DataFormat::NCDHW,
        DgDataFormat::Oihw => DataFormat::OIHW,
    }
}

pub fn format_from_c_enum(format: DgDataFormat) -> (r: DataFormat)
    ensures
        r == data_format_of(format),
{
    match format {
        DgDataFormat::Auto => DataFormat::Auto,
        DgDataFormat::N => DataFormat::N,
        DgDataFormat::Nc => DataFormat::NC,
        DgDataFormat::Nchw => DataFormat::NCHW,
        DgDataFormat::Nhwc => DataFormat::NHWC,
        DgDataFormat::Nc4hw => DataFormat::NC4HW,
        DgDataFormat::Nc8hw => DataFormat::NC8HW,
        DgDataFormat::Ncdhw => DataFormat::NCDHW,
        DgDataFormat::Oihw => DataFormat::OIHW,
    }
}

pub open spec fn device_kind_of(device: DgDeviceKind) -> DeviceKind {
    match device {
        DgDeviceKind::Cpu => DeviceKind::Cpu,
        DgDeviceKind::IntelGpu => DeviceKind::IntelGpu,
        DgDeviceKind::IntelNpu => DeviceKind::IntelNpu,
        DgDeviceKind::CudaGpu => DeviceKind::CudaGpu,
        DgDeviceKind::RknnNpu => DeviceKind::RknnNpu,
        DgDeviceKind::SophonTpu => DeviceKind::SophonTpu,
    }
}

pub fn device_from_c(device: DgDeviceKind) -> (r: DeviceKind)
    ensures
        r == device_kind_of(device),
{
    match device {
        DgDeviceKind::Cpu => DeviceKind::Cpu,
        DgDeviceKind::IntelGpu => DeviceKind::IntelGpu,
        DgDeviceKind::IntelNpu => DeviceKind::IntelNpu,
        DgDeviceKind::CudaGpu => DeviceKind::CudaGpu,
        DgDeviceKind::RknnNpu => DeviceKind::RknnNpu,
        DgDeviceKind::SophonTpu => DeviceKind::SophonTpu,
    }
}

pub open spec fn memory_domain_of(domain: DgMemoryDomain) -> MemoryDomain {
    match domain {
        DgMemoryDomain::Host => MemoryDomain::Host,
        DgMemoryDomain::DmaBuf => MemoryDomain::DmaBuf,
        DgMemoryDomain::DrmPrime => MemoryDomain::DrmPrime,
        DgMemoryDomain::VaapiSurface => MemoryDomain::VaapiSurface,
        DgMemoryDomain::CudaDevice => MemoryDomain::CudaDevice,
        DgMemoryDomain::MppBuffer => MemoryDomain::MppBuffer,
        DgMemoryDomain::SophonDevice => MemoryDomain::SophonDevice,
        DgMemoryDomain::Opaque => MemoryDomain::Opaque,
    }
}

pub fn domain_from_c(domain: DgMemoryDomain) -> (r: MemoryDomain)
    ensures
        r == memory_domain_of(domain),
{
    match domain {
        DgMemoryDomain::Host => MemoryDomain::Host,
        DgMemoryDomain::DmaBuf => MemoryDomain::DmaBuf,
        DgMemoryDomain::DrmPrime => MemoryDomain::DrmPrime,
        DgMemoryDomain::VaapiSurface => MemoryDomain::VaapiSurface,
        DgMemoryDomain::CudaDevice => MemoryDomain::CudaDevice,
        DgMemoryDomain::MppBuffer => MemoryDomain::MppBuffer,
        DgMemoryDomain::SophonDevice => MemoryDomain::SophonDevice,
        DgMemoryDomain::Opaque => MemoryDomain::Opaque,
    }
}

/// Every memory domain has exactly one C spelling.
pub proof fn lemma_domain_from_c_bijective(a: DgMemoryDomain, b: DgMemoryDomain, d: MemoryDomain)
    ensures
        memory_domain_of(a) == memory_domain_of(b) ==> a == b,
        exists|c: DgMemoryDomain| memory_domain_of(c) == d,
{
    let c = match d {
        MemoryDomain::Host => DgMemoryDomain::Host,
        MemoryDomain::DmaBuf => DgMemoryDomain::DmaBuf,
        MemoryDomain::DrmPrime => DgMemoryDomain::DrmPrime,
        MemoryDomain::VaapiSurface => DgMemoryDomain::VaapiSurface,
        MemoryDomain::CudaDevice => DgMemoryDomain::CudaDevice,
        MemoryDomain::MppBuffer => DgMemoryDomain::MppBuffer,
        MemoryDomain::SophonDevice => DgMemoryDomain::SophonDevice,
        MemoryDomain::Opaque => DgMemoryDomain::Opaque,
    };
    assert(memory_domain_of(c) == d);
}

/// A graph failure crosses the C boundary as a parse error with its message.
pub fn graph_error(message: String) -> (r: (DgStatus, String))
    ensures
        r.0 == DgStatus::ParseError,
        r.1@ == message@,
{
    (DgStatus::ParseError, message)
}

/// Checks that none of the five diff output pointers is null (each flag
/// tells whether its pointer is null).
pub fn validate_diff_outputs(
    added_nodes_null: bool,
    removed_nodes_null: bool,
    updated_nodes_null: bool,
    added_connections_null: bool,
    removed_connections_null: bool,
) -> (r: Result<(), (DgStatus, String)>)
    ensures
        (added_nodes_null || removed_nodes_null || updated_nodes_null || added_connections_null
            || removed_connections_null) ==> (r matches Err((status, m)) && status
            == DgStatus::NullPointer && m@ == "diff output pointer is null"@),
        !(added_nodes_null || removed_nodes_null || updated_nodes_null || added_connections_null
            || removed_connections_null) ==> r is Ok,
{
    if added_nodes_null || removed_nodes_null || updated_nodes_null || added_connections_null
        || removed_connections_null {
        return Err((DgStatus::NullPointer, "diff output pointer is null".to_string()));
    }
    Ok(())
}

/// The package version.
pub fn version() -> (r: &'static str)
    ensures
        r@ == "0.1.0"@,
{
    "0.1.0"
}

} // verus!
