//! Parsing of the inference node parameters.
use crate::datatype::{DataType, TypeCode};
use crate::graph::error::GraphError;
use crate::text::str_eq;
use crate::types::{DeployMode, DeviceKind};
use vstd::prelude::*;

verus! {

/// Instances of an inference node when the configuration names none.
pub fn default_instances() -> (r: u32)
    ensures
        r == 1,
{
    1
}

/// The data type a precision name denotes.
pub open spec fn precision_named(value: Seq<char>) -> Option<DataType> {
    if value == "f4"@ {
        Some(DataType::spec_F4())
    } else if value == "f8"@ {
        Some(DataType::spec_F8())
    } else if value == "f16"@ {
        Some(DataType::spec_F16())
    } else if value == "f32"@ {
        Some(DataType::spec_F32())
    } else if value == "f64"@ {
        Some(DataType::spec_F64())
    } else if value == "bf16"@ {
        Some(DataType::spec_BF16())
    } else if value == "u8"@ {
        Some(DataType::spec_U8())
    } else if value == "u16"@ {
        Some(DataType::spec_U16())
    } else if value == "u32"@ {
        Some(DataType { code: TypeCode::Uint, bits: 32, lanes: 1 })
    } else if value == "u64"@ {
        Some(DataType { code: TypeCode::Uint, bits: 64, lanes: 1 })
    } else if value == "i4"@ {
        Some(DataType::spec_I4())
    } else if value == "i8"@ {
        Some(DataType::spec_I8())
    } else if value == "i16"@ {
        Some(DataType::spec_I16())
    } else if value == "i32"@ {
        Some(DataType { code: TypeCode::Int, bits: 32, lanes: 1 })
    } else if value == "i64"@ {
        Some(DataType { code: TypeCode::Int, bits: 64, lanes: 1 })
    } else {
        None
    }
}

/// `r` is `Ok(x)` when `expected` is `Some(x)`, and otherwise the
/// configuration error `prefix` followed by `value`.
pub open spec fn parsed_or_config_error<T>(r: Result<T, GraphError>, expected: Option<T>, prefix: Seq<char>, value: Seq<char>) -> bool {
    match expected {
        Some(x) => r == Ok::<T, GraphError>(x),
        None => r matches Err(GraphError::Config(m)) && m@ == prefix + value,
    }
}

pub fn parse_dtype(value: &str) -> (r: Result<DataType, GraphError>)
    ensures
        parsed_or_config_error(r, precision_named(value@), "unsupported inference precision: "@, value@),
{
    if str_eq(value, "f4") {
        Ok(DataType::F4())
    } else if str_eq(value, "f8") {
        Ok(DataType::F8())
    } else if str_eq(value, "f16") {
        Ok(DataType::F16())
    } else if str_eq(value, "f32") {
        Ok(DataType::F32())
    } else if str_eq(value, "f64") {
        Ok(DataType::F64())
    } else if str_eq(value, "bf16") {
        Ok(DataType::BF16())
    } else if str_eq(value, "u8") {
        Ok(DataType::U8())
    } else if str_eq(value, "u16") {
        Ok(DataType::U16())
    } else if str_eq(value, "u32") {
        Ok(DataType::new(TypeCode::Uint, 32, 1))
    } else if str_eq(value, "u64") {
        Ok(DataType::new(TypeCode::Uint, 64, 1))
    } else if str_eq(value, "i4") {
        Ok(DataType::I4())
    } else if str_eq(value, "i8") {
        Ok(DataType::I8())
    } else if str_eq(value, "i16") {
        Ok(DataType::I16())
    } else if str_eq(value, "i32") {
        Ok(DataType::new(TypeCode::Int, 32, 1))
    } else if str_eq(value, "i64") {
        Ok(DataType::new(TypeCode::Int, 64, 1))
    } else {
        Err(GraphError::Config("unsupported inference precision: ".to_owned().concat(value)))
    }
}

/// The device a device name denotes.
pub open spec fn device_named(value: Seq<char>) -> Option<DeviceKind> {
    if value == "cpu"@ {
        Some(DeviceKind::Cpu)
    } else if value == "intel_gpu"@ {
        Some(DeviceKind::IntelGpu)
    } else if value == "intel_npu"@ {
        Some(DeviceKind::IntelNpu)
    } else if value == "cuda"@ || value == "cuda_gpu"@ {
        Some(DeviceKind::CudaGpu)
    } else if value == "rknn"@ || value == "rknn_npu"@ {
        Some(DeviceKind::RknnNpu)
    } else if value == "sophon"@ || value == "sophon_tpu"@ {
        Some(DeviceKind::SophonTpu)
    } else {
        None
    }
}

pub fn parse_device(value: &str) -> (r: Result<DeviceKind, GraphError>)
    ensures
        parsed_or_config_error(r, device_named(value@), "unsupported inference device: "@, value@),
{
    if str_eq(value, "cpu") {
        Ok(DeviceKind::Cpu)
    } else if str_eq(value, "intel_gpu") {
        Ok(DeviceKind::IntelGpu)
    } else if str_eq(value, "intel_npu") {
        Ok(DeviceKind::IntelNpu)
    } else if str_eq(value, "cuda") || str_eq(value, "cuda_gpu") {
        Ok(DeviceKind::CudaGpu)
    } else if str_eq(value, "rknn") || str_eq(value, "rknn_npu") {
        Ok(DeviceKind::RknnNpu)
    } else if str_eq(value, "sophon") || str_eq(value, "sophon_tpu") {
        Ok(DeviceKind::SophonTpu)
    } else {
        Err(GraphError::Config("unsupported inference device: ".to_owned().concat(value)))
    }
}

/// The deployment mode a name denotes.
pub open spec fn deploy_mode_named(value: Seq<char>) -> Option<DeployMode> {
    if value == "host"@ {
        Some(DeployMode::Host)
    } else if value == "soc"@ {
        Some(DeployMode::SoC)
    } else {
        None
    }
}

pub fn parse_deploy_mode(value: &str) -> (r: Result<DeployMode, GraphError>)
    ensures
        parsed_or_config_error(r, deploy_mode_named(value@), "unsupported inference deploy_mode: "@, value@),
{
    if str_eq(value, "host") {
        Ok(DeployMode::Host)
    } else if str_eq(value, "soc") {
        Ok(DeployMode::SoC)
    } else {
        Err(GraphError::Config("unsupported inference deploy_mode: ".to_owned().concat(value)))
    }
}

} // verus!
