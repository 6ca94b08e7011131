use dg::capi::{
    data_type_from_c, device_from_c, domain_from_c, format_from_c, format_from_c_enum, graph_error,
    validate_diff_outputs, version, DgDataFormat, DgDataType, DgDeviceKind, DgGraphFormat,
    DgMemoryDomain, DgStatus,
};
use dg::cli::{demo_inputs, planned_demo_copy_count, render_reload_rejected};
use dg::datatype::{DataType, TypeCode};
use dg::graph::spec::GraphFormat;
use dg::types::{DataFormat, DeviceKind, MemoryDomain};

#[test]
fn invalid_reload_message_keeps_previous_configuration() {
    let message = render_reload_rejected("invalid node parameters");
    assert!(message.contains("REJECTED"));
    assert!(message.contains("invalid node parameters"));
    assert!(message.contains("previous configuration remains active"));
}

#[test]
fn demo_plans_a_zero_copy_transfer() {
    assert_eq!(planned_demo_copy_count().expect("plan"), 0);
    assert_eq!(demo_inputs(), vec!["mock://demo/input-a", "mock://demo/input-b"]);
}

#[test]
fn c_status_codes_match_the_abi() {
    assert_eq!(DgStatus::Success.code(), 0);
    assert_eq!(DgStatus::EndOfStream.code(), 2);
    assert_eq!(DgStatus::NullPointer.code(), -2);
    assert_eq!(DgStatus::InternalError.code(), -9);
}

#[test]
fn c_enums_convert_to_core_values() {
    assert_eq!(format_from_c(DgGraphFormat::Toml), GraphFormat::Toml);
    assert_eq!(data_type_from_c(DgDataType::U8), DataType::U8());
    assert_eq!(data_type_from_c(DgDataType::I64), DataType::new(TypeCode::Int, 64, 1));
    assert_eq!(format_from_c_enum(DgDataFormat::Nc8hw), DataFormat::NC8HW);
    assert_eq!(device_from_c(DgDeviceKind::RknnNpu), DeviceKind::RknnNpu);
    assert_eq!(domain_from_c(DgMemoryDomain::VaapiSurface), MemoryDomain::VaapiSurface);
}

#[test]
fn diff_outputs_must_all_be_present() {
    assert!(validate_diff_outputs(false, false, false, false, false).is_ok());
    let error = validate_diff_outputs(false, false, true, false, false).expect_err("null output");
    assert_eq!(error.0, DgStatus::NullPointer);
    assert_eq!(error.1, "diff output pointer is null");
}

#[test]
fn graph_errors_cross_as_parse_errors() {
    let (status, message) = graph_error("bad graph".to_string());
    assert_eq!(status, DgStatus::ParseError);
    assert_eq!(message, "bad graph");
    assert_eq!(version(), "0.1.0");
}
