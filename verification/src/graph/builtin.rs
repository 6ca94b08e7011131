//! Port declarations of the element kinds every graph can use.
use crate::datatype::DataType;
use crate::graph::element::PortSchema;
use crate::graph::params::ParamCheck;
use crate::graph::schema::{ParamField, ParamType};
use crate::graph::validate::ElementDescriptor;
use vstd::prelude::*;

verus! {

/// `p` is the port `name` with data type `dtype` and requirement `required`.
pub open spec fn port_is(p: PortSchema, name: Seq<char>, dtype: Option<DataType>, required: bool) -> bool {
    p.name@ == name && p.dtype == dtype && p.required == required
}

/// `f` is the optional parameter `name` of type `ty`.
pub open spec fn optional_param(f: ParamField, name: Seq<char>, ty: ParamType) -> bool {
    f.name@ == name && f.ty == ty && !f.required
}

/// `f` is the optional parameter `name`, an array of unsigned integers.
pub open spec fn optional_uint_array(f: ParamField, name: Seq<char>) -> bool {
    f.name@ == name && !f.required && (f.ty matches ParamType::Array(inner) && *inner == ParamType::Uint)
}

/// `f` is the optional parameter `name`, a string out of `values`.
pub open spec fn optional_choice(f: ParamField, name: Seq<char>, values: Seq<Seq<char>>) -> bool {
    f.name@ == name && !f.required && (f.ty matches ParamType::Enum(v) && v@.map_values(|x: &str| x@) == values)
}

/// The data type names the built-in elements accept.
pub open spec fn dtype_names() -> Seq<Seq<char>> {
    seq!["f32"@, "f16"@, "bf16"@, "u8"@, "i8"@, "u16"@, "i16"@]
}

/// The layout names the built-in elements accept.
pub open spec fn format_names() -> Seq<Seq<char>> {
    seq!["auto"@, "nchw"@, "nhwc"@, "nc"@, "n"@, "nc4hw"@, "nc8hw"@, "ncdhw"@, "oihw"@]
}

fn dtype_values() -> (r: &'static [&'static str])
    ensures
        r@.map_values(|x: &str| x@) == dtype_names(),
{
    let r: &'static [&'static str] = &["f32", "f16", "bf16", "u8", "i8", "u16", "i16"];
    assert(r@.map_values(|x: &str| x@) =~= dtype_names());
    r
}

fn format_values() -> (r: &'static [&'static str])
    ensures
        r@.map_values(|x: &str| x@) == format_names(),
{
    let r: &'static [&'static str] = &["auto", "nchw", "nhwc", "nc", "n", "nc4hw", "nc8hw", "ncdhw", "oihw"];
    assert(r@.map_values(|x: &str| x@) =~= format_names());
    r
}

/// The element kinds every graph can use. `input` and `source` produce
/// `f32` tensors on `out`; `mock_inference` reads `f32` on a required `in`
/// and writes `f32` on `out`; `sink` accepts any data type on a required
/// `in`. `source` takes `count`, `shape`, `dtype`, `format` and `start`;
/// `mock_inference` takes `shape`, `output_shape`, `dtype`, `output_dtype`,
/// `echo_inputs` and `fill_value`; the others take no parameters.
pub fn builtin_elements() -> (r: Vec<ElementDescriptor>)
    ensures
        r@.len() == 4,
        r@[0].kind@ == "input"@,
        r@[0].input_ports@.len() == 0,
        r@[0].output_ports@.len() == 1,
        port_is(r@[0].output_ports@[0], "out"@, Some(DataType::spec_F32()), false),
        r@[0].params@.len() == 0,
        r@[0].validate == Some(ParamCheck::NoParams),
        r@[1].kind@ == "source"@,
        r@[1].input_ports@.len() == 0,
        r@[1].output_ports@.len() == 1,
        port_is(r@[1].output_ports@[0], "out"@, Some(DataType::spec_F32()), false),
        r@[1].params@.len() == 5,
        r@[1].validate == Some(ParamCheck::Source),
        optional_param(r@[1].params@[0], "count"@, ParamType::Uint),
        optional_uint_array(r@[1].params@[1], "shape"@),
        optional_choice(r@[1].params@[2], "dtype"@, dtype_names()),
        optional_choice(r@[1].params@[3], "format"@, format_names()),
        optional_param(r@[1].params@[4], "start"@, ParamType::Float),
        r@[2].kind@ == "mock_inference"@,
        r@[2].input_ports@.len() == 1,
        port_is(r@[2].input_ports@[0], "in"@, Some(DataType::spec_F32()), true),
        r@[2].output_ports@.len() == 1,
        port_is(r@[2].output_ports@[0], "out"@, Some(DataType::spec_F32()), false),
        r@[2].params@.len() == 6,
        r@[2].validate == Some(ParamCheck::MockInference),
        optional_uint_array(r@[2].params@[0], "shape"@),
        optional_uint_array(r@[2].params@[1], "output_shape"@),
        optional_choice(r@[2].params@[2], "dtype"@, dtype_names()),
        optional_choice(r@[2].params@[3], "output_dtype"@, dtype_names()),
        optional_param(r@[2].params@[4], "echo_inputs"@, ParamType::Bool),
        optional_param(r@[2].params@[5], "fill_value"@, ParamType::Uint),
        r@[3].kind@ == "sink"@,
        r@[3].input_ports@.len() == 1,
        port_is(r@[3].input_ports@[0], "in"@, None, true),
        r@[3].output_ports@.len() == 0,
        r@[3].params@.len() == 0,
        r@[3].validate == Some(ParamCheck::NoParams),
{
    let out = PortSchema { name: "out", dtype: Some(DataType::F32()), required: false };
    let input = PortSchema { name: "in", dtype: Some(DataType::F32()), required: true };
    let sink_in = PortSchema { name: "in", dtype: None, required: true };
    let uint_array = ParamType::Array(&ParamType::Uint);
    let dtypes = ParamType::Enum(dtype_values());
    let formats = ParamType::Enum(format_values());
    let source_params = vec![
        ParamField { name: "count", ty: ParamType::Uint, required: false },
        ParamField { name: "shape", ty: uint_array, required: false },
        ParamField { name: "dtype", ty: dtypes, required: false },
        ParamField { name: "format", ty: formats, required: false },
        ParamField { name: "start", ty: ParamType::Float, required: false },
    ];
    let inference_params = vec![
        ParamField { name: "shape", ty: uint_array, required: false },
        ParamField { name: "output_shape", ty: uint_array, required: false },
        ParamField { name: "dtype", ty: dtypes, required: false },
        ParamField { name: "output_dtype", ty: dtypes, required: false },
        ParamField { name: "echo_inputs", ty: ParamType::Bool, required: false },
        ParamField { name: "fill_value", ty: ParamType::Uint, required: false },
    ];
    let mut r: Vec<ElementDescriptor> = Vec::new();
    r.push(
        ElementDescriptor {
            kind: "input".to_string(),
            input_ports: Vec::new(),
            output_ports: vec![out],
            params: Vec::new(),
            validate: Some(ParamCheck::NoParams),
        },
    );
    r.push(
        ElementDescriptor {
            kind: "source".to_string(),
            input_ports: Vec::new(),
            output_ports: vec![out],
            params: source_params,
            validate: Some(ParamCheck::Source),
        },
    );
    r.push(
        ElementDescriptor {
            kind: "mock_inference".to_string(),
            input_ports: vec![input],
            output_ports: vec![out],
            params: inference_params,
            validate: Some(ParamCheck::MockInference),
        },
    );
    r.push(
        ElementDescriptor {
            kind: "sink".to_string(),
            input_ports: vec![sink_in],
            output_ports: Vec::new(),
            params: Vec::new(),
            validate: Some(ParamCheck::NoParams),
        },
    );
    r
}

} // verus!
