use dg::datatype::DataType;
use dg::elements::{parse_distributor, parse_filter, parse_http_push, routing_elements, DistributionStrategy, FilterMode};
use dg::graph::json::JsonValue;
use dg::graph::normalize::GraphSpecBuilder;
use dg::graph::params::{check_params, number_u64, parse_mock_inference, parse_source, reject_unknown_fields, ParamCheck};
use dg::graph::spec::NodeSpec;
use dg::graph::validate::find_kind;
use dg::media::elements::{media_elements, parse_decode, parse_osd, parse_resize};
use dg::media::image::OsdBox;
use dg::types::DataFormat;

fn num(text: &str) -> JsonValue {
    JsonValue::Number(text.to_string())
}

fn text(value: &str) -> JsonValue {
    JsonValue::Str(value.to_string())
}

fn obj(entries: Vec<(&str, JsonValue)>) -> JsonValue {
    JsonValue::Object(entries.into_iter().map(|(key, value)| (key.to_string(), value)).collect())
}

fn entries(entries: Vec<(&str, JsonValue)>) -> Vec<(String, JsonValue)> {
    entries.into_iter().map(|(key, value)| (key.to_string(), value)).collect()
}

#[test]
fn integer_text_is_read_only_when_it_is_all_digits_and_fits() {
    assert_eq!(number_u64("0"), Some(0));
    assert_eq!(number_u64("42"), Some(42));
    assert_eq!(number_u64("18446744073709551615"), Some(u64::MAX));
    assert_eq!(number_u64("18446744073709551616"), None);
    assert_eq!(number_u64("1.0"), None);
    assert_eq!(number_u64("-3"), None);
    assert_eq!(number_u64("1e3"), None);
    assert_eq!(number_u64(""), None);
}

#[test]
fn unknown_fields_are_reported_in_key_order() {
    let fields = entries(vec![("zeta", num("1")), ("count", num("1")), ("alpha", num("2"))]);
    let err = reject_unknown_fields(&fields, &["count", "shape"]).expect_err("unknown fields");
    assert_eq!(err, "unknown field `alpha`; expected one of count, shape");
    let none = reject_unknown_fields(&fields, &[]).expect_err("no parameters");
    assert_eq!(none, "unknown field `alpha`; no parameters are supported");
    assert!(reject_unknown_fields(&entries(vec![("count", num("1"))]), &["count", "shape"]).is_ok());
}

#[test]
fn source_settings_take_their_defaults() {
    let params = parse_source("source", &obj(vec![])).expect("defaults");
    assert_eq!(params.count, 1);
    assert_eq!(params.shape, vec![1, 4]);
    assert_eq!(params.dtype, DataType::F32());
    assert_eq!(params.format, DataFormat::NC);
    assert!(params.start.is_none());
}

#[test]
fn source_settings_read_every_field() {
    let given = obj(vec![
        ("count", num("3")),
        ("shape", JsonValue::Array(vec![num("2"), num("3"), num("4")])),
        ("dtype", text("u8")),
        ("format", text("nchw")),
        ("start", num("1.5")),
    ]);
    let params = parse_source("source", &given).expect("valid settings");
    assert_eq!(params.count, 3);
    assert_eq!(params.shape, vec![2, 3, 4]);
    assert_eq!(params.dtype, DataType::U8());
    assert_eq!(params.format, DataFormat::NCHW);
    assert_eq!(params.start.as_deref(), Some("1.5"));
}

#[test]
fn source_settings_reject_each_kind_of_bad_field() {
    let err = |params: JsonValue| parse_source("src", &params).err().expect("rejected");
    assert_eq!(err(num("1")), "node src params must be an object");
    assert_eq!(err(JsonValue::Null), "node src params must be an object");
    assert_eq!(err(obj(vec![("count", num("1.5"))])), "field count must be a non-negative integer");
    assert_eq!(err(obj(vec![("count", num("-1"))])), "field count must be a non-negative integer");
    assert_eq!(err(obj(vec![("shape", num("4"))])), "field shape must be an array");
    assert_eq!(
        err(obj(vec![("shape", JsonValue::Array(vec![num("1"), text("x")]))])),
        "field shape must contain integers"
    );
    assert_eq!(err(obj(vec![("dtype", num("1"))])), "field dtype must be a string");
    assert_eq!(err(obj(vec![("format", text("hwc"))])), "unsupported format: hwc");
    assert_eq!(err(obj(vec![("start", text("zero"))])), "field start must be a number");
}

#[test]
fn mock_inference_settings_default_outputs_to_inputs() {
    let given = obj(vec![("shape", JsonValue::Array(vec![num("1"), num("8")])), ("dtype", text("f16"))]);
    let params = parse_mock_inference("infer", &given).expect("valid settings");
    assert_eq!(params.shape, vec![1, 8]);
    assert_eq!(params.output_shape, vec![1, 8]);
    assert_eq!(params.dtype, DataType::F16());
    assert_eq!(params.output_dtype, DataType::F16());
    assert!(params.echo_inputs);
    assert_eq!(params.fill_value, 0);
}

#[test]
fn mock_inference_fill_value_must_fit_a_byte() {
    let ok = parse_mock_inference("infer", &obj(vec![("fill_value", num("255"))])).expect("fits");
    assert_eq!(ok.fill_value, 255);
    let err = parse_mock_inference("infer", &obj(vec![("fill_value", num("256"))])).err().expect("too large");
    assert_eq!(err, "field fill_value overflow");
    let err = parse_mock_inference("infer", &obj(vec![("fill_value", text("1"))])).err().expect("not a number");
    assert_eq!(err, "field fill_value must be an integer");
}

#[test]
fn parameterless_kinds_accept_null_and_empty_objects_only() {
    assert!(check_params(ParamCheck::NoParams, "sink", &JsonValue::Null).is_ok());
    assert!(check_params(ParamCheck::NoParams, "sink", &obj(vec![])).is_ok());
    assert_eq!(
        check_params(ParamCheck::NoParams, "sink", &JsonValue::Bool(true)).err().expect("not an object"),
        "node sink params must be an object"
    );
}

#[test]
fn media_elements_are_registered() {
    let catalog = media_elements();
    for kind in ["media_decode", "media_encode", "media_resize", "media_osd"] {
        assert!(find_kind(&catalog, kind).is_some(), "element {kind} must be registered");
    }
}

#[test]
fn routing_element_parameters_are_validated_at_load_time() {
    let invalid = [
        ("distributor", obj(vec![("strategy", num("1"))]), "field strategy must be a string"),
        ("converger", obj(vec![("strategy", text("round_robin"))]), "unknown field `strategy`"),
        ("filter", obj(vec![("unknown", JsonValue::Bool(true))]), "unknown field `unknown`"),
        ("filter", obj(vec![("mode", text("invalid"))]), "field mode must be one of pass, drop"),
        ("filter", obj(vec![("mode", num("1"))]), "field mode must be a string"),
        ("http_push", obj(vec![("url", text("ftp://host"))]), "field url must use a non-empty http:// or https:// URL"),
    ];
    for (kind, params, expected) in invalid {
        let node = NodeSpec { name: "algorithm".to_string(), kind: kind.to_string(), template: None, threads: None, params };
        let err = GraphSpecBuilder::new()
            .add_node(node)
            .build(&routing_elements())
            .expect_err("invalid params must fail during graph loading");
        let message = err.message();
        assert!(message.contains("nodes[algorithm].params"), "{message}");
        assert!(message.contains(expected), "{message}");
    }
}

#[test]
fn distributor_and_filter_settings_have_defaults() {
    assert_eq!(parse_distributor("d", &obj(vec![])), Ok(DistributionStrategy::RoundRobin));
    assert_eq!(parse_distributor("d", &obj(vec![("strategy", text("broadcast"))])), Ok(DistributionStrategy::Broadcast));
    assert_eq!(
        parse_distributor("d", &obj(vec![("strategy", text("random"))])),
        Err("field strategy must be one of round_robin, broadcast; got random".to_string())
    );
    assert_eq!(parse_filter("f", &obj(vec![])), Ok(FilterMode::Pass));
    assert_eq!(parse_filter("f", &obj(vec![("mode", text("drop"))])), Ok(FilterMode::Drop));
}

#[test]
fn http_push_settings_need_a_url_and_upper_case_the_method() {
    let ok = parse_http_push("push", &obj(vec![("url", text("HTTPS://example.com/hook")), ("method", text("put"))]))
        .ok()
        .expect("valid target");
    assert_eq!(ok.url, "HTTPS://example.com/hook");
    assert_eq!(ok.method, "PUT");
    let default = parse_http_push("push", &obj(vec![("url", text("http://h"))])).ok().expect("valid target");
    assert_eq!(default.method, "POST");
    let err = |params: JsonValue| parse_http_push("push", &params).err().expect("rejected");
    assert_eq!(err(obj(vec![])), "field url is required and must be a string");
    assert_eq!(err(obj(vec![("url", text(""))])), "field url must be a non-empty string");
    assert_eq!(err(obj(vec![("url", text("example.com"))])), "field url must use the http:// or https:// scheme");
    assert_eq!(err(obj(vec![("url", text("http://h")), ("method", text("GET X"))])), "field method must be a non-empty HTTP method");
    assert_eq!(err(obj(vec![("url", text("http://h")), ("method", num("1"))])), "field method must be a string");
}

#[test]
fn media_geometry_settings_are_required_and_non_zero() {
    assert_eq!(parse_decode("dec", &obj(vec![("width", num("4")), ("height", num("2"))])), Ok((4, 2, 3)));
    assert_eq!(
        parse_decode("dec", &obj(vec![("width", num("4"))])),
        Err("node dec: field height is required".to_string())
    );
    assert_eq!(
        parse_decode("dec", &obj(vec![("width", num("4")), ("height", num("2")), ("channels", num("0"))])),
        Err("field channels must be non-zero".to_string())
    );
    assert_eq!(
        parse_decode("dec", &obj(vec![("width", num("4294967296")), ("height", num("4294967296"))])),
        Err("image dimensions overflow".to_string())
    );
    assert_eq!(parse_resize("rs", &obj(vec![("width", num("8")), ("height", num("6"))])), Ok((8, 6)));
    assert_eq!(
        parse_resize("rs", &obj(vec![("width", num("0")), ("height", num("6"))])),
        Err("field width must be non-zero".to_string())
    );
}

#[test]
fn osd_settings_read_boxes_color_and_thickness() {
    let box_value = |x: &str, y: &str, w: &str, h: &str| {
        obj(vec![("x", num(x)), ("y", num(y)), ("width", num(w)), ("height", num(h))])
    };
    let (boxes, color, thickness) = parse_osd(
        "osd",
        &obj(vec![("boxes", JsonValue::Array(vec![box_value("1", "2", "3", "4")])), ("thickness", num("2"))]),
    )
    .expect("valid overlay");
    assert_eq!(boxes, vec![OsdBox { x: 1, y: 2, width: 3, height: 4 }]);
    assert_eq!(color, vec![255, 0, 0]);
    assert_eq!(thickness, 2);
    let err = |params: JsonValue| parse_osd("osd", &params).err().expect("rejected");
    assert_eq!(
        err(obj(vec![("boxes", JsonValue::Array(vec![box_value("0", "0", "1", "1"), obj(vec![("z", num("1"))])]))])),
        "node osd: field boxes[1]: unknown field `z`; expected one of x, y, width, height"
    );
    assert_eq!(err(obj(vec![("boxes", JsonValue::Array(vec![num("1")]))])), "node osd: each box must be an object");
    assert_eq!(
        err(obj(vec![("boxes", JsonValue::Array(vec![obj(vec![("x", num("1"))])]))])),
        "node osd: box field y is required"
    );
    assert_eq!(
        err(obj(vec![("boxes", JsonValue::Array(vec![box_value("18446744073709551615", "0", "1", "1")]))])),
        "box horizontal extent overflow"
    );
    assert_eq!(err(obj(vec![("color", JsonValue::Array(vec![]))])), "field color must not be empty");
    assert_eq!(err(obj(vec![("color", JsonValue::Array(vec![num("300")]))])), "field color overflow");
    assert_eq!(err(obj(vec![("thickness", num("0"))])), "field thickness must be non-zero");
}
