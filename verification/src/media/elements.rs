//! The media element kinds (`media_decode`, `media_encode`, `media_resize`,
//! `media_osd`): their registrations and the checks their parameters pass
//! when a graph is loaded.
use crate::graph::element::PortSchema;
use crate::graph::json::{lemma_object_view, JsonValue, JsonView};
use crate::graph::params::{
    bytes_field, field, get_field, json_items, names, opt_usize_field, params_entries, params_object, read_bytes,
    read_opt_usize, reject_unknown_fields, unknown_field_violation, ParamCheck,
};
use crate::graph::schema::{ParamField, ParamType};
use crate::graph::validate::ElementDescriptor;
use crate::media::image::OsdBox;
use crate::text::{decimal, decimal_spec};
use vstd::prelude::*;

verus! {

/// A required, non-zero integer field of node `node`.
pub open spec fn required_nonzero(m: Map<Seq<char>, JsonView>, key: Seq<char>, node: Seq<char>) -> Result<
    usize,
    Seq<char>,
> {
    match opt_usize_field(m, key) {
        Err(e) => Err(e),
        Ok(None) => Err("node "@ + node + ": field "@ + key + " is required"@),
        Ok(Some(v)) => if v == 0 {
            Err("field "@ + key + " must be non-zero"@)
        } else {
            Ok(v)
        },
    }
}

fn read_required_nonzero(entries: &Vec<(String, JsonValue)>, key: &str, node: &str) -> (r: Result<usize, String>)
    ensures
        match required_nonzero(crate::graph::json::entries_view(entries@), key@, node@) {
            Ok(v) => r == Ok::<usize, String>(v),
            Err(e) => r matches Err(x) && x@ == e,
        },
{
    match read_opt_usize(entries, key) {
        Err(e) => Err(e),
        Ok(None) => {
            let r = "node ".to_string().concat(node).concat(": field ").concat(key).concat(" is required");
            assert(r@ =~= "node "@ + node@ + ": field "@ + key@ + " is required"@);
            Err(r)
        },
        Ok(Some(v)) => if v == 0 {
            let r = "field ".to_string().concat(key).concat(" must be non-zero");
            assert(r@ =~= "field "@ + key@ + " must be non-zero"@);
            Err(r)
        } else {
            Ok(v)
        },
    }
}

/// What a `media_decode` node's `params` give, as (width, height,
/// channels): an object of `width` and `height`, required and non-zero, and
/// `channels` (default 3), non-zero, whose product fits `usize`.
pub open spec fn decode_params(name: Seq<char>, v: JsonView) -> Result<(usize, usize, usize), Seq<char>> {
    match params_object(name, v) {
        Err(e) => Err(e),
        Ok(m) => match unknown_field_violation(m, seq!["width"@, "height"@, "channels"@]) {
            Some(e) => Err(e),
            None => match required_nonzero(m, "width"@, name) {
                Err(e) => Err(e),
                Ok(width) => match required_nonzero(m, "height"@, name) {
                    Err(e) => Err(e),
                    Ok(height) => match opt_usize_field(m, "channels"@) {
                        Err(e) => Err(e),
                        Ok(c) => {
                            let channels = match c {
                                Some(x) => x,
                                None => 3usize,
                            };
                            if channels == 0 {
                                Err("field channels must be non-zero"@)
                            } else if height * width * channels > usize::MAX {
                                Err("image dimensions overflow"@)
                            } else {
                                Ok((width, height, channels))
                            }
                        },
                    },
                },
            },
        },
    }
}

/// Reads the frame geometry of a `media_decode` node.
pub fn parse_decode(name: &str, params: &JsonValue) -> (r: Result<(usize, usize, usize), String>)
    ensures
        match decode_params(name@, params@) {
            Ok(d) => r == Ok::<(usize, usize, usize), String>(d),
            Err(e) => r matches Err(x) && x@ == e,
        },
{
    let entries = match params_entries(name, params) {
        Ok(o) => o,
        Err(e) => {
            return Err(e);
        },
    };
    let fields: &[&str] = &["width", "height", "channels"];
    assert(names(fields@) =~= seq!["width"@, "height"@, "channels"@]);
    match reject_unknown_fields(entries, fields) {
        Ok(()) => {},
        Err(e) => {
            return Err(e);
        },
    }
    let width = match read_required_nonzero(entries, "width", name) {
        Ok(v) => v,
        Err(e) => {
            return Err(e);
        },
    };
    let height = match read_required_nonzero(entries, "height", name) {
        Ok(v) => v,
        Err(e) => {
            return Err(e);
        },
    };
    let channels = match read_opt_usize(entries, "channels") {
        Ok(Some(c)) => c,
        Ok(None) => 3,
        Err(e) => {
            return Err(e);
        },
    };
    if channels == 0 {
        return Err("field channels must be non-zero".to_string());
    }
    let total = match height.checked_mul(width) {
        Some(pixels) => pixels.checked_mul(channels),
        None => {
            assert(height * width * channels >= height * width) by (nonlinear_arith)
                requires
                    channels >= 1,
            ;
            None
        },
    };
    match total {
        Some(_) => Ok((width, height, channels)),
        None => Err("image dimensions overflow".to_string()),
    }
}

/// What a `media_resize` node's `params` give, as (width, height): an
/// object of `width` and `height`, required and non-zero, whose product
/// fits `usize`.
pub open spec fn resize_params(name: Seq<char>, v: JsonView) -> Result<(usize, usize), Seq<char>> {
    match params_object(name, v) {
        Err(e) => Err(e),
        Ok(m) => match unknown_field_violation(m, seq!["width"@, "height"@]) {
            Some(e) => Err(e),
            None => match required_nonzero(m, "width"@, name) {
                Err(e) => Err(e),
                Ok(width) => match required_nonzero(m, "height"@, name) {
                    Err(e) => Err(e),
                    Ok(height) => if height * width > usize::MAX {
                        Err("image dimensions overflow"@)
                    } else {
                        Ok((width, height))
                    },
                },
            },
        },
    }
}

/// Reads the target size of a `media_resize` node.
pub fn parse_resize(name: &str, params: &JsonValue) -> (r: Result<(usize, usize), String>)
    ensures
        match resize_params(name@, params@) {
            Ok(d) => r == Ok::<(usize, usize), String>(d),
            Err(e) => r matches Err(x) && x@ == e,
        },
{
    let entries = match params_entries(name, params) {
        Ok(o) => o,
        Err(e) => {
            return Err(e);
        },
    };
    let fields: &[&str] = &["width", "height"];
    assert(names(fields@) =~= seq!["width"@, "height"@]);
    match reject_unknown_fields(entries, fields) {
        Ok(()) => {},
        Err(e) => {
            return Err(e);
        },
    }
    let width = match read_required_nonzero(entries, "width", name) {
        Ok(v) => v,
        Err(e) => {
            return Err(e);
        },
    };
    let height = match read_required_nonzero(entries, "height", name) {
        Ok(v) => v,
        Err(e) => {
            return Err(e);
        },
    };
    match height.checked_mul(width) {
        Some(_) => Ok((width, height)),
        None => Err("image dimensions overflow".to_string()),
    }
}

/// A required coordinate of a box of node `node`.
pub open spec fn box_coord(o: Map<Seq<char>, JsonView>, key: Seq<char>, node: Seq<char>) -> Result<usize, Seq<char>> {
    match opt_usize_field(o, key) {
        Err(e) => Err(e),
        Ok(None) => Err("node "@ + node + ": box field "@ + key + " is required"@),
        Ok(Some(v)) => Ok(v),
    }
}

/// The box the item at `index` of `boxes` describes: an object of `x`,
/// `y`, `width` and `height`, all required, the sizes non-zero, and each
/// far edge within `usize`.
pub open spec fn box_of(node: Seq<char>, index: nat, v: JsonView) -> Result<OsdBox, Seq<char>> {
    match v {
        JsonView::Object(o) => match unknown_field_violation(o, seq!["x"@, "y"@, "width"@, "height"@]) {
            Some(e) => Err("node "@ + node + ": field boxes["@ + decimal_spec(index) + "]: "@ + e),
            None => match box_coord(o, "x"@, node) {
                Err(e) => Err(e),
                Ok(x) => match box_coord(o, "y"@, node) {
                    Err(e) => Err(e),
                    Ok(y) => match box_coord(o, "width"@, node) {
                        Err(e) => Err(e),
                        Ok(width) => if width == 0 {
                            Err("field boxes[].width must be non-zero"@)
                        } else {
                            match box_coord(o, "height"@, node) {
                                Err(e) => Err(e),
                                Ok(height) => if height == 0 {
                                    Err("field boxes[].height must be non-zero"@)
                                } else if x + width > usize::MAX {
                                    Err("box horizontal extent overflow"@)
                                } else if y + height > usize::MAX {
                                    Err("box vertical extent overflow"@)
                                } else {
                                    Ok(OsdBox { x, y, width, height })
                                },
                            }
                        },
                    },
                },
            },
        },
        _ => Err("node "@ + node + ": each box must be an object"@),
    }
}

/// The boxes a list describes; the first item that is not a box decides
/// the error.
pub open spec fn boxes_of(node: Seq<char>, items: Seq<JsonView>) -> Result<Seq<OsdBox>, Seq<char>>
    decreases items.len(),
{
    if items.len() == 0 {
        Ok(Seq::empty())
    } else {
        match boxes_of(node, items.drop_last()) {
            Err(e) => Err(e),
            Ok(bs) => match box_of(node, (items.len() - 1) as nat, items.last()) {
                Err(e) => Err(e),
                Ok(b) => Ok(bs.push(b)),
            },
        }
    }
}

/// The `boxes` field: none where absent.
pub open spec fn boxes_field(m: Map<Seq<char>, JsonView>, node: Seq<char>) -> Result<Seq<OsdBox>, Seq<char>> {
    match field(m, "boxes"@) {
        None => Ok(Seq::empty()),
        Some(JsonView::Array(items)) => boxes_of(node, items),
        Some(_) => Err("node "@ + node + ": field boxes must be an array"@),
    }
}

/// An error among the first `i` items is the error of the whole list.
proof fn lemma_boxes_prefix_error(node: Seq<char>, items: Seq<JsonView>, i: int)
    requires
        0 <= i <= items.len(),
        boxes_of(node, items.take(i)) is Err,
    ensures
        boxes_of(node, items) == boxes_of(node, items.take(i)),
    decreases items.len() - i,
{
    if i < items.len() {
        assert(items.take(i + 1).drop_last() =~= items.take(i));
        lemma_boxes_prefix_error(node, items, i + 1);
    } else {
        assert(items.take(i) =~= items);
    }
}

fn read_box_coord(o: &Vec<(String, JsonValue)>, key: &str, node: &str) -> (r: Result<usize, String>)
    ensures
        match box_coord(crate::graph::json::entries_view(o@), key@, node@) {
            Ok(v) => r == Ok::<usize, String>(v),
            Err(e) => r matches Err(x) && x@ == e,
        },
{
    match read_opt_usize(o, key) {
        Err(e) => Err(e),
        Ok(None) => {
            let r = "node ".to_string().concat(node).concat(": box field ").concat(key).concat(" is required");
            assert(r@ =~= "node "@ + node@ + ": box field "@ + key@ + " is required"@);
            Err(r)
        },
        Ok(Some(v)) => Ok(v),
    }
}

/// Reads the box at `index` of the `boxes` list.
fn read_box(node: &str, index: usize, item: &JsonValue) -> (r: Result<OsdBox, String>)
    ensures
        match box_of(node@, index as nat, item@) {
            Ok(b) => r == Ok::<OsdBox, String>(b),
            Err(e) => r matches Err(x) && x@ == e,
        },
{
    let o = match item {
        JsonValue::Object(o) => o,
        _ => {
            let r = "node ".to_string().concat(node).concat(": each box must be an object");
            assert(r@ =~= "node "@ + node@ + ": each box must be an object"@);
            return Err(r);
        },
    };
    proof {
        lemma_object_view(*item);
    }
    let fields: &[&str] = &["x", "y", "width", "height"];
    assert(names(fields@) =~= seq!["x"@, "y"@, "width"@, "height"@]);
    match reject_unknown_fields(o, fields) {
        Ok(()) => {},
        Err(e) => {
            let r = "node ".to_string().concat(node).concat(": field boxes[").concat(decimal(index).as_str()).concat(
                "]: ",
            ).concat(e.as_str());
            assert(r@ =~= "node "@ + node@ + ": field boxes["@ + decimal_spec(index as nat) + "]: "@ + e@);
            return Err(r);
        },
    }
    let x = match read_box_coord(o, "x", node) {
        Ok(v) => v,
        Err(e) => {
            return Err(e);
        },
    };
    let y = match read_box_coord(o, "y", node) {
        Ok(v) => v,
        Err(e) => {
            return Err(e);
        },
    };
    let width = match read_box_coord(o, "width", node) {
        Ok(v) => v,
        Err(e) => {
            return Err(e);
        },
    };
    if width == 0 {
        return Err("field boxes[].width must be non-zero".to_string());
    }
    let height = match read_box_coord(o, "height", node) {
        Ok(v) => v,
        Err(e) => {
            return Err(e);
        },
    };
    if height == 0 {
        return Err("field boxes[].height must be non-zero".to_string());
    }
    if x.checked_add(width).is_none() {
        return Err("box horizontal extent overflow".to_string());
    }
    if y.checked_add(height).is_none() {
        return Err("box vertical extent overflow".to_string());
    }
    Ok(OsdBox { x, y, width, height })
}

/// Reads the `boxes` field of a `media_osd` node.
fn read_boxes(entries: &Vec<(String, JsonValue)>, node: &str) -> (r: Result<Vec<OsdBox>, String>)
    ensures
        match boxes_field(crate::graph::json::entries_view(entries@), node@) {
            Ok(b) => r matches Ok(v) && v@ == b,
            Err(e) => r matches Err(x) && x@ == e,
        },
{
    let found = match get_field(entries, "boxes") {
        None => {
            return Ok(Vec::new());
        },
        Some(f) => f,
    };
    let items = match found {
        JsonValue::Array(items) => items,
        _ => {
            let r = "node ".to_string().concat(node).concat(": field boxes must be an array");
            assert(r@ =~= "node "@ + node@ + ": field boxes must be an array"@);
            return Err(r);
        },
    };
    let ghost views = json_items(items@);
    proof {
        assert(found@->Array_0 =~= views);
    }
    let mut out: Vec<OsdBox> = Vec::new();
    let mut i: usize = 0;
    while i < items.len()
        invariant
            views == json_items(items@),
            field(crate::graph::json::entries_view(entries@), "boxes"@) == Some(JsonView::Array(views)),
            i <= items@.len(),
            boxes_of(node@, views.take(i as int)) == Ok::<Seq<OsdBox>, Seq<char>>(out@),
        decreases items@.len() - i,
    {
        proof {
            assert(views.take(i + 1).drop_last() =~= views.take(i as int));
            assert(views.take(i + 1).last() == items@[i as int]@);
        }
        match read_box(node, i, &items[i]) {
            Err(e) => {
                proof {
                    lemma_boxes_prefix_error(node@, views, i + 1);
                }
                return Err(e);
            },
            Ok(b) => {
                out.push(b);
            },
        }
        i += 1;
    }
    assert(views.take(items@.len() as int) =~= views);
    Ok(out)
}

/// What a `media_osd` node's `params` give, as (boxes, color, thickness):
/// an object of `boxes` (default none), `color` (default `[255, 0, 0]`),
/// not empty, and `thickness` (default 1), non-zero.
pub open spec fn osd_params(name: Seq<char>, v: JsonView) -> Result<(Seq<OsdBox>, Seq<u8>, usize), Seq<char>> {
    match params_object(name, v) {
        Err(e) => Err(e),
        Ok(m) => match unknown_field_violation(m, seq!["boxes"@, "color"@, "thickness"@]) {
            Some(e) => Err(e),
            None => match boxes_field(m, name) {
                Err(e) => Err(e),
                Ok(boxes) => match bytes_field(m, "color"@) {
                    Err(e) => Err(e),
                    Ok(c) => {
                        let color = match c {
                            Some(b) => b,
                            None => seq![255u8, 0u8, 0u8],
                        };
                        if color.len() == 0 {
                            Err("field color must not be empty"@)
                        } else {
                            match opt_usize_field(m, "thickness"@) {
                                Err(e) => Err(e),
                                Ok(t) => {
                                    let thickness = match t {
                                        Some(x) => x,
                                        None => 1usize,
                                    };
                                    if thickness == 0 {
                                        Err("field thickness must be non-zero"@)
                                    } else {
                                        Ok((boxes, color, thickness))
                                    }
                                },
                            }
                        }
                    },
                },
            },
        },
    }
}

/// Reads the overlay of a `media_osd` node.
pub fn parse_osd(name: &str, params: &JsonValue) -> (r: Result<(Vec<OsdBox>, Vec<u8>, usize), String>)
    ensures
        match osd_params(name@, params@) {
            Ok((b, c, t)) => r matches Ok((x, y, z)) && x@ == b && y@ == c && z == t,
            Err(e) => r matches Err(x) && x@ == e,
        },
{
    let entries = match params_entries(name, params) {
        Ok(o) => o,
        Err(e) => {
            return Err(e);
        },
    };
    let fields: &[&str] = &["boxes", "color", "thickness"];
    assert(names(fields@) =~= seq!["boxes"@, "color"@, "thickness"@]);
    match reject_unknown_fields(entries, fields) {
        Ok(()) => {},
        Err(e) => {
            return Err(e);
        },
    }
    let boxes = match read_boxes(entries, name) {
        Ok(b) => b,
        Err(e) => {
            return Err(e);
        },
    };
    let color = match read_bytes(entries, "color") {
        Ok(Some(c)) => c,
        Ok(None) => {
            let c: Vec<u8> = vec![255, 0, 0];
            assert(c@ =~= seq![255u8, 0u8, 0u8]);
            c
        },
        Err(e) => {
            return Err(e);
        },
    };
    if color.len() == 0 {
        return Err("field color must not be empty".to_string());
    }
    let thickness = match read_opt_usize(entries, "thickness") {
        Ok(Some(t)) => t,
        Ok(None) => 1,
        Err(e) => {
            return Err(e);
        },
    };
    if thickness == 0 {
        return Err("field thickness must be non-zero".to_string());
    }
    Ok((boxes, color, thickness))
}

/// `p` is a port `name` of any data type.
pub open spec fn media_port(p: PortSchema, name: Seq<char>, required: bool) -> bool {
    p.name@ == name && p.dtype is None && p.required == required
}

/// The media element kinds. Each reads frames on a required `in` and writes
/// frames on `out`. `media_decode` takes `width`, `height` (both required)
/// and `channels`; `media_encode` takes no parameters; `media_resize` takes
/// `width` and `height` (both required); `media_osd` takes `boxes`,
/// `color` and `thickness`.
pub fn media_elements() -> (r: Vec<ElementDescriptor>)
    ensures
        r@.len() == 4,
        forall|i: int|
            0 <= i < 4 ==> {
                &&& (#[trigger] r@[i]).input_ports@.len() == 1
                &&& media_port(r@[i].input_ports@[0], "in"@, true)
                &&& r@[i].output_ports@.len() == 1
                &&& media_port(r@[i].output_ports@[0], "out"@, false)
            },
        r@[0].kind@ == "media_decode"@,
        r@[0].validate == Some(ParamCheck::MediaDecode),
        r@[0].params@.len() == 3,
        r@[0].params@[0] == (ParamField { name: r@[0].params@[0].name, ty: ParamType::Uint, required: true }),
        r@[0].params@[0].name@ == "width"@,
        r@[0].params@[1] == (ParamField { name: r@[0].params@[1].name, ty: ParamType::Uint, required: true }),
        r@[0].params@[1].name@ == "height"@,
        r@[0].params@[2] == (ParamField { name: r@[0].params@[2].name, ty: ParamType::Uint, required: false }),
        r@[0].params@[2].name@ == "channels"@,
        r@[1].kind@ == "media_encode"@,
        r@[1].validate == Some(ParamCheck::NoParams),
        r@[1].params@.len() == 0,
        r@[2].kind@ == "media_resize"@,
        r@[2].validate == Some(ParamCheck::MediaResize),
        r@[2].params@.len() == 2,
        r@[2].params@[0] == (ParamField { name: r@[2].params@[0].name, ty: ParamType::Uint, required: true }),
        r@[2].params@[0].name@ == "width"@,
        r@[2].params@[1] == (ParamField { name: r@[2].params@[1].name, ty: ParamType::Uint, required: true }),
        r@[2].params@[1].name@ == "height"@,
        r@[3].kind@ == "media_osd"@,
        r@[3].validate == Some(ParamCheck::MediaOsd),
        r@[3].params@.len() == 3,
        r@[3].params@[0].name@ == "boxes"@ && !r@[3].params@[0].required,
        r@[3].params@[0].ty matches ParamType::Array(inner) && *inner == ParamType::Object,
        r@[3].params@[1].name@ == "color"@ && !r@[3].params@[1].required,
        r@[3].params@[1].ty matches ParamType::Array(inner) && *inner == ParamType::Uint,
        r@[3].params@[2] == (ParamField { name: r@[3].params@[2].name, ty: ParamType::Uint, required: false }),
        r@[3].params@[2].name@ == "thickness"@,
{
    let input = PortSchema { name: "in", dtype: None, required: true };
    let output = PortSchema { name: "out", dtype: None, required: false };
    let mut r: Vec<ElementDescriptor> = Vec::new();
    r.push(
        ElementDescriptor {
            kind: "media_decode".to_string(),
            input_ports: vec![input],
            output_ports: vec![output],
            params: vec![
                ParamField { name: "width", ty: ParamType::Uint, required: true },
                ParamField { name: "height", ty: ParamType::Uint, required: true },
                ParamField { name: "channels", ty: ParamType::Uint, required: false },
            ],
            validate: Some(ParamCheck::MediaDecode),
        },
    );
    r.push(
        ElementDescriptor {
            kind: "media_encode".to_string(),
            input_ports: vec![input],
            output_ports: vec![output],
            params: Vec::new(),
            validate: Some(ParamCheck::NoParams),
        },
    );
    r.push(
        ElementDescriptor {
            kind: "media_resize".to_string(),
            input_ports: vec![input],
            output_ports: vec![output],
            params: vec![
                ParamField { name: "width", ty: ParamType::Uint, required: true },
                ParamField { name: "height", ty: ParamType::Uint, required: true },
            ],
            validate: Some(ParamCheck::MediaResize),
        },
    );
    r.push(
        ElementDescriptor {
            kind: "media_osd".to_string(),
            input_ports: vec![input],
            output_ports: vec![output],
            params: vec![
                ParamField { name: "boxes", ty: ParamType::Array(&ParamType::Object), required: false },
                ParamField { name: "color", ty: ParamType::Array(&ParamType::Uint), required: false },
                ParamField { name: "thickness", ty: ParamType::Uint, required: false },
            ],
            validate: Some(ParamCheck::MediaOsd),
        },
    );
    r
}

} // verus!
