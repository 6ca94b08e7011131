//! Parameter schemas of element kinds.
use crate::graph::json::{entries_view, lemma_object_view, object_insert, unique_keys, JsonValue, JsonView};
use crate::graph::validate::{find_kind, kind_index, opt_int, ElementDescriptor};
use vstd::prelude::*;

verus! {

/// The type of one element parameter.
#[derive(Clone, Copy, Debug)]
pub enum ParamType {
    Bool,
    Uint,
    Int,
    Float,
    Str,
    Enum(&'static [&'static str]),
    Array(&'static ParamType),
    Object,
}

/// One named parameter of an element kind.
#[derive(Clone, Copy, Debug)]
pub struct ParamField {
    pub name: &'static str,
    pub ty: ParamType,
    pub required: bool,
}

/// The schema `{"type": name}`.
pub open spec fn type_view(name: Seq<char>) -> JsonView {
    JsonView::Object(Map::empty().insert("type"@, JsonView::Str(name)))
}

/// The JSON Schema of one parameter type.
pub open spec fn param_type_view(ty: ParamType) -> JsonView
    decreases ty,
{
    match ty {
        ParamType::Bool => type_view("boolean"@),
        ParamType::Uint => JsonView::Object(
            Map::empty().insert("type"@, JsonView::Str("integer"@)).insert("minimum"@, JsonView::Number("0"@)),
        ),
        ParamType::Int => type_view("integer"@),
        ParamType::Float => type_view("number"@),
        ParamType::Str => type_view("string"@),
        ParamType::Enum(values) => JsonView::Object(
            Map::empty().insert("type"@, JsonView::Str("string"@)).insert(
                "enum"@,
                JsonView::Array(values@.map_values(|v: &str| JsonView::Str(v@))),
            ),
        ),
        ParamType::Array(inner) => JsonView::Object(
            Map::empty().insert("type"@, JsonView::Str("array"@)).insert("items"@, param_type_view(*inner)),
        ),
        ParamType::Object => type_view("object"@),
    }
}

/// The schemas of the parameters, by name; a later parameter of the same
/// name wins.
pub open spec fn properties_view(params: Seq<ParamField>) -> Map<Seq<char>, JsonView>
    decreases params.len(),
{
    if params.len() == 0 {
        Map::empty()
    } else {
        properties_view(params.drop_last()).insert(params.last().name@, param_type_view(params.last().ty))
    }
}

/// The names of the required parameters, in order.
pub open spec fn required_view(params: Seq<ParamField>) -> Seq<JsonView>
    decreases params.len(),
{
    if params.len() == 0 {
        Seq::empty()
    } else if params.last().required {
        required_view(params.drop_last()).push(JsonView::Str(params.last().name@))
    } else {
        required_view(params.drop_last())
    }
}

/// The JSON Schema of an element's parameters: an object with exactly the
/// listed properties, naming the required ones when there are any.
pub open spec fn params_view(params: Seq<ParamField>) -> JsonView {
    let base = Map::empty().insert("$schema"@, JsonView::Str("https://json-schema.org/draft/2020-12/schema"@)).insert(
        "type"@,
        JsonView::Str("object"@),
    ).insert("additionalProperties"@, JsonView::Bool(false)).insert(
        "properties"@,
        JsonView::Object(properties_view(params)),
    );
    let required = required_view(params);
    JsonView::Object(
        if required.len() > 0 {
            base.insert("required"@, JsonView::Array(required))
        } else {
            base
        },
    )
}

fn object_from(entries: Vec<(String, JsonValue)>) -> (r: JsonValue)
    requires
        unique_keys(entries@),
    ensures
        r@ == JsonView::Object(entries_view(entries@)),
{
    let r = JsonValue::Object(entries);
    proof {
        lemma_object_view(r);
    }
    r
}

/// The JSON Schema of one parameter type.
pub fn param_type_schema(ty: ParamType) -> (r: JsonValue)
    ensures
        r@ == param_type_view(ty),
    decreases ty,
{
    let mut o: Vec<(String, JsonValue)> = Vec::new();
    assert(entries_view(o@) =~= Map::<Seq<char>, JsonView>::empty());
    let name = match ty {
        ParamType::Bool => "boolean",
        ParamType::Uint => "integer",
        ParamType::Int => "integer",
        ParamType::Float => "number",
        ParamType::Str => "string",
        ParamType::Enum(_) => "string",
        ParamType::Array(_) => "array",
        ParamType::Object => "object",
    };
    object_insert(&mut o, "type".to_string(), JsonValue::Str(name.to_string()));
    match ty {
        ParamType::Uint => {
            object_insert(&mut o, "minimum".to_string(), JsonValue::Number("0".to_string()));
        },
        ParamType::Enum(values) => {
            let mut items: Vec<JsonValue> = Vec::new();
            let mut i: usize = 0;
            while i < values.len()
                invariant
                    i <= values@.len(),
                    items@.len() == i,
                    forall|k: int| 0 <= k < i ==> (#[trigger] items@[k])@ == JsonView::Str(values@[k]@),
                decreases values@.len() - i,
            {
                items.push(JsonValue::Str(values[i].to_string()));
                i += 1;
            }
            let array = JsonValue::Array(items);
            assert(array@->Array_0 =~= values@.map_values(|v: &str| JsonView::Str(v@)));
            object_insert(&mut o, "enum".to_string(), array);
        },
        ParamType::Array(inner) => {
            let items = param_type_schema(*inner);
            object_insert(&mut o, "items".to_string(), items);
        },
        _ => {},
    }
    object_from(o)
}

/// The JSON Schema of an element's parameters (see `params_view`).
pub fn params_json_schema(params: &[ParamField]) -> (r: JsonValue)
    ensures
        r@ == params_view(params@),
{
    let mut properties: Vec<(String, JsonValue)> = Vec::new();
    let mut required: Vec<JsonValue> = Vec::new();
    assert(entries_view(properties@) =~= properties_view(params@.take(0)));
    let mut i: usize = 0;
    while i < params.len()
        invariant
            i <= params@.len(),
            unique_keys(properties@),
            entries_view(properties@) == properties_view(params@.take(i as int)),
            required@.len() == required_view(params@.take(i as int)).len(),
            forall|k: int| 0 <= k < required@.len() ==> (#[trigger] required@[k])@ == required_view(params@.take(i as int))[k],
        decreases params@.len() - i,
    {
        let field = params[i];
        proof {
            let t = params@.take(i + 1);
            assert(t.drop_last() =~= params@.take(i as int));
            assert(t.last() == field);
        }
        object_insert(&mut properties, field.name.to_string(), param_type_schema(field.ty));
        if field.required {
            required.push(JsonValue::Str(field.name.to_string()));
        }
        i += 1;
    }
    assert(params@.take(params@.len() as int) =~= params@);
    let mut schema: Vec<(String, JsonValue)> = Vec::new();
    assert(entries_view(schema@) =~= Map::<Seq<char>, JsonView>::empty());
    object_insert(
        &mut schema,
        "$schema".to_string(),
        JsonValue::Str("https://json-schema.org/draft/2020-12/schema".to_string()),
    );
    object_insert(&mut schema, "type".to_string(), JsonValue::Str("object".to_string()));
    object_insert(&mut schema, "additionalProperties".to_string(), JsonValue::Bool(false));
    let props = object_from(properties);
    object_insert(&mut schema, "properties".to_string(), props);
    if required.len() > 0 {
        let list = JsonValue::Array(required);
        assert(list@->Array_0 =~= required_view(params@));
        object_insert(&mut schema, "required".to_string(), list);
    }
    object_from(schema)
}

/// The parameter schema of element kind `kind`, when `catalog` has it.
pub fn element_params_schema(catalog: &[ElementDescriptor], kind: &str) -> (r: Option<JsonValue>)
    ensures
        match kind_index(catalog@, kind@) {
            Some(i) => r matches Some(s) && s@ == params_view(catalog@[i].params@),
            None => r is None,
        },
{
    match find_kind(catalog, kind) {
        Some(i) => Some(params_json_schema(catalog[i].params.as_slice())),
        None => None,
    }
}

/// The parameter schema of every kind of `catalog`, keyed by kind.
pub fn all_element_schemas(catalog: &[ElementDescriptor]) -> (r: Vec<(String, JsonValue)>)
    ensures
        r@.len() == catalog@.len(),
        forall|i: int|
            0 <= i < r@.len() ==> (#[trigger] r@[i]).0@ == catalog@[i].kind@ && r@[i].1@ == params_view(
                catalog@[i].params@,
            ),
{
    let mut r: Vec<(String, JsonValue)> = Vec::new();
    let mut i: usize = 0;
    while i < catalog.len()
        invariant
            i <= catalog@.len(),
            r@.len() == i,
            forall|k: int|
                0 <= k < i ==> (#[trigger] r@[k]).0@ == catalog@[k].kind@ && r@[k].1@ == params_view(catalog@[k].params@),
        decreases catalog@.len() - i,
    {
        r.push((catalog[i].kind.clone(), params_json_schema(catalog[i].params.as_slice())));
        i += 1;
    }
    r
}

} // verus!
