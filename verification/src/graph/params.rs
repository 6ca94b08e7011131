//! The parameter checks element kinds run when a graph is loaded: each
//! reads the fields it knows out of a node's `params` object and rejects
//! fields it does not know.
use crate::datatype::DataType;
use crate::elements::{
    distributor_params, filter_params, http_push_params, parse_distributor, parse_filter, parse_http_push,
};
use crate::graph::json::{
    entries_view, has_key, last_entry, last_entry_of, lemma_last_entry_unique, lemma_object_view, JsonValue, JsonView,
};
use crate::media::elements::{decode_params, osd_params, parse_decode, parse_osd, parse_resize, resize_params};
use crate::types::DataFormat;
use crate::media::codec::joined;
use crate::text::{lemma_text_less_order, str_eq, str_less, text_less};
use vstd::prelude::*;

verus! {

/// `c` is an ASCII decimal digit.
pub open spec fn is_digit(c: char) -> bool {
    '0' <= c && c <= '9'
}

/// The value of the decimal digit `c`.
pub open spec fn digit_value(c: char) -> nat {
    ((c as int) - ('0' as int)) as nat
}

/// The value of a run of decimal digits.
pub open spec fn digits_value(t: Seq<char>) -> nat
    decreases t.len(),
{
    if t.len() == 0 {
        0
    } else {
        digits_value(t.drop_last()) * 10 + digit_value(t.last())
    }
}

/// The unsigned integer a number's text denotes: its value when the text is
/// a non-empty run of decimal digits, the way an unsigned JSON integer
/// prints.
pub open spec fn uint_text(t: Seq<char>) -> Option<nat> {
    if t.len() > 0 && forall|i: int| 0 <= i < t.len() ==> is_digit(#[trigger] t[i]) {
        Some(digits_value(t))
    } else {
        None
    }
}

/// The `u64` a JSON value holds: an unsigned integer number that fits.
pub open spec fn as_u64_view(v: JsonView) -> Option<nat> {
    match v {
        JsonView::Number(t) => match uint_text(t) {
            Some(n) => if n <= u64::MAX {
                Some(n)
            } else {
                None
            },
            None => None,
        },
        _ => None,
    }
}

/// A prefix of a digit run is worth no more than the whole run.
proof fn lemma_digits_prefix(t: Seq<char>, i: int)
    requires
        0 <= i <= t.len(),
    ensures
        digits_value(t.take(i)) <= digits_value(t),
    decreases t.len() - i,
{
    if i < t.len() {
        lemma_digits_prefix(t, i + 1);
        assert(t.take(i + 1).drop_last() =~= t.take(i));
    } else {
        assert(t.take(i) =~= t);
    }
}

/// The unsigned integer `t` denotes, when it fits in a `u64`.
pub fn number_u64(t: &str) -> (r: Option<u64>)
    ensures
        match uint_text(t@) {
            Some(n) => if n <= u64::MAX {
                r == Some(n as u64)
            } else {
                r is None
            },
            None => r is None,
        },
{
    let n = t.unicode_len();
    if n == 0 {
        return None;
    }
    let mut v: u64 = 0;
    let mut i: usize = 0;
    while i < n
        invariant
            n == t@.len(),
            i <= n,
            v == digits_value(t@.take(i as int)),
            forall|j: int| 0 <= j < i ==> is_digit(#[trigger] t@[j]),
        decreases n - i,
    {
        let c = t.get_char(i);
        if !('0' <= c && c <= '9') {
            return None;
        }
        let d: u64 = (c as u32 - '0' as u32) as u64;
        proof {
            assert(t@.take(i + 1).drop_last() =~= t@.take(i as int));
            assert(t@.take(i + 1).last() == c);
        }
        let next = match v.checked_mul(10) {
            Some(w) => w.checked_add(d),
            None => None,
        };
        match next {
            Some(x) => {
                v = x;
            },
            None => {
                proof {
                    lemma_digits_prefix(t@, i + 1);
                }
                return None;
            },
        }
        i += 1;
    }
    assert(t@.take(n as int) =~= t@);
    Some(v)
}

/// The names `allowed` lists.
pub open spec fn names(allowed: Seq<&str>) -> Seq<Seq<char>> {
    allowed.map_values(|x: &str| x@)
}

/// `k` is a key of `m` that `allowed` does not list.
pub open spec fn unknown_key(m: Map<Seq<char>, JsonView>, allowed: Seq<Seq<char>>, k: Seq<char>) -> bool {
    m.dom().contains(k) && !allowed.contains(k)
}

/// `k` is the unknown key of `m` that sorts first.
pub open spec fn least_unknown(m: Map<Seq<char>, JsonView>, allowed: Seq<Seq<char>>, k: Seq<char>) -> bool {
    &&& unknown_key(m, allowed, k)
    &&& forall|x: Seq<char>| #[trigger] unknown_key(m, allowed, x) && x != k ==> text_less(k, x)
}

/// The message that rejects the unknown field `k`.
pub open spec fn unknown_field_text(k: Seq<char>, allowed: Seq<Seq<char>>) -> Seq<char> {
    if allowed.len() == 0 {
        "unknown field `"@ + k + "`; no parameters are supported"@
    } else {
        "unknown field `"@ + k + "`; expected one of "@ + joined(allowed, ", "@)
    }
}

/// What checking the keys of `m` against `allowed` reports: keys are read
/// in sorted order, so the message names the unknown key that sorts first.
pub open spec fn unknown_field_violation(m: Map<Seq<char>, JsonView>, allowed: Seq<Seq<char>>) -> Option<Seq<char>> {
    if exists|k: Seq<char>| unknown_key(m, allowed, k) {
        Some(unknown_field_text(choose|k: Seq<char>| least_unknown(m, allowed, k), allowed))
    } else {
        None
    }
}

/// Two least unknown keys are the same key.
proof fn lemma_least_unknown_unique(m: Map<Seq<char>, JsonView>, allowed: Seq<Seq<char>>, a: Seq<char>, b: Seq<char>)
    requires
        least_unknown(m, allowed, a),
        least_unknown(m, allowed, b),
    ensures
        a == b,
{
    if a != b {
        assert(unknown_key(m, allowed, b));
        assert(unknown_key(m, allowed, a));
        lemma_text_less_order(a, b, a);
    }
}

/// Whether `allowed` lists `key`.
fn listed(allowed: &[&str], key: &str) -> (r: bool)
    ensures
        r == names(allowed@).contains(key@),
{
    let mut i: usize = 0;
    while i < allowed.len()
        invariant
            i <= allowed@.len(),
            forall|j: int| 0 <= j < i ==> (#[trigger] allowed@[j])@ != key@,
        decreases allowed@.len() - i,
    {
        if str_eq(allowed[i], key) {
            assert(names(allowed@)[i as int] == key@);
            return true;
        }
        i += 1;
    }
    proof {
        if names(allowed@).contains(key@) {
            let j = choose|j: int| 0 <= j < names(allowed@).len() && names(allowed@)[j] == key@;
            assert(allowed@[j]@ == key@);
        }
    }
    false
}

/// The names of `allowed` joined with `sep`.
pub fn join_names(allowed: &[&str], sep: &str) -> (r: String)
    ensures
        r@ == joined(names(allowed@), sep@),
{
    let ghost t = names(allowed@);
    let mut out = String::new();
    let mut i: usize = 0;
    while i < allowed.len()
        invariant
            t == names(allowed@),
            i <= allowed@.len(),
            out@ == joined(t.take(i as int), sep@),
        decreases allowed@.len() - i,
    {
        if i > 0 {
            out = out.concat(sep);
        }
        out = out.concat(allowed[i]);
        proof {
            assert(t.take(i + 1).drop_last() =~= t.take(i as int));
            assert(t[i as int] == allowed@[i as int]@);
            if i == 0 {
                assert(out@ =~= t.take(1)[0]);
            }
        }
        i += 1;
    }
    assert(t.take(allowed@.len() as int) =~= t);
    out
}

/// Rejects a key of the object `entries` that `allowed` does not list,
/// naming the one that sorts first.
pub fn reject_unknown_fields(entries: &Vec<(String, JsonValue)>, allowed: &[&str]) -> (r: Result<
    (),
    String,
>)
    ensures
        match unknown_field_violation(entries_view(entries@), names(allowed@)) {
            Some(m) => r matches Err(e) && e@ == m,
            None => r is Ok,
        },
{
    let ghost o = entries@;
    let ghost al = names(allowed@);
    let mut best: Option<usize> = None;
    let mut i: usize = 0;
    while i < entries.len()
        invariant
            o == entries@,
            al == names(allowed@),
            i <= o.len(),
            match best {
                None => forall|j: int| 0 <= j < i ==> al.contains((#[trigger] o[j]).0@),
                Some(b) => {
                    &&& b < i
                    &&& !al.contains(o[b as int].0@)
                    &&& forall|j: int|
                        0 <= j < i && !al.contains((#[trigger] o[j]).0@) && o[j].0@ != o[b as int].0@ ==> text_less(
                            o[b as int].0@,
                            o[j].0@,
                        )
                },
            },
        decreases o.len() - i,
    {
        if !listed(allowed, entries[i].0.as_str()) {
            match best {
                None => {
                    best = Some(i);
                },
                Some(b) => {
                    if str_less(entries[i].0.as_str(), entries[b].0.as_str()) {
                        proof {
                            assert forall|j: int|
                                0 <= j < i + 1 && !al.contains((#[trigger] o[j]).0@) && o[j].0@ != o[i as int].0@
                                    implies text_less(o[i as int].0@, o[j].0@) by {
                                if j < i && o[j].0@ != o[b as int].0@ {
                                    lemma_text_less_order(o[i as int].0@, o[b as int].0@, o[j].0@);
                                }
                            }
                        }
                        best = Some(i);
                    } else {
                        proof {
                            if o[i as int].0@ != o[b as int].0@ {
                                lemma_text_less_order(o[i as int].0@, o[b as int].0@, o[i as int].0@);
                            }
                        }
                    }
                },
            }
        }
        i += 1;
    }
    let ghost m = entries_view(o);
    match best {
        None => {
            proof {
                assert forall|k: Seq<char>| !unknown_key(m, al, k) by {
                    if m.dom().contains(k) {
                        assert(has_key(o, k));
                        let j = choose|j: int| 0 <= j < o.len() && (#[trigger] o[j]).0@ == k;
                        assert(al.contains(o[j].0@));
                    }
                }
            }
            Ok(())
        },
        Some(b) => {
            let ghost k = o[b as int].0@;
            proof {
                assert(has_key(o, k));
                assert(unknown_key(m, al, k));
                assert forall|x: Seq<char>| #[trigger] unknown_key(m, al, x) && x != k implies text_less(k, x) by {
                    assert(has_key(o, x));
                    let j = choose|j: int| 0 <= j < o.len() && (#[trigger] o[j]).0@ == x;
                    assert(!al.contains(o[j].0@));
                }
                assert(least_unknown(m, al, k));
                let c = choose|c: Seq<char>| least_unknown(m, al, c);
                lemma_least_unknown_unique(m, al, k, c);
            }
            let mut msg = "unknown field `".to_string().concat(entries[b].0.as_str());
            if allowed.len() == 0 {
                msg = msg.concat("`; no parameters are supported");
            } else {
                msg = msg.concat("`; expected one of ");
                let list = join_names(allowed, ", ");
                msg = msg.concat(list.as_str());
            }
            proof {
                if al.len() == 0 {
                    assert(msg@ =~= unknown_field_text(k, al));
                } else {
                    assert(msg@ =~= unknown_field_text(k, al));
                }
            }
            Err(msg)
        },
    }
}

/// The value of `key` in `m`, if it has one.
pub open spec fn field(m: Map<Seq<char>, JsonView>, key: Seq<char>) -> Option<JsonView> {
    if m.dom().contains(key) {
        Some(m[key])
    } else {
        None
    }
}

/// `r` carries what `s` says: the same value, or an error with that message.
pub open spec fn reads<T>(r: Result<T, String>, s: Result<T, Seq<char>>) -> bool {
    match s {
        Ok(v) => r == Ok::<T, String>(v),
        Err(m) => r matches Err(e) && e@ == m,
    }
}

/// The entry `last_entry_of` finds is the value of the key in the object.
proof fn lemma_found(o: Seq<(String, JsonValue)>, key: Seq<char>, r: Option<usize>)
    requires
        match r {
            Some(i) => last_entry(o, key, i as int),
            None => !has_key(o, key),
        },
    ensures
        field(entries_view(o), key) == match r {
            Some(i) => Some(o[i as int].1@),
            None => None::<JsonView>,
        },
{
    if let Some(i) = r {
        assert(has_key(o, key));
        let c = choose|c: int| last_entry(o, key, c);
        lemma_last_entry_unique(o, key, i as int, c);
    }
}

/// The entry of `key` in `entries`, as the object reads it.
pub fn get_field<'a>(entries: &'a Vec<(String, JsonValue)>, key: &str) -> (r: Option<&'a JsonValue>)
    ensures
        field(entries_view(entries@), key@) == match r {
            Some(v) => Some(v@),
            None => None::<JsonView>,
        },
{
    let found = last_entry_of(entries, key);
    proof {
        lemma_found(entries@, key@, found);
    }
    match found {
        Some(i) => Some(&entries[i].1),
        None => None,
    }
}

/// The message `field <key> <tail>`.
pub fn field_message(key: &str, tail: &str) -> (r: String)
    ensures
        r@ == "field "@ + key@ + tail@,
{
    let r = "field ".to_string().concat(key).concat(tail);
    assert(r@ =~= "field "@ + key@ + tail@);
    r
}

/// The `u64` of a JSON value, as `serde_json::Value::as_u64` gives it.
pub fn as_u64(v: &JsonValue) -> (r: Option<u64>)
    ensures
        match as_u64_view(v@) {
            Some(n) => r == Some(n as u64),
            None => r is None,
        },
{
    match v {
        JsonValue::Number(t) => number_u64(t.as_str()),
        _ => None,
    }
}

/// A non-negative integer field that fits `usize`; `default` where absent.
pub open spec fn usize_field(m: Map<Seq<char>, JsonView>, key: Seq<char>, default: usize) -> Result<usize, Seq<char>> {
    match field(m, key) {
        None => Ok(default),
        Some(v) => match as_u64_view(v) {
            None => Err("field "@ + key + " must be a non-negative integer"@),
            Some(n) => if n <= usize::MAX {
                Ok(n as usize)
            } else {
                Err("field "@ + key + " overflow"@)
            },
        },
    }
}

/// Reads a non-negative integer field that fits `usize`.
pub fn read_usize(entries: &Vec<(String, JsonValue)>, key: &str, default: usize) -> (r: Result<usize, String>)
    ensures
        reads(r, usize_field(entries_view(entries@), key@, default)),
{
    match get_field(entries, key) {
        None => Ok(default),
        Some(v) => match as_u64(v) {
            None => Err(field_message(key, " must be a non-negative integer")),
            Some(n) => if n <= usize::MAX as u64 {
                Ok(n as usize)
            } else {
                Err(field_message(key, " overflow"))
            },
        },
    }
}

/// An integer field that fits `u8`; `default` where absent.
pub open spec fn u8_field(m: Map<Seq<char>, JsonView>, key: Seq<char>, default: u8) -> Result<u8, Seq<char>> {
    match field(m, key) {
        None => Ok(default),
        Some(v) => match as_u64_view(v) {
            None => Err("field "@ + key + " must be an integer"@),
            Some(n) => if n <= u8::MAX {
                Ok(n as u8)
            } else {
                Err("field "@ + key + " overflow"@)
            },
        },
    }
}

/// Reads an integer field that fits `u8`.
pub fn read_u8(entries: &Vec<(String, JsonValue)>, key: &str, default: u8) -> (r: Result<u8, String>)
    ensures
        reads(r, u8_field(entries_view(entries@), key@, default)),
{
    match get_field(entries, key) {
        None => Ok(default),
        Some(v) => match as_u64(v) {
            None => Err(field_message(key, " must be an integer")),
            Some(n) => if n <= 255 {
                Ok(n as u8)
            } else {
                Err(field_message(key, " overflow"))
            },
        },
    }
}

/// A boolean field; `default` where absent.
pub open spec fn bool_field(m: Map<Seq<char>, JsonView>, key: Seq<char>, default: bool) -> Result<bool, Seq<char>> {
    match field(m, key) {
        None => Ok(default),
        Some(JsonView::Bool(b)) => Ok(b),
        Some(_) => Err("field "@ + key + " must be a boolean"@),
    }
}

/// Reads a boolean field.
pub fn read_bool(entries: &Vec<(String, JsonValue)>, key: &str, default: bool) -> (r: Result<bool, String>)
    ensures
        reads(r, bool_field(entries_view(entries@), key@, default)),
{
    match get_field(entries, key) {
        None => Ok(default),
        Some(JsonValue::Bool(b)) => Ok(*b),
        Some(_) => Err(field_message(key, " must be a boolean")),
    }
}

/// The dimensions an array lists; the first item that is not an unsigned
/// integer fitting `usize` decides the error.
pub open spec fn dims_of(items: Seq<JsonView>, key: Seq<char>) -> Result<Seq<usize>, Seq<char>>
    decreases items.len(),
{
    if items.len() == 0 {
        Ok(Seq::empty())
    } else {
        match dims_of(items.drop_last(), key) {
            Err(e) => Err(e),
            Ok(d) => match as_u64_view(items.last()) {
                None => Err("field "@ + key + " must contain integers"@),
                Some(n) => if n <= usize::MAX {
                    Ok(d.push(n as usize))
                } else {
                    Err("field "@ + key + " overflow"@)
                },
            },
        }
    }
}

/// An array of dimensions; `default` where absent.
pub open spec fn shape_field(m: Map<Seq<char>, JsonView>, key: Seq<char>, default: Seq<usize>) -> Result<
    Seq<usize>,
    Seq<char>,
> {
    match field(m, key) {
        None => Ok(default),
        Some(JsonView::Array(items)) => dims_of(items, key),
        Some(_) => Err("field "@ + key + " must be an array"@),
    }
}

/// Reads an array of dimensions.
pub fn read_shape(entries: &Vec<(String, JsonValue)>, key: &str, default: &Vec<usize>) -> (r: Result<
    Vec<usize>,
    String,
>)
    ensures
        match shape_field(entries_view(entries@), key@, default@) {
            Ok(d) => r matches Ok(v) && v@ == d,
            Err(m) => r matches Err(e) && e@ == m,
        },
{
    match get_field(entries, key) {
        None => Ok(default.clone()),
        Some(found) => {
            let items = match found {
                JsonValue::Array(items) => items,
                _ => {
                    return Err(field_message(key, " must be an array"));
                },
            };
            let ghost views = json_items(items@);
            proof {
                assert(found@->Array_0 =~= views);
            }
            let mut dims: Vec<usize> = Vec::new();
            let mut i: usize = 0;
            while i < items.len()
                invariant
                    views == json_items(items@),
                    field(entries_view(entries@), key@) == Some(JsonView::Array(views)),
                    i <= items@.len(),
                    dims_of(views.take(i as int), key@) == Ok::<Seq<usize>, Seq<char>>(dims@),
                decreases items@.len() - i,
            {
                proof {
                    assert(views.take(i + 1).drop_last() =~= views.take(i as int));
                    assert(views.take(i + 1).last() == items@[i as int]@);
                }
                match as_u64(&items[i]) {
                    None => {
                        proof {
                            lemma_dims_prefix_error(views, key@, i + 1);
                        }
                        return Err(field_message(key, " must contain integers"));
                    },
                    Some(n) => {
                        if n > usize::MAX as u64 {
                            proof {
                                lemma_dims_prefix_error(views, key@, i + 1);
                            }
                            return Err(field_message(key, " overflow"));
                        }
                        dims.push(n as usize);
                    },
                }
                i += 1;
            }
            assert(views.take(items@.len() as int) =~= views);
            Ok(dims)
        },
    }
}

/// The views of the items of an array.
pub open spec fn json_items(a: Seq<JsonValue>) -> Seq<JsonView> {
    Seq::new(a.len(), |i: int| if 0 <= i < a.len() { crate::graph::json::json_view(a[i]) } else { JsonView::Null })
}

/// An error among the first `i` items is the error of the whole array.
proof fn lemma_dims_prefix_error(items: Seq<JsonView>, key: Seq<char>, i: int)
    requires
        0 <= i <= items.len(),
        dims_of(items.take(i), key) is Err,
    ensures
        dims_of(items, key) == dims_of(items.take(i), key),
    decreases items.len() - i,
{
    if i < items.len() {
        assert(items.take(i + 1).drop_last() =~= items.take(i));
        lemma_dims_prefix_error(items, key, i + 1);
    } else {
        assert(items.take(i) =~= items);
    }
}

/// The data type a name selects among those the built-in elements accept.
pub open spec fn dtype_named(name: Seq<char>) -> Option<DataType> {
    if name == "f32"@ {
        Some(DataType::spec_F32())
    } else if name == "f16"@ {
        Some(DataType::spec_F16())
    } else if name == "bf16"@ {
        Some(DataType::spec_BF16())
    } else if name == "u8"@ {
        Some(DataType::spec_U8())
    } else if name == "i8"@ {
        Some(DataType::spec_I8())
    } else if name == "u16"@ {
        Some(DataType::spec_U16())
    } else if name == "i16"@ {
        Some(DataType::spec_I16())
    } else {
        None
    }
}

/// A data type field; `None` where absent.
pub open spec fn dtype_field(m: Map<Seq<char>, JsonView>, key: Seq<char>) -> Result<Option<DataType>, Seq<char>> {
    match field(m, key) {
        None => Ok(None),
        Some(JsonView::Str(name)) => match dtype_named(name) {
            Some(d) => Ok(Some(d)),
            None => Err("unsupported dtype: "@ + name),
        },
        Some(_) => Err("field "@ + key + " must be a string"@),
    }
}

/// Reads a data type field.
pub fn read_dtype(entries: &Vec<(String, JsonValue)>, key: &str) -> (r: Result<Option<DataType>, String>)
    ensures
        reads(r, dtype_field(entries_view(entries@), key@)),
{
    match get_field(entries, key) {
        None => Ok(None),
        Some(JsonValue::Str(name)) => {
            let n = name.as_str();
            if str_eq(n, "f32") {
                Ok(Some(DataType::F32()))
            } else if str_eq(n, "f16") {
                Ok(Some(DataType::F16()))
            } else if str_eq(n, "bf16") {
                Ok(Some(DataType::BF16()))
            } else if str_eq(n, "u8") {
                Ok(Some(DataType::U8()))
            } else if str_eq(n, "i8") {
                Ok(Some(DataType::I8()))
            } else if str_eq(n, "u16") {
                Ok(Some(DataType::U16()))
            } else if str_eq(n, "i16") {
                Ok(Some(DataType::I16()))
            } else {
                Err("unsupported dtype: ".to_string().concat(n))
            }
        },
        Some(_) => Err(field_message(key, " must be a string")),
    }
}

/// The layout a name selects.
pub open spec fn format_named(name: Seq<char>) -> Option<DataFormat> {
    if name == "auto"@ {
        Some(DataFormat::Auto)
    } else if name == "nchw"@ {
        Some(DataFormat::NCHW)
    } else if name == "nhwc"@ {
        Some(DataFormat::NHWC)
    } else if name == "nc"@ {
        Some(DataFormat::NC)
    } else if name == "n"@ {
        Some(DataFormat::N)
    } else if name == "nc4hw"@ {
        Some(DataFormat::NC4HW)
    } else if name == "nc8hw"@ {
        Some(DataFormat::NC8HW)
    } else if name == "ncdhw"@ {
        Some(DataFormat::NCDHW)
    } else if name == "oihw"@ {
        Some(DataFormat::OIHW)
    } else {
        None
    }
}

/// A layout field; `None` where absent.
pub open spec fn format_field(m: Map<Seq<char>, JsonView>, key: Seq<char>) -> Result<Option<DataFormat>, Seq<char>> {
    match field(m, key) {
        None => Ok(None),
        Some(JsonView::Str(name)) => match format_named(name) {
            Some(f) => Ok(Some(f)),
            None => Err("unsupported format: "@ + name),
        },
        Some(_) => Err("field "@ + key + " must be a string"@),
    }
}

/// Reads a layout field.
pub fn read_format(entries: &Vec<(String, JsonValue)>, key: &str) -> (r: Result<Option<DataFormat>, String>)
    ensures
        reads(r, format_field(entries_view(entries@), key@)),
{
    match get_field(entries, key) {
        None => Ok(None),
        Some(JsonValue::Str(name)) => {
            let n = name.as_str();
            if str_eq(n, "auto") {
                Ok(Some(DataFormat::Auto))
            } else if str_eq(n, "nchw") {
                Ok(Some(DataFormat::NCHW))
            } else if str_eq(n, "nhwc") {
                Ok(Some(DataFormat::NHWC))
            } else if str_eq(n, "nc") {
                Ok(Some(DataFormat::NC))
            } else if str_eq(n, "n") {
                Ok(Some(DataFormat::N))
            } else if str_eq(n, "nc4hw") {
                Ok(Some(DataFormat::NC4HW))
            } else if str_eq(n, "nc8hw") {
                Ok(Some(DataFormat::NC8HW))
            } else if str_eq(n, "ncdhw") {
                Ok(Some(DataFormat::NCDHW))
            } else if str_eq(n, "oihw") {
                Ok(Some(DataFormat::OIHW))
            } else {
                Err("unsupported format: ".to_string().concat(n))
            }
        },
        Some(_) => Err(field_message(key, " must be a string")),
    }
}

/// A number field, by its text; `None` where absent.
pub open spec fn number_field(m: Map<Seq<char>, JsonView>, key: Seq<char>) -> Result<Option<Seq<char>>, Seq<char>> {
    match field(m, key) {
        None => Ok(None),
        Some(JsonView::Number(t)) => Ok(Some(t)),
        Some(_) => Err("field "@ + key + " must be a number"@),
    }
}

/// Reads a number field, giving its text.
pub fn read_number(entries: &Vec<(String, JsonValue)>, key: &str) -> (r: Result<Option<String>, String>)
    ensures
        match number_field(entries_view(entries@), key@) {
            Ok(None) => r == Ok::<Option<String>, String>(None),
            Ok(Some(t)) => r matches Ok(Some(x)) && x@ == t,
            Err(m) => r matches Err(e) && e@ == m,
        },
{
    match get_field(entries, key) {
        None => Ok(None),
        Some(JsonValue::Number(t)) => Ok(Some(t.clone())),
        Some(_) => Err(field_message(key, " must be a number")),
    }
}

/// The fields of a node's `params`, which must be an object.
pub open spec fn params_object(name: Seq<char>, v: JsonView) -> Result<Map<Seq<char>, JsonView>, Seq<char>> {
    match v {
        JsonView::Object(m) => Ok(m),
        _ => Err("node "@ + name + " params must be an object"@),
    }
}

/// The entries of a node's `params`, which must be an object.
pub fn params_entries<'a>(name: &str, params: &'a JsonValue) -> (r: Result<&'a Vec<(String, JsonValue)>, String>)
    ensures
        match params_object(name@, params@) {
            Ok(m) => r matches Ok(o) && entries_view(o@) == m,
            Err(e) => r matches Err(x) && x@ == e,
        },
{
    match params {
        JsonValue::Object(o) => {
            proof {
                lemma_object_view(*params);
            }
            Ok(o)
        },
        _ => {
            let r = "node ".to_string().concat(name).concat(" params must be an object");
            assert(r@ =~= "node "@ + name@ + " params must be an object"@);
            Err(r)
        },
    }
}

/// The fields a `source` node takes.
pub open spec fn source_fields() -> Seq<Seq<char>> {
    seq!["count"@, "shape"@, "dtype"@, "format"@, "start"@]
}

/// The fields a `mock_inference` node takes.
pub open spec fn mock_inference_fields() -> Seq<Seq<char>> {
    seq!["shape"@, "output_shape"@, "dtype"@, "output_dtype"@, "echo_inputs"@, "fill_value"@]
}

fn source_field_names() -> (r: &'static [&'static str])
    ensures
        names(r@) == source_fields(),
{
    let r: &'static [&'static str] = &["count", "shape", "dtype", "format", "start"];
    assert(names(r@) =~= source_fields());
    r
}

fn mock_inference_field_names() -> (r: &'static [&'static str])
    ensures
        names(r@) == mock_inference_fields(),
{
    let r: &'static [&'static str] = &["shape", "output_shape", "dtype", "output_dtype", "echo_inputs", "fill_value"];
    assert(names(r@) =~= mock_inference_fields());
    r
}

/// The shape an element uses when none is given: one row of four values.
pub open spec fn default_dims() -> Seq<usize> {
    seq![1usize, 4usize]
}

/// The settings of a `source` node. `start`, the first value it emits, is
/// kept as the text of the number given.
pub struct SourceParams {
    pub count: usize,
    pub shape: Vec<usize>,
    pub dtype: DataType,
    pub format: DataFormat,
    pub start: Option<String>,
}

pub struct SourceParamsView {
    pub count: usize,
    pub shape: Seq<usize>,
    pub dtype: DataType,
    pub format: DataFormat,
    pub start: Option<Seq<char>>,
}

impl View for SourceParams {
    type V = SourceParamsView;

    open spec fn view(&self) -> SourceParamsView {
        SourceParamsView {
            count: self.count,
            shape: self.shape@,
            dtype: self.dtype,
            format: self.format,
            start: match self.start {
                Some(t) => Some(t@),
                None => None,
            },
        }
    }
}

/// What a `source` node's `params` give, read in this order: no unknown
/// field; `count` (default 1); `shape` (default `[1, 4]`); `dtype`
/// (default `f32`); `format` (default `nc`); `start`, a number.
pub open spec fn source_params(name: Seq<char>, v: JsonView) -> Result<SourceParamsView, Seq<char>> {
    match params_object(name, v) {
        Err(e) => Err(e),
        Ok(m) => match unknown_field_violation(m, source_fields()) {
            Some(e) => Err(e),
            None => match usize_field(m, "count"@, 1) {
                Err(e) => Err(e),
                Ok(count) => match shape_field(m, "shape"@, default_dims()) {
                    Err(e) => Err(e),
                    Ok(shape) => match dtype_field(m, "dtype"@) {
                        Err(e) => Err(e),
                        Ok(dtype) => match format_field(m, "format"@) {
                            Err(e) => Err(e),
                            Ok(format) => match number_field(m, "start"@) {
                                Err(e) => Err(e),
                                Ok(start) => Ok(
                                    SourceParamsView {
                                        count,
                                        shape,
                                        dtype: match dtype {
                                            Some(d) => d,
                                            None => DataType::spec_F32(),
                                        },
                                        format: match format {
                                            Some(f) => f,
                                            None => DataFormat::NC,
                                        },
                                        start,
                                    },
                                ),
                            },
                        },
                    },
                },
            },
        },
    }
}

/// Reads the settings of a `source` node.
pub fn parse_source(name: &str, params: &JsonValue) -> (r: Result<SourceParams, String>)
    ensures
        match source_params(name@, params@) {
            Ok(p) => r matches Ok(x) && x@ == p,
            Err(e) => r matches Err(x) && x@ == e,
        },
{
    let entries = match params_entries(name, params) {
        Ok(o) => o,
        Err(e) => {
            return Err(e);
        },
    };
    match reject_unknown_fields(entries, source_field_names()) {
        Ok(()) => {},
        Err(e) => {
            return Err(e);
        },
    }
    let count = match read_usize(entries, "count", 1) {
        Ok(c) => c,
        Err(e) => {
            return Err(e);
        },
    };
    let default_shape: Vec<usize> = vec![1, 4];
    assert(default_shape@ =~= default_dims());
    let shape = match read_shape(entries, "shape", &default_shape) {
        Ok(s) => s,
        Err(e) => {
            return Err(e);
        },
    };
    let dtype = match read_dtype(entries, "dtype") {
        Ok(Some(d)) => d,
        Ok(None) => DataType::F32(),
        Err(e) => {
            return Err(e);
        },
    };
    let format = match read_format(entries, "format") {
        Ok(Some(f)) => f,
        Ok(None) => DataFormat::NC,
        Err(e) => {
            return Err(e);
        },
    };
    let start = match read_number(entries, "start") {
        Ok(s) => s,
        Err(e) => {
            return Err(e);
        },
    };
    Ok(SourceParams { count, shape, dtype, format, start })
}

/// The settings of a `mock_inference` node.
pub struct MockInferenceParams {
    pub shape: Vec<usize>,
    pub output_shape: Vec<usize>,
    pub dtype: DataType,
    pub output_dtype: DataType,
    pub echo_inputs: bool,
    pub fill_value: u8,
}

pub struct MockInferenceParamsView {
    pub shape: Seq<usize>,
    pub output_shape: Seq<usize>,
    pub dtype: DataType,
    pub output_dtype: DataType,
    pub echo_inputs: bool,
    pub fill_value: u8,
}

impl View for MockInferenceParams {
    type V = MockInferenceParamsView;

    open spec fn view(&self) -> MockInferenceParamsView {
        MockInferenceParamsView {
            shape: self.shape@,
            output_shape: self.output_shape@,
            dtype: self.dtype,
            output_dtype: self.output_dtype,
            echo_inputs: self.echo_inputs,
            fill_value: self.fill_value,
        }
    }
}

/// What a `mock_inference` node's `params` give, read in this order: no
/// unknown field; `shape` (default `[1, 4]`); `output_shape` (default the
/// input shape); `dtype` (default `f32`); `output_dtype` (default the input
/// type); `echo_inputs` (default true); `fill_value` (default 0).
pub open spec fn mock_inference_params(name: Seq<char>, v: JsonView) -> Result<MockInferenceParamsView, Seq<char>> {
    match params_object(name, v) {
        Err(e) => Err(e),
        Ok(m) => match unknown_field_violation(m, mock_inference_fields()) {
            Some(e) => Err(e),
            None => match shape_field(m, "shape"@, default_dims()) {
                Err(e) => Err(e),
                Ok(shape) => match shape_field(m, "output_shape"@, shape) {
                    Err(e) => Err(e),
                    Ok(output_shape) => match dtype_field(m, "dtype"@) {
                        Err(e) => Err(e),
                        Ok(d) => {
                            let dtype = match d {
                                Some(x) => x,
                                None => DataType::spec_F32(),
                            };
                            match dtype_field(m, "output_dtype"@) {
                                Err(e) => Err(e),
                                Ok(od) => match bool_field(m, "echo_inputs"@, true) {
                                    Err(e) => Err(e),
                                    Ok(echo_inputs) => match u8_field(m, "fill_value"@, 0) {
                                        Err(e) => Err(e),
                                        Ok(fill_value) => Ok(
                                            MockInferenceParamsView {
                                                shape,
                                                output_shape,
                                                dtype,
                                                output_dtype: match od {
                                                    Some(x) => x,
                                                    None => dtype,
                                                },
                                                echo_inputs,
                                                fill_value,
                                            },
                                        ),
                                    },
                                },
                            }
                        },
                    },
                },
            },
        },
    }
}

/// Reads the settings of a `mock_inference` node.
pub fn parse_mock_inference(name: &str, params: &JsonValue) -> (r: Result<MockInferenceParams, String>)
    ensures
        match mock_inference_params(name@, params@) {
            Ok(p) => r matches Ok(x) && x@ == p,
            Err(e) => r matches Err(x) && x@ == e,
        },
{
    let entries = match params_entries(name, params) {
        Ok(o) => o,
        Err(e) => {
            return Err(e);
        },
    };
    match reject_unknown_fields(entries, mock_inference_field_names()) {
        Ok(()) => {},
        Err(e) => {
            return Err(e);
        },
    }
    let default_shape: Vec<usize> = vec![1, 4];
    assert(default_shape@ =~= default_dims());
    let shape = match read_shape(entries, "shape", &default_shape) {
        Ok(s) => s,
        Err(e) => {
            return Err(e);
        },
    };
    let output_shape = match read_shape(entries, "output_shape", &shape) {
        Ok(s) => s,
        Err(e) => {
            return Err(e);
        },
    };
    let dtype = match read_dtype(entries, "dtype") {
        Ok(Some(d)) => d,
        Ok(None) => DataType::F32(),
        Err(e) => {
            return Err(e);
        },
    };
    let output_dtype = match read_dtype(entries, "output_dtype") {
        Ok(Some(d)) => d,
        Ok(None) => dtype,
        Err(e) => {
            return Err(e);
        },
    };
    let echo_inputs = match read_bool(entries, "echo_inputs", true) {
        Ok(b) => b,
        Err(e) => {
            return Err(e);
        },
    };
    let fill_value = match read_u8(entries, "fill_value", 0) {
        Ok(v) => v,
        Err(e) => {
            return Err(e);
        },
    };
    Ok(MockInferenceParams { shape, output_shape, dtype, output_dtype, echo_inputs, fill_value })
}

/// What a kind checks of its nodes' `params` when a graph is loaded.
#[derive(Clone, Copy, Debug, PartialEq, Eq, Structural)]
pub enum ParamCheck {
    /// No parameters: `params` is absent (null) or an empty object.
    NoParams,
    /// The settings of a `source` node.
    Source,
    /// The settings of a `mock_inference` node.
    MockInference,
    /// The strategy of a `distributor` node.
    Distributor,
    /// The mode of a `filter` node.
    Filter,
    /// The target of an `http_push` node.
    HttpPush,
    /// The frame geometry of a `media_decode` node.
    MediaDecode,
    /// The target size of a `media_resize` node.
    MediaResize,
    /// The overlay of a `media_osd` node.
    MediaOsd,
}

/// The message with which `check` rejects `params` of node `name`, if it does.
pub open spec fn param_violation(check: ParamCheck, name: Seq<char>, params: JsonView) -> Option<Seq<char>> {
    match check {
        ParamCheck::NoParams => match params {
            JsonView::Null => None,
            _ => match params_object(name, params) {
                Err(e) => Some(e),
                Ok(m) => unknown_field_violation(m, Seq::empty()),
            },
        },
        ParamCheck::Source => match source_params(name, params) {
            Err(e) => Some(e),
            Ok(_) => None,
        },
        ParamCheck::MockInference => match mock_inference_params(name, params) {
            Err(e) => Some(e),
            Ok(_) => None,
        },
        ParamCheck::Distributor => match distributor_params(name, params) {
            Err(e) => Some(e),
            Ok(_) => None,
        },
        ParamCheck::Filter => match filter_params(name, params) {
            Err(e) => Some(e),
            Ok(_) => None,
        },
        ParamCheck::HttpPush => match http_push_params(name, params) {
            Err(e) => Some(e),
            Ok(_) => None,
        },
        ParamCheck::MediaDecode => match decode_params(name, params) {
            Err(e) => Some(e),
            Ok(_) => None,
        },
        ParamCheck::MediaResize => match resize_params(name, params) {
            Err(e) => Some(e),
            Ok(_) => None,
        },
        ParamCheck::MediaOsd => match osd_params(name, params) {
            Err(e) => Some(e),
            Ok(_) => None,
        },
    }
}

/// Runs `check` on the `params` of node `name`.
pub fn check_params(check: ParamCheck, name: &str, params: &JsonValue) -> (r: Result<(), String>)
    ensures
        match param_violation(check, name@, params@) {
            Some(e) => r matches Err(x) && x@ == e,
            None => r is Ok,
        },
{
    match check {
        ParamCheck::NoParams => {
            if let JsonValue::Null = params {
                return Ok(());
            }
            let entries = match params_entries(name, params) {
                Ok(o) => o,
                Err(e) => {
                    return Err(e);
                },
            };
            let none: &[&str] = &[];
            assert(names(none@) =~= Seq::<Seq<char>>::empty());
            reject_unknown_fields(entries, none)
        },
        ParamCheck::Source => match parse_source(name, params) {
            Ok(_) => Ok(()),
            Err(e) => Err(e),
        },
        ParamCheck::MockInference => match parse_mock_inference(name, params) {
            Ok(_) => Ok(()),
            Err(e) => Err(e),
        },
        ParamCheck::Distributor => match parse_distributor(name, params) {
            Ok(_) => Ok(()),
            Err(e) => Err(e),
        },
        ParamCheck::Filter => match parse_filter(name, params) {
            Ok(_) => Ok(()),
            Err(e) => Err(e),
        },
        ParamCheck::HttpPush => match parse_http_push(name, params) {
            Ok(_) => Ok(()),
            Err(e) => Err(e),
        },
        ParamCheck::MediaDecode => match parse_decode(name, params) {
            Ok(_) => Ok(()),
            Err(e) => Err(e),
        },
        ParamCheck::MediaResize => match parse_resize(name, params) {
            Ok(_) => Ok(()),
            Err(e) => Err(e),
        },
        ParamCheck::MediaOsd => match parse_osd(name, params) {
            Ok(_) => Ok(()),
            Err(e) => Err(e),
        },
    }
}

/// A non-negative integer field that fits `usize`, if present.
pub open spec fn opt_usize_field(m: Map<Seq<char>, JsonView>, key: Seq<char>) -> Result<Option<usize>, Seq<char>> {
    match field(m, key) {
        None => Ok(None),
        Some(v) => match as_u64_view(v) {
            None => Err("field "@ + key + " must be a non-negative integer"@),
            Some(n) => if n <= usize::MAX {
                Ok(Some(n as usize))
            } else {
                Err("field "@ + key + " overflow"@)
            },
        },
    }
}

/// Reads a non-negative integer field that fits `usize`, if present.
pub fn read_opt_usize(entries: &Vec<(String, JsonValue)>, key: &str) -> (r: Result<Option<usize>, String>)
    ensures
        reads(r, opt_usize_field(entries_view(entries@), key@)),
{
    match get_field(entries, key) {
        None => Ok(None),
        Some(v) => match as_u64(v) {
            None => Err(field_message(key, " must be a non-negative integer")),
            Some(n) => if n <= usize::MAX as u64 {
                Ok(Some(n as usize))
            } else {
                Err(field_message(key, " overflow"))
            },
        },
    }
}

/// A string field that must be one of `choices`; `default` where absent.
pub open spec fn choice_field(
    m: Map<Seq<char>, JsonView>,
    key: Seq<char>,
    default: Seq<char>,
    choices: Seq<Seq<char>>,
) -> Result<Seq<char>, Seq<char>> {
    let given = match field(m, key) {
        None => Ok(default),
        Some(JsonView::Str(s)) => Ok(s),
        Some(_) => Err("field "@ + key + " must be a string"@),
    };
    match given {
        Err(e) => Err(e),
        Ok(s) => if choices.contains(s) {
            Ok(s)
        } else {
            Err("field "@ + key + " must be one of "@ + joined(choices, ", "@) + "; got "@ + s)
        },
    }
}

/// Reads a string field that must be one of `choices`; gives the position
/// of the choice.
pub fn read_choice(entries: &Vec<(String, JsonValue)>, key: &str, default: &str, choices: &[&str]) -> (r: Result<
    usize,
    String,
>)
    ensures
        match choice_field(entries_view(entries@), key@, default@, names(choices@)) {
            Ok(s) => r matches Ok(i) && i < choices@.len() && choices@[i as int]@ == s,
            Err(m) => r matches Err(e) && e@ == m,
        },
{
    let given: &str = match get_field(entries, key) {
        None => default,
        Some(JsonValue::Str(s)) => s.as_str(),
        Some(_) => {
            return Err(field_message(key, " must be a string"));
        },
    };
    let ghost m = entries_view(entries@);
    assert(match field(m, key@) {
        None => given@ == default@,
        Some(JsonView::Str(s)) => given@ == s,
        Some(_) => false,
    });
    let mut i: usize = 0;
    while i < choices.len()
        invariant
            m == entries_view(entries@),
            match field(m, key@) {
                None => given@ == default@,
                Some(JsonView::Str(s)) => given@ == s,
                Some(_) => false,
            },
            i <= choices@.len(),
            forall|j: int| 0 <= j < i ==> (#[trigger] choices@[j])@ != given@,
        decreases choices@.len() - i,
    {
        if str_eq(choices[i], given) {
            assert(names(choices@)[i as int] == given@);
            return Ok(i);
        }
        i += 1;
    }
    proof {
        if names(choices@).contains(given@) {
            let j = choose|j: int| 0 <= j < names(choices@).len() && names(choices@)[j] == given@;
            assert(choices@[j]@ == given@);
        }
    }
    let list = join_names(choices, ", ");
    let r = field_message(key, " must be one of ").concat(list.as_str()).concat("; got ").concat(given);
    assert(r@ =~= "field "@ + key@ + " must be one of "@ + joined(names(choices@), ", "@) + "; got "@ + given@);
    Err(r)
}

/// The bytes an array lists; the first item that is not an integer fitting
/// `u8` decides the error.
pub open spec fn bytes_of(items: Seq<JsonView>, key: Seq<char>) -> Result<Seq<u8>, Seq<char>>
    decreases items.len(),
{
    if items.len() == 0 {
        Ok(Seq::empty())
    } else {
        match bytes_of(items.drop_last(), key) {
            Err(e) => Err(e),
            Ok(d) => match as_u64_view(items.last()) {
                None => Err("field "@ + key + " must contain integers"@),
                Some(n) => if n <= u8::MAX {
                    Ok(d.push(n as u8))
                } else {
                    Err("field "@ + key + " overflow"@)
                },
            },
        }
    }
}

/// An array of bytes, if present.
pub open spec fn bytes_field(m: Map<Seq<char>, JsonView>, key: Seq<char>) -> Result<Option<Seq<u8>>, Seq<char>> {
    match field(m, key) {
        None => Ok(None),
        Some(JsonView::Array(items)) => match bytes_of(items, key) {
            Ok(b) => Ok(Some(b)),
            Err(e) => Err(e),
        },
        Some(_) => Err("field "@ + key + " must be an array"@),
    }
}

/// An error among the first `i` items is the error of the whole array.
proof fn lemma_bytes_prefix_error(items: Seq<JsonView>, key: Seq<char>, i: int)
    requires
        0 <= i <= items.len(),
        bytes_of(items.take(i), key) is Err,
    ensures
        bytes_of(items, key) == bytes_of(items.take(i), key),
    decreases items.len() - i,
{
    if i < items.len() {
        assert(items.take(i + 1).drop_last() =~= items.take(i));
        lemma_bytes_prefix_error(items, key, i + 1);
    } else {
        assert(items.take(i) =~= items);
    }
}

/// Reads an array of bytes, if present.
pub fn read_bytes(entries: &Vec<(String, JsonValue)>, key: &str) -> (r: Result<Option<Vec<u8>>, String>)
    ensures
        match bytes_field(entries_view(entries@), key@) {
            Ok(None) => r matches Ok(None),
            Ok(Some(b)) => r matches Ok(Some(v)) && v@ == b,
            Err(m) => r matches Err(e) && e@ == m,
        },
{
    match get_field(entries, key) {
        None => Ok(None),
        Some(found) => {
            let items = match found {
                JsonValue::Array(items) => items,
                _ => {
                    return Err(field_message(key, " must be an array"));
                },
            };
            let ghost views = json_items(items@);
            proof {
                assert(found@->Array_0 =~= views);
            }
            let mut out: Vec<u8> = Vec::new();
            let mut i: usize = 0;
            while i < items.len()
                invariant
                    views == json_items(items@),
                    field(entries_view(entries@), key@) == Some(JsonView::Array(views)),
                    i <= items@.len(),
                    bytes_of(views.take(i as int), key@) == Ok::<Seq<u8>, Seq<char>>(out@),
                decreases items@.len() - i,
            {
                proof {
                    assert(views.take(i + 1).drop_last() =~= views.take(i as int));
                    assert(views.take(i + 1).last() == items@[i as int]@);
                }
                match as_u64(&items[i]) {
                    None => {
                        proof {
                            lemma_bytes_prefix_error(views, key@, i + 1);
                        }
                        return Err(field_message(key, " must contain integers"));
                    },
                    Some(n) => {
                        if n > 255 {
                            proof {
                                lemma_bytes_prefix_error(views, key@, i + 1);
                            }
                            return Err(field_message(key, " overflow"));
                        }
                        out.push(n as u8);
                    },
                }
                i += 1;
            }
            assert(views.take(items@.len() as int) =~= views);
            Ok(Some(out))
        },
    }
}

} // verus!
