//! JSON values as graph configurations carry them (node parameters and
//! variables): a tree whose objects map keys to values.
use crate::graph::diff::{ascending, holds, sorted_distinct};
use crate::text::{
    count_matches, count_matches_exec, ends_with_char, lemma_text_less_order, replace, replace_spec, starts_with,
    starts_with_spec, str_eq, strip_prefixes, strip_suffix_chars, text_less, trim, trim_end_matches_char, trim_spec,
    trim_start_matches,
};
use vstd::prelude::*;

verus! {

/// A JSON value. Numbers keep the text they were written with; an object
/// lists its entries, and where a key occurs twice the later entry counts.
#[derive(Debug)]
pub enum JsonValue {
    Null,
    Bool(bool),
    Number(String),
    Str(String),
    Array(Vec<JsonValue>),
    Object(Vec<(String, JsonValue)>),
}

/// The mathematical value of a JSON document: objects are finite maps.
pub enum JsonView {
    Null,
    Bool(bool),
    Number(Seq<char>),
    Str(Seq<char>),
    Array(Seq<JsonView>),
    Object(Map<Seq<char>, JsonView>),
}

/// `i` is the last entry of `o` with key `k`.
pub open spec fn last_entry(o: Seq<(String, JsonValue)>, k: Seq<char>, i: int) -> bool {
    &&& 0 <= i < o.len()
    &&& o[i].0@ == k
    &&& forall|j: int| i < j < o.len() ==> (#[trigger] o[j]).0@ != k
}

/// Some entry of `o` has key `k`.
pub open spec fn has_key(o: Seq<(String, JsonValue)>, k: Seq<char>) -> bool {
    exists|i: int| 0 <= i < o.len() && (#[trigger] o[i]).0@ == k
}

/// The mathematical value of `v`.
pub open spec fn json_view(v: JsonValue) -> JsonView
    decreases v,
{
    match v {
        JsonValue::Null => JsonView::Null,
        JsonValue::Bool(b) => JsonView::Bool(b),
        JsonValue::Number(n) => JsonView::Number(n@),
        JsonValue::Str(s) => JsonView::Str(s@),
        JsonValue::Array(a) => JsonView::Array(
            Seq::new(a@.len(), |i: int| if 0 <= i < a@.len() { json_view(a@[i]) } else { JsonView::Null }),
        ),
        JsonValue::Object(o) => JsonView::Object(
            Map::new(
                |k: Seq<char>| has_key(o@, k),
                |k: Seq<char>| {
                    let i = choose|i: int| last_entry(o@, k, i);
                    if 0 <= i < o@.len() {
                        json_view(o@[i].1)
                    } else {
                        JsonView::Null
                    }
                },
            ),
        ),
    }
}

impl View for JsonValue {
    type V = JsonView;

    open spec fn view(&self) -> JsonView {
        json_view(*self)
    }
}

/// A key that occurs in `o` has a last entry.
pub proof fn lemma_last_entry_exists(o: Seq<(String, JsonValue)>, k: Seq<char>)
    requires
        has_key(o, k),
    ensures
        exists|i: int| last_entry(o, k, i),
    decreases o.len(),
{
    if o.last().0@ == k {
        assert(last_entry(o, k, o.len() - 1));
    } else {
        let w = choose|i: int| 0 <= i < o.len() && (#[trigger] o[i]).0@ == k;
        let p = o.drop_last();
        assert(p[w] == o[w]);
        lemma_last_entry_exists(p, k);
        let i = choose|i: int| last_entry(p, k, i);
        assert forall|j: int| i < j < o.len() implies (#[trigger] o[j]).0@ != k by {
            if j < p.len() {
                assert(p[j] == o[j]);
            }
        }
        assert(last_entry(o, k, i));
    }
}

/// The last entry of a key is unique.
pub proof fn lemma_last_entry_unique(o: Seq<(String, JsonValue)>, k: Seq<char>, i: int, j: int)
    requires
        last_entry(o, k, i),
        last_entry(o, k, j),
    ensures
        i == j,
{
    if i < j {
        assert(o[j].0@ == k);
    } else if j < i {
        assert(o[i].0@ == k);
    }
}

/// The last entry of `k` in `o`, if any.
pub fn last_entry_of(o: &Vec<(String, JsonValue)>, k: &str) -> (r: Option<usize>)
    ensures
        match r {
            Some(i) => last_entry(o@, k@, i as int),
            None => !has_key(o@, k@),
        },
{
    let mut i: usize = o.len();
    while i > 0
        invariant
            i <= o@.len(),
            forall|j: int| i <= j < o@.len() ==> (#[trigger] o@[j]).0@ != k@,
        decreases i,
    {
        i -= 1;
        if str_eq(o[i].0.as_str(), k) {
            return Some(i);
        }
    }
    None
}

/// The value of key `k` in an object view equals that of its last entry.
pub proof fn lemma_object_entry(v: JsonValue, i: int)
    requires
        v is Object,
        last_entry(v->Object_0@, v->Object_0@[i].0@, i),
    ensures
        v@->Object_0.dom().contains(v->Object_0@[i].0@),
        v@->Object_0[v->Object_0@[i].0@] == v->Object_0@[i].1@,
{
    let o = v->Object_0@;
    let k = o[i].0@;
    assert(has_key(o, k));
    let c = choose|c: int| last_entry(o, k, c);
    lemma_last_entry_unique(o, k, i, c);
}

/// Structural equality of JSON values: equal views.
pub fn json_eq(a: &JsonValue, b: &JsonValue) -> (r: bool)
    ensures
        r == (a@ == b@),
    decreases *a,
{
    match a {
        JsonValue::Null => match b {
            JsonValue::Null => true,
            _ => false,
        },
        JsonValue::Bool(x) => match b {
            JsonValue::Bool(y) => *x == *y,
            _ => false,
        },
        JsonValue::Number(x) => match b {
            JsonValue::Number(y) => str_eq(x.as_str(), y.as_str()),
            _ => false,
        },
        JsonValue::Str(x) => match b {
            JsonValue::Str(y) => str_eq(x.as_str(), y.as_str()),
            _ => false,
        },
        JsonValue::Array(x) => match b {
            JsonValue::Array(y) => {
                if x.len() != y.len() {
                    assert(a@->Array_0.len() != b@->Array_0.len());
                    return false;
                }
                let mut i: usize = 0;
                while i < x.len()
                    invariant
                        *a == JsonValue::Array(*x),
                        *b == JsonValue::Array(*y),
                        x@.len() == y@.len(),
                        i <= x@.len(),
                        forall|k: int| 0 <= k < i ==> x@[k]@ == y@[k]@,
                    decreases x@.len() - i,
                {
                    proof {
                        assert(decreases_to!(*a => (*a)->Array_0));
                        assert(decreases_to!(*x => x@));
                        assert(decreases_to!(x@ => x@[i as int]));
                    }
                    if !json_eq(&x[i], &y[i]) {
                        assert(a@->Array_0[i as int] == x@[i as int]@);
                        assert(b@->Array_0[i as int] == y@[i as int]@);
                        return false;
                    }
                    i += 1;
                }
                assert(a@->Array_0 =~= b@->Array_0);
                true
            },
            _ => false,
        },
        JsonValue::Object(x) => match b {
            JsonValue::Object(y) => object_eq(a, x, b, y),
            _ => false,
        },
    }
}

/// Equality of two objects, entry by entry.
fn object_eq(a: &JsonValue, x: &Vec<(String, JsonValue)>, b: &JsonValue, y: &Vec<(String, JsonValue)>) -> (r: bool)
    requires
        *a == JsonValue::Object(*x),
        *b == JsonValue::Object(*y),
    ensures
        r == (a@ == b@),
    decreases *a, 1nat,
{
    let ghost ma = a@->Object_0;
    let ghost mb = b@->Object_0;
    let mut i: usize = 0;
    while i < x.len()
        invariant
            *a == JsonValue::Object(*x),
            *b == JsonValue::Object(*y),
            ma == a@->Object_0,
            mb == b@->Object_0,
            i <= x@.len(),
            forall|j: int| 0 <= j < i ==> mb.dom().contains(#[trigger] x@[j].0@) && ma[x@[j].0@] == mb[x@[j].0@],
        decreases x@.len() - i,
    {
        let key = x[i].0.as_str();
        let later = last_entry_of(x, key);
        let li = match later {
            Some(li) => li,
            None => {
                assert(x@[i as int].0@ == key@);
                return false;
            },
        };
        proof {
            lemma_object_entry(*a, li as int);
        }
        match last_entry_of(y, key) {
            None => {
                return false;
            },
            Some(j) => {
                proof {
                    lemma_object_entry(*b, j as int);
                    assert(decreases_to!(*a => (*a)->Object_0));
                    assert(decreases_to!(*x => x@));
                    assert(decreases_to!(x@ => x@[li as int]));
                    assert(decreases_to!(x@[li as int] => x@[li as int].1));
                }
                if !json_eq(&x[li].1, &y[j].1) {
                    return false;
                }
            },
        }
        i += 1;
    }
    let mut j: usize = 0;
    while j < y.len()
        invariant
            *a == JsonValue::Object(*x),
            *b == JsonValue::Object(*y),
            ma == a@->Object_0,
            mb == b@->Object_0,
            j <= y@.len(),
            forall|k: int| 0 <= k < x@.len() ==> mb.dom().contains(#[trigger] x@[k].0@) && ma[x@[k].0@] == mb[x@[k].0@],
            forall|k: int| 0 <= k < j ==> ma.dom().contains(#[trigger] y@[k].0@),
        decreases y@.len() - j,
    {
        match last_entry_of(x, y[j].0.as_str()) {
            None => {
                assert(mb.dom().contains(y@[j as int].0@)) by {
                    assert(has_key(y@, y@[j as int].0@));
                }
                return false;
            },
            Some(_) => {},
        }
        j += 1;
    }
    assert(ma =~= mb) by {
        assert forall|k: Seq<char>| ma.dom().contains(k) implies mb.dom().contains(k) && ma[k] == mb[k] by {
            let w = choose|w: int| 0 <= w < x@.len() && (#[trigger] x@[w]).0@ == k;
            assert(x@[w].0@ == k);
        }
        assert forall|k: Seq<char>| mb.dom().contains(k) implies ma.dom().contains(k) by {
            let w = choose|w: int| 0 <= w < y@.len() && (#[trigger] y@[w]).0@ == k;
            assert(y@[w].0@ == k);
        }
    }
    true
}

/// Two objects whose entry lists have the same keys in the same places and
/// values with the same views are equal.
proof fn lemma_same_entries(a: JsonValue, b: JsonValue)
    requires
        a is Object,
        b is Object,
        a->Object_0@.len() == b->Object_0@.len(),
        forall|i: int|
            0 <= i < a->Object_0@.len() ==> (#[trigger] a->Object_0@[i]).0@ == b->Object_0@[i].0@
                && a->Object_0@[i].1@ == b->Object_0@[i].1@,
    ensures
        a@ == b@,
{
    let x = a->Object_0@;
    let y = b->Object_0@;
    assert forall|k: Seq<char>| has_key(x, k) implies has_key(y, k) && a@->Object_0[k] == b@->Object_0[k] by {
        lemma_last_entry_exists(x, k);
        let i = choose|i: int| last_entry(x, k, i);
        assert(y[i].0@ == k);
        assert forall|j: int| i < j < y.len() implies (#[trigger] y[j]).0@ != k by {
            assert(x[j].0@ == y[j].0@);
        }
        assert(last_entry(y, k, i));
        let cx = choose|c: int| last_entry(x, k, c);
        let cy = choose|c: int| last_entry(y, k, c);
        lemma_last_entry_unique(x, k, i, cx);
        lemma_last_entry_unique(y, k, i, cy);
    }
    assert forall|k: Seq<char>| has_key(y, k) implies has_key(x, k) by {
        let w = choose|w: int| 0 <= w < y.len() && (#[trigger] y[w]).0@ == k;
        assert(x[w].0@ == k);
    }
    assert(a@->Object_0 =~= b@->Object_0);
}

/// A copy of `v` with the same view.
pub fn copy_json(v: &JsonValue) -> (r: JsonValue)
    ensures
        r@ == v@,
    decreases *v,
{
    match v {
        JsonValue::Null => JsonValue::Null,
        JsonValue::Bool(b) => JsonValue::Bool(*b),
        JsonValue::Number(n) => JsonValue::Number(n.clone()),
        JsonValue::Str(t) => JsonValue::Str(t.clone()),
        JsonValue::Array(a) => {
            let mut out: Vec<JsonValue> = Vec::new();
            let mut i: usize = 0;
            while i < a.len()
                invariant
                    *v == JsonValue::Array(*a),
                    i <= a@.len(),
                    out@.len() == i,
                    forall|k: int| 0 <= k < i ==> (#[trigger] out@[k])@ == a@[k]@,
                decreases a@.len() - i,
            {
                proof {
                    assert(decreases_to!(*v => (*v)->Array_0));
                    assert(decreases_to!(*a => a@));
                    assert(decreases_to!(a@ => a@[i as int]));
                }
                let c = copy_json(&a[i]);
                out.push(c);
                i += 1;
            }
            let r = JsonValue::Array(out);
            assert(r@->Array_0 =~= v@->Array_0);
            r
        },
        JsonValue::Object(o) => {
            let mut out: Vec<(String, JsonValue)> = Vec::new();
            let mut i: usize = 0;
            while i < o.len()
                invariant
                    *v == JsonValue::Object(*o),
                    i <= o@.len(),
                    out@.len() == i,
                    forall|k: int| 0 <= k < i ==> (#[trigger] out@[k]).0@ == o@[k].0@ && out@[k].1@ == o@[k].1@,
                decreases o@.len() - i,
            {
                proof {
                    assert(decreases_to!(*v => (*v)->Object_0));
                    assert(decreases_to!(*o => o@));
                    assert(decreases_to!(o@ => o@[i as int]));
                    assert(decreases_to!(o@[i as int] => o@[i as int].1));
                }
                let c = copy_json(&o[i].1);
                out.push((o[i].0.clone(), c));
                i += 1;
            }
            let r = JsonValue::Object(out);
            proof {
                lemma_same_entries(r, *v);
            }
            r
        },
    }
}

/// The object an entry list describes.
pub open spec fn entries_view(o: Seq<(String, JsonValue)>) -> Map<Seq<char>, JsonView> {
    Map::new(
        |k: Seq<char>| has_key(o, k),
        |k: Seq<char>| {
            let i = choose|i: int| last_entry(o, k, i);
            o[i].1@
        },
    )
}

/// The view of an object is the map of its entries.
pub proof fn lemma_object_view(v: JsonValue)
    requires
        v is Object,
    ensures
        v@ == JsonView::Object(entries_view(v->Object_0@)),
{
    let o = v->Object_0@;
    assert forall|k: Seq<char>| has_key(o, k) implies v@->Object_0[k] == entries_view(o)[k] by {
        lemma_last_entry_exists(o, k);
    }
    assert(v@->Object_0 =~= entries_view(o));
}

/// No key occurs twice.
pub open spec fn unique_keys(o: Seq<(String, JsonValue)>) -> bool {
    forall|i: int, j: int| 0 <= i < j < o.len() ==> (#[trigger] o[i]).0@ != (#[trigger] o[j]).0@
}

/// With unique keys, an entry is the last of its key.
pub proof fn lemma_unique_last(o: Seq<(String, JsonValue)>, i: int)
    requires
        unique_keys(o),
        0 <= i < o.len(),
    ensures
        last_entry(o, o[i].0@, i),
        entries_view(o).dom().contains(o[i].0@),
        entries_view(o)[o[i].0@] == o[i].1@,
{
    let k = o[i].0@;
    assert forall|j: int| i < j < o.len() implies (#[trigger] o[j]).0@ != k by {}
    assert(has_key(o, k));
    let c = choose|c: int| last_entry(o, k, c);
    lemma_last_entry_unique(o, k, i, c);
}

/// Appending an entry of a new key adds it to the object.
pub proof fn lemma_push_entry(o: Seq<(String, JsonValue)>, k: String, x: JsonValue)
    requires
        unique_keys(o),
        !has_key(o, k@),
    ensures
        unique_keys(o.push((k, x))),
        entries_view(o.push((k, x))) == entries_view(o).insert(k@, x@),
{
    let p = o.push((k, x));
    assert forall|i: int, j: int| 0 <= i < j < p.len() implies (#[trigger] p[i]).0@ != (#[trigger] p[j]).0@ by {
        if j == o.len() {
            assert(p[i] == o[i]);
        } else {
            assert(p[i] == o[i] && p[j] == o[j]);
        }
    }
    assert forall|key: Seq<char>| #[trigger] entries_view(p).dom().contains(key) <==> entries_view(o).insert(k@, x@).dom().contains(key) by {
        if has_key(p, key) {
            let i = choose|i: int| 0 <= i < p.len() && (#[trigger] p[i]).0@ == key;
            if i < o.len() {
                assert(p[i] == o[i]);
            }
        }
        if has_key(o, key) {
            let i = choose|i: int| 0 <= i < o.len() && (#[trigger] o[i]).0@ == key;
            assert(p[i] == o[i]);
        }
        if key == k@ {
            assert(p[o.len() as int].0@ == key);
        }
    }
    assert forall|key: Seq<char>| #[trigger] entries_view(p).dom().contains(key) implies entries_view(p)[key] == entries_view(o).insert(k@, x@)[key] by {
        let i = choose|i: int| 0 <= i < p.len() && (#[trigger] p[i]).0@ == key;
        lemma_unique_last(p, i);
        if i < o.len() {
            assert(p[i] == o[i]);
            lemma_unique_last(o, i);
        }
    }
    assert(entries_view(p) =~= entries_view(o).insert(k@, x@));
}

/// Removing the entry of a key removes it from the object.
pub proof fn lemma_remove_entry(o: Seq<(String, JsonValue)>, i: int)
    requires
        unique_keys(o),
        0 <= i < o.len(),
    ensures
        unique_keys(o.remove(i)),
        entries_view(o.remove(i)) == entries_view(o).remove(o[i].0@),
        !has_key(o.remove(i), o[i].0@),
{
    let k = o[i].0@;
    let p = o.remove(i);
    assert forall|a: int, b: int| 0 <= a < b < p.len() implies (#[trigger] p[a]).0@ != (#[trigger] p[b]).0@ by {
        let oa = if a < i { a } else { a + 1 };
        let ob = if b < i { b } else { b + 1 };
        assert(p[a] == o[oa] && p[b] == o[ob]);
    }
    assert(!has_key(p, k)) by {
        if has_key(p, k) {
            let a = choose|a: int| 0 <= a < p.len() && (#[trigger] p[a]).0@ == k;
            let oa = if a < i { a } else { a + 1 };
            assert(p[a] == o[oa]);
        }
    }
    assert forall|key: Seq<char>| #[trigger] entries_view(p).dom().contains(key) <==> entries_view(o).remove(k).dom().contains(key) by {
        if has_key(p, key) {
            let a = choose|a: int| 0 <= a < p.len() && (#[trigger] p[a]).0@ == key;
            let oa = if a < i { a } else { a + 1 };
            assert(p[a] == o[oa]);
        }
        if has_key(o, key) && key != k {
            let a = choose|a: int| 0 <= a < o.len() && (#[trigger] o[a]).0@ == key;
            if a < i {
                assert(p[a] == o[a]);
            } else if a > i {
                assert(p[a - 1] == o[a]);
            }
        }
    }
    assert forall|key: Seq<char>| #[trigger] entries_view(p).dom().contains(key) implies entries_view(p)[key] == entries_view(o).remove(k)[key] by {
        let a = choose|a: int| 0 <= a < p.len() && (#[trigger] p[a]).0@ == key;
        let oa = if a < i { a } else { a + 1 };
        assert(p[a] == o[oa]);
        lemma_unique_last(p, a);
        lemma_unique_last(o, oa);
    }
    assert(entries_view(p) =~= entries_view(o).remove(k));
}

/// `r` holds, for each of its entries, the last entry of that key in `o`,
/// at the positions `src` names.
pub open spec fn taken_from(o: Seq<(String, JsonValue)>, r: Seq<(String, JsonValue)>, src: Seq<int>) -> bool {
    &&& src.len() == r.len()
    &&& forall|i: int| 0 <= i < r.len() ==> last_entry(o, (#[trigger] r[i]).0@, src[i]) && r[i] == o[src[i]]
}

/// The last entry of every key of `o`, each moved out of `o` unchanged.
fn last_entries(o: Vec<(String, JsonValue)>) -> (r: (Vec<(String, JsonValue)>, Ghost<Seq<int>>))
    ensures
        unique_keys(r.0@),
        forall|k: Seq<char>| has_key(r.0@, k) <==> has_key(o@, k),
        taken_from(o@, r.0@, r.1@),
{
    let ghost whole = o@;
    let mut o = o;
    let mut r: Vec<(String, JsonValue)> = Vec::new();
    let ghost mut src: Seq<int> = Seq::empty();
    while o.len() > 0
        invariant
            o@ == whole.take(o@.len() as int),
            o@.len() <= whole.len(),
            unique_keys(r@),
            forall|k: Seq<char>|
                has_key(r@, k) <==> exists|i: int| o@.len() <= i < whole.len() && (#[trigger] whole[i]).0@ == k,
            taken_from(whole, r@, src),
        decreases o@.len(),
    {
        let ghost j = o@.len() - 1;
        let e = o.pop().unwrap();
        assert(e == whole[j]);
        assert(o@ =~= whole.take(j));
        let mut present = false;
        let mut m: usize = 0;
        while m < r.len()
            invariant
                m <= r@.len(),
                present == exists|q: int| 0 <= q < m && (#[trigger] r@[q]).0@ == e.0@,
            decreases r@.len() - m,
        {
            if str_eq(r[m].0.as_str(), e.0.as_str()) {
                present = true;
            }
            m += 1;
        }
        let ghost before = r@;
        let ghost src_before = src;
        if !present {
            proof {
                assert(!has_key(before, e.0@));
                assert forall|q: int| j < q < whole.len() implies (#[trigger] whole[q]).0@ != e.0@ by {
                    if whole[q].0@ == e.0@ {
                        assert(has_key(before, e.0@));
                    }
                }
                assert(last_entry(whole, e.0@, j));
            }
            r.push(e);
            proof {
                src = src.push(j);
                assert forall|a: int, b: int| 0 <= a < b < r@.len() implies (#[trigger] r@[a]).0@ != (#[trigger] r@[b]).0@ by {
                    if b == before.len() {
                        assert(r@[a] == before[a]);
                        if before[a].0@ == e.0@ {
                            assert(has_key(before, e.0@));
                        }
                    } else {
                        assert(r@[a] == before[a] && r@[b] == before[b]);
                    }
                }
                assert forall|i: int| 0 <= i < r@.len() implies last_entry(whole, (#[trigger] r@[i]).0@, src[i]) && r@[i] == whole[src[i]] by {
                    if i < before.len() {
                        assert(r@[i] == before[i]);
                        assert(src[i] == src_before[i]);
                    }
                }
                assert forall|k: Seq<char>| has_key(r@, k) <==> exists|i: int| j <= i < whole.len() && (#[trigger] whole[i]).0@ == k by {
                    if has_key(r@, k) {
                        let a = choose|a: int| 0 <= a < r@.len() && (#[trigger] r@[a]).0@ == k;
                        if a < before.len() {
                            assert(r@[a] == before[a]);
                            assert(has_key(before, k));
                        } else {
                            assert(whole[j].0@ == k);
                        }
                    }
                    if exists|i: int| j <= i < whole.len() && (#[trigger] whole[i]).0@ == k {
                        let i = choose|i: int| j <= i < whole.len() && (#[trigger] whole[i]).0@ == k;
                        if i == j {
                            assert(r@[before.len() as int].0@ == k);
                        } else {
                            assert(has_key(before, k));
                            let a = choose|a: int| 0 <= a < before.len() && (#[trigger] before[a]).0@ == k;
                            assert(r@[a] == before[a]);
                        }
                    }
                }
            }
        } else {
            proof {
                assert forall|k: Seq<char>| has_key(r@, k) <==> exists|i: int| j <= i < whole.len() && (#[trigger] whole[i]).0@ == k by {
                    if exists|i: int| j <= i < whole.len() && (#[trigger] whole[i]).0@ == k {
                        let i = choose|i: int| j <= i < whole.len() && (#[trigger] whole[i]).0@ == k;
                        if i == j {
                            let q = choose|q: int| 0 <= q < m && (#[trigger] r@[q]).0@ == e.0@;
                            assert(r@[q].0@ == k);
                        }
                    }
                }
            }
        }
    }
    proof {
        assert forall|k: Seq<char>| has_key(r@, k) <==> has_key(whole, k) by {
            if has_key(whole, k) {
                let i = choose|i: int| 0 <= i < whole.len() && (#[trigger] whole[i]).0@ == k;
                assert(0 <= i < whole.len() && whole[i].0@ == k);
            }
        }
    }
    (r, Ghost(src))
}

/// The key-value pairs of `o` describe the same object as those of `r`
/// when `r` holds the last entry of every key of `o`.
proof fn lemma_last_entries_view(o: Seq<(String, JsonValue)>, r: Seq<(String, JsonValue)>, src: Seq<int>)
    requires
        unique_keys(r),
        forall|k: Seq<char>| has_key(r, k) <==> has_key(o, k),
        taken_from(o, r, src),
    ensures
        entries_view(r) == entries_view(o),
{
    assert forall|k: Seq<char>| has_key(r, k) implies entries_view(r)[k] == entries_view(o)[k] by {
        let i = choose|i: int| 0 <= i < r.len() && (#[trigger] r[i]).0@ == k;
        lemma_unique_last(r, i);
        let c = src[i];
        let c2 = choose|c2: int| last_entry(o, k, c2);
        lemma_last_entry_unique(o, k, c, c2);
    }
    assert(entries_view(r) =~= entries_view(o));
}

/// `overlay` laid over `base`: two objects merge key by key, the overlay's
/// value winning (merged in turn where both hold a value for the key);
/// otherwise the overlay replaces the base.
pub open spec fn merged_view(base: JsonView, overlay: JsonView) -> JsonView
    decreases overlay,
{
    match overlay {
        JsonView::Object(om) => match base {
            JsonView::Object(bm) => JsonView::Object(
                Map::new(
                    |k: Seq<char>| bm.dom().contains(k) || om.dom().contains(k),
                    |k: Seq<char>|
                        if om.dom().contains(k) {
                            if bm.dom().contains(k) {
                                merged_view(bm[k], om[k])
                            } else {
                                om[k]
                            }
                        } else {
                            bm[k]
                        },
                ),
            ),
            _ => overlay,
        },
        _ => overlay,
    }
}

/// The entry of key `k`, in a list with unique keys.
pub fn key_position(o: &Vec<(String, JsonValue)>, k: &str) -> (r: Option<usize>)
    ensures
        r matches Some(i) ==> i < o@.len() && o@[i as int].0@ == k@,
        r is None ==> !has_key(o@, k@),
{
    let mut i: usize = 0;
    while i < o.len()
        invariant
            i <= o@.len(),
            forall|j: int| 0 <= j < i ==> (#[trigger] o@[j]).0@ != k@,
        decreases o@.len() - i,
    {
        if str_eq(o[i].0.as_str(), k) {
            return Some(i);
        }
        i += 1;
    }
    None
}

/// The merged map after the entries of `o` from position `j` on are laid
/// over `bm`, where `om` is the overlay object.
pub open spec fn partly_merged(
    bm: Map<Seq<char>, JsonView>,
    om: Map<Seq<char>, JsonView>,
    o: Seq<(String, JsonValue)>,
    j: int,
) -> Map<Seq<char>, JsonView> {
    Map::new(
        |k: Seq<char>| bm.dom().contains(k) || exists|i: int| j <= i < o.len() && (#[trigger] o[i]).0@ == k,
        |k: Seq<char>|
            if exists|i: int| j <= i < o.len() && (#[trigger] o[i]).0@ == k {
                if bm.dom().contains(k) {
                    merged_view(bm[k], om[k])
                } else {
                    om[k]
                }
            } else {
                bm[k]
            },
    )
}

/// Lays `overlay` over `base` (see `merged_view`).
pub fn merge_values(base: JsonValue, overlay: JsonValue) -> (r: JsonValue)
    ensures
        r@ == merged_view(base@, overlay@),
    decreases overlay,
{
    let ghost ov = overlay;
    let ghost bv = base@;
    match overlay {
        JsonValue::Object(om) => {
            match base {
                JsonValue::Object(bm) => {
                    let ghost omv = om@;
                    let ghost bmap = bv->Object_0;
                    let ghost omap = ov@->Object_0;
                    proof {
                        lemma_object_view(JsonValue::Object(bm));
                        lemma_object_view(ov);
                    }
                    let (mut b, Ghost(bsrc)) = last_entries(bm);
                    proof {
                        lemma_last_entries_view(bm@, b@, bsrc);
                    }
                    let (mut o, Ghost(osrc)) = last_entries(om);
                    let ghost whole = o@;
                    assert(entries_view(b@) == partly_merged(bmap, omap, whole, whole.len() as int)) by {
                        assert(entries_view(b@) =~= partly_merged(bmap, omap, whole, whole.len() as int));
                    }
                    while o.len() > 0
                        invariant
                            ov == overlay,
                            ov == JsonValue::Object(om),
                            omv == om@,
                            bmap == bv->Object_0,
                            omap == ov@->Object_0,
                            omap == entries_view(omv),
                            unique_keys(whole),
                            taken_from(omv, whole, osrc),
                            forall|k: Seq<char>| has_key(whole, k) <==> has_key(omv, k),
                            o@ == whole.take(o@.len() as int),
                            o@.len() <= whole.len(),
                            unique_keys(b@),
                            entries_view(b@) == partly_merged(bmap, omap, whole, o@.len() as int),
                        decreases o@.len(),
                    {
                        let ghost j = o@.len() - 1;
                        let (k, v) = o.pop().unwrap();
                        assert((k, v) == whole[j]);
                        assert(o@ =~= whole.take(j));
                        let ghost c = osrc[j];
                        assert(last_entry(omv, k@, c) && whole[j] == omv[c]);
                        proof {
                            assert(decreases_to!(ov => ov->Object_0));
                            assert(decreases_to!(om => om@));
                            assert(decreases_to!(om@ => om@[c]));
                            assert(decreases_to!(om@[c] => om@[c].1));
                            assert forall|i: int| j < i < whole.len() implies (#[trigger] whole[i]).0@ != k@ by {
                                assert(whole[i].0@ != whole[j].0@);
                            }
                            let c2 = choose|c2: int| last_entry(omv, k@, c2);
                            lemma_last_entry_unique(omv, k@, c, c2);
                            assert(has_key(omv, k@));
                            assert(omap[k@] == v@);
                        }
                        let ghost before = entries_view(b@);
                        match key_position(&b, k.as_str()) {
                            Some(idx) => {
                                proof {
                                    lemma_unique_last(b@, idx as int);
                                    lemma_remove_entry(b@, idx as int);
                                }
                                let (_old_key, existing) = b.remove(idx);
                                assert(v == om@[c].1);
                                assert(decreases_to!(ov => v));
                                let merged = merge_values(existing, v);
                                proof {
                                    lemma_push_entry(b@, k, merged);
                                }
                                b.push((k, merged));
                            },
                            None => {
                                proof {
                                    lemma_push_entry(b@, k, v);
                                }
                                b.push((k, v));
                            },
                        }
                        assert(entries_view(b@) =~= partly_merged(bmap, omap, whole, j));
                    }
                    let r = JsonValue::Object(b);
                    proof {
                        lemma_object_view(r);
                        assert forall|k: Seq<char>| #[trigger] omap.dom().contains(k) <==> exists|i: int|
                            0 <= i < whole.len() && (#[trigger] whole[i]).0@ == k by {
                            if has_key(omv, k) {
                                assert(has_key(whole, k));
                            }
                        }
                        assert(entries_view(b@) =~= merged_view(bv, ov@)->Object_0);
                    }
                    r
                },
                _ => JsonValue::Object(om),
            }
        },
        other => other,
    }
}

#[verifier::external_type_specification]
#[verifier::external_body]
pub struct ExSerdeJsonValue(serde_json::Value);

/// The JSON text `serde_json` writes for a value: its compact `Display`
/// form, with object keys in ascending order.
pub uninterp spec fn json_text(v: JsonView) -> Seq<char>;

/// `v` as a `serde_json::Value`, variant by variant. A number's text is
/// parsed as a `serde_json::Number`; text that is no number becomes `null`.
/// Object entries go in with `Map::insert`, which replaces an earlier entry
/// of the same key, so the last entry of a key is the one kept.
#[verifier::external_body]
fn to_serde(v: &JsonValue) -> serde_json::Value {
    match v {
        JsonValue::Null => serde_json::Value::Null,
        JsonValue::Bool(b) => serde_json::Value::Bool(*b),
        JsonValue::Number(n) => n.parse::<serde_json::Number>().map_or(serde_json::Value::Null, serde_json::Value::Number),
        JsonValue::Str(s) => serde_json::Value::String(s.clone()),
        JsonValue::Array(a) => serde_json::Value::Array(a.iter().map(to_serde).collect()),
        JsonValue::Object(o) => {
            let mut map = serde_json::Map::new();
            for (k, x) in o {
                map.insert(k.clone(), to_serde(x));
            }
            serde_json::Value::Object(map)
        },
    }
}

/// `serde_json::Value::to_string` of `v`: its JSON text, which depends on
/// the value alone (`json_text`).
#[verifier::external_body]
pub(crate) fn render_json(v: &JsonValue) -> (r: String)
    ensures
        r@ == json_text(v@),
{
    to_serde(v).to_string()
}

/// The text a variable's value puts into a string: a string as it is, any
/// other value as its JSON text.
pub open spec fn replacement_text(v: JsonView) -> Seq<char> {
    match v {
        JsonView::Str(s) => s,
        _ => json_text(v),
    }
}

/// The reference `${name}` to a variable.
pub open spec fn reference(name: Seq<char>) -> Seq<char> {
    "${"@ + name + "}"@
}

/// Every reference to a variable of `table` replaced by its text, one
/// variable after another in `table` order.
pub open spec fn subst_all(s: Seq<char>, table: Seq<(Seq<char>, Seq<char>)>) -> Seq<char>
    decreases table.len(),
{
    if table.len() == 0 {
        s
    } else {
        replace_spec(subst_all(s, table.drop_last()), reference(table.last().0), table.last().1)
    }
}

/// The pairs of a table of strings.
pub open spec fn pairs(t: Seq<(String, String)>) -> Seq<(Seq<char>, Seq<char>)> {
    t.map_values(|e: (String, String)| (e.0@, e.1@))
}

/// `table` lists every variable of `vars` once, in ascending name order,
/// with the text it puts into strings.
pub open spec fn var_table(table: Seq<(Seq<char>, Seq<char>)>, vars: Map<Seq<char>, JsonView>) -> bool {
    &&& forall|i: int, j: int| 0 <= i < j < table.len() ==> text_less(#[trigger] table[i].0, #[trigger] table[j].0)
    &&& forall|k: Seq<char>| vars.dom().contains(k) <==> exists|i: int| 0 <= i < table.len() && (#[trigger] table[i]).0 == k
    &&& forall|i: int| 0 <= i < table.len() ==> (#[trigger] table[i]).1 == replacement_text(vars[table[i].0])
}

/// The name a string refers to when it is a whole reference: trimmed, with
/// the leading `${` and trailing `}` taken off.
pub open spec fn referenced_name(s: Seq<char>) -> Seq<char> {
    strip_suffix_chars(strip_prefixes(trim_spec(s), "${"@), '}')
}

/// `s` is a single reference `${...}` and nothing else.
pub open spec fn whole_reference(s: Seq<char>) -> bool {
    starts_with_spec(s, "${"@) && s.len() > 0 && s.last() == '}' && count_matches(s, "${"@) == 1
}

/// `v` with its variables substituted: a string that is a whole reference to
/// a variable becomes the variable's value; in any other string every
/// reference is replaced by its text; arrays and objects are substituted
/// element by element.
pub open spec fn substituted(v: JsonView, vars: Map<Seq<char>, JsonView>, table: Seq<(Seq<char>, Seq<char>)>) -> JsonView
    decreases v,
{
    match v {
        JsonView::Str(s) => if vars.dom().contains(referenced_name(s)) && whole_reference(s) {
            vars[referenced_name(s)]
        } else {
            JsonView::Str(subst_all(s, table))
        },
        JsonView::Array(a) => JsonView::Array(
            Seq::new(a.len(), |i: int| if 0 <= i < a.len() { substituted(a[i], vars, table) } else { JsonView::Null }),
        ),
        JsonView::Object(m) => JsonView::Object(
            Map::new(
                |k: Seq<char>| m.dom().contains(k),
                |k: Seq<char>|
                    if m.dom().contains(k) {
                        substituted(m[k], vars, table)
                    } else {
                        JsonView::Null
                    },
            ),
        ),
        _ => v,
    }
}

/// The variables of `vars` in ascending name order, each with the text it
/// puts into strings.
pub fn variable_table(vars: &Vec<(String, JsonValue)>) -> (r: Vec<(String, String)>)
    ensures
        var_table(pairs(r@), entries_view(vars@)),
{
    let mut names: Vec<String> = Vec::new();
    let mut i: usize = 0;
    while i < vars.len()
        invariant
            i <= vars@.len(),
            names@.len() == i,
            forall|k: int| 0 <= k < i ==> (#[trigger] names@[k])@ == vars@[k].0@,
        decreases vars@.len() - i,
    {
        names.push(vars[i].0.clone());
        i += 1;
    }
    let sorted = sorted_distinct(names.as_slice());
    proof {
        assert forall|t: Seq<char>| holds(names@, t) <==> has_key(vars@, t) by {
            if holds(names@, t) {
                let k = choose|k: int| 0 <= k < names@.len() && (#[trigger] names@[k])@ == t;
                assert(vars@[k].0@ == t);
            }
            if has_key(vars@, t) {
                let k = choose|k: int| 0 <= k < vars@.len() && (#[trigger] vars@[k]).0@ == t;
                assert(names@[k]@ == t);
            }
        }
    }
    let ghost m = entries_view(vars@);
    let mut table: Vec<(String, String)> = Vec::new();
    let mut j: usize = 0;
    while j < sorted.len()
        invariant
            m == entries_view(vars@),
            ascending(sorted@),
            forall|t: Seq<char>| holds(sorted@, t) <==> has_key(vars@, t),
            j <= sorted@.len(),
            table@.len() == j,
            forall|q: int| 0 <= q < j ==> (#[trigger] pairs(table@)[q]).0 == sorted@[q]@,
            forall|q: int| 0 <= q < j ==> (#[trigger] pairs(table@)[q]).1 == replacement_text(m[sorted@[q]@]),
        decreases sorted@.len() - j,
    {
        let name = sorted[j].as_str();
        assert(holds(sorted@, name@));
        let idx = match last_entry_of(vars, name) {
            Some(idx) => idx,
            None => {
                assert(false);
                0
            },
        };
        proof {
            assert(has_key(vars@, name@));
            let c = choose|c: int| last_entry(vars@, name@, c);
            lemma_last_entry_unique(vars@, name@, idx as int, c);
        }
        let text = match &vars[idx].1 {
            JsonValue::Str(s) => s.clone(),
            other => render_json(other),
        };
        proof {
            assert(m[name@] == vars@[idx as int].1@);
            assert(text@ == replacement_text(m[sorted@[j as int]@]));
        }
        let ghost before = table@;
        table.push((sorted[j].clone(), text));
        proof {
            assert forall|q: int| 0 <= q < j + 1 implies (#[trigger] pairs(table@)[q]).0 == sorted@[q]@ && pairs(
                table@,
            )[q].1 == replacement_text(m[sorted@[q]@]) by {
                if q < j {
                    assert(table@[q] == before[q]);
                    assert(pairs(before)[q] == pairs(table@)[q]);
                }
            }
        }
        j += 1;
    }
    proof {
        let t = pairs(table@);
        assert forall|a: int, b: int| 0 <= a < b < t.len() implies text_less(#[trigger] t[a].0, #[trigger] t[b].0) by {
            assert(text_less(sorted@[a]@, sorted@[b]@));
        }
        assert forall|k: Seq<char>| m.dom().contains(k) <==> exists|q: int| 0 <= q < t.len() && (#[trigger] t[q]).0 == k by {
            if m.dom().contains(k) {
                assert(holds(sorted@, k));
                let q = choose|q: int| 0 <= q < sorted@.len() && (#[trigger] sorted@[q])@ == k;
                assert(t[q].0 == k);
            }
            if exists|q: int| 0 <= q < t.len() && (#[trigger] t[q]).0 == k {
                let q = choose|q: int| 0 <= q < t.len() && (#[trigger] t[q]).0 == k;
                assert(sorted@[q]@ == k);
                assert(holds(sorted@, k));
            }
        }
    }
    table
}

/// Every reference to a variable of `table` in `s` replaced by its text,
/// one variable after another in `table` order.
pub fn substitute_string(s: &str, table: &Vec<(String, String)>) -> (r: String)
    ensures
        r@ == subst_all(s@, pairs(table@)),
{
    let mut out = s.to_string();
    let mut i: usize = 0;
    while i < table.len()
        invariant
            i <= table@.len(),
            out@ == subst_all(s@, pairs(table@).take(i as int)),
        decreases table@.len() - i,
    {
        let needle = "${".to_string().concat(table[i].0.as_str()).concat("}");
        proof {
            reveal_strlit("${");
            reveal_strlit("}");
        }
        let next = replace(out.as_str(), needle.as_str(), table[i].1.as_str());
        proof {
            let t1 = pairs(table@).take(i + 1);
            assert(t1.drop_last() =~= pairs(table@).take(i as int));
            assert(t1.last() == pairs(table@)[i as int]);
        }
        out = next;
        i += 1;
    }
    assert(pairs(table@).take(table@.len() as int) =~= pairs(table@));
    out
}

/// Entry lists with the same keys in the same places, the values of one
/// mapped by `f` from those of the other, describe the mapped object.
proof fn lemma_entries_mapped(a: Seq<(String, JsonValue)>, b: Seq<(String, JsonValue)>, f: spec_fn(JsonView) -> JsonView)
    requires
        a.len() == b.len(),
        forall|i: int| 0 <= i < a.len() ==> (#[trigger] b[i]).0@ == a[i].0@ && b[i].1@ == f(a[i].1@),
    ensures
        entries_view(b) == Map::new(
            |k: Seq<char>| entries_view(a).dom().contains(k),
            |k: Seq<char>| f(entries_view(a)[k]),
        ),
{
    let target = Map::new(
        |k: Seq<char>| entries_view(a).dom().contains(k),
        |k: Seq<char>| f(entries_view(a)[k]),
    );
    assert forall|k: Seq<char>| #[trigger] entries_view(b).dom().contains(k) <==> target.dom().contains(k) by {
        if has_key(b, k) {
            let i = choose|i: int| 0 <= i < b.len() && (#[trigger] b[i]).0@ == k;
            assert(a[i].0@ == k);
        }
        if has_key(a, k) {
            let i = choose|i: int| 0 <= i < a.len() && (#[trigger] a[i]).0@ == k;
            assert(b[i].0@ == k);
        }
    }
    assert forall|k: Seq<char>| #[trigger] entries_view(b).dom().contains(k) implies entries_view(b)[k] == target[k] by {
        lemma_last_entry_exists(b, k);
        let i = choose|i: int| last_entry(b, k, i);
        assert forall|j: int| i < j < a.len() implies (#[trigger] a[j]).0@ != k by {
            assert(b[j].0@ == a[j].0@);
        }
        assert(last_entry(a, k, i));
        let ca = choose|c: int| last_entry(a, k, c);
        lemma_last_entry_unique(a, k, i, ca);
    }
    assert(entries_view(b) =~= target);
}

/// `v` with the variables of `vars` substituted (see `substituted`), given
/// their table.
pub fn substitute_variables(v: &JsonValue, vars: &Vec<(String, JsonValue)>, table: &Vec<(String, String)>) -> (r: JsonValue)
    ensures
        r@ == substituted(v@, entries_view(vars@), pairs(table@)),
    decreases *v,
{
    proof {
        reveal_strlit("${");
    }
    match v {
        JsonValue::Str(s) => {
            let trimmed = trim(s.as_str());
            let key = trim_end_matches_char(trim_start_matches(trimmed, "${"), '}');
            match last_entry_of(vars, key) {
                Some(idx) => {
                    if starts_with(s.as_str(), "${") && ends_with_char(s.as_str(), '}') && count_matches_exec(
                        s.as_str(),
                        "${",
                    ) == 1 {
                        proof {
                            assert(has_key(vars@, key@));
                            let c = choose|c: int| last_entry(vars@, key@, c);
                            lemma_last_entry_unique(vars@, key@, idx as int, c);
                        }
                        return copy_json(&vars[idx].1);
                    }
                },
                None => {},
            }
            JsonValue::Str(substitute_string(s.as_str(), table))
        },
        JsonValue::Array(a) => {
            let mut out: Vec<JsonValue> = Vec::new();
            let mut i: usize = 0;
            while i < a.len()
                invariant
                    *v == JsonValue::Array(*a),
                    i <= a@.len(),
                    out@.len() == i,
                    forall|k: int| 0 <= k < i ==> (#[trigger] out@[k])@ == substituted(a@[k]@, entries_view(vars@), pairs(table@)),
                decreases a@.len() - i,
            {
                proof {
                    assert(decreases_to!(*v => (*v)->Array_0));
                    assert(decreases_to!(*a => a@));
                    assert(decreases_to!(a@ => a@[i as int]));
                }
                out.push(substitute_variables(&a[i], vars, table));
                i += 1;
            }
            let r = JsonValue::Array(out);
            assert(r@->Array_0 =~= substituted(v@, entries_view(vars@), pairs(table@))->Array_0);
            r
        },
        JsonValue::Object(o) => {
            let mut out: Vec<(String, JsonValue)> = Vec::new();
            let mut i: usize = 0;
            while i < o.len()
                invariant
                    *v == JsonValue::Object(*o),
                    i <= o@.len(),
                    out@.len() == i,
                    forall|k: int|
                        0 <= k < i ==> (#[trigger] out@[k]).0@ == o@[k].0@ && out@[k].1@ == substituted(
                            o@[k].1@,
                            entries_view(vars@),
                            pairs(table@),
                        ),
                decreases o@.len() - i,
            {
                proof {
                    assert(decreases_to!(*v => (*v)->Object_0));
                    assert(decreases_to!(*o => o@));
                    assert(decreases_to!(o@ => o@[i as int]));
                    assert(decreases_to!(o@[i as int] => o@[i as int].1));
                }
                let x = substitute_variables(&o[i].1, vars, table);
                out.push((o[i].0.clone(), x));
                i += 1;
            }
            let r = JsonValue::Object(out);
            proof {
                let f = |x: JsonView| substituted(x, entries_view(vars@), pairs(table@));
                lemma_entries_mapped(o@, out@, f);
                lemma_object_view(r);
                lemma_object_view(*v);
                assert(r@->Object_0 =~= substituted(v@, entries_view(vars@), pairs(table@))->Object_0);
            }
            r
        },
        _ => copy_json(v),
    }
}

/// Sets key `k` of an object's entries to `v`, as a map insertion: the
/// entry of that key goes and the new one is appended.
pub fn object_insert(o: &mut Vec<(String, JsonValue)>, k: String, v: JsonValue)
    requires
        unique_keys(old(o)@),
    ensures
        unique_keys(final(o)@),
        entries_view(final(o)@) == entries_view(old(o)@).insert(k@, v@),
{
    match key_position(o, k.as_str()) {
        Some(i) => {
            proof {
                lemma_remove_entry(o@, i as int);
            }
            o.remove(i);
            proof {
                lemma_push_entry(o@, k, v);
            }
            o.push((k, v));
            assert(entries_view(o@) =~= entries_view(old(o)@).insert(k@, v@));
        },
        None => {
            proof {
                lemma_push_entry(o@, k, v);
            }
            o.push((k, v));
        },
    }
}

} // verus!
