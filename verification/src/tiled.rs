use vstd::prelude::*;

verus! {

#[verifier::external_type_specification]
#[verifier::external_body]
pub struct ExJsonValue(serde_json::Value);

/// A JSON document as the map loader reads it: numbers keep only their value as
/// an unsigned 64-bit integer, where they have one.
pub enum JsonValue {
    Null,
    Bool(bool),
    Number(Option<u64>),
    Str(String),
    Array(Vec<JsonValue>),
    Object(Vec<(String, JsonValue)>),
}

/// What `serde_json` parses from `text`, as a `JsonValue`; `None` where the text is no JSON.
pub uninterp spec fn json_document(text: Seq<char>) -> Option<JsonValue>;

/// Parses `text` with `serde_json::from_str` into a `serde_json::Value` and converts that
/// value one for one into a `JsonValue`. The contract only names the result: what a JSON
/// parser accepts and builds is not restated here.
#[verifier::external_body]
fn parse_json(text: &str) -> (r: Option<JsonValue>)
    ensures
        r == json_document(text@),
{
    match serde_json::from_str::<serde_json::Value>(text) {
        Ok(v) => Some(json_value_of(&v)),
        Err(_) => None,
    }
}

/// Converts a `serde_json::Value` variant by variant: a number becomes its `as_u64` value,
/// an object its entries in the map's order (serde_json keys an object by a `BTreeMap`, so
/// each key occurs once).
#[verifier::external_body]
fn json_value_of(v: &serde_json::Value) -> JsonValue {
    match v {
        serde_json::Value::Null => JsonValue::Null,
        serde_json::Value::Bool(b) => JsonValue::Bool(*b),
        serde_json::Value::Number(n) => JsonValue::Number(n.as_u64()),
        serde_json::Value::String(s) => JsonValue::Str(s.clone()),
        serde_json::Value::Array(a) => JsonValue::Array(a.iter().map(json_value_of).collect()),
        serde_json::Value::Object(m) => JsonValue::Object(
            m.iter().map(|(k, x)| (k.clone(), json_value_of(x))).collect(),
        ),
    }
}

/// Value of the first entry named `key`.
pub open spec fn lookup(entries: Seq<(String, JsonValue)>, key: Seq<char>) -> Option<JsonValue>
    decreases entries.len(),
{
    if entries.len() == 0 {
        None
    } else if entries[0].0@ == key {
        Some(entries[0].1)
    } else {
        lookup(entries.skip(1), key)
    }
}

/// Member `key` of an object; `None` for other values and absent keys.
pub open spec fn member(v: JsonValue, key: Seq<char>) -> Option<JsonValue> {
    match v {
        JsonValue::Object(m) => lookup(m@, key),
        _ => None,
    }
}

/// `v` is a string equal to `text`.
pub open spec fn named(v: Option<JsonValue>, text: Seq<char>) -> bool {
    match v {
        Some(JsonValue::Str(s)) => s@ == text,
        _ => false,
    }
}

/// Layer `layer` of a Tiled map marks tile `i` as a wall: its name is "Collisions" and
/// entry `i` of its data is a non-zero integer.
pub open spec fn marks_tile(layer: JsonValue, i: int) -> bool {
    &&& named(member(layer, "name"@), "Collisions"@)
    &&& match member(layer, "data"@) {
        Some(JsonValue::Array(d)) => 0 <= i < d.len() && match d@[i] {
            JsonValue::Number(Some(n)) => n != 0,
            _ => false,
        },
        _ => false,
    }
}

/// Tile `i` is a wall in the Tiled map `doc`: some entry of its "layers" marks it.
pub open spec fn collision_tile(doc: JsonValue, i: int) -> bool {
    match member(doc, "layers"@) {
        Some(JsonValue::Array(ls)) => exists|j: int| 0 <= j < ls.len() && #[trigger] marks_tile(ls@[j], i),
        _ => false,
    }
}

fn find_member<'a>(v: &'a JsonValue, key: &str) -> (r: Option<&'a JsonValue>)
    ensures
        match r {
            Some(x) => member(*v, key@) == Some(*x),
            None => member(*v, key@) is None,
        },
{
    match v {
        JsonValue::Object(m) => {
            let key_s = String::from_str(key);
            let mut i: usize = 0;
            assert(m@.skip(0) =~= m@);
            while i < m.len()
                invariant
                    i <= m.len(),
                    key_s@ == key@,
                    member(*v, key@) == lookup(m@, key@),
                    lookup(m@, key@) == lookup(m@.skip(i as int), key@),
                decreases m.len() - i,
            {
                assert(m@.skip(i as int).skip(1) =~= m@.skip(i + 1));
                assert(m@.skip(i as int)[0] == m@[i as int]);
                if m[i].0.eq(&key_s) {
                    return Some(&m[i].1);
                }
                i = i + 1;
            }
            None
        },
        _ => None,
    }
}

fn is_string(v: Option<&JsonValue>, text: &str) -> (r: bool)
    ensures
        r == named(
            match v {
                Some(x) => Some(*x),
                None => None,
            },
            text@,
        ),
{
    match v {
        Some(JsonValue::Str(s)) => {
            let t = String::from_str(text);
            s.eq(&t)
        },
        _ => false,
    }
}

/// Marks in `grid` the tiles that the data of `layer` sets, when the layer is named "Collisions".
fn mark_layer(layer: &JsonValue, grid: &mut Vec<bool>)
    ensures
        final(grid).len() == old(grid).len(),
        forall|i: int|
            0 <= i < old(grid).len() ==> #[trigger] final(grid)@[i] == (old(grid)@[i] || marks_tile(
                *layer,
                i,
            )),
{
    if !is_string(find_member(layer, "name"), "Collisions") {
        return ;
    }
    match find_member(layer, "data") {
        Some(JsonValue::Array(data)) => {
            let ghost g0 = grid@;
            let mut i: usize = 0;
            while i < data.len()
                invariant
                    i <= data.len(),
                    grid.len() == g0.len(),
                    member(*layer, "data"@) == Some(JsonValue::Array(*data)),
                    named(member(*layer, "name"@), "Collisions"@),
                    forall|j: int|
                        0 <= j < g0.len() ==> #[trigger] grid@[j] == (g0[j] || (j < i
                            && marks_tile(*layer, j))),
                decreases data.len() - i,
            {
                let set = match &data[i] {
                    JsonValue::Number(Some(n)) => *n != 0,
                    _ => false,
                };
                if set && i < grid.len() {
                    grid.set(i, true);
                }
                i = i + 1;
            }
        },
        _ => {},
    }
}

/// Wall grid of `len` tiles described by the Tiled map `doc`: tile `i` is a wall where some
/// layer named "Collisions" holds a non-zero integer at index `i`.
pub fn collision_grid_from_doc(doc: &JsonValue, len: usize) -> (grid: Vec<bool>)
    ensures
        grid.len() == len,
        forall|i: int| 0 <= i < len ==> #[trigger] grid@[i] == collision_tile(*doc, i),
{
    let mut grid: Vec<bool> = Vec::new();
    let mut i: usize = 0;
    while i < len
        invariant
            i <= len,
            grid.len() == i,
            forall|j: int| 0 <= j < i ==> grid@[j] == false,
        decreases len - i,
    {
        grid.push(false);
        i = i + 1;
    }
    match find_member(doc, "layers") {
        Some(JsonValue::Array(layers)) => {
            let mut j: usize = 0;
            while j < layers.len()
                invariant
                    j <= layers.len(),
                    grid.len() == len,
                    member(*doc, "layers"@) == Some(JsonValue::Array(*layers)),
                    forall|t: int|
                        0 <= t < len ==> #[trigger] grid@[t] == exists|j2: int|
                            0 <= j2 < j && #[trigger] marks_tile(layers@[j2], t),
                decreases layers.len() - j,
            {
                let ghost g0 = grid@;
                mark_layer(&layers[j], &mut grid);
                assert forall|t: int| 0 <= t < len implies #[trigger] grid@[t] == exists|j2: int|
                    0 <= j2 < j + 1 && #[trigger] marks_tile(layers@[j2], t) by {
                    if marks_tile(layers@[j as int], t) {
                        assert(0 <= j < j + 1 && marks_tile(layers@[j as int], t));
                    }
                }
                j = j + 1;
            }
        },
        _ => {},
    }
    grid
}

/// Wall grid of `len` tiles read from the Tiled map `json`; no walls where the text is no JSON.
pub fn collision_grid_from_json(json: &str, len: usize) -> (grid: Vec<bool>)
    ensures
        grid.len() == len,
        forall|i: int|
            0 <= i < len ==> #[trigger] grid@[i] == match json_document(json@) {
                Some(doc) => collision_tile(doc, i),
                None => false,
            },
{
    match parse_json(json) {
        Some(doc) => collision_grid_from_doc(&doc, len),
        None => {
            let mut grid: Vec<bool> = Vec::new();
            let mut i: usize = 0;
            while i < len
                invariant
                    i <= len,
                    grid.len() == i,
                    forall|j: int| 0 <= j < i ==> grid@[j] == false,
                decreases len - i,
            {
                grid.push(false);
                i = i + 1;
            }
            grid
        },
    }
}

} // verus!
