//! JSON listings as plain library values. A parsed document is modeled
//! by `JsonVal`, which holds exactly what the probers read: the verifier
//! sees the whole document, and the only trust is in the parser itself.

use vstd::prelude::*;

verus! {

use crate::text::bytes_eq;

#[verifier::external_type_specification]
#[verifier::external_body]
pub struct ExValue(serde_json::Value);

/// One JSON value, as the probers read it: scalars, text, arrays, and
/// objects as key-value pairs in the parser's iteration order. A number
/// that is not an unsigned 64-bit integer is kept only as its kind, the
/// way the probers treat it.
pub enum JsonVal {
    Null,
    Bool(bool),
    UInt(u64),
    OtherNum,
    Text(String),
    Arr(Vec<JsonVal>),
    Obj(Vec<(String, JsonVal)>),
}

/// The document that a text parses to, or nothing when it is not JSON:
/// a function of the text alone.
pub uninterp spec fn json_doc(text: Seq<char>) -> Option<JsonVal>;

/// Relies on serde_json::from_str::<Value>: parsing succeeds exactly on
/// JSON documents and is a function of the text alone; the conversion
/// below moves each parsed value into the library's model, one variant
/// arm each.
#[verifier::external_body]
pub(crate) fn parse_json(s: &str) -> (r: Option<JsonVal>)
    ensures
        r == json_doc(s@),
{
    match serde_json::from_str::<serde_json::Value>(s) {
        Ok(v) => Some(value_model(v)),
        Err(_) => None,
    }
}

/// The conversion behind `parse_json`: one arm per variant of the
/// parser's value type, fields moved, children converted alike.
#[verifier::external_body]
fn value_model(v: serde_json::Value) -> JsonVal {
    match v {
        serde_json::Value::Null => JsonVal::Null,
        serde_json::Value::Bool(b) => JsonVal::Bool(b),
        serde_json::Value::Number(n) => match n.as_u64() {
            Some(u) => JsonVal::UInt(u),
            None => JsonVal::OtherNum,
        },
        serde_json::Value::String(s) => JsonVal::Text(s),
        serde_json::Value::Array(items) => JsonVal::Arr(
            items.into_iter().map(value_model).collect(),
        ),
        serde_json::Value::Object(fields) => JsonVal::Obj(
            fields.into_iter().map(|(k, x)| (k, value_model(x))).collect(),
        ),
    }
}

/// The position of a key among an object's fields, or their number when
/// the key is absent.
pub open spec fn field_ix(fs: Seq<(String, JsonVal)>, key: Seq<char>) -> int
    decreases fs.len(),
{
    if fs.len() == 0 {
        0
    } else if fs[0].0@ == key {
        0
    } else {
        1 + field_ix(fs.drop_first(), key)
    }
}

/// `field_ix` is in range, points at the key when it occurs, and nothing
/// before it carries it.
pub proof fn lemma_field_ix(fs: Seq<(String, JsonVal)>, key: Seq<char>)
    ensures
        0 <= field_ix(fs, key) <= fs.len(),
        field_ix(fs, key) < fs.len() ==> fs[field_ix(fs, key)].0@ == key,
        forall|k: int| 0 <= k < field_ix(fs, key) ==> fs[k].0@ != key,
    decreases fs.len(),
{
    if fs.len() > 0 && fs[0].0@ != key {
        let rest = fs.drop_first();
        lemma_field_ix(rest, key);
        let f = field_ix(fs, key);
        if f < fs.len() {
            assert(fs[f] == rest[f - 1]);
        }
        assert(forall|k: int| 1 <= k < f ==> fs[k] == rest[k - 1]);
    }
}

/// The member of a JSON value under the key: its first field with that
/// key when the value is an object and the key occurs, else nothing.
pub open spec fn member(v: JsonVal, key: Seq<char>) -> Option<JsonVal> {
    match v {
        JsonVal::Obj(fields) => {
            let ix = field_ix(fields@, key);
            if ix < fields@.len() {
                Some(fields@[ix].1)
            } else {
                None
            }
        },
        _ => None,
    }
}

/// Look a member up in a JSON value.
pub fn get_member<'a>(v: &'a JsonVal, key: &str) -> (r: Option<&'a JsonVal>)
    ensures
        match r {
            Some(m) => member(*v, key@) == Some(*m),
            None => member(*v, key@) is None,
        },
{
    match v {
        JsonVal::Obj(fields) => {
            proof {
                lemma_field_ix(fields@, key@);
            }
            let mut i: usize = 0;
            while i < fields.len()
                invariant
                    0 <= i <= fields@.len(),
                    *v == JsonVal::Obj(*fields),
                    forall|k: int| 0 <= k < i ==> fields@[k].0@ != key@,
                decreases fields@.len() - i,
            {
                if bytes_eq(fields[i].0.as_str().as_bytes(), key.as_bytes()) {
                    proof {
                        crate::downloader::lemma_utf8_eq(fields@[i as int].0@, key@);
                        lemma_field_ix_found(fields@, key@, i as int);
                    }
                    return Some(&fields[i].1);
                }
                proof {
                    crate::downloader::lemma_utf8_eq(fields@[i as int].0@, key@);
                }
                i = i + 1;
            }
            None
        },
        _ => None,
    }
}

/// `field_ix` equals any index carrying the key with none before.
proof fn lemma_field_ix_found(fs: Seq<(String, JsonVal)>, key: Seq<char>, i: int)
    requires
        0 <= i < fs.len(),
        fs[i].0@ == key,
        forall|k: int| 0 <= k < i ==> fs[k].0@ != key,
    ensures
        field_ix(fs, key) == i,
{
    lemma_field_ix(fs, key);
    let f = field_ix(fs, key);
    if f < i {
        assert(fs[f].0@ == key);
    }
    if f > i {
        assert(fs[i].0@ != key);
    }
}

/// An object's fields read as a mapping: a later field whose key was
/// already seen replaces the earlier one in place.
pub open spec fn dedup_fields(fs: Seq<(String, JsonVal)>) -> Seq<(String, JsonVal)>
    decreases fs.len(),
{
    if fs.len() == 0 {
        Seq::empty()
    } else {
        let d = dedup_fields(fs.drop_last());
        let last = fs.last();
        let ix = field_ix(d, last.0@);
        if ix < d.len() {
            d.update(ix, last)
        } else {
            d.push(last)
        }
    }
}

/// The text a member holds, or the unknown sentinel when the member is
/// absent or not a string.
pub open spec fn text_or_unknown(o: Option<JsonVal>) -> Seq<char> {
    match o {
        Some(JsonVal::Text(s)) => s@,
        _ => "Unknown"@,
    }
}

/// The text of a member of `v`, or the unknown sentinel.
pub fn member_text_or_unknown(v: &JsonVal, key: &str) -> (r: String)
    ensures
        r@ == text_or_unknown(member(*v, key@)),
{
    match get_member(v, key) {
        Some(JsonVal::Text(s)) => s.clone(),
        _ => "Unknown".to_owned(),
    }
}

/// The count a member holds, clamped to the machine word, or zero when
/// the member is absent or not an unsigned integer.
pub open spec fn size_or_zero(o: Option<JsonVal>) -> nat {
    match o {
        Some(JsonVal::UInt(n)) => crate::text::min_nat(n as nat, usize::MAX as nat),
        _ => 0,
    }
}

/// The count a member of `v` holds, or zero.
pub fn member_size_or_zero(v: &JsonVal, key: &str) -> (r: usize)
    ensures
        r as nat == size_or_zero(member(*v, key@)),
{
    match get_member(v, key) {
        Some(JsonVal::UInt(n)) => crate::downloader::size_to_usize(*n),
        _ => 0,
    }
}

} // verus!
