//! Values as bytes and text: JSON, YAML, base64 and UTF-8.
//!
//! The formats themselves are read and written by outside crates. What they return is
//! named here; the rest of the library is stated over those names.
use crate::json::{Json, JsonView, Num};
use crate::patterns::{all_tame, holds_all, Ask};
use crate::refs::{asks_unique, ends};
use crate::settings::setting_views;
use crate::text::{ascii_lower, opt_text};
use base64::Engine;
use serde_json::Value;
use vstd::prelude::*;
use vstd::utf8::{decode_utf8, valid_utf8};

verus! {

/// A value of the JSON crate.
#[verifier::external_type_specification]
#[verifier::external_body]
pub struct ExValue(serde_json::Value);

/// A number of the JSON crate.
#[verifier::external_type_specification]
#[verifier::external_body]
pub struct ExNumber(serde_json::Number);

/// Why a YAML text could not be read, with the words of the reader.
pub enum YamlError {
    Parse(String),
    Convert(String),
}

/// The model of a `YamlError`.
pub enum YamlErrorView {
    Parse(Seq<char>),
    Convert(Seq<char>),
}

impl View for YamlError {
    type V = YamlErrorView;

    open spec fn view(&self) -> YamlErrorView {
        match self {
            YamlError::Parse(s) => YamlErrorView::Parse(s@),
            YamlError::Convert(s) => YamlErrorView::Convert(s@),
        }
    }
}

/// The value that bytes denote as JSON, where they denote one.
pub uninterp spec fn json_read(bytes: Seq<u8>) -> Option<JsonView>;

/// A value as JSON on one line.
pub uninterp spec fn json_line(v: JsonView) -> Seq<char>;

/// Why a text denotes nothing as YAML; none where it denotes something.
pub uninterp spec fn yaml_fault(text: Seq<char>) -> Option<Seq<char>>;

/// What a text denotes as YAML, as a JSON value, or why it is none.
pub uninterp spec fn yaml_json(text: Seq<char>) -> Result<JsonView, Seq<char>>;

/// The value that a text denotes as YAML, or why it denotes none.
pub open spec fn yaml_read(text: Seq<char>) -> Result<JsonView, YamlErrorView> {
    match yaml_fault(text) {
        Some(e) => Err(YamlErrorView::Parse(e)),
        None => match yaml_json(text) {
            Ok(v) => Ok(v),
            Err(e) => Err(YamlErrorView::Convert(e)),
        },
    }
}

/// A value as YAML, where it can be written.
pub uninterp spec fn yaml_page(v: JsonView) -> Option<Seq<char>>;

/// The text of bytes, with a mark in place of what is no text.
pub uninterp spec fn lossy(bytes: Seq<u8>) -> Seq<char>;

/// The bytes that a text denotes in standard base64, where it denotes any.
pub uninterp spec fn base64_read(text: Seq<char>) -> Option<Seq<u8>>;

/// The number of a `serde_json::Number`, by its `as_u64` and `as_i64`, else by its text.
/// Nothing is claimed of the result here: see `parse_json`.
#[verifier::external_body]
fn from_number(n: serde_json::Number) -> (r: Num) {
    match (n.as_u64(), n.as_i64()) {
        (Some(u), _) => Num::Pos(u),
        (None, Some(i)) => Num::Neg(i),
        (None, None) => Num::Float(n.to_string()),
    }
}

/// The value of a `serde_json::Value`, variant by variant. Nothing is claimed of the
/// result here: see `parse_json`.
#[verifier::external_body]
fn from_value(v: serde_json::Value) -> (r: Json) {
    match v {
        serde_json::Value::Null => Json::Null,
        serde_json::Value::Bool(b) => Json::Bool(b),
        serde_json::Value::Number(n) => Json::Number(from_number(n)),
        serde_json::Value::String(s) => Json::Str(s),
        serde_json::Value::Array(a) => Json::Array(a.into_iter().map(from_value).collect()),
        serde_json::Value::Object(m) => Json::Object(
            m.into_iter().map(|(k, x)| (k, from_value(x))).collect(),
        ),
    }
}

/// The `serde_json::Value` of a value, variant by variant; a number kept as text is read
/// as a `serde_json::Number`, and is null where it is none. Nothing is claimed of the result
/// here: see `json_to_line`.
#[verifier::external_body]
fn to_value(v: &Json) -> (r: Value) {
    match v {
        Json::Null => Value::Null,
        Json::Bool(b) => Value::Bool(*b),
        Json::Number(Num::Pos(u)) => Value::from(*u),
        Json::Number(Num::Neg(i)) => Value::from(*i),
        Json::Number(Num::Float(s)) => s.parse().map(Value::Number).unwrap_or_default(),
        Json::Str(s) => Value::String(s.clone()),
        Json::Array(a) => Value::Array(a.iter().map(to_value).collect()),
        Json::Object(m) => Value::Object(
            m.iter().map(|(k, x)| (k.clone(), to_value(x))).collect(),
        ),
    }
}

/// `serde_json::from_slice` into a `serde_json::Value`: the value that the bytes denote,
/// where they denote one. It is a function of the bytes. Its objects are maps that are
/// ordered by name, `BTreeMap`: their members ascend.
#[verifier::external_body]
pub(crate) fn parse_json(bytes: &[u8]) -> (r: Option<Json>)
    ensures
        match r {
            Some(v) => json_read(bytes@) == Some(v@) && v@.sorted(),
            None => json_read(bytes@) is None,
        },
{
    serde_json::from_slice::<serde_json::Value>(bytes).ok().map(from_value)
}

/// `serde_json::Value::to_string`: the value on one line. It is a function of the value.
#[verifier::external_body]
pub(crate) fn json_to_line(v: &Json) -> (r: String)
    ensures
        r@ == json_line(v@),
{
    to_value(v).to_string()
}

/// `serde_yaml::from_str` into a `serde_yaml::Value`, and `serde_json::to_value` of that:
/// the words of the first where it fails, else the value, or the words of the second. Each is
/// a function of the text. The objects of the value are maps that are ordered by name,
/// `BTreeMap`: their members ascend.
#[verifier::external_body]
pub(crate) fn parse_yaml(text: &str) -> (r: Result<Json, YamlError>)
    ensures
        match r {
            Ok(v) => yaml_fault(text@) is None && yaml_json(text@) == Ok::<JsonView, Seq<char>>(v@) && v@.sorted(),
            Err(YamlError::Parse(e)) => yaml_fault(text@) == Some(e@),
            Err(YamlError::Convert(e)) => yaml_fault(text@) is None && yaml_json(text@) == Err::<
                JsonView,
                Seq<char>,
            >(e@),
        },
{
    let v = serde_yaml::from_str::<serde_yaml::Value>(text).map_err(
        |e| YamlError::Parse(e.to_string()),
    )?;
    serde_json::to_value(v).map(from_value).map_err(|e| YamlError::Convert(e.to_string()))
}

/// `serde_yaml::to_string` of a `serde_json::Value`: the value as YAML, where it can be
/// written. It is a function of the value.
#[verifier::external_body]
pub(crate) fn yaml_to_page(v: &Json) -> (r: Option<String>)
    ensures
        opt_text(r) == yaml_page(v@),
{
    serde_yaml::to_string(&to_value(v)).ok()
}

/// `String::from_utf8_lossy`: the text of the bytes, with a mark in place of what is no
/// text. It is a function of the bytes; bytes that are valid UTF-8 give their text
/// unchanged.
#[verifier::external_body]
pub(crate) fn lossy_text(bytes: &[u8]) -> (r: String)
    ensures
        r@ == lossy(bytes@),
        valid_utf8(bytes@) ==> r@ == decode_utf8(bytes@),
{
    String::from_utf8_lossy(bytes).into_owned()
}

/// `String::from_utf8`: the text of the bytes, if and only if they are valid UTF-8.
#[verifier::external_body]
pub(crate) fn utf8_text(bytes: Vec<u8>) -> (r: Option<String>)
    ensures
        match r {
            Some(s) => valid_utf8(bytes@) && s@ == decode_utf8(bytes@),
            None => !valid_utf8(bytes@),
        },
{
    String::from_utf8(bytes).ok()
}

/// `base64::Engine::decode` with the engine `STANDARD`: the bytes that the text denotes,
/// where it denotes any. It is a function of the text.
#[verifier::external_body]
pub(crate) fn base64_bytes(text: &str) -> (r: Option<Vec<u8>>)
    ensures
        match r {
            Some(b) => base64_read(text@) == Some(b@),
            None => base64_read(text@) is None,
        },
{
    base64::engine::general_purpose::STANDARD.decode(text.as_bytes()).ok()
}
/// The value of a hexadecimal digit; 16 for another character.
pub open spec fn hex_value(c: char) -> int {
    if '0' <= c && c <= '9' {
        c as int - '0' as int
    } else if 'a' <= c && c <= 'f' {
        c as int - 'a' as int + 10
    } else if 'A' <= c && c <= 'F' {
        c as int - 'A' as int + 10
    } else {
        16
    }
}

/// A text without the four hyphens that part an identity into groups.
pub open spec fn unhyphened(s: Seq<char>) -> Option<Seq<char>> {
    if s.len() == 36 && s[8] == '-' && s[13] == '-' && s[18] == '-' && s[23] == '-' {
        Some(
            s.subrange(0, 8) + s.subrange(9, 13) + s.subrange(14, 18) + s.subrange(19, 23) + s.subrange(24, 36),
        )
    } else {
        None
    }
}

/// The digits of an identity: alone, in groups, in groups between braces, or in groups
/// after `urn:uuid:`.
pub open spec fn uuid_digits(s: Seq<char>) -> Option<Seq<char>> {
    if s.len() == 32 {
        Some(s)
    } else if s.len() == 38 && s[0] == '{' && s[37] == '}' {
        unhyphened(s.subrange(1, 37))
    } else if s.len() == 45 && ascii_lower(s.take(9)) == "urn:uuid:"@ {
        unhyphened(s.skip(9))
    } else {
        unhyphened(s)
    }
}

/// The bytes of the identity that a text denotes, where it denotes one.
pub open spec fn uuid_read(s: Seq<char>) -> Option<Seq<u8>> {
    match uuid_digits(s) {
        Some(d) => if forall|i: int| 0 <= i < d.len() ==> hex_value(#[trigger] d[i]) < 16 {
            Some(Seq::new(16, |i: int| (16 * hex_value(d[2 * i]) + hex_value(d[2 * i + 1])) as u8))
        } else {
            None
        },
        None => None,
    }
}

/// What is wrong with a text that denotes no identity.
pub uninterp spec fn uuid_fault(s: Seq<char>) -> Seq<char>;

/// `uuid::Uuid::parse_str`: the bytes of the identity, if and only if the text has one of
/// the four shapes and its digits are hexadecimal; else the words of the error, which are a
/// function of the text.
#[verifier::external_body]
pub(crate) fn uuid_bytes(text: &str) -> (r: Result<[u8; 16], String>)
    ensures
        match r {
            Ok(b) => uuid_read(text@) == Some(b@),
            Err(e) => uuid_read(text@) is None && e@ == uuid_fault(text@),
        },
{
    uuid::Uuid::parse_str(text).map(|u| *u.as_bytes()).map_err(|e| e.to_string())
}

/// The value that bytes denote as JSON, where they denote one.
pub fn read_json(bytes: &[u8]) -> (r: Option<Json>)
    ensures
        match r {
            Some(v) => json_read(bytes@) == Some(v@) && v@.sorted(),
            None => json_read(bytes@) is None,
        },
{
    parse_json(bytes)
}
/// The text of bytes: what they encode, where they are valid UTF-8.
pub open spec fn text_in(bytes: Seq<u8>) -> Seq<char> {
    if valid_utf8(bytes) {
        decode_utf8(bytes)
    } else {
        lossy(bytes)
    }
}

/// The bytes packed by zstd at a level, where that succeeds.
pub uninterp spec fn zstd_packed(bytes: Seq<u8>, level: i32) -> Option<Seq<u8>>;

/// The bytes that packed bytes stand for, where they are packed by zstd.
pub uninterp spec fn zstd_unpacked(bytes: Seq<u8>) -> Option<Seq<u8>>;

/// `zstd::encode_all`: the bytes as a zstd frame, where that succeeds. It is a function of
/// the bytes and the level; `zstd::decode_all` gives the bytes of such a frame back.
#[verifier::external_body]
pub(crate) fn zstd_pack(bytes: &[u8], level: i32) -> (r: Option<Vec<u8>>)
    ensures
        match r {
            Some(p) => zstd_packed(bytes@, level) == Some(p@) && zstd_unpacked(p@) == Some(bytes@),
            None => zstd_packed(bytes@, level) is None,
        },
{
    zstd::encode_all(bytes, level).ok()
}

/// `zstd::decode_all`: the bytes that zstd frames stand for, where the bytes are such
/// frames. It is a function of the bytes.
#[verifier::external_body]
pub(crate) fn zstd_unpack(bytes: &[u8]) -> (r: Option<Vec<u8>>)
    ensures
        match r {
            Some(p) => zstd_unpacked(bytes@) == Some(p@),
            None => zstd_unpacked(bytes@) is None,
        },
{
    zstd::decode_all(std::io::Cursor::new(bytes)).ok()
}

/// Whether a schema can be compiled.
pub uninterp spec fn schema_compiles(schema: JsonView) -> bool;

/// The place and the words of each error that a value has under a schema that was compiled.
pub uninterp spec fn schema_faults(schema: JsonView, v: JsonView) -> Seq<(Seq<char>, Seq<char>)>;

/// `jsonschema::CompilationOptions::compile` with draft 7, and `jsonschema::JSONSchema::validate`
/// of what was compiled: where the schema can be compiled, the place and the words of each
/// error. Whether it can is a function of the schema. The errors are a function of the schema
/// and the value, but for one thing: where the schema asks that the elements of a list differ,
/// a long list is looked through with a hasher that is seeded at random, and takes 0.0 and
/// -0.0 for equal or not by chance. Which errors come of such a schema and a value that may
/// hold -0.0 is left unsaid. Two things are left out. On a schema whose references do not end
/// the outside function may not return. On a pattern that asks a condition, refers to its own
/// groups or repeats beyond measure, the expressions of `fancy_regex` may panic.
#[verifier::external_body]
pub(crate) fn schema_errors(schema: &Json, v: &Json) -> (r: Option<Vec<(String, String)>>)
    requires
        ends(schema@),
        all_tame(schema@, v@),
    ensures
        r is Some <==> schema_compiles(schema@),
        r matches Some(errors) ==> (!asks_unique(schema@) || holds_all(Ask::Numbers, v@)) ==> setting_views(errors@)
            == schema_faults(schema@, v@),
{
    let schema = to_value(schema);
    let instance = to_value(v);
    let compiled = jsonschema::JSONSchema::options().with_draft(jsonschema::Draft::Draft7).compile(&schema).ok()?;
    let found: Vec<(String, String)> = match compiled.validate(&instance) {
        Ok(()) => Vec::new(),
        Err(errors) => errors.map(|e| (e.instance_path.to_string(), e.to_string())).collect(),
    };
    Some(found)
}

} // verus!
