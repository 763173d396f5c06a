//! Records read from JSON and YAML documents.
//!
//! A document is parsed by `serde_json` or `serde_yaml`; what the readers
//! look at is handed over as plain values (`JsonDoc`, `YamlDoc`). The rules
//! that turn a document into records are verified here: the root must be a
//! list, each item a map, and each value is turned into its text.
use vstd::prelude::*;

use crate::table_ops::{entry_view, records_view, RecordEntry};
use serde_json::Value as JsonNode;
use serde_yaml::Value as YamlNode;
use serde_yaml::Value::{Bool as YamlBool, Null as YamlNull, Number as YamlNumber, String as YamlString};

verus! {

/// Why a document gives no records.
#[derive(Debug, Clone, Copy, PartialEq, Eq, Structural)]
pub enum DocError {
    /// The text is not a document of the format.
    NotParsed,
    /// The root is not a list.
    NotList,
    /// An item of the list is not a map with text keys.
    ItemNotMap,
}

// ---------------------------------------------------------------------------
// JSON
// ---------------------------------------------------------------------------

/// A JSON value as the readers see it.
#[derive(Debug)]
pub enum JsonValue {
    Null,
    Text(String),
    /// A number, a boolean, an array or an object, with its compact JSON text.
    Other(String),
}

/// An item of the root array.
#[derive(Debug)]
pub enum JsonItem {
    /// An object: its keys, in the parser's order, with their values.
    Object(Vec<(String, JsonValue)>),
    /// Anything else.
    Other,
}

/// A parsed JSON document.
#[derive(Debug)]
pub enum JsonDoc {
    /// The root is an array.
    List(Vec<JsonItem>),
    /// The root is anything else.
    Other,
}

/// What `serde_json` parses a text into, seen as a `JsonDoc`; `None` where
/// the text is not JSON.
pub uninterp spec fn json_doc_of(text: Seq<char>) -> Option<JsonDoc>;

/// Parses `text` with `serde_json::from_str` into a `serde_json::Value`
/// and hands over the root array, its objects and their values.
/// Trusted: the result is named `json_doc_of(text@)`; nothing more is
/// claimed of the parser.
#[verifier::external_body]
fn parse_json_doc(text: &str) -> (r: Option<JsonDoc>)
    ensures
        r == json_doc_of(text@),
{
    let value: JsonNode = serde_json::from_str(text).ok()?;
    let Some(items) = value.as_array() else { return Some(JsonDoc::Other) };
    Some(JsonDoc::List(items.iter().map(|item| match item.as_object() {
        Some(obj) => JsonItem::Object(obj.iter().map(|(k, v)| (k.clone(), match v {
            JsonNode::Null => JsonValue::Null,
            JsonNode::String(s) => JsonValue::Text(s.clone()),
            other => JsonValue::Other(other.to_string()),
        })).collect()),
        None => JsonItem::Other,
    }).collect()))
}

/// The text of a JSON value: a string as it is, `null` as nothing or as
/// `null`, anything else as its JSON text.
pub open spec fn json_text(v: JsonValue, null_as_empty: bool) -> Seq<char> {
    match v {
        JsonValue::Null => if null_as_empty { Seq::empty() } else { seq!['n', 'u', 'l', 'l'] },
        JsonValue::Text(s) => s@,
        JsonValue::Other(t) => t@,
    }
}

/// The record of an item: each key of an object with the text of its
/// value; no entries for an item that is not an object.
pub open spec fn json_entries(item: JsonItem, null_as_empty: bool) -> Seq<(Seq<char>, Option<Seq<char>>)> {
    match item {
        JsonItem::Object(entries) => entries@.map_values(
            |e: (String, JsonValue)| (e.0@, Some(json_text(e.1, null_as_empty))),
        ),
        JsonItem::Other => Seq::empty(),
    }
}

/// Whether some item of the root array is not an object.
pub open spec fn json_has_non_object(items: Seq<JsonItem>) -> bool {
    exists|i: int| 0 <= i < items.len() && items[i] is Other
}

/// The text of a JSON value.
pub fn json_value_text(v: &JsonValue, null_as_empty: bool) -> (s: String)
    ensures
        s@ == json_text(*v, null_as_empty),
{
    match v {
        JsonValue::Null => {
            if null_as_empty {
                String::new()
            } else {
                proof {
                    reveal_strlit("null");
                }
                "null".to_owned()
            }
        },
        JsonValue::Text(t) => t.clone(),
        JsonValue::Other(t) => t.clone(),
    }
}

/// The record of one item of the root array.
fn json_item_record(item: &JsonItem, null_as_empty: bool) -> (r: Vec<RecordEntry>)
    ensures
        r@.map_values(|e: RecordEntry| entry_view(e)) == json_entries(*item, null_as_empty),
{
    let mut out: Vec<RecordEntry> = Vec::new();
    match item {
        JsonItem::Object(entries) => {
            let mut j: usize = 0;
            while j < entries.len()
                invariant
                    0 <= j <= entries@.len(),
                    out@.len() == j,
                    forall|k: int| 0 <= k < j ==> entry_view(#[trigger] out@[k]) == (
                        entries@[k].0@,
                        Some(json_text(entries@[k].1, null_as_empty)),
                    ),
                decreases entries@.len() - j,
            {
                let key = entries[j].0.clone();
                let text = json_value_text(&entries[j].1, null_as_empty);
                out.push((key, Some(text)));
                j = j + 1;
            }
            proof {
                assert(out@.map_values(|e: RecordEntry| entry_view(e)) =~= json_entries(*item, null_as_empty));
            }
        },
        JsonItem::Other => {
            proof {
                assert(out@.map_values(|e: RecordEntry| entry_view(e)) =~= json_entries(*item, null_as_empty));
            }
        },
    }
    out
}

/// The records of a parsed JSON document.
///
/// A document that did not parse, or whose root is not an array, gives
/// its error. With `strict`, an item that is not an object is an error;
/// without, it gives a record with no entries. Otherwise each item gives
/// its keys with the texts of their values.
pub fn records_of_json(doc: &Option<JsonDoc>, null_as_empty: bool, strict: bool) -> (r: Result<Vec<Vec<RecordEntry>>, DocError>)
    ensures
        match *doc {
            None => r == Err::<Vec<Vec<RecordEntry>>, DocError>(DocError::NotParsed),
            Some(JsonDoc::Other) => r == Err::<Vec<Vec<RecordEntry>>, DocError>(DocError::NotList),
            Some(JsonDoc::List(items)) => if strict && json_has_non_object(items@) {
                r == Err::<Vec<Vec<RecordEntry>>, DocError>(DocError::ItemNotMap)
            } else {
                &&& r is Ok
                &&& records_view(r->Ok_0@) == items@.map_values(|it: JsonItem| json_entries(it, null_as_empty))
            },
        },
{
    let items = match doc {
        None => {
            return Err(DocError::NotParsed);
        },
        Some(JsonDoc::Other) => {
            return Err(DocError::NotList);
        },
        Some(JsonDoc::List(items)) => items,
    };
    let mut out: Vec<Vec<RecordEntry>> = Vec::new();
    let mut i: usize = 0;
    while i < items.len()
        invariant
            0 <= i <= items@.len(),
            *doc == Some(JsonDoc::List(*items)),
            out@.len() == i,
            !strict || forall|k: int| 0 <= k < i ==> !(items@[k] is Other),
            forall|k: int| 0 <= k < i ==> (#[trigger] out@[k])@.map_values(|e: RecordEntry| entry_view(e))
                == json_entries(items@[k], null_as_empty),
        decreases items@.len() - i,
    {
        if strict {
            if let JsonItem::Other = &items[i] {
                proof {
                    assert(items@[i as int] is Other);
                    assert(json_has_non_object(items@));
                }
                return Err(DocError::ItemNotMap);
            }
        }
        let rec = json_item_record(&items[i], null_as_empty);
        out.push(rec);
        i = i + 1;
    }
    proof {
        assert(records_view(out@) =~= items@.map_values(|it: JsonItem| json_entries(it, null_as_empty)));
    }
    Ok(out)
}

/// The records of a JSON text: `parse_json_doc`, then `records_of_json`.
pub fn json_records(text: &str, null_as_empty: bool, strict: bool) -> (r: Result<Vec<Vec<RecordEntry>>, DocError>)
    ensures
        ({
            let doc = json_doc_of(text@);
            match doc {
                None => r == Err::<Vec<Vec<RecordEntry>>, DocError>(DocError::NotParsed),
                Some(JsonDoc::Other) => r == Err::<Vec<Vec<RecordEntry>>, DocError>(DocError::NotList),
                Some(JsonDoc::List(items)) => if strict && json_has_non_object(items@) {
                    r == Err::<Vec<Vec<RecordEntry>>, DocError>(DocError::ItemNotMap)
                } else {
                    &&& r is Ok
                    &&& records_view(r->Ok_0@) == items@.map_values(|it: JsonItem| json_entries(it, null_as_empty))
                },
            }
        }),
{
    let doc = parse_json_doc(text);
    records_of_json(&doc, null_as_empty, strict)
}

// ---------------------------------------------------------------------------
// YAML
// ---------------------------------------------------------------------------

/// A YAML value as the readers see it.
#[derive(Debug)]
pub enum YamlValue {
    Null,
    Text(String),
    /// A number or a boolean, with its text.
    Scalar(String),
    /// A sequence, a mapping or a tagged value, with its debug text.
    Nested(String),
}

/// An item of the root sequence.
#[derive(Debug)]
pub enum YamlItem {
    /// A mapping: its keys, in document order, with their values.
    Mapping(Vec<(YamlValue, YamlValue)>),
    /// Anything else.
    Other,
}

/// A parsed YAML document.
#[derive(Debug)]
pub enum YamlDoc {
    /// The root is a sequence.
    List(Vec<YamlItem>),
    /// The root is anything else.
    Other,
}

/// What `serde_yaml` parses a text into, seen as a `YamlDoc`; `None` where
/// the text is not YAML.
pub uninterp spec fn yaml_doc_of(text: Seq<char>) -> Option<YamlDoc>;

/// Parses `text` with `serde_yaml::from_str` into a `serde_yaml::Value`
/// and hands over the root sequence, its mappings, their keys and values.
/// Trusted: the result is named `yaml_doc_of(text@)`; nothing more is
/// claimed of the parser.
#[verifier::external_body]
fn parse_yaml_doc(text: &str) -> (r: Option<YamlDoc>)
    ensures
        r == yaml_doc_of(text@),
{
    let value: YamlNode = serde_yaml::from_str(text).ok()?;
    let leaf = |v: &YamlNode| match v {
        YamlNull => YamlValue::Null,
        YamlString(s) => YamlValue::Text(s.clone()),
        YamlNumber(n) => YamlValue::Scalar(n.to_string()),
        YamlBool(b) => YamlValue::Scalar(b.to_string()),
        other => YamlValue::Nested(format!("{other:?}")),
    };
    Some(match value.as_sequence() {
        None => YamlDoc::Other,
        Some(items) => YamlDoc::List(items.iter().map(|item| match item.as_mapping() {
            Some(map) => YamlItem::Mapping(map.iter().map(|(k, v)| (leaf(k), leaf(v))).collect()),
            None => YamlItem::Other,
        }).collect()),
    })
}

/// The text of a YAML value: a string as it is, null as nothing, anything
/// else as its text.
pub open spec fn yaml_text(v: YamlValue) -> Seq<char> {
    match v {
        YamlValue::Null => Seq::empty(),
        YamlValue::Text(s) => s@,
        YamlValue::Scalar(t) => t@,
        YamlValue::Nested(d) => d@,
    }
}

/// The record of an item. Each key gives an entry with the key's text;
/// its value's text is there where the key is a string, or, with
/// `strict`, for every key. An item that is not a mapping gives no
/// entries.
pub open spec fn yaml_entries(item: YamlItem, strict: bool) -> Seq<(Seq<char>, Option<Seq<char>>)> {
    match item {
        YamlItem::Mapping(entries) => entries@.map_values(
            |e: (YamlValue, YamlValue)| (yaml_text(e.0), if strict || e.0 is Text {
                Some(yaml_text(e.1))
            } else {
                None
            }),
        ),
        YamlItem::Other => Seq::empty(),
    }
}

/// Whether an item cannot be read as a map with text keys: it is not a
/// mapping, or one of its keys is a sequence, a mapping or tagged.
pub open spec fn yaml_bad_item(item: YamlItem) -> bool {
    match item {
        YamlItem::Mapping(entries) => exists|j: int| 0 <= j < entries@.len() && (#[trigger] entries@[j]).0 is Nested,
        YamlItem::Other => true,
    }
}

/// Whether some item of the root sequence cannot be read as a map.
pub open spec fn yaml_has_bad_item(items: Seq<YamlItem>) -> bool {
    exists|i: int| 0 <= i < items.len() && yaml_bad_item(#[trigger] items[i])
}

/// The text of a YAML value.
pub fn yaml_value_text(v: &YamlValue) -> (s: String)
    ensures
        s@ == yaml_text(*v),
{
    match v {
        YamlValue::Null => String::new(),
        YamlValue::Text(t) => t.clone(),
        YamlValue::Scalar(t) => t.clone(),
        YamlValue::Nested(t) => t.clone(),
    }
}

/// The record of one item of the root sequence.
fn yaml_item_record(item: &YamlItem, strict: bool) -> (r: Vec<RecordEntry>)
    ensures
        r@.map_values(|e: RecordEntry| entry_view(e)) == yaml_entries(*item, strict),
{
    let mut out: Vec<RecordEntry> = Vec::new();
    match item {
        YamlItem::Mapping(entries) => {
            let mut j: usize = 0;
            while j < entries.len()
                invariant
                    0 <= j <= entries@.len(),
                    out@.len() == j,
                    forall|k: int| 0 <= k < j ==> entry_view(#[trigger] out@[k]) == (
                        yaml_text(entries@[k].0),
                        if strict || entries@[k].0 is Text {
                            Some(yaml_text(entries@[k].1))
                        } else {
                            None::<Seq<char>>
                        },
                    ),
                decreases entries@.len() - j,
            {
                let key = yaml_value_text(&entries[j].0);
                let keyed = match &entries[j].0 {
                    YamlValue::Text(_) => true,
                    _ => false,
                };
                let value = if strict || keyed {
                    Some(yaml_value_text(&entries[j].1))
                } else {
                    None
                };
                out.push((key, value));
                j = j + 1;
            }
            proof {
                assert(out@.map_values(|e: RecordEntry| entry_view(e)) =~= yaml_entries(*item, strict));
            }
        },
        YamlItem::Other => {
            proof {
                assert(out@.map_values(|e: RecordEntry| entry_view(e)) =~= yaml_entries(*item, strict));
            }
        },
    }
    out
}

/// Whether an item cannot be read as a map with text keys.
fn yaml_item_bad(item: &YamlItem) -> (b: bool)
    ensures
        b == yaml_bad_item(*item),
{
    match item {
        YamlItem::Mapping(entries) => {
            let mut j: usize = 0;
            while j < entries.len()
                invariant
                    0 <= j <= entries@.len(),
                    *item == YamlItem::Mapping(*entries),
                    forall|k: int| 0 <= k < j ==> !((#[trigger] entries@[k]).0 is Nested),
                decreases entries@.len() - j,
            {
                if let YamlValue::Nested(_) = &entries[j].0 {
                    proof {
                        assert(entries@[j as int].0 is Nested);
                    }
                    return true;
                }
                j = j + 1;
            }
            false
        },
        YamlItem::Other => true,
    }
}

/// The records of a parsed YAML document.
///
/// A document that did not parse, or whose root is not a sequence, gives
/// its error. Without `strict`, an item that is not a mapping gives a
/// record with no entries, and only string keys carry their values' texts.
/// With `strict`, every item must be a mapping whose keys are scalars, and
/// every key carries its value's text.
pub fn records_of_yaml(doc: &Option<YamlDoc>, strict: bool) -> (r: Result<Vec<Vec<RecordEntry>>, DocError>)
    ensures
        match *doc {
            None => r == Err::<Vec<Vec<RecordEntry>>, DocError>(DocError::NotParsed),
            Some(YamlDoc::Other) => r == Err::<Vec<Vec<RecordEntry>>, DocError>(DocError::NotList),
            Some(YamlDoc::List(items)) => if strict && yaml_has_bad_item(items@) {
                r == Err::<Vec<Vec<RecordEntry>>, DocError>(DocError::ItemNotMap)
            } else {
                &&& r is Ok
                &&& records_view(r->Ok_0@) == items@.map_values(|it: YamlItem| yaml_entries(it, strict))
            },
        },
{
    let items = match doc {
        None => {
            return Err(DocError::NotParsed);
        },
        Some(YamlDoc::Other) => {
            return Err(DocError::NotList);
        },
        Some(YamlDoc::List(items)) => items,
    };
    let mut out: Vec<Vec<RecordEntry>> = Vec::new();
    let mut i: usize = 0;
    while i < items.len()
        invariant
            0 <= i <= items@.len(),
            *doc == Some(YamlDoc::List(*items)),
            out@.len() == i,
            !strict || forall|k: int| 0 <= k < i ==> !yaml_bad_item(#[trigger] items@[k]),
            forall|k: int| 0 <= k < i ==> (#[trigger] out@[k])@.map_values(|e: RecordEntry| entry_view(e))
                == yaml_entries(items@[k], strict),
        decreases items@.len() - i,
    {
        if strict && yaml_item_bad(&items[i]) {
            proof {
                assert(yaml_bad_item(items@[i as int]));
                assert(yaml_has_bad_item(items@));
            }
            return Err(DocError::ItemNotMap);
        }
        let rec = yaml_item_record(&items[i], strict);
        out.push(rec);
        i = i + 1;
    }
    proof {
        assert(records_view(out@) =~= items@.map_values(|it: YamlItem| yaml_entries(it, strict)));
    }
    Ok(out)
}

/// The records of a YAML text: `parse_yaml_doc`, then `records_of_yaml`.
pub fn yaml_records(text: &str, strict: bool) -> (r: Result<Vec<Vec<RecordEntry>>, DocError>)
    ensures
        match yaml_doc_of(text@) {
            None => r == Err::<Vec<Vec<RecordEntry>>, DocError>(DocError::NotParsed),
            Some(YamlDoc::Other) => r == Err::<Vec<Vec<RecordEntry>>, DocError>(DocError::NotList),
            Some(YamlDoc::List(items)) => if strict && yaml_has_bad_item(items@) {
                r == Err::<Vec<Vec<RecordEntry>>, DocError>(DocError::ItemNotMap)
            } else {
                &&& r is Ok
                &&& records_view(r->Ok_0@) == items@.map_values(|it: YamlItem| yaml_entries(it, strict))
            },
        },
{
    let doc = parse_yaml_doc(text);
    records_of_yaml(&doc, strict)
}

} // verus!
