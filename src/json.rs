//! Reading JSON documents through serde_json, into plain values.
use vstd::prelude::*;

verus! {

/// One record of the published index: its `version` and `date` texts (when
/// they are strings), its `lts` member as a boolean (when it is one), and
/// whether that member is a string.
pub struct IndexRecord {
    pub version: Option<String>,
    pub date: Option<String>,
    pub lts_flag: Option<bool>,
    pub lts_is_string: bool,
}

pub open spec fn opt_text(s: Option<String>) -> Option<Seq<char>> {
    match s {
        Some(t) => Some(t@),
        None => None,
    }
}

/// A record as plain values.
pub open spec fn record_view(r: IndexRecord) -> (Option<Seq<char>>, Option<Seq<char>>, Option<bool>, bool) {
    (opt_text(r.version), opt_text(r.date), r.lts_flag, r.lts_is_string)
}

/// Records as plain values.
pub open spec fn records_view(v: Seq<IndexRecord>) -> Seq<(Option<Seq<char>>, Option<Seq<char>>, Option<bool>, bool)> {
    v.map_values(|x: IndexRecord| record_view(x))
}

/// The records that serde_json reads from an index text that is a JSON
/// array; `None` when it is not.
pub uninterp spec fn index_records_of(text: Seq<char>) -> Option<
    Seq<(Option<Seq<char>>, Option<Seq<char>>, Option<bool>, bool)>,
>;

/// The string at `section.field` of a JSON document; `None` when the text is
/// no JSON, or the member is missing or not a string.
pub uninterp spec fn json_member_text(text: Seq<char>, section: Seq<char>, field: Seq<char>) -> Option<
    Seq<char>,
>;

/// Relies on `serde_json::from_str::<Vec<Value>>`, then on indexing each
/// element by `"version"`, `"date"` and `"lts"` (a missing member reads as
/// `null`) and on `Value::as_str`, `Value::as_bool` and `Value::is_string`.
#[verifier::external_body]
pub(crate) fn read_index(text: &str) -> (r: Option<Vec<IndexRecord>>)
    ensures
        match index_records_of(text@) {
            None => r is None,
            Some(recs) => r matches Some(v) && records_view(v@) == recs,
        },
{
    let values: Vec<serde_json::Value> = serde_json::from_str(text).ok()?;
    Some(values.iter().map(|v| IndexRecord {
        version: v["version"].as_str().map(|s| s.to_string()),
        date: v["date"].as_str().map(|s| s.to_string()),
        lts_flag: v["lts"].as_bool(),
        lts_is_string: v["lts"].is_string(),
    }).collect())
}

/// Relies on `serde_json::from_str::<Value>`, `Value::get` (twice) and
/// `Value::as_str`: the string member `field` of the object member `section`.
#[verifier::external_body]
pub(crate) fn member_text(text: &str, section: &str, field: &str) -> (r: Option<String>)
    ensures
        opt_text(r) == json_member_text(text@, section@, field@),
{
    let doc: serde_json::Value = serde_json::from_str(text).ok()?;
    let s = doc.get(section)?.get(field)?.as_str()?;
    Some(s.to_string())
}

} // verus!
