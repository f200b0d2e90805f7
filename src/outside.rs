use vstd::prelude::*;
use crate::convert::opt_text;
use crate::csv_out::{items_view, Members};
use crate::markdown::MarkdownTable;

verus! {

/// The characters that `String::from_utf8_lossy` makes of a byte string.
pub uninterp spec fn lossy_text(b: Seq<u8>) -> Seq<char>;

/// What `str::to_lowercase` makes of a text.
pub uninterp spec fn lower_of(s: Seq<char>) -> Seq<char>;

/// Relies on `String::from_utf8_lossy`: the text of a byte string, with each
/// invalid sequence replaced; it depends on the bytes alone, and valid UTF-8
/// is decoded as it stands.
#[verifier::external_body]
pub(crate) fn decode_lossy(b: &[u8]) -> (r: Vec<char>)
    ensures
        r@ == lossy_text(b@),
        vstd::utf8::valid_utf8(b@) ==> r@ == vstd::utf8::decode_utf8(b@),
{
    String::from_utf8_lossy(b).chars().collect()
}

/// Relies on `str::to_lowercase`: the lower case of a text, which depends on
/// its characters alone.
#[verifier::external_body]
pub(crate) fn lowercase(s: &Vec<char>) -> (r: Vec<char>)
    ensures
        r@ == lower_of(s@),
{
    s.iter().collect::<String>().to_lowercase().chars().collect()
}

/// Relies on `str::chars`: the characters of a text, in order.
#[verifier::external_body]
pub(crate) fn chars_of(s: &str) -> (r: Vec<char>)
    ensures
        r@ == s@,
{
    s.chars().collect()
}

/// Relies on `FromIterator<char>` for `String`: the text of these characters.
#[verifier::external_body]
pub(crate) fn string_of(s: &Vec<char>) -> (r: String)
    ensures
        r@ == s@,
{
    s.iter().collect()
}

#[verifier::external_type_specification]
#[verifier::external_body]
pub struct ExJsonValue(serde_json::Value);

/// What `serde_json::from_str` reads from a text as a `serde_json::Value`.
pub uninterp spec fn json_value_of(s: Seq<char>) -> Option<serde_json::Value>;

/// What `serde_yaml::from_str` reads from a text as a `serde_json::Value`.
pub uninterp spec fn yaml_value_of(s: Seq<char>) -> Option<serde_json::Value>;

/// What `toml::from_str` reads from a text, re-expressed by
/// `serde_json::to_value`.
pub uninterp spec fn toml_value_of(s: Seq<char>) -> Option<serde_json::Value>;

/// What the `csv` reader reads from a text where its header row reads: for
/// each later record, its value, or nothing where the record does not read.
pub uninterp spec fn csv_value_of(s: Seq<char>) -> Option<Seq<Option<serde_json::Value>>>;

/// The JSON array with, for each row, an object from each header to the
/// row's cell under it as a string.
pub uninterp spec fn table_json_of(t: (Seq<Seq<char>>, Seq<Seq<Seq<char>>>)) -> serde_json::Value;

/// The JSON array of these values, in order (`serde_json::Value::Array`).
pub uninterp spec fn json_array_of(items: Seq<serde_json::Value>) -> serde_json::Value;

/// What `serde_json::to_string_pretty` makes of a value.
pub uninterp spec fn pretty_of(v: serde_json::Value) -> Seq<char>;

/// What `serde_json::to_string` makes of a value.
pub uninterp spec fn compact_of(v: serde_json::Value) -> Seq<char>;

/// What `serde_yaml::to_string` makes of a value, where it succeeds.
pub uninterp spec fn yaml_of(v: serde_json::Value) -> Option<Seq<char>>;

/// What `toml::to_string` makes of a value, where it succeeds.
pub uninterp spec fn toml_of(v: serde_json::Value) -> Option<Seq<char>>;

/// For an array, each item's members with their values as compact JSON, or
/// nothing for an item that is not an object.
pub uninterp spec fn json_items_of(v: serde_json::Value) -> Option<Seq<Option<Members>>>;

/// The text that the `csv` writer makes of these records.
pub uninterp spec fn csv_text_of(records: Seq<Seq<Seq<char>>>) -> Seq<char>;

/// Whether `serde_json::from_str` reads a text as one JSON document.
pub open spec fn json_accepts(s: Seq<char>) -> bool {
    json_value_of(s) is Some
}

/// Whether `serde_yaml::from_str` reads a text as one YAML document.
pub open spec fn yaml_accepts(s: Seq<char>) -> bool {
    yaml_value_of(s) is Some
}

/// Whether a text reads as a TOML document.
pub open spec fn toml_accepts(s: Seq<char>) -> bool {
    toml_value_of(s) is Some
}

/// Whether the `csv` reader reads the header row of a text.
pub open spec fn csv_accepts(s: Seq<char>) -> bool {
    csv_value_of(s) is Some
}

/// Relies on `serde_json::from_str` into `serde_json::Value`: the result
/// depends on the text alone.
#[verifier::external_body]
pub(crate) fn parse_json(s: &Vec<char>) -> (r: Option<serde_json::Value>)
    ensures
        r == json_value_of(s@),
{
    let t: String = s.iter().collect();
    serde_json::from_str::<serde_json::Value>(&t).ok()
}

/// Relies on `serde_yaml::from_str` into `serde_json::Value`: the result
/// depends on the text alone.
#[verifier::external_body]
pub(crate) fn parse_yaml(s: &Vec<char>) -> (r: Option<serde_json::Value>)
    ensures
        r == yaml_value_of(s@),
{
    let t: String = s.iter().collect();
    serde_yaml::from_str::<serde_json::Value>(&t).ok()
}

/// Relies on `toml::from_str` into `toml::Value`, whose result
/// `serde_json::to_value` re-expresses: the result depends on the text alone.
#[verifier::external_body]
pub(crate) fn parse_toml(s: &Vec<char>) -> (r: Option<serde_json::Value>)
    ensures
        r == toml_value_of(s@),
{
    let t: String = s.iter().collect();
    let tv = toml::from_str::<toml::Value>(&t).ok()?;
    serde_json::to_value(tv).ok()
}

/// Relies on `csv::Reader::headers` and `csv::Reader::deserialize` into
/// `serde_json::Value`: where the header row reads, what each later record
/// reads as, or nothing for a record that does not read; the result depends
/// on the text alone.
#[verifier::external_body]
pub(crate) fn read_csv(s: &Vec<char>) -> (r: Option<Vec<Option<serde_json::Value>>>)
    ensures
        r is Some == csv_value_of(s@) is Some,
        r matches Some(v) ==> csv_value_of(s@) == Some(v@),
{
    let t: String = s.iter().collect();
    let mut rdr = csv::Reader::from_reader(t.as_bytes());
    rdr.headers().ok()?;
    Some(rdr.deserialize::<serde_json::Value>().map(|r| r.ok()).collect())
}

/// Relies on `serde_json::Value::Array`: an array of these values, in order.
#[verifier::external_body]
pub(crate) fn array_value(items: Vec<serde_json::Value>) -> (r: serde_json::Value)
    ensures
        r == json_array_of(items@),
{
    serde_json::Value::Array(items)
}

/// Relies on the `serde_json::Value` constructors: an array holding, for each
/// row, an object from each header to the row's cell under it as a string.
#[verifier::external_body]
pub(crate) fn table_value(t: &MarkdownTable) -> (r: serde_json::Value)
    ensures
        r == table_json_of(t@),
{
    serde_json::Value::Array(
        t.rows.iter().map(|r| {
            serde_json::Value::Object(
                t.headers.iter().cloned().zip(r.iter().cloned().map(serde_json::Value::String))
                    .collect(),
            )
        }).collect(),
    )
}

/// Relies on `serde_json::to_string_pretty`: indented JSON, one member per line.
#[verifier::external_body]
pub(crate) fn pretty_json(v: &serde_json::Value) -> (r: String)
    ensures
        r@ == pretty_of(*v),
{
    serde_json::to_string_pretty(v).unwrap_or_else(|_| v.to_string())
}

/// Relies on `serde_json::to_string`: JSON on one line.
#[verifier::external_body]
pub(crate) fn compact_json(v: &serde_json::Value) -> (r: String)
    ensures
        r@ == compact_of(*v),
{
    serde_json::to_string(v).unwrap_or_else(|_| v.to_string())
}

/// Relies on `serde_yaml::to_string`: a YAML rendering, where one exists.
#[verifier::external_body]
pub(crate) fn yaml_text(v: &serde_json::Value) -> (r: Option<String>)
    ensures
        opt_text(r) == yaml_of(*v),
{
    serde_yaml::to_string(v).ok()
}

/// Relies on `toml::to_string`: a TOML rendering, where one exists. A TOML
/// document is a table: `write_document` refuses any other root, so an array
/// has none.
#[verifier::external_body]
pub(crate) fn toml_text(v: &serde_json::Value) -> (r: Option<String>)
    ensures
        opt_text(r) == toml_of(*v),
        json_items_of(*v) is Some ==> r is None,
{
    toml::to_string(v).ok()
}

/// Relies on `serde_json::Value::as_array`, `serde_json::Value::as_object`
/// and the `Display` of `serde_json::Value`: for an array, each item's
/// members with their values as compact JSON, or nothing for an item that is
/// not an object.
#[verifier::external_body]
pub(crate) fn csv_items(v: &serde_json::Value) -> (r: Option<Vec<Option<Vec<(String, String)>>>>)
    ensures
        r is None <==> json_items_of(*v) is None,
        r matches Some(items) ==> json_items_of(*v) == Some(items_view(items@)),
{
    v.as_array().map(|a| {
        a.iter().map(|x| {
            x.as_object().map(|m| m.iter().map(|(k, y)| (k.clone(), y.to_string())).collect())
        }).collect()
    })
}

/// Relies on `csv::Writer::write_record` and `csv::Writer::into_inner` over a
/// `Vec<u8>`, which cannot fail for records of one length: the CSV text of these records, which depends
/// on them alone.
#[verifier::external_body]
pub(crate) fn write_csv(records: &Vec<Vec<String>>) -> (r: String)
    requires
        forall|k: int| 0 <= k < records.len() ==> #[trigger] records@[k].len() == records@[0].len(),
    ensures
        r@ == csv_text_of(records@.map_values(|x: Vec<String>| x@.map_values(|c: String| c@))),
{
    let mut wtr = csv::Writer::from_writer(vec![]);
    for rec in records {
        let _ = wtr.write_record(rec);
    }
    String::from_utf8(wtr.into_inner().unwrap_or_default()).unwrap_or_default()
}

} // verus!
