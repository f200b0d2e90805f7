use vstd::prelude::*;
use crate::markdown::{markdown_table_to_json, table_of};
use crate::model::DataFormat;
use crate::outside::{
    array_value, csv_accepts, csv_value_of, json_accepts, json_array_of, json_value_of,
    parse_json, parse_toml, parse_yaml, read_csv, table_json_of, toml_accepts, toml_value_of,
    yaml_accepts, yaml_value_of,
};
use crate::text::{has_char, lines_of, split_lines, texts};

verus! {

/// The positions, from `i` on, of the lines that read as JSON.
pub open spec fn json_lines_from(ls: Seq<Seq<char>>, i: int) -> Seq<int>
    decreases ls.len() - i,
{
    if i < 0 || i >= ls.len() {
        seq![]
    } else if json_accepts(ls[i]) {
        seq![i] + json_lines_from(ls, i + 1)
    } else {
        json_lines_from(ls, i + 1)
    }
}

/// The positions of the lines of a text that read as JSON, in order.
pub open spec fn json_lines(s: Seq<char>) -> Seq<int> {
    json_lines_from(lines_of(s), 0)
}

/// The JSON values of the lines of `ls` at these positions.
pub open spec fn values_at(ls: Seq<Seq<char>>, idx: Seq<int>) -> Seq<serde_json::Value> {
    idx.map_values(|k: int| json_value_of(ls[k])->Some_0)
}

/// The value that the detection cascade reads from a text, if it detects one:
/// the value of the stage that settled the format.
pub open spec fn detected_value(s: Seq<char>) -> Option<serde_json::Value> {
    match detect_format(s) {
        DataFormat::Json => json_value_of(s),
        DataFormat::Ndjson => Some(json_array_of(values_at(lines_of(s), json_lines(s)))),
        DataFormat::Yaml => yaml_value_of(s),
        DataFormat::Toml => toml_value_of(s),
        DataFormat::Csv => Some(json_array_of(kept_records(csv_value_of(s)->Some_0))),
        DataFormat::MarkdownTable => Some(table_json_of(table_of(s)->Some_0)),
        DataFormat::Unknown => None,
    }
}

/// The format that the detection cascade settles on: JSON; then, for text of
/// more than one line with at least one line that reads as JSON, NDJSON; then
/// YAML; then TOML; then, for text holding a comma and a newline, CSV; then a
/// Markdown table; else none.
pub open spec fn detect_format(s: Seq<char>) -> DataFormat {
    if json_accepts(s) {
        DataFormat::Json
    } else if lines_of(s).len() > 1 && json_lines(s).len() > 0 {
        DataFormat::Ndjson
    } else if yaml_accepts(s) {
        DataFormat::Yaml
    } else if toml_accepts(s) {
        DataFormat::Toml
    } else if s.contains(',') && s.contains('\n') && csv_accepts(s) {
        DataFormat::Csv
    } else if table_of(s) is Some {
        DataFormat::MarkdownTable
    } else {
        DataFormat::Unknown
    }
}

/// The lines of a text that read as JSON, with their positions and their
/// values, in order; also the number of lines.
pub fn ndjson_values(s: &Vec<char>) -> (r: (Vec<usize>, Vec<serde_json::Value>, usize))
    ensures
        r.0@.map_values(|k: usize| k as int) == json_lines(s@),
        r.1@ == values_at(lines_of(s@), json_lines(s@)),
        r.2 == lines_of(s@).len(),
{
    let ls = split_lines(s);
    let ghost lv = lines_of(s@);
    let mut idx: Vec<usize> = Vec::new();
    let mut vals: Vec<serde_json::Value> = Vec::new();
    let mut i: usize = 0;
    while i < ls.len()
        invariant
            i <= ls.len(),
            texts(ls@) == lv,
            forall|k: int| 0 <= k < idx.len() ==> #[trigger] idx@[k] < i,
            vals@ == values_at(lv, idx@.map_values(|k: usize| k as int)),
            idx@.map_values(|k: usize| k as int) + json_lines_from(lv, i as int)
                == json_lines_from(lv, 0),
        decreases ls.len() - i,
    {
        let ghost before = idx@.map_values(|k: usize| k as int);
        assert(ls@[i as int]@ == lv[i as int]);
        let ghost tv = vals@;
        match parse_json(&ls[i]) {
            Some(v) => {
                idx.push(i);
                vals.push(v);
                assert(idx@.map_values(|k: usize| k as int) =~= before.push(i as int));
                assert(vals@ =~= tv.push(json_value_of(lv[i as int])->Some_0));
                assert(values_at(lv, idx@.map_values(|k: usize| k as int)) =~= values_at(lv, before).push(json_value_of(lv[i as int])->Some_0));
            },
            None => {},
        }
        assert(idx@.map_values(|k: usize| k as int) + json_lines_from(lv, i + 1) =~= before
            + json_lines_from(lv, i as int));
        i = i + 1;
    }
    assert(idx@.map_values(|k: usize| k as int) =~= idx@.map_values(|k: usize| k as int)
        + json_lines_from(lv, i as int));
    (idx, vals, ls.len())
}

/// The records that read, in order; a malformed record is passed over.
pub open spec fn kept_records(rs: Seq<Option<serde_json::Value>>) -> Seq<serde_json::Value>
    decreases rs.len(),
{
    if rs.len() == 0 {
        seq![]
    } else {
        let rest = kept_records(rs.drop_last());
        match rs.last() {
            Some(v) => rest.push(v),
            None => rest,
        }
    }
}

/// Keeps the records that read, in order.
pub fn records_read(rs: Vec<Option<serde_json::Value>>) -> (r: Vec<serde_json::Value>)
    ensures
        r@ == kept_records(rs@),
{
    let ghost all = rs@;
    let mut rest = rs;
    let mut tmp: Vec<serde_json::Value> = Vec::new();
    while rest.len() > 0
        invariant
            kept_records(all) == kept_records(rest@) + tmp@.reverse(),
        decreases rest.len(),
    {
        let ghost before = rest@;
        let ghost t0 = tmp@;
        let x = rest.pop().unwrap();
        assert(before.drop_last() =~= rest@);
        match x {
            Some(v) => {
                tmp.push(v);
                assert(tmp@.reverse() =~= seq![v] + t0.reverse());
                assert(kept_records(before) == kept_records(rest@).push(v));
                assert(kept_records(rest@).push(v) + t0.reverse() =~= kept_records(rest@) + tmp@.reverse());
            },
            None => {},
        }
    }
    assert(kept_records(rest@) =~= seq![]);
    let mut out: Vec<serde_json::Value> = Vec::new();
    assert(kept_records(all) =~= out@ + tmp@.reverse());
    while tmp.len() > 0
        invariant
            kept_records(all) == out@ + tmp@.reverse(),
        decreases tmp.len(),
    {
        let ghost t0 = tmp@;
        let ghost o0 = out@;
        let v = tmp.pop().unwrap();
        out.push(v);
        assert(t0.reverse() =~= seq![v] + tmp@.reverse());
        assert(out@ + tmp@.reverse() =~= o0 + t0.reverse());
    }
    assert(out@ =~= out@ + tmp@.reverse());
    out
}

/// Runs the detection cascade on a text: the first format that reads it,
/// with the value read. The flag is reserved and changes nothing.
pub fn parse_to_value(s: &Vec<char>, allow_permissive: bool) -> (r: Result<
    (serde_json::Value, DataFormat),
    (),
>)
    ensures
        match r {
            Ok((v, f)) => f == detect_format(s@) && f != DataFormat::Unknown && detected_value(s@)
                == Some(v),
            Err(()) => detect_format(s@) == DataFormat::Unknown,
        },
{
    if let Some(v) = parse_json(s) {
        return Ok((v, DataFormat::Json));
    }
    let (idx, vals, n_lines) = ndjson_values(s);
    if n_lines > 1 && idx.len() > 0 {
        return Ok((array_value(vals), DataFormat::Ndjson));
    }
    if let Some(v) = parse_yaml(s) {
        return Ok((v, DataFormat::Yaml));
    }
    if let Some(v) = parse_toml(s) {
        return Ok((v, DataFormat::Toml));
    }
    if has_char(s, ',') && has_char(s, '\n') {
        if let Some(records) = read_csv(s) {
            return Ok((array_value(records_read(records)), DataFormat::Csv));
        }
    }
    match markdown_table_to_json(s) {
        Some(v) => Ok((v, DataFormat::MarkdownTable)),
        None => Err(()),
    }
}

} // verus!
