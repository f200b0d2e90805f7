use llmkit::convert::{
    convert_map, convert_map_js, convert_value_to_formats_with_targets, to_target, FormatMap,
};
use llmkit::csv_out::{csv_records, insert_key, rows_to_csv_string};
use llmkit::detect::{ndjson_values, parse_to_value, records_read};
use llmkit::fence::strip_markdown_fences;
use llmkit::markdown::{markdown_table_rows, markdown_table_to_json, split_cells};
use llmkit::model::{default_targets, DataFormat, TargetFormat};
use llmkit::text::{is_white, split_lines, trimmed};

fn text(map: &FormatMap, key: &str) -> String {
    map.get(key).unwrap().unwrap()
}

fn chars(s: &str) -> Vec<char> {
    s.chars().collect()
}

fn string(v: &[char]) -> String {
    v.iter().collect()
}

#[test]
fn blank_input_ignores_requested_targets() {
    let map = convert_map(b"  \n\t ", Some(&["json", "yaml"][..]), false, None);
    assert_eq!(map.len(), 4);
    assert_eq!(text(&map, "Format"), "unknown");
    assert_eq!(text(&map, "normal"), "");
    assert!(!map.contains_key("json"));
}

#[test]
fn default_targets_are_all_present() {
    let map = convert_map(br#"{"a":1}"#, None, false, None);
    for k in ["json", "yaml", "toml", "csv", "markdown_table"] {
        assert!(map.contains_key(k));
    }
    assert_eq!(map.len(), 9);
    assert_eq!(map.get("markdown_table"), Some(None));
    assert_eq!(text(&map, "json"), "{\n  \"a\": 1\n}");
    assert_eq!(text(&map, "yaml"), "a: 1\n");
    assert_eq!(text(&map, "toml"), "a = 1\n");
    assert_eq!(map.get("csv"), Some(None));
}

#[test]
fn ndjson_lines_in_order() {
    let map = convert_map(b"{\"a\":1}\n{\"b\":2}\n", None, false, None);
    assert_eq!(text(&map, "Format"), "ndjson");
    assert_eq!(text(&map, "normal"), "[{\"a\":1},{\"b\":2}]");
}

#[test]
fn ndjson_skips_bad_lines() {
    let (idx, vals, n) = ndjson_values(&chars("nope\n[1]\n{oops\n2\r\n"));
    assert_eq!(idx, vec![1, 3]);
    assert_eq!(vals, vec![serde_json::Value::Array(vec![serde_json::Value::from(1)]), serde_json::Value::from(2)]);
    assert_eq!(n, 4);
}

#[test]
fn markdown_table_value() {
    let map = convert_map(b"|a|b|\n|--|--|\n|1|x|\n", None, false, None);
    assert_eq!(text(&map, "normal"), "[{\"a\":\"1\",\"b\":\"x\"}]");
    let t = markdown_table_rows(&chars("|a|b|\n|--|--|\n|1|x|\n")).unwrap();
    assert_eq!(t.headers, vec!["a".to_string(), "b".to_string()]);
    assert_eq!(t.rows, vec![vec!["1".to_string(), "x".to_string()]]);
}

#[test]
fn markdown_rows_skip_and_stop() {
    let s = "intro\n| k | v |\n|---|---|\n| 1 | 2 |\n| 3 |\n| 4 | 5 |\nend\n| 6 | 7 |\n";
    let t = markdown_table_rows(&chars(s)).unwrap();
    assert_eq!(t.headers, vec!["k".to_string(), "v".to_string()]);
    assert_eq!(t.rows.len(), 2);
    assert_eq!(t.rows[1], vec!["4".to_string(), "5".to_string()]);
    assert!(markdown_table_rows(&chars("|a|b|\n|--|--|\nplain\n")).is_none());
    assert!(markdown_table_rows(&chars("no table\n")).is_none());
}

#[test]
fn split_cells_trims_and_drops_empty() {
    let c = split_cells(&chars("| a  |  | b\t|"));
    assert_eq!(c, vec!["a".to_string(), "b".to_string()]);
}

#[test]
fn only_json_target() {
    let map = convert_map(br#"{"a":1}"#, Some(&["json"][..]), false, None);
    assert!(map.contains_key("json"));
    for k in ["yaml", "toml", "csv", "markdown_table"] {
        assert!(!map.contains_key(k));
    }
    assert_eq!(map.len(), 5);
}

#[test]
fn unknown_target_is_null() {
    let map = convert_map(br#"{"a":1}"#, Some(&["foo"][..]), false, None);
    assert_eq!(map.get("foo"), Some(None));
}

#[test]
fn target_names_are_case_insensitive() {
    let map = convert_map(br#"{"a":1}"#, Some(&[" YAML ", "MD"][..]), false, None);
    assert_eq!(text(&map, "yaml"), "a: 1\n");
    assert_eq!(map.get("markdown_table"), Some(None));
    assert!(matches!(to_target("Json"), TargetFormat::Json));
    assert!(matches!(to_target("md"), TargetFormat::MarkdownTable));
    match to_target(" Foo ") {
        TargetFormat::Other(s) => assert_eq!(s, " Foo "),
        _ => panic!("expected an opaque target"),
    }
}

#[test]
fn normal_output_is_stable() {
    let first = convert_map(b"{ \"b\" : [1, 2],\n \"a\": null }", None, false, None);
    assert_eq!(text(&first, "Format"), "json");
    let normal = text(&first, "normal");
    let second = convert_map(normal.as_bytes(), None, false, None);
    assert_eq!(text(&second, "Format"), "json");
    assert_eq!(text(&second, "normal"), normal);
}

#[test]
fn truncation_before_detection() {
    let input = b"{\"a\":1}trailing junk";
    let whole = convert_map(input, Some(&["json"][..]), false, None);
    assert_ne!(text(&whole, "Format"), "json");
    let cut = convert_map(input, Some(&["json"][..]), false, Some(7));
    assert_eq!(text(&cut, "Format"), "json");
    assert_eq!(text(&cut, "Original"), "{\"a\":1}");
    let long = convert_map(b"[1]", None, false, Some(100));
    assert_eq!(text(&long, "Format"), "json");
}

#[test]
fn truncation_inside_a_character_is_lossy() {
    let map = convert_map("[\"é\"]".as_bytes(), None, false, Some(3));
    assert_eq!(text(&map, "Original"), "[\"\u{FFFD}");
}

#[test]
fn unreadable_text_is_echoed() {
    let map = convert_map(b"a: b: c", Some(&["json"][..]), false, None);
    assert_eq!(text(&map, "Format"), "unknown");
    assert_eq!(text(&map, "Original"), "a: b: c");
    assert_eq!(text(&map, "Beautified"), "a: b: c");
    assert_eq!(text(&map, "normal"), "a: b: c");
    assert_eq!(map.len(), 4);
}

#[test]
fn fenced_block_is_extracted() {
    let map = convert_map(b"Here:\n```JSON\n  {\"a\":1}\n```\nand ```x```", None, false, None);
    assert_eq!(text(&map, "Format"), "json");
    assert_eq!(text(&map, "Original"), "{\"a\":1}");
}

#[test]
fn fence_stripper_cases() {
    assert_eq!(string(&strip_markdown_fences(&chars("```\n x \n```y```z```"))), "x");
    assert_eq!(string(&strip_markdown_fences(&chars("```py```"))), "");
    assert_eq!(string(&strip_markdown_fences(&chars("a `b` c `d"))), "a b c `d");
    assert_eq!(string(&strip_markdown_fences(&chars("```only one"))), "`only one");
    assert_eq!(string(&strip_markdown_fences(&chars("plain"))), "plain");
    assert_eq!(string(&strip_markdown_fences(&chars("```\u{212A}8s\u{A0}\n y\t```"))), "y");
    assert_eq!(string(&strip_markdown_fences(&chars("````"))), "");
}

#[test]
fn inline_code_is_unwrapped() {
    let map = convert_map(b"`[1,2]`", None, false, None);
    assert_eq!(text(&map, "Format"), "json");
    assert_eq!(text(&map, "Original"), "[1,2]");
}

#[test]
fn yaml_and_toml_detection() {
    let y = convert_map(b"a: 1\nb: [x, y]\n", Some(&["json"][..]), false, None);
    assert_eq!(text(&y, "Format"), "yaml");
    assert_eq!(text(&y, "normal"), "{\"a\":1,\"b\":[\"x\",\"y\"]}");
    let t = convert_map(b"[server]\nport = 80\n", None, false, None);
    assert_eq!(text(&t, "Format"), "toml");
    assert_eq!(text(&t, "normal"), "{\"server\":{\"port\":80}}");
}

#[test]
fn csv_target_unions_sorted_keys() {
    let map = convert_map(br#"[{"b":1,"a":"x"},{"c":true}]"#, Some(&["csv"][..]), false, None);
    assert_eq!(text(&map, "csv"), "a,b,c\n\"\"\"x\"\"\",1,\n,,true\n");
}

#[test]
fn csv_and_toml_targets_degrade_to_null() {
    let map = convert_map(br#"[1,2]"#, Some(&["csv", "toml", "json"][..]), false, None);
    assert_eq!(map.get("csv"), Some(None));
    assert_eq!(map.get("toml"), Some(None));
    assert_eq!(text(&map, "json"), "[\n  1,\n  2\n]");
}

#[test]
fn base_keys_are_never_replaced() {
    let map = convert_map(br#"{"a":1}"#, Some(&["normal", "Format", "json", "JSON"][..]), false, None);
    assert_eq!(text(&map, "normal"), "{\"a\":1}");
    assert_eq!(text(&map, "Format"), "json");
    assert_eq!(map.len(), 5);
}

#[test]
fn serializer_on_parsed_value() {
    let (v, f) = parse_to_value(&chars("[3]"), false).unwrap();
    assert_eq!(f, DataFormat::Json);
    let targets = vec![TargetFormat::Json, TargetFormat::Other("x".to_string()), TargetFormat::Json];
    let map = convert_value_to_formats_with_targets(&v, &targets);
    assert_eq!(map.len(), 2);
    assert_eq!(text(&map, "json"), "[\n  3\n]");
    assert_eq!(map.get("x"), Some(None));
    assert!(parse_to_value(&chars("a: b: c"), true).is_err());
}

#[test]
fn names_of_formats() {
    assert_eq!(DataFormat::MarkdownTable.as_str(), "markdown_table");
    assert_eq!(DataFormat::Unknown.as_str(), "unknown");
    assert_eq!(DataFormat::Ndjson.as_str(), "ndjson");
    assert_eq!(TargetFormat::Other("Zed".to_string()).name(), "Zed");
    assert_eq!(TargetFormat::Csv.name(), "csv");
    assert_eq!(default_targets().len(), 5);
}

#[test]
fn keys_stay_sorted_and_unique() {
    let mut h: Vec<String> = Vec::new();
    for k in ["m", "b", "z", "b", "ba", "A"] {
        insert_key(&mut h, &k.to_string());
    }
    assert_eq!(h, vec!["A", "b", "ba", "m", "z"]);
}

#[test]
fn lines_and_trim() {
    let ls = split_lines(&chars("a\r\nb\n\nc\r"));
    let got: Vec<String> = ls.iter().map(|l| string(l)).collect();
    assert_eq!(got, vec!["a", "b", "", "c\r"]);
    assert_eq!(string(&trimmed(&chars("\u{A0} x y\n"))), "x y");
}

#[test]
fn entries_keep_insertion_order() {
    let map = convert_map(b"[1]", Some(&["csv"][..]), false, None);
    let keys: Vec<String> = map.into_entries().into_iter().map(|e| e.0).collect();
    assert_eq!(keys, vec!["Format", "Original", "Beautified", "normal", "csv"]);
}

#[test]
fn comma_separated_targets() {
    let map = convert_map_js("{\"a\":1}", Some(" json ,YAML".to_string()), false);
    assert_eq!(text(&map, "Format"), "json");
    assert!(map.contains_key("json"));
    assert_eq!(text(&map, "yaml"), "a: 1\n");
    assert!(!map.contains_key("toml"));
    let empty = convert_map_js("[1]", Some(String::new()), false);
    assert_eq!(empty.get(""), Some(None));
    assert_eq!(empty.len(), 5);
    let all = convert_map_js("[1]", None, false);
    assert_eq!(all.len(), 9);
}

#[test]
fn markdown_value_for_detection() {
    assert!(markdown_table_to_json(&chars("|h|\n|-|\n|v|\n")).is_some());
    assert!(markdown_table_to_json(&chars("|h|\n|-|\n")).is_none());
}

fn obj(members: &[(&str, &str)]) -> Option<Vec<(String, String)>> {
    Some(members.iter().map(|(k, v)| (k.to_string(), v.to_string())).collect())
}

#[test]
fn csv_records_union_header_and_cells() {
    let items = vec![obj(&[("b", "1")]), obj(&[("a", "2")])];
    let recs = csv_records(&items).unwrap();
    assert_eq!(recs, vec![vec!["a", "b"], vec!["", "1"], vec!["2", ""]]);
    assert_eq!(rows_to_csv_string(&items).unwrap(), "a,b\n,1\n2,\n");
    let map = convert_map(br#"[{"b":1},{"a":2}]"#, Some(&["csv"][..]), false, None);
    assert_eq!(text(&map, "csv"), "a,b\n,1\n2,\n");
}

#[test]
fn csv_records_refuse_non_objects() {
    let items = vec![obj(&[("a", "1")]), None];
    assert!(csv_records(&items).is_none());
    assert!(rows_to_csv_string(&items).is_none());
    let map = convert_map(br#"[{"a":1},2]"#, Some(&["csv"][..]), false, None);
    assert_eq!(map.get("csv"), Some(None));
    assert_eq!(rows_to_csv_string(&Vec::new()).unwrap(), "\"\"\n");
}

#[test]
fn malformed_records_are_passed_over() {
    let a = serde_json::Value::from(1);
    let b = serde_json::Value::from("x");
    let kept = records_read(vec![Some(a.clone()), None, Some(b.clone()), None]);
    assert_eq!(kept, vec![a, b]);
    assert!(records_read(Vec::new()).is_empty());
}

#[test]
fn white_space_matches_std() {
    for c in (0u32..=0x10FFFF).filter_map(char::from_u32) {
        assert_eq!(is_white(c), c.is_whitespace(), "{:?}", c);
    }
}
