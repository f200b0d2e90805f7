fn text(map: &llmkit::FormatMap, key: &str) -> String {
    map.get(key).unwrap().unwrap()
}

#[test]
fn empty_input_returns_unknown() {
    let map = llmkit::convert_map(b"", None, false, None);
    assert_eq!(text(&map, "Format"), "unknown");
    assert_eq!(text(&map, "Original"), "");
    assert_eq!(text(&map, "Beautified"), "");
    assert_eq!(text(&map, "normal"), "");
    assert_eq!(map.len(), 4);
}

#[test]
fn json_input_detects_and_beautifies_and_normal() {
    let map = llmkit::convert_map(br#"{"a":1,"b":"x"}"#, None, false, None);
    assert_eq!(text(&map, "Format"), "json");
    assert!(text(&map, "Beautified").contains("\n"));
    assert_eq!(text(&map, "normal"), "{\"a\":1,\"b\":\"x\"}");
}

#[test]
fn markdown_table_detects() {
    let md = b"|a|b|\n|--|--|\n|1|x|\n";
    let map = llmkit::convert_map(md, None, false, None);
    assert_eq!(text(&map, "Format"), "markdown_table");
}

#[test]
fn only_requested_targets_are_included() {
    let map = llmkit::convert_map(br#"{"a":1}"#, Some(&["json"][..]), false, None);
    assert!(map.contains_key("json"));
    assert!(!map.contains_key("yaml"));
}
