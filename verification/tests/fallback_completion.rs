//! Raw-text scanners on incomplete manifests.

use deps_core::fallback_completion::{
    is_in_json_dependencies, is_in_toml_dependencies, is_in_xml_tag_section, line_at, raw_prefix,
    strip_leading_xml_tag, strip_open_xml_attribute_value,
};
use deps_core::position::Position;


#[test]
fn test_raw_prefix_cursor_beyond_line() {
    let line = "serde";
    assert_eq!(raw_prefix(line, 100), "serde");
}
fn utf16_len(line: &str) -> u32 {
    line.chars().map(char::len_utf16).sum::<usize>() as u32
}

#[test]
fn test_raw_prefix_fallback_when_character_exceeds_line() {
    let line = "café";
    let character = utf16_len(line) + 10;
    assert_eq!(raw_prefix(line, character), "café");
}

#[test]
fn test_raw_prefix_does_not_panic_on_multibyte_char_boundary() {
    let line = "    \"é";
    assert_eq!(raw_prefix(line, utf16_len(line)), "\"é");
}

#[test]
fn test_raw_prefix_multibyte_word_not_truncated() {
    let line = "café";
    assert_eq!(raw_prefix(line, utf16_len(line)), "café");
}

#[test]
fn test_raw_prefix_cjk_word_not_truncated() {
    let line = "日本";
    assert_eq!(raw_prefix(line, utf16_len(line)), "日本");
}

#[test]
fn test_line_at_returns_requested_line() {
    let content = "one\ntwo\nthree\n";
    assert_eq!(line_at(content, Position::new(1, 0)), Some("two"));
}

#[test]
fn test_line_at_out_of_range_is_none() {
    let content = "one\ntwo\n";
    assert_eq!(line_at(content, Position::new(5, 0)), None);
}

#[test]
fn test_is_in_toml_dependencies_basic() {
    let content = r#"
[package]
name = "test"

[dependencies]
serde
"#;
    assert!(is_in_toml_dependencies(content, 5));
    assert!(!is_in_toml_dependencies(content, 1));
}

#[test]
fn test_is_in_toml_dependencies_dev_deps() {
    let content = r"
[dev-dependencies]
tokio
";
    assert!(is_in_toml_dependencies(content, 2));
}

#[test]
fn test_is_in_toml_dependencies_build_deps() {
    let content = r"
[build-dependencies]
cc
";
    assert!(is_in_toml_dependencies(content, 2));
}

#[test]
fn test_is_in_toml_dependencies_project_deps() {
    let content = r"
[project.dependencies]
requests
";
    assert!(is_in_toml_dependencies(content, 2));
}

#[test]
fn test_is_in_toml_dependencies_workspace_deps() {
    let content = r#"
[workspace.dependencies]
serde = "1.0"
"#;
    assert!(is_in_toml_dependencies(content, 2));
}

#[test]
fn test_is_in_toml_dependencies_target_specific() {
    let content = r"
[target.'cfg(windows)'.dependencies]
winapi
";
    assert!(is_in_toml_dependencies(content, 2));
}

#[test]
fn test_is_in_toml_dependencies_wrong_section() {
    let content = r#"
[package]
name = "test"

[profile.release]
opt-level = 3
"#;
    assert!(!is_in_toml_dependencies(content, 2));
    assert!(!is_in_toml_dependencies(content, 5));
}

#[test]
fn test_is_in_toml_dependencies_multiple_sections() {
    let content = r#"
[dependencies]
serde = "1.0"

[dev-dependencies]
tokio
"#;
    assert!(is_in_toml_dependencies(content, 2));
    assert!(is_in_toml_dependencies(content, 5));
}

const NPM_KEYS: &[&str] = &[
    "dependencies",
    "devDependencies",
    "peerDependencies",
    "optionalDependencies",
];

#[test]
fn test_is_in_json_dependencies_basic() {
    let content = r#"{
  "name": "test",
  "dependencies": {
    "express"
  }
}"#;
    assert!(is_in_json_dependencies(content, 3, NPM_KEYS));
    assert!(!is_in_json_dependencies(content, 1, NPM_KEYS));
}

#[test]
fn test_is_in_json_dependencies_dev_deps() {
    let content = r#"{
  "devDependencies": {
    "jest": "^29.0.0"
  }
}"#;
    assert!(is_in_json_dependencies(content, 2, NPM_KEYS));
}

#[test]
fn test_is_in_json_dependencies_peer_deps() {
    let content = r#"{
  "peerDependencies": {
    "react"
  }
}"#;
    assert!(is_in_json_dependencies(content, 2, NPM_KEYS));
}

#[test]
fn test_is_in_json_dependencies_optional_deps() {
    let content = r#"{
  "optionalDependencies": {
    "fsevents": "^2.0.0"
  }
}"#;
    assert!(is_in_json_dependencies(content, 2, NPM_KEYS));
}

#[test]
fn test_is_in_json_dependencies_outside_section() {
    let content = r#"{
  "name": "test",
  "dependencies": {
    "express": "^4.0.0"
  },
  "scripts": {
    "start": "node index.js"
  }
}"#;
    assert!(is_in_json_dependencies(content, 3, NPM_KEYS));
    assert!(!is_in_json_dependencies(content, 6, NPM_KEYS));
}

#[test]
fn test_is_in_json_dependencies_nested_braces() {
    let content = r#"{
  "dependencies": {
    "package": "1.0.0"
  }
}"#;
    assert!(is_in_json_dependencies(content, 2, NPM_KEYS));
}

#[test]
fn test_is_in_json_dependencies_custom_keys() {
    let content = r#"{
  "require": {
    "monolog/monolog": "^2.0"
  },
  "require-dev": {
    "phpunit/phpunit": "^9.0"
  }
}"#;
    assert!(is_in_json_dependencies(
        content,
        2,
        &["require", "require-dev"]
    ));
    assert!(is_in_json_dependencies(
        content,
        5,
        &["require", "require-dev"]
    ));
}

#[test]
fn test_is_in_xml_tag_section_basic() {
    let content = r"
<project>
  <dependencies>
    <dependency></dependency>
  </dependencies>
</project>
";
    assert!(is_in_xml_tag_section(content, 3, "dependencies"));
    assert!(!is_in_xml_tag_section(content, 1, "dependencies"));
}

#[test]
fn test_is_in_xml_tag_section_single_line() {
    let content = "<project><dependencies></dependencies></project>\n";
    assert!(is_in_xml_tag_section(content, 0, "dependencies"));
}

#[test]
fn test_is_in_xml_tag_section_attributed_tag() {
    let content = r#"
<project>
  <dependencies xmlns="http://maven.apache.org/POM/4.0.0">
    <dependency></dependency>
  </dependencies>
</project>
"#;
    assert!(is_in_xml_tag_section(content, 3, "dependencies"));
}

#[test]
fn test_is_in_xml_tag_section_no_false_positive_on_longer_tag_name() {
    let content = r"
<project>
  <dependencyManagement>
    <dependencies>
      <dependency></dependency>
    </dependencies>
  </dependencyManagement>
</project>
";
    assert!(!is_in_xml_tag_section(content, 2, "dependencies"));
    assert!(is_in_xml_tag_section(content, 4, "dependencies"));
}

#[test]
fn test_strip_leading_xml_tag_for_maven() {
    assert_eq!(
        strip_leading_xml_tag("<artifactId>gua"),
        ("gua", Some("artifactId"))
    );
}

#[test]
fn test_strip_leading_xml_tag_unclosed_tag_is_unchanged() {
    assert_eq!(strip_leading_xml_tag("<artifactId"), ("<artifactId", None));
}

#[test]
fn test_strip_leading_xml_tag_strips_last_tag_not_first() {
    let prefix = "<dependency><groupId>com.google.guava</groupId><artifactId>gua";
    assert_eq!(strip_leading_xml_tag(prefix), ("gua", Some("artifactId")));
}

#[test]
fn test_strip_leading_xml_tag_after_closed_tag_is_empty() {
    assert_eq!(
        strip_leading_xml_tag("<artifactId>guava</artifactId>"),
        ("", None)
    );
}

#[test]
fn test_strip_leading_xml_tag_loose_text_after_closed_tag_has_no_open_tag() {
    assert_eq!(
        strip_leading_xml_tag("<artifactId>guava</artifactId> comm"),
        (" comm", None)
    );
}

#[test]
fn test_strip_leading_xml_tag_reports_other_tag_name() {
    assert_eq!(
        strip_leading_xml_tag("<groupId>org.apa"),
        ("org.apa", Some("groupId"))
    );
}

const NUGET_ELEMENTS: &[&str] = &["PackageReference", "PackageVersion", "package"];
const NUGET_ATTRS: &[&str] = &["Include", "id"];

#[test]
fn test_strip_open_xml_attribute_value_include() {
    assert_eq!(
        strip_open_xml_attribute_value(
            "<PackageReference Include=\"Newt",
            NUGET_ELEMENTS,
            NUGET_ATTRS
        ),
        "Newt"
    );
}

#[test]
fn test_strip_open_xml_attribute_value_id() {
    assert_eq!(
        strip_open_xml_attribute_value("<package id=\"Newt", NUGET_ELEMENTS, NUGET_ATTRS),
        "Newt"
    );
}

#[test]
fn test_strip_open_xml_attribute_value_spaced_equals() {
    assert_eq!(
        strip_open_xml_attribute_value(
            "<PackageReference Include = \"Newt",
            NUGET_ELEMENTS,
            NUGET_ATTRS
        ),
        "Newt"
    );
}

#[test]
fn test_strip_open_xml_attribute_value_single_quote() {
    assert_eq!(
        strip_open_xml_attribute_value(
            "<PackageReference Include='Newt",
            NUGET_ELEMENTS,
            NUGET_ATTRS
        ),
        "Newt"
    );
}

#[test]
fn test_strip_open_xml_attribute_value_non_target_attribute_is_empty() {
    assert_eq!(
        strip_open_xml_attribute_value(
            "<PackageReference Include=\"Foo\" Version=\"1.0",
            NUGET_ELEMENTS,
            NUGET_ATTRS
        ),
        ""
    );
}

#[test]
fn test_strip_open_xml_attribute_value_non_target_element_is_empty() {
    assert_eq!(
        strip_open_xml_attribute_value("<Compile Include=\"Mode", NUGET_ELEMENTS, NUGET_ATTRS),
        ""
    );
}

#[test]
fn test_strip_open_xml_attribute_value_element_name_only_is_empty() {
    assert_eq!(
        strip_open_xml_attribute_value("<PackageReference ", NUGET_ELEMENTS, NUGET_ATTRS),
        ""
    );
}

#[test]
fn test_strip_open_xml_attribute_value_mismatched_quote_does_not_leak() {
    assert_eq!(
        strip_open_xml_attribute_value(
            "<PackageReference Include=\"Foo'",
            NUGET_ELEMENTS,
            NUGET_ATTRS
        ),
        "Foo"
    );
}

#[test]
fn line_at_strips_the_line_ending_only() {
    assert_eq!(line_at("a\r\nb\r", Position::new(0, 3)), Some("a"));
    assert_eq!(line_at("a\r\nb\r", Position::new(1, 0)), Some("b\r"));
    assert_eq!(line_at("", Position::new(0, 0)), None);
    assert_eq!(line_at("x\n\ny", Position::new(1, 0)), Some(""));
}

#[test]
fn raw_prefix_counts_utf16_code_units() {
    // U+1D11E takes two code units: a column in its middle covers the whole character.
    assert_eq!(raw_prefix("a\u{1D11E}b", 1), "a");
    assert_eq!(raw_prefix("a\u{1D11E}b", 2), "a\u{1D11E}");
    assert_eq!(raw_prefix("a\u{1D11E}b", 3), "a\u{1D11E}");
    assert_eq!(raw_prefix("a\u{1D11E}b", 4), "a\u{1D11E}b");
    assert_eq!(raw_prefix(" \u{3000}x y ", 5), "x y");
}

#[test]
fn toml_section_ends_at_the_next_header() {
    let content = "[dependencies]\nserde = \"1\"\n[package]\nname = \"x\"\n";
    assert!(is_in_toml_dependencies(content, 0));
    assert!(is_in_toml_dependencies(content, 1));
    assert!(!is_in_toml_dependencies(content, 2));
    assert!(!is_in_toml_dependencies(content, 3));
    // Beyond the document the last header still decides.
    assert!(!is_in_toml_dependencies(content, usize::MAX));
    assert!(is_in_toml_dependencies("[project.optional-dependencies]\n", 9));
    assert!(!is_in_toml_dependencies("no header", 0));
    assert!(!is_in_toml_dependencies("[target.x.notdependencies]\n", 0));
}

#[test]
fn toml_scan_ignores_later_lines() {
    let upto = "[dependencies]\nserde";
    let more = "[dependencies]\nserde\n[package]\n";
    assert_eq!(is_in_toml_dependencies(upto, 1), is_in_toml_dependencies(more, 1));
}

#[test]
fn json_scan_closes_the_section_on_its_last_brace() {
    let content = "{\n\"dependencies\": {}\n\"x\"\n}";
    assert!(!is_in_json_dependencies(content, 1, &["dependencies"]));
    assert!(!is_in_json_dependencies(content, 2, &["dependencies"]));
    assert!(!is_in_json_dependencies(content, 99, &["dependencies"]));
    let nested = "\"require\": {\n\"a\": { \"b\": 1 },\n\"c\"\n";
    assert!(is_in_json_dependencies(nested, 2, &["require"]));
    assert!(!is_in_json_dependencies(nested, 2, &[]));
}

#[test]
fn xml_section_counts_closings_beyond_openings_for_nothing() {
    let content = "</deps></deps>\n<deps>\n\n</deps>\n";
    assert!(!is_in_xml_tag_section(content, 0, "deps"));
    assert!(is_in_xml_tag_section(content, 1, "deps"));
    assert!(is_in_xml_tag_section(content, 2, "deps"));
    assert!(!is_in_xml_tag_section(content, 3, "deps"));
    assert!(!is_in_xml_tag_section(content, 4, "deps"));
}

#[test]
fn attribute_value_on_second_element_of_the_line() {
    assert_eq!(
        strip_open_xml_attribute_value(
            "<a x=\"1\"/><package id='Ne",
            &["package"],
            &["id"]
        ),
        "Ne"
    );
    assert_eq!(strip_open_xml_attribute_value("<package id=\"Ne", &[], &["id"]), "");
    assert_eq!(strip_open_xml_attribute_value("", &["package"], &["id"]), "");
}

#[test]
fn json_entry_named_like_a_key_begins_no_section() {
    let content = "{\n\"dependencies\": {\n\"dependencies\": \"1.0\",\n\"x\"\n}\n}";
    let inside = |line| is_in_json_dependencies(content, line, &["dependencies"]);
    assert!(!inside(0));
    assert!(inside(1));
    assert!(inside(2));
    assert!(inside(3));
    assert!(!inside(4));
    assert!(!inside(5));
    let entry = "{\n\"scripts\": {\n\"dependencies\": \"{\",\n\"x\"\n";
    assert!(!is_in_json_dependencies(entry, 2, &["dependencies"]));
    assert!(!is_in_json_dependencies(entry, 3, &["dependencies"]));
}

#[test]
fn json_section_begins_at_its_brace() {
    let keys = &["dependencies"];
    assert!(!is_in_json_dependencies("{ \"dependencies\": {", 0, &["x"]));
    assert!(is_in_json_dependencies("{ \"dependencies\": {", 0, keys));
    assert!(is_in_json_dependencies("{\"dependencies\":{\n\"a\"", 1, keys));
    assert!(!is_in_json_dependencies("{\"dependencies\": {\"a\": \"1\"}, \"s\": {\n\"x\"", 1, keys));
    let own_line = "{\n\"dependencies\":\n\n{\n\"a\"\n}\n\"b\"";
    let inside = |line| is_in_json_dependencies(own_line, line, keys);
    assert!(!inside(1));
    assert!(!inside(2));
    assert!(inside(3));
    assert!(inside(4));
    assert!(!inside(5));
    assert!(!inside(6));
}

#[test]
fn json_section_within_a_section() {
    let keys = &["dependencies", "devDependencies"];
    let nested =
        "\"dependencies\": {\n\"a\": {\n\"dependencies\": {\n\"b\": 1\n}\n},\n\"x\"\n}\n\"y\"";
    assert!(is_in_json_dependencies(nested, 3, keys));
    assert!(is_in_json_dependencies(nested, 6, keys));
    assert!(!is_in_json_dependencies(nested, 7, keys));
    assert!(!is_in_json_dependencies(nested, 8, keys));
    // The first section is not closed: the second one takes its place.
    let unclosed = "\"dependencies\": {\n\"devDependencies\": {\n\"b\": 1\n},\n\"scripts\": {\n";
    assert!(is_in_json_dependencies(unclosed, 2, keys));
    assert!(!is_in_json_dependencies(unclosed, 3, keys));
    assert!(!is_in_json_dependencies(unclosed, 4, keys));
}

#[test]
fn xml_self_closing_tags_open_nothing() {
    let inside = |content, line| is_in_xml_tag_section(content, line, "ItemGroup");
    assert!(!inside("<ItemGroup />\n<x>", 1));
    assert!(!inside("<ItemGroup />\n<x>", 0));
    assert!(!inside("<ItemGroup/>\n<x>", 1));
    assert!(!inside("<ItemGroup Label=\"a > b\" />\n<x>", 1));
    assert!(inside("<ItemGroup Label=\"a/>b\">\n<x>", 1));
    assert!(inside("<ItemGroup Label=\"a\"\n<x>", 1));
    assert!(inside("<ItemGroup /><ItemGroup>\n<x>", 1));
    assert!(!inside("<ItemGroup><ItemGroup /></ItemGroup>\n<x>", 1));
}

#[test]
fn attribute_value_needs_an_open_tag() {
    let value = |prefix| strip_open_xml_attribute_value(prefix, &["package"], &["id"]);
    assert_eq!(value("<package> id=\"Newt"), "");
    assert_eq!(value("<package/> id=\"Newt"), "");
    assert_eq!(value("<package id=\"a\"> id=\"Newt"), "");
    assert_eq!(value("<package id=\"a>b"), "a>b");
    assert_eq!(value("<package> it's <package id=\"Newt"), "Newt");
    assert_eq!(value("id=\"Newt"), "");
}

#[test]
fn attribute_value_is_not_looked_for_in_comments() {
    let value = |prefix| strip_open_xml_attribute_value(prefix, &["package"], &["id"]);
    assert_eq!(value("<!-- <package id=\"Newt"), "");
    assert_eq!(value("<!--> <package id=\"Newt"), "");
    assert_eq!(value("<!-- don't --><package id=\"Newt"), "Newt");
    assert_eq!(value("<!-- <package id=\"a\" --> id=\"Newt"), "");
}

#[test]
fn open_element_is_named_without_what_follows_its_tag() {
    assert_eq!(strip_leading_xml_tag("<a>x>gu"), ("gu", Some("a")));
    assert_eq!(strip_leading_xml_tag("<a b=\"c\">gu"), ("gu", Some("a")));
    assert_eq!(strip_leading_xml_tag("<>gu"), ("gu", None));
}
