use unstyled::parser::StylesheetParser;

#[test]
fn lib_test_simple_class() {
    let css = ".test {display: block;}".to_string();
    let mut parser = StylesheetParser::default();
    parser.parse_stylesheet(css);
    let compiled = parser.stylesheet.compile("random_test_class");
    assert_eq!(compiled, ".test.random_test_class {display: block;}");
}

#[test]
fn lib_test_simple_id() {
    let css = "#test {display: block;}".to_string();
    let mut parser = StylesheetParser::default();
    parser.parse_stylesheet(css);
    let compiled = parser.stylesheet.compile("random_test_class");
    assert_eq!(compiled, "#test.random_test_class {display: block;}");
}

#[test]
fn lib_test_simple_attr() {
    let css = "[test] {display: block;}".to_string();
    let mut parser = StylesheetParser::default();
    parser.parse_stylesheet(css);
    let compiled = parser.stylesheet.compile("random_test_class");
    assert_eq!(compiled, "[test].random_test_class {display: block;}");
}

#[test]
fn lib_test_simple_pseudo() {
    let css = ":not(.test) {display: block;}".to_string();
    let mut parser = StylesheetParser::default();
    parser.parse_stylesheet(css);
    let compiled = parser.stylesheet.compile("random_test_class");
    assert_eq!(compiled, ".random_test_class:not(.test) {display: block;}");
}

#[test]
fn lib_test_simple_tag() {
    let css = "test {display: block;}".to_string();
    let mut parser = StylesheetParser::default();
    parser.parse_stylesheet(css);
    let compiled = parser.stylesheet.compile("random_test_class");
    assert_eq!(compiled, "test.random_test_class {display: block;}");
}

#[test]
fn lib_test_mixed_selectors() {
    let css = "test.test-class#test-id[data-test] {display: block;}".to_string();
    let mut parser = StylesheetParser::default();
    parser.parse_stylesheet(css);
    let compiled = parser.stylesheet.compile("random_test_class");
    assert_eq!(
        compiled,
        "test.test-class#test-id[data-test].random_test_class {display: block;}"
    );
}

#[test]
fn lib_test_combined_descendent() {
    let css = ".test-class .sub-class {display: block;}".to_string();
    let mut parser = StylesheetParser::default();
    parser.parse_stylesheet(css);
    let compiled = parser.stylesheet.compile("random_test_class");
    assert_eq!(
        compiled,
        ".test-class.random_test_class .sub-class.random_test_class {display: block;}"
    );
}

#[test]
fn lib_test_combined_child() {
    let css = ".test-class > .sub-class {display: block;}".to_string();
    let mut parser = StylesheetParser::default();
    parser.parse_stylesheet(css);
    let compiled = parser.stylesheet.compile("random_test_class");
    assert_eq!(
        compiled,
        ".test-class.random_test_class>.sub-class.random_test_class {display: block;}"
    );
}

#[test]
fn lib_test_combined_namespace() {
    let css = ".test-class | .sub-class {display: block;}".to_string();
    let mut parser = StylesheetParser::default();
    parser.parse_stylesheet(css);
    let compiled = parser.stylesheet.compile("random_test_class");
    assert_eq!(
        compiled,
        ".test-class.random_test_class|.sub-class.random_test_class {display: block;}"
    );
}

#[test]
fn lib_test_combined_sibling() {
    let css = ".test-class + .sub-class {display: block;}".to_string();
    let mut parser = StylesheetParser::default();
    parser.parse_stylesheet(css);
    let compiled = parser.stylesheet.compile("random_test_class");
    assert_eq!(
        compiled,
        ".test-class.random_test_class+.sub-class.random_test_class {display: block;}"
    );
}

#[test]
fn lib_test_combined_generic() {
    let css = ".test-class ~ .sub-class {display: block;}".to_string();
    let mut parser = StylesheetParser::default();
    parser.parse_stylesheet(css);
    let compiled = parser.stylesheet.compile("random_test_class");
    assert_eq!(
        compiled,
        ".test-class.random_test_class~.sub-class.random_test_class {display: block;}"
    );
}

#[test]
fn lib_test_at_keyframes() {
    let css =
        "@keyframes test { 0% { background: red; } 100% { background: blue; } }".to_string();
    let mut parser = StylesheetParser::default();
    parser.parse_stylesheet(css);
    let compiled = parser.stylesheet.compile("random_test_class");
    assert_eq!(
        compiled,
        "@keyframes test { 0% { background: red; } 100% { background: blue; } }"
    );
}

#[test]
fn lib_test_at_import() {
    let css = "@import 'test';".to_string();
    let mut parser = StylesheetParser::default();
    parser.parse_stylesheet(css);
    let compiled = parser.stylesheet.compile("random_test_class");
    assert_eq!(compiled, "@import 'test';");
}

#[test]
fn lib_test_at_page() {
    let css = "@page { margin: 1210000000em; }".to_string();
    let mut parser = StylesheetParser::default();
    parser.parse_stylesheet(css);
    let compiled = parser.stylesheet.compile("random_test_class");
    assert_eq!(compiled, "@page { margin: 1210000000em; }");
}

#[test]
fn lib_test_at_media() {
    let css = "@media (min-width: 120em) { .my-element { margin: 1210000000em; } }".to_string();
    let mut parser = StylesheetParser::default();
    parser.parse_stylesheet(css);
    let compiled = parser.stylesheet.compile("random_test_class");
    assert_eq!(
        compiled,
        "@media (min-width: 120em) {.my-element.random_test_class { margin: 1210000000em; }}"
    );
}

#[test]
fn lib_test_at_layer() {
    let css = "@layer my_fancy_layer { .my-element { margin: 1210000000em; } }".to_string();
    let mut parser = StylesheetParser::default();
    parser.parse_stylesheet(css);
    let compiled = parser.stylesheet.compile("random_test_class");
    assert_eq!(
        compiled,
        "@layer my_fancy_layer {.my-element.random_test_class { margin: 1210000000em; }}"
    );
}
