use unstyled::parser::{scope_css, StylesheetParser};
use unstyled::text::to_chars;

fn scoped(css: &str, marker: &str) -> String {
    scope_css(css.to_string(), marker)
}

#[test]
fn scope_css_parses_and_compiles() {
    let css = "@import 'a'; .b > c:hover { d } @media e { f { g } }";
    let mut parser = StylesheetParser::default();
    parser.parse_stylesheet(css.to_string());
    assert_eq!(scope_css(css.to_string(), "m"), parser.stylesheet.compile("m"));
    assert_eq!(
        scope_css(css.to_string(), "m"),
        "@import 'a';.b.m>c.m:hover { d }@media e {f.m { g }}"
    );
}

#[test]
fn class_selector_gets_the_marker() {
    assert_eq!(
        scoped(".test {display: block;}", "random_test_class"),
        ".test.random_test_class {display: block;}"
    );
}

#[test]
fn child_selectors_get_the_marker_on_both_sides() {
    assert_eq!(
        scoped(".a > .b {x:y;}", "random_test_class"),
        ".a.random_test_class>.b.random_test_class {x:y;}"
    );
}

#[test]
fn pseudo_class_follows_the_marker() {
    assert_eq!(
        scoped(":not(.test) {display: block;}", "random_test_class"),
        ".random_test_class:not(.test) {display: block;}"
    );
}

#[test]
fn media_rule_scopes_its_body() {
    assert_eq!(
        scoped("@media (min-width: 120em) { .e { m: 1em; } }", "random_test_class"),
        "@media (min-width: 120em) {.e.random_test_class { m: 1em; }}"
    );
}

#[test]
fn deep_selector_stays_unscoped() {
    assert_eq!(
        scoped("span :deep(*:not(a)) { c: '$'; }", "random_test_class"),
        "span.random_test_class *:not(a) { c: '$'; }"
    );
}

#[test]
fn single_selector_of_each_kind() {
    assert_eq!(scoped("div {a}", "m"), "div.m {a}");
    assert_eq!(scoped(".box {a}", "m"), ".box.m {a}");
    assert_eq!(scoped("#main {a}", "m"), "#main.m {a}");
    assert_eq!(scoped("[data-x] {a}", "m"), "[data-x].m {a}");
    assert_eq!(scoped(":hover {a}", "m"), ".m:hover {a}");
}

#[test]
fn selector_glued_to_its_block_is_scoped_too() {
    assert_eq!(scoped(".test{display: block;}", "m"), ".test.m{display: block;}");
    assert_eq!(scoped("a.b{c}", "m"), "a.b.m{c}");
}

#[test]
fn relation_symbol_may_stand_before_the_block() {
    assert_eq!(scoped(".a>{b}", "m"), ".a.m>{b}");
    assert_eq!(scoped(".a ~ {b}", "m"), ".a.m~{b}");
}

#[test]
fn pseudo_element_with_one_colon_or_two() {
    assert_eq!(scoped("span:before{a}", "M"), "span.M::before{a}");
    assert_eq!(scoped("span::before{a}", "M"), "span.M::before{a}");
    assert_eq!(scoped("p::first-line {a}", "M"), "p.M::first-line {a}");
    assert_eq!(scoped("p:first-line {a}", "M"), "p.M::first-line {a}");
}

#[test]
fn pseudo_class_keeps_one_colon() {
    assert_eq!(scoped("a:hover {x}", "m"), "a.m:hover {x}");
    assert_eq!(scoped("input:placeholder-shown {x}", "m"), "input.m:placeholder-shown {x}");
    assert_eq!(scoped("li:nth-child(2n + 1) {x}", "m"), "li.m:nth-child(2n+1) {x}");
}

#[test]
fn relation_symbols_lose_their_spaces() {
    for symbol in [">", "+", "~", "|"] {
        let expected = format!(".a.m{symbol}.b.m {{x}}");
        assert_eq!(scoped(&format!(".a {symbol} .b {{x}}"), "m"), expected);
        assert_eq!(scoped(&format!(".a{symbol} .b {{x}}"), "m"), expected);
        assert_eq!(scoped(&format!(".a {symbol}.b {{x}}"), "m"), expected);
        assert_eq!(scoped(&format!(".a{symbol}.b {{x}}"), "m"), expected);
    }
}

#[test]
fn descendant_is_one_space() {
    assert_eq!(scoped(".a    .b \n\t .c {x}", "m"), ".a.m .b.m .c.m {x}");
}

#[test]
fn chain_of_mixed_relations() {
    assert_eq!(scoped("ul > li + li ~ li a {x}", "m"), "ul.m>li.m+li.m~li.m a.m {x}");
}

#[test]
fn whitespace_in_the_block_is_collapsed() {
    assert_eq!(scoped(".a {\n  color:   red;\n}\n", "m"), ".a.m { color: red; }");
}

#[test]
fn several_blocks_follow_each_other() {
    assert_eq!(scoped(".a {x} .b {y}\n#c {z}", "m"), ".a.m {x}.b.m {y}#c.m {z}");
}

#[test]
fn nested_braces_stay_in_the_block() {
    assert_eq!(scoped(".a { b { c } d }", "m"), ".a.m { b { c } d }");
}

#[test]
fn generic_at_rules_are_copied() {
    assert_eq!(scoped("@import 'test';", "m"), "@import 'test';");
    assert_eq!(scoped("@charset \"utf-8\";", "m"), "@charset \"utf-8\";");
    assert_eq!(scoped("@page { margin: 1em; }", "m"), "@page { margin: 1em; }");
    assert_eq!(
        scoped("@keyframes k { 0% { a: b; } 100% { a: c; } }", "m"),
        "@keyframes k { 0% { a: b; } 100% { a: c; } }"
    );
    assert_eq!(
        scoped("@font-face { font-family: x; }", "m"),
        "@font-face { font-family: x; }"
    );
}

#[test]
fn generic_at_rules_are_copied_in_normal_form() {
    assert_eq!(scoped("@import   'test';", "m"), "@import 'test';");
    assert_eq!(scoped("  @page {\n margin: 1em;\n}\n", "m"), "@page { margin: 1em; }");
}

#[test]
fn generic_at_rule_does_not_depend_on_the_marker() {
    let css = "@keyframes k { 0% { a: b; } }";
    assert_eq!(scoped(css, "one"), scoped(css, "two"));
    assert_eq!(scoped(css, ""), css);
}

#[test]
fn at_rules_and_blocks_mix() {
    assert_eq!(
        scoped("@import 'a'; .b {c} @page {d} .e {f}", "m"),
        "@import 'a';.b.m {c}@page {d}.e.m {f}"
    );
}

#[test]
fn at_rules_with_selectors_scope_their_bodies() {
    assert_eq!(scoped("@media print { .a { b } }", "m"), "@media print {.a.m { b }}");
    assert_eq!(scoped("@layer base { .a { b } }", "m"), "@layer base {.a.m { b }}");
    assert_eq!(
        scoped("@supports (display: grid) { .a { b } }", "m"),
        "@supports (display: grid) {.a.m { b }}"
    );
    assert_eq!(
        scoped("@container side (min-width: 1px) { .a { b } }", "m"),
        "@container side (min-width: 1px) {.a.m { b }}"
    );
}

#[test]
fn at_rule_body_is_scoped_like_the_top_level() {
    let body = ".a > .b { c } span:before { d } :deep(x) y { e }";
    let inside = scoped(&format!("@media print {{{body}}}"), "m");
    assert_eq!(inside, format!("@media print {{{}}}", scoped(body, "m")));
}

#[test]
fn at_rule_keyword_goes_by_the_whole_word() {
    assert_eq!(scoped("@media2 { .a { b } }", "m"), "@media2 { .a { b } }");
    assert_eq!(scoped("@media-x { .a { b } }", "m"), "@media-x { .a { b } }");
    assert_eq!(scoped("@medi { .a { b } }", "m"), "@medi { .a { b } }");
    assert_eq!(scoped("@media(print){.a {b}}", "m"), "@media(print){.a.m {b}}");
}

#[test]
fn at_rules_nested_in_at_rules_are_dropped() {
    assert_eq!(
        scoped("@media a { @media b { .x { y } } .z { w } @import 'q'; }", "m"),
        "@media a {.z.m { w }}"
    );
}

#[test]
fn unfinished_input_gives_no_block() {
    assert_eq!(scoped("", "m"), "");
    assert_eq!(scoped(".a", "m"), "");
    assert_eq!(scoped(".a ", "m"), "");
    assert_eq!(scoped(".a {", "m"), "");
    assert_eq!(scoped(".a { b { c }", "m"), "");
    assert_eq!(scoped("@import 'a'", "m"), "");
    assert_eq!(scoped("@media print { .a { b }", "m"), "");
    assert_eq!(scoped(":not(.a {b}", "m"), "");
}

#[test]
fn unfinished_tail_leaves_the_blocks_before_it() {
    assert_eq!(scoped(".a {b} .c", "m"), ".a.m {b}");
    assert_eq!(scoped(".a {b} .c {", "m"), ".a.m {b}");
    assert_eq!(scoped("@import 'a'; @import 'b'", "m"), "@import 'a';");
}

#[test]
fn stray_closing_brace_is_passed_over() {
    assert_eq!(scoped("} .a {{b}}", "m"), ".a.m {b}");
    assert_eq!(scoped(".a {b}} .c {d}", "m"), ".a.m {b}");
}

#[test]
fn stray_characters_are_passed_over() {
    assert_eq!(scoped("* .a {b}", "m"), ".a.m {b}");
    assert_eq!(scoped("_ .a {b}", "m"), ".a.m {b}");
    assert_eq!(scoped("] .a {b}", "m"), ".a.m {b}");
    assert_eq!(scoped("_a {b}", "m"), "a.m {b}");
}

#[test]
fn dangling_selector_is_dropped_at_the_end() {
    let mut parser = StylesheetParser::default();
    parser.parse_stylesheet(".a ".to_string());
    assert!(parser.current_selector.is_empty());
    parser.parse_stylesheet("{b}".to_string());
    assert_eq!(parser.stylesheet.compile("m"), "{b}");
}

#[test]
fn blocks_of_a_second_text_are_appended() {
    let mut parser = StylesheetParser::default();
    parser.parse_stylesheet(".a {b}".to_string());
    parser.parse_stylesheet(".c {d}".to_string());
    assert_eq!(parser.stylesheet.blocks.len(), 2);
    assert_eq!(parser.stylesheet.compile("m"), ".a.m {b}.c.m {d}");
}

#[test]
fn empty_marker_is_spliced_in_as_it_is() {
    assert_eq!(scoped(".a {b}", ""), ".a. {b}");
}

#[test]
fn same_input_gives_same_output() {
    let css = "@media x { .a > .b { c } } span :deep(i) { d } @import 'e';";
    assert_eq!(scoped(css, "m"), scoped(css, "m"));
}

#[test]
fn markers_pile_up_when_the_output_is_compiled_again() {
    let once = scoped(".a {b}", "m");
    assert_eq!(once, ".a.m {b}");
    assert_eq!(scoped(&once, "m"), ".a.m.m {b}");
}

#[test]
fn tag_may_start_with_any_alphabetic_character() {
    assert_eq!(scoped("é {a}", "m"), "é.m {a}");
    assert_eq!(scoped("京 {a}", "m"), "京.m {a}");
    assert_eq!(scoped("1a {b}", "m"), "a.m {b}");
}

#[test]
fn default_parser_is_empty() {
    let parser = StylesheetParser::default();
    assert!(parser.stylesheet.blocks.is_empty());
    assert!(parser.current_selector.is_empty());
    assert_eq!(parser.stylesheet.compile("m"), "");
}

#[test]
fn compress_combinator_strips_the_spaces_around_the_symbol() {
    let parser = StylesheetParser::default();
    assert_eq!(parser.compress_combinator("a > b >c> d>e".to_string(), ">"), "a>b>c>d>e");
    assert_eq!(parser.compress_combinator("a + b".to_string(), ">"), "a + b");
    assert_eq!(parser.compress_combinator("a  >  b".to_string(), ">"), "a>b");
    assert_eq!(parser.compress_combinator("a   >   b".to_string(), ">"), "a > b");
    assert_eq!(parser.compress_combinator("a => b".to_string(), "=>"), "a=>b");
    assert_eq!(parser.compress_combinator("a  b".to_string(), ""), "ab");
}

#[test]
fn parse_selector_reads_one_simple_selector() {
    let css = to_chars(".a>b {c}");
    let mut parser = StylesheetParser::default();
    assert_eq!(parser.parse_selector(&css, 0), 3);
    assert_eq!(parser.current_selector.len(), 1);
    assert_eq!(parser.current_selector[0].compile("m"), ".a.m>");
    assert_eq!(parser.parse_selector(&css, 3), 5);
    assert_eq!(parser.current_selector.len(), 2);
    assert_eq!(parser.current_selector[1].compile("m"), "b.m ");
    assert!(parser.stylesheet.blocks.is_empty());
}

#[test]
fn parse_selector_stops_before_the_next_selector_and_before_a_block() {
    let css = to_chars("a.b{c}");
    let mut parser = StylesheetParser::default();
    assert_eq!(parser.parse_selector(&css, 0), 1);
    assert!(parser.current_selector[0].is_combine());
    assert_eq!(parser.current_selector[0].compile("m"), "a");
    assert_eq!(parser.parse_selector(&css, 1), 3);
    assert!(!parser.current_selector[1].is_combine());
    assert_eq!(parser.current_selector[1].selector().css_text(), ".b");
    assert_eq!(parser.current_selector[1].compile("m"), ".b.m");
}

#[test]
fn parse_selector_ignores_what_stands_in_round_brackets() {
    let css = to_chars(":not(.a > .b) {c}");
    let mut parser = StylesheetParser::default();
    assert_eq!(parser.parse_selector(&css, 0), 14);
    assert_eq!(parser.current_selector[0].selector().css_text(), ":not(.a > .b)");
}

#[test]
fn parse_selector_drops_the_brackets_of_an_attribute() {
    let css = to_chars("[a=b] ");
    let mut parser = StylesheetParser::default();
    assert_eq!(parser.parse_selector(&css, 0), 6);
    assert!(parser.current_selector[0].selector().is_attribute());
    assert_eq!(parser.current_selector[0].selector().text(), "a=b");
}

#[test]
fn parse_selector_skips_what_opens_no_selector() {
    let css = to_chars("_a ");
    let mut parser = StylesheetParser::default();
    assert_eq!(parser.parse_selector(&css, 0), 1);
    assert!(parser.current_selector.is_empty());
    assert_eq!(parser.parse_selector(&css, 3), 3);
    assert_eq!(parser.parse_selector(&css, 7), 7);
    assert!(parser.current_selector.is_empty());
}

#[test]
fn parse_selector_drops_a_selector_that_the_text_cuts_off() {
    let css = to_chars(".abc");
    let mut parser = StylesheetParser::default();
    assert_eq!(parser.parse_selector(&css, 0), 4);
    assert!(parser.current_selector.is_empty());
}

#[test]
fn parse_at_rule_reads_a_generic_rule() {
    let css = to_chars("@import 'a'; .b {c}");
    let mut parser = StylesheetParser::default();
    assert_eq!(parser.parse_at_rule(&css, 0), 12);
    assert_eq!(parser.stylesheet.blocks.len(), 1);
    assert!(!parser.stylesheet.blocks[0].is_normal());
    assert_eq!(parser.stylesheet.compile("m"), "@import 'a';");
    assert!(parser.current_selector.is_empty());
}

#[test]
fn parse_at_rule_reads_a_rule_with_selectors() {
    let css = to_chars("@media x {.a {b}} .c");
    let mut parser = StylesheetParser::default();
    assert_eq!(parser.parse_at_rule(&css, 0), 17);
    assert_eq!(parser.stylesheet.compile("m"), "@media x {.a.m {b}}");
}

#[test]
fn parse_at_rule_reads_to_the_end_of_an_unfinished_rule() {
    let css = to_chars("@page { a");
    let mut parser = StylesheetParser::default();
    assert_eq!(parser.parse_at_rule(&css, 0), 9);
    assert!(parser.stylesheet.blocks.is_empty());
    assert_eq!(parser.parse_at_rule(&css, 9), 9);
    assert_eq!(parser.parse_at_rule(&css, 20), 20);
}

#[test]
fn parse_at_rule_with_selectors_splits_header_and_body() {
    let css = to_chars("@x y{.a {b} @import 'c'; .d {e}}f");
    let mut parser = StylesheetParser::default();
    assert_eq!(parser.parse_at_rule_with_selectors(&css, 0), 32);
    assert_eq!(parser.stylesheet.compile("m"), "@x y{.a.m {b}.d.m {e}}");
    assert_eq!(parser.parse_at_rule_with_selectors(&css, 33), 33);
    assert_eq!(parser.stylesheet.blocks.len(), 1);
}

#[test]
fn parse_at_rule_with_selectors_gives_up_at_the_end_of_the_text() {
    let css = to_chars("@media x {.a {b}");
    let mut parser = StylesheetParser::default();
    assert_eq!(parser.parse_at_rule_with_selectors(&css, 0), 16);
    assert!(parser.stylesheet.blocks.is_empty());
}
