use unstyled::selector::{Combinator, Selector};
use unstyled::stylesheet::{AtRuleWithSelectors, NormalBlock, StyleBlock, Stylesheet};

fn class(text: &str) -> Selector {
    Selector::Class(text.to_string())
}

fn block(selector: Vec<Combinator>, content: &str) -> NormalBlock {
    NormalBlock { selector, content: content.to_string() }
}

#[test]
fn normal_block_is_its_chain_and_its_content() {
    let one = block(vec![Combinator::Descendant(class("a"))], "{x: y;}");
    assert_eq!(one.compile("m"), ".a.m {x: y;}");
    let none = block(vec![], "{x: y;}");
    assert_eq!(none.compile("m"), "{x: y;}");
}

#[test]
fn compound_selector_gets_one_marker() {
    let compound = block(
        vec![
            Combinator::Combine(Selector::Tag("a".to_string())),
            Combinator::Combine(class("b")),
            Combinator::Descendant(Selector::Id("c".to_string())),
        ],
        "{}",
    );
    assert_eq!(compound.compile("m"), "a.b#c.m {}");
}

#[test]
fn selector_before_the_block_gets_the_marker() {
    let glued = block(vec![Combinator::Terminal(class("a"))], "{}");
    assert_eq!(glued.compile("m"), ".a.m{}");
    let two = block(
        vec![Combinator::Child(class("a")), Combinator::Terminal(class("b"))],
        "{}",
    );
    assert_eq!(two.compile("m"), ".a.m>.b.m{}");
    let compound = block(
        vec![Combinator::Combine(class("a")), Combinator::Terminal(class("b"))],
        "{}",
    );
    assert_eq!(compound.compile("m"), ".a.b.m{}");
}

#[test]
fn combine_is_written_without_marker_wherever_it_stands() {
    let last = block(vec![Combinator::Combine(class("a"))], "{}");
    assert_eq!(last.compile("m"), ".a{}");
    let two = block(
        vec![Combinator::Child(class("a")), Combinator::Combine(class("b"))],
        "{}",
    );
    assert_eq!(two.compile("m"), ".a.m>.b{}");
}

#[test]
fn normal_block_is_its_combinators_one_after_the_other() {
    let chains = vec![
        vec![],
        vec![Combinator::Combine(class("a"))],
        vec![Combinator::Terminal(class("a"))],
        vec![Combinator::Combine(class("a")), Combinator::Descendant(class("b"))],
        vec![
            Combinator::Combine(Selector::Tag("a".to_string())),
            Combinator::Sibling(Selector::Pseudo("hover".to_string())),
            Combinator::Combine(Selector::Pseudo("deep(x y)".to_string())),
            Combinator::General(Selector::Id("b".to_string())),
            Combinator::Namespace(Selector::Attribute("c".to_string())),
            Combinator::Terminal(Selector::Pseudo("before".to_string())),
        ],
    ];
    for chain in chains {
        let mut expected = String::new();
        for combinator in &chain {
            expected.push_str(&combinator.compile("m"));
        }
        expected.push_str("{x: y}");
        assert_eq!(block(chain, "{x: y}").compile("m"), expected);
    }
}

#[test]
fn every_compound_selector_of_a_chain_gets_a_marker() {
    let chain = block(
        vec![
            Combinator::Combine(class("a")),
            Combinator::Sibling(class("b")),
            Combinator::Combine(class("c")),
            Combinator::Descendant(Selector::Pseudo("hover".to_string())),
        ],
        "{}",
    );
    assert_eq!(chain.compile("m"), ".a.b.m+.c.m:hover {}");
}

#[test]
fn deep_inside_a_compound_selector_is_unwrapped() {
    let chain = block(
        vec![
            Combinator::Combine(Selector::Pseudo("deep(.x)".to_string())),
            Combinator::Descendant(class("b")),
        ],
        "{}",
    );
    assert_eq!(chain.compile("m"), ".x.b.m {}");
}

#[test]
fn at_rule_wraps_its_blocks_in_braces() {
    let rule = AtRuleWithSelectors {
        at_rule: "@media print ".to_string(),
        blocks: vec![
            block(vec![Combinator::Descendant(class("a"))], "{x}"),
            block(vec![Combinator::Descendant(class("b"))], "{y}"),
        ],
    };
    assert_eq!(rule.compile("m"), "@media print {.a.m {x}.b.m {y}}");
    assert_eq!(AtRuleWithSelectors::default().compile("m"), "{}");
}

#[test]
fn style_block_compiles_what_it_holds() {
    let normal = StyleBlock::Normal(block(vec![Combinator::Descendant(class("a"))], "{x}"));
    assert!(normal.is_normal());
    assert_eq!(normal.compile("m"), ".a.m {x}");
    let generic = StyleBlock::GenericAtRule("@import 'a';".to_string());
    assert!(!generic.is_normal());
    assert_eq!(generic.compile("m"), "@import 'a';");
    let rule = StyleBlock::AtRuleWithSelectors(AtRuleWithSelectors {
        at_rule: "@layer x".to_string(),
        blocks: vec![],
    });
    assert!(!rule.is_normal());
    assert_eq!(rule.compile("m"), "@layer x{}");
}

#[test]
fn stylesheet_compiles_its_blocks_in_order() {
    let sheet = Stylesheet {
        blocks: vec![
            StyleBlock::GenericAtRule("@import 'a';".to_string()),
            StyleBlock::Normal(block(vec![Combinator::Descendant(class("a"))], "{x}")),
            StyleBlock::GenericAtRule("@page {}".to_string()),
        ],
    };
    assert_eq!(sheet.compile("m"), "@import 'a';.a.m {x}@page {}");
    assert_eq!(Stylesheet::default().compile("m"), "");
}

#[test]
fn generic_block_does_not_depend_on_the_marker() {
    let generic = StyleBlock::GenericAtRule("@keyframes k { 0% { a: b; } }".to_string());
    assert_eq!(generic.compile("one"), generic.compile("two"));
    assert_eq!(generic.compile(""), "@keyframes k { 0% { a: b; } }");
}
