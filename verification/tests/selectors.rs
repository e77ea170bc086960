use unstyled::selector::{apply_scope_class, Combinator, Relation, Selector};

fn tag(text: &str) -> Selector {
    Selector::Tag(text.to_string())
}

fn class(text: &str) -> Selector {
    Selector::Class(text.to_string())
}

fn pseudo(text: &str) -> Selector {
    Selector::Pseudo(text.to_string())
}

#[test]
fn css_text_restores_the_sigil() {
    assert_eq!(tag("div").css_text(), "div");
    assert_eq!(class("box").css_text(), ".box");
    assert_eq!(Selector::Id("main".to_string()).css_text(), "#main");
    assert_eq!(Selector::Attribute("data-x=1".to_string()).css_text(), "[data-x=1]");
    assert_eq!(pseudo("hover").css_text(), ":hover");
    assert_eq!(pseudo("not(.a)").css_text(), ":not(.a)");
}

#[test]
fn css_text_writes_pseudo_elements_with_two_colons() {
    for name in [
        "after",
        "backdrop",
        "before",
        "cue",
        "cue-region",
        "first-letter",
        "first-line",
        "file-selector-button",
        "grammar-error",
        "marker",
        "part",
        "placeholder",
        "selection",
        "slotted",
        "spelling-error",
        "target-text",
    ] {
        assert_eq!(pseudo(name).css_text(), format!("::{name}"));
    }
    assert_eq!(pseudo("part(label)").css_text(), "::part(label)");
    assert_eq!(pseudo("slotted(span)").css_text(), "::slotted(span)");
}

#[test]
fn css_text_goes_by_the_whole_name() {
    assert_eq!(pseudo("placeholder-shown").css_text(), ":placeholder-shown");
    assert_eq!(pseudo("first-child").css_text(), ":first-child");
    assert_eq!(pseudo("afterwards").css_text(), ":afterwards");
    assert_eq!(pseudo("").css_text(), ":");
}

#[test]
fn push_appends_to_the_text() {
    let mut selector = class("a");
    selector.push('b');
    selector.push('-');
    assert_eq!(selector.text(), "ab-");
    assert_eq!(selector.css_text(), ".ab-");
    let mut attribute = Selector::Attribute(String::new());
    attribute.push('x');
    assert_eq!(attribute.css_text(), "[x]");
}

#[test]
fn kinds_are_told_apart() {
    assert!(Selector::Attribute("x".to_string()).is_attribute());
    assert!(!class("x").is_attribute());
    assert!(pseudo("x").is_pseudo());
    assert!(!tag("x").is_pseudo());
}

#[test]
fn clone_keeps_kind_and_text() {
    let selector = pseudo("hover");
    let copy = selector.clone();
    assert!(copy.is_pseudo());
    assert_eq!(copy.text(), "hover");
    let combinator = Combinator::Child(class("a"));
    assert_eq!(combinator.clone().compile("m"), ".a.m>");
}

#[test]
fn apply_scope_class_puts_the_marker_behind_the_selector() {
    assert_eq!(apply_scope_class("m", "", &tag("div")), "div.m");
    assert_eq!(apply_scope_class("m", ">", &class("box")), ".box.m>");
    assert_eq!(apply_scope_class("m", " ", &Selector::Id("x".to_string())), "#x.m ");
    assert_eq!(apply_scope_class("m", "~", &Selector::Attribute("a".to_string())), "[a].m~");
}

#[test]
fn apply_scope_class_puts_the_marker_before_a_pseudo_selector() {
    assert_eq!(apply_scope_class("m", " ", &pseudo("hover")), ".m:hover ");
    assert_eq!(apply_scope_class("m", "", &pseudo("before")), ".m::before");
    assert_eq!(apply_scope_class("m", "+", &pseudo("not(.a)")), ".m:not(.a)+");
}

#[test]
fn apply_scope_class_leaves_the_argument_of_deep_alone() {
    assert_eq!(apply_scope_class("m", " ", &pseudo("deep(*:not(a))")), "*:not(a) ");
    assert_eq!(apply_scope_class("m", "", &pseudo("deep(.x)")), ".x");
    assert_eq!(apply_scope_class("m", ">", &pseudo("deep()")), ">");
    assert_eq!(apply_scope_class("m", "", &pseudo("deep(a(b)c)d")), "a(b)c");
}

#[test]
fn deep_without_a_closed_group_is_an_ordinary_pseudo_selector() {
    assert_eq!(apply_scope_class("m", "", &pseudo("deep")), ".m:deep");
    assert_eq!(apply_scope_class("m", "", &pseudo("deep(a")), ".m:deep(a");
    assert_eq!(apply_scope_class("m", "", &pseudo("deeper")), ".m:deeper");
    assert_eq!(apply_scope_class("m", "", &pseudo("deep((a)")), ".m:deep((a)");
}

#[test]
fn deep_is_an_escape_for_pseudo_selectors_only() {
    assert_eq!(apply_scope_class("m", "", &class("deep(a)")), ".deep(a).m");
    assert_eq!(apply_scope_class("m", "", &tag("deep(a)")), "deep(a).m");
}

#[test]
fn unscoped_is_the_own_text_or_the_argument_of_deep() {
    assert_eq!(class("a").unscoped(), ".a");
    assert_eq!(pseudo("hover").unscoped(), ":hover");
    assert_eq!(pseudo("deep(.x .y)").unscoped(), ".x .y");
}

#[test]
fn combinators_are_compiled_with_their_glyph() {
    assert_eq!(Combinator::Sibling(class("a")).compile("m"), ".a.m+");
    assert_eq!(Combinator::Child(class("a")).compile("m"), ".a.m>");
    assert_eq!(Combinator::General(class("a")).compile("m"), ".a.m~");
    assert_eq!(Combinator::Namespace(class("a")).compile("m"), ".a.m|");
    assert_eq!(Combinator::Descendant(class("a")).compile("m"), ".a.m ");
    assert_eq!(Combinator::Terminal(class("a")).compile("m"), ".a.m");
}

#[test]
fn combine_is_compiled_without_marker() {
    assert_eq!(Combinator::Combine(class("a")).compile("m"), ".a");
    assert_eq!(Combinator::Combine(tag("div")).compile("m"), "div");
    assert_eq!(Combinator::Combine(pseudo("hover")).compile("m"), ":hover");
    assert_eq!(Combinator::Combine(pseudo("before")).compile("m"), "::before");
}

#[test]
fn terminal_is_compiled_with_marker_and_without_glyph() {
    assert_eq!(Combinator::Terminal(tag("div")).compile("m"), "div.m");
    assert_eq!(Combinator::Terminal(pseudo("hover")).compile("m"), ".m:hover");
    assert_eq!(Combinator::Terminal(pseudo("before")).compile("m"), ".m::before");
}

#[test]
fn deep_is_unwrapped_under_every_relation() {
    assert_eq!(Combinator::Combine(pseudo("deep(.x)")).compile("m"), ".x");
    assert_eq!(Combinator::Terminal(pseudo("deep(.x)")).compile("m"), ".x");
    assert_eq!(Combinator::Child(pseudo("deep(.x)")).compile("m"), ".x>");
    assert_eq!(Combinator::Descendant(pseudo("deep(.x)")).compile("m"), ".x ");
}

#[test]
fn new_builds_the_variant_of_the_relation() {
    assert_eq!(Combinator::new(Relation::Sibling, tag("a")).compile("m"), "a.m+");
    assert_eq!(Combinator::new(Relation::Child, tag("a")).compile("m"), "a.m>");
    assert_eq!(Combinator::new(Relation::General, tag("a")).compile("m"), "a.m~");
    assert_eq!(Combinator::new(Relation::Namespace, tag("a")).compile("m"), "a.m|");
    assert_eq!(Combinator::new(Relation::Descendant, tag("a")).compile("m"), "a.m ");
    assert_eq!(Combinator::new(Relation::Terminal, tag("a")).compile("m"), "a.m");
    let glued = Combinator::new(Relation::Combine, tag("a"));
    assert!(glued.is_combine());
    assert_eq!(glued.compile("m"), "a");
    assert_eq!(glued.selector().css_text(), "a");
    assert!(!Combinator::new(Relation::Child, tag("a")).is_combine());
    assert!(!Combinator::new(Relation::Terminal, tag("a")).is_combine());
}
