//! Laws of parsing: what is read out of a text whose normal form has a given
//! shape, and what it is compiled to.

use crate::grammar::{
    after_selector, block_close, brace_step, compiled, found_at_rule, found_generic_rule,
    is_unwritten,
    found_rule_with_selectors, found_selector, generic_rule_end, holds_selectors,
    lemma_block_close_bounds, normal_blocks_of, normalized, opened_kind, paren_step, parsed,
    relation_at, rule_keyword, rule_parts, scanned, selector_end, selector_text, starts_selector,
    RuleParts,
};
use crate::laws::{
    as_style_blocks, brackets_match, lemma_at_rule_with_selectors_text, lemma_compound_of_two,
    lemma_deep_argument, lemma_generic_at_rule_is_kept, lemma_pseudo_element_text,
    lemma_related_pair, lemma_single_selector_block,
};
use crate::selector::{
    glyph, is_pseudo_element_name, pseudo_name, scoped_text, unscoped_text, CombinatorView,
    Relation, SelectorKind, SelectorView,
};
use crate::stylesheet::{
    style_block_text, stylesheet_text, AtRuleView, NormalBlockView, StyleBlockView,
};
use crate::text::{alphabetic, without};
use vstd::prelude::*;

verus! {

/// Whether `c` can stand in the text of a simple selector without ending it
/// and without opening or closing a round bracket.
pub open spec fn is_name_char(c: char) -> bool {
    relation_at(c) is None && c != '(' && c != ')'
}

/// Whether the selector is one that is read back as written: its text is
/// made of name characters, a tag starts with an alphabetic character, and
/// the text of an attribute selector holds no `]`.
pub open spec fn is_simple(selector: SelectorView) -> bool {
    &&& forall|i: int| 0 <= i < selector.text.len() ==> is_name_char(#[trigger] selector.text[i])
    &&& selector.kind is Tag ==> selector.text.len() > 0 && alphabetic(selector.text[0])
    &&& selector.kind is Attribute ==> forall|i: int|
        0 <= i < selector.text.len() ==> #[trigger] selector.text[i] != ']'
}

/// The selector as it is written in a text in normal form: like its own
/// text, but with one colon before any pseudo selector.
pub open spec fn written(selector: SelectorView) -> Seq<char> {
    match selector.kind {
        SelectorKind::Tag => selector.text,
        SelectorKind::Class => seq!['.'] + selector.text,
        SelectorKind::Id => seq!['#'] + selector.text,
        SelectorKind::Attribute => seq!['['] + selector.text + seq![']'],
        SelectorKind::Pseudo => seq![':'] + selector.text,
    }
}

/// Whether `body` is one declaration block: it opens with `{` and its last
/// character is the `}` that closes it.
pub open spec fn is_block(body: Seq<char>) -> bool {
    body.len() >= 2 && body[0] == '{' && block_close(body, 1, 1) == body.len() - 1
}

/// Whether `symbol` stands for a relation between two compound selectors.
pub open spec fn is_relation_symbol(symbol: char) -> bool {
    symbol == '+' || symbol == '~' || symbol == '|' || symbol == '>' || symbol == ' '
}

/// The scan of a selector passes over name characters and stops at the first
/// character that ends a selector.
proof fn lemma_selector_end_behind_name(s: Seq<char>, from: int, end: int)
    requires
        0 <= from <= end < s.len(),
        forall|i: int| from <= i < end ==> is_name_char(#[trigger] s[i]),
        relation_at(s[end]) is Some,
    ensures
        selector_end(s, from, 0) == end,
    decreases end - from,
{
    if from < end {
        assert(is_name_char(s[from]));
        lemma_selector_end_behind_name(s, from + 1, end);
    }
}

/// Taking out a character that does not occur changes nothing.
proof fn lemma_without_absent(x: Seq<char>, c: char)
    requires
        forall|i: int| 0 <= i < x.len() ==> #[trigger] x[i] != c,
    ensures
        without(x, c) == x,
    decreases x.len(),
{
    if x.len() > 0 {
        lemma_without_absent(x.drop_last(), c);
        assert(x.drop_last().push(x.last()) =~= x);
    }
}

/// A simple selector that is written at `at` and followed by a character
/// that ends it is read back as written, with the relation of that character.
/// The parser stops at that character if it is no symbol of the relation,
/// and behind it otherwise.
proof fn lemma_simple_selector_is_read(s: Seq<char>, at: int, selector: SelectorView)
    requires
        is_simple(selector),
        0 <= at,
        at + written(selector).len() < s.len(),
        s.subrange(at, at + written(selector).len()) == written(selector),
        relation_at(s[at + written(selector).len()]) is Some,
    ensures
        found_selector(s, at) == Some(
            CombinatorView {
                relation: relation_at(s[at + written(selector).len()]).unwrap(),
                selector,
            },
        ),
        after_selector(s, at) == if is_unwritten(
            relation_at(s[at + written(selector).len()]).unwrap(),
        ) {
            at + written(selector).len()
        } else {
            at + written(selector).len() + 1
        },
        starts_selector(s[at]),
        s[at] != '{' && s[at] != '}' && s[at] != '@',
{
    let w = written(selector);
    let end = at + w.len();
    let text = selector.text;
    let window = s.subrange(at, end);
    assert forall|i: int| at <= i < end implies #[trigger] s[i] == w[i - at] by {
        assert(window[i - at] == s[i]);
    }
    match selector.kind {
        SelectorKind::Tag => {
            assert(is_name_char(text[0]));
            assert(opened_kind(s[at]) == Some(SelectorKind::Tag));
            assert forall|i: int| at + 1 <= i < end implies is_name_char(#[trigger] s[i]) by {
                assert(is_name_char(text[i - at]));
            }
            lemma_selector_end_behind_name(s, at + 1, end);
            assert(selector_text(s, selector.kind, at, end) =~= text);
        },
        SelectorKind::Attribute => {
            assert(w[0] == '[');
            assert forall|i: int| at + 1 <= i < end implies is_name_char(#[trigger] s[i]) by {
                if i < end - 1 {
                    assert(w[i - at] == text[i - at - 1]);
                    assert(is_name_char(text[i - at - 1]));
                } else {
                    assert(w[i - at] == ']');
                }
            }
            lemma_selector_end_behind_name(s, at + 1, end);
            let raw = s.subrange(at + 1, end);
            assert forall|j: int| 0 <= j < text.len() implies raw[j] == text[j] by {
                assert(raw[j] == s[at + 1 + j]);
                assert(w[j + 1] == text[j]);
            }
            assert(raw[text.len() as int] == s[end - 1]);
            assert(w[w.len() - 1] == ']');
            assert(raw =~= text.push(']'));
            assert(raw.drop_last() =~= text);
            lemma_without_absent(text, ']');
            assert(selector_text(s, selector.kind, at, end) == text);
        },
        _ => {
            assert(w.len() == text.len() + 1);
            assert forall|i: int| at + 1 <= i < end implies is_name_char(#[trigger] s[i]) by {
                assert(w[i - at] == text[i - at - 1]);
                assert(is_name_char(text[i - at - 1]));
            }
            lemma_selector_end_behind_name(s, at + 1, end);
            let raw = s.subrange(at + 1, end);
            assert forall|j: int| 0 <= j < text.len() implies raw[j] == text[j] by {
                assert(raw[j] == s[at + 1 + j]);
                assert(w[j + 1] == text[j]);
            }
            assert(raw =~= text);
            assert(opened_kind(s[at]) == Some(selector.kind));
        },
    }
}

/// Whether the selector parser, started at `at`, reads `combinator` and
/// stops at `next`, and the scan of the top level hands the character at
/// `at` to it.
pub open spec fn reads(s: Seq<char>, at: int, combinator: CombinatorView, next: int) -> bool {
    &&& 0 <= at < s.len()
    &&& s[at] != '{' && s[at] != '}' && s[at] != '@'
    &&& starts_selector(s[at])
    &&& found_selector(s, at) == Some(combinator)
    &&& after_selector(s, at) == next
}

/// A simple selector that is written at `at`, with a character of the given
/// relation behind it, is read by the selector parser.
pub proof fn lemma_reads_simple_selector(
    s: Seq<char>,
    at: int,
    selector: SelectorView,
    relation: Relation,
)
    requires
        is_simple(selector),
        0 <= at,
        at + written(selector).len() < s.len(),
        s.subrange(at, at + written(selector).len()) == written(selector),
        relation_at(s[at + written(selector).len()]) == Some(relation),
    ensures
        reads(s, at, CombinatorView { relation, selector }, if is_unwritten(relation) {
            at + written(selector).len()
        } else {
            at + written(selector).len() + 1
        }),
{
    lemma_simple_selector_is_read(s, at, selector);
}

/// The scan of a selector, a round bracket being open, passes over matched
/// brackets, over the `)` behind them and stops at the character behind
/// that, where it ends a selector.
proof fn lemma_selector_end_behind_brackets(
    s: Seq<char>,
    base: int,
    x: Seq<char>,
    from: int,
    depth: int,
)
    requires
        0 <= base,
        base + x.len() + 1 < s.len(),
        s.subrange(base, base + x.len()) == x,
        s[base + x.len()] == ')',
        relation_at(s[base + x.len() + 1]) is Some,
        0 <= from <= x.len(),
        depth >= 0,
        brackets_match(x, from, depth),
    ensures
        selector_end(s, base + from, depth + 1) == base + x.len() + 1,
    decreases x.len() - from,
{
    if from < x.len() {
        assert(s.subrange(base, base + x.len())[from] == s[base + from]);
        if x[from] == '(' {
            lemma_selector_end_behind_brackets(s, base, x, from + 1, depth + 1);
        } else if x[from] == ')' {
            lemma_selector_end_behind_brackets(s, base, x, from + 1, depth - 1);
        } else {
            lemma_selector_end_behind_brackets(s, base, x, from + 1, depth);
        }
    } else {
        assert(paren_step(1, s[base + from]) == 0);
        assert(selector_end(s, base + from, 1) == selector_end(s, base + from + 1, 0));
    }
}

/// The text of the pseudo selector `deep(X)`.
pub open spec fn deep_text(argument: Seq<char>) -> Seq<char> {
    "deep("@ + argument + seq![')']
}

/// A pseudo selector `:deep(X)` that is written at `at`, where the round
/// brackets of `X` are matched, with a character of the given relation
/// behind it, is read by the selector parser, whatever `X` holds besides.
pub proof fn lemma_reads_deep_selector(
    s: Seq<char>,
    at: int,
    argument: Seq<char>,
    relation: Relation,
)
    requires
        brackets_match(argument, 0, 0),
        0 <= at,
        at + 1 + deep_text(argument).len() < s.len(),
        s.subrange(at, at + 1 + deep_text(argument).len()) == seq![':'] + deep_text(argument),
        relation_at(s[at + 1 + deep_text(argument).len()]) == Some(relation),
    ensures
        reads(
            s,
            at,
            CombinatorView {
                relation,
                selector: SelectorView { kind: SelectorKind::Pseudo, text: deep_text(argument) },
            },
            if is_unwritten(relation) {
                at + 1 + deep_text(argument).len()
            } else {
                at + 2 + deep_text(argument).len()
            },
        ),
{
    reveal_strlit("deep(");
    let text = deep_text(argument);
    let w = seq![':'] + text;
    let end = at + w.len();
    let window = s.subrange(at, end);
    assert forall|i: int| at <= i < end implies #[trigger] s[i] == w[i - at] by {
        assert(window[i - at] == s[i]);
    }
    assert(s[at] == ':');
    assert(s[at + 1] == 'd' && s[at + 2] == 'e' && s[at + 3] == 'e' && s[at + 4] == 'p' && s[at
        + 5] == '(');
    let base = at + 6;
    assert(s.subrange(base, base + argument.len()) =~= argument) by {
        assert forall|j: int| 0 <= j < argument.len() implies s[base + j] == argument[j] by {
            assert(s[base + j] == w[base + j - at]);
        }
    }
    assert(s[base + argument.len()] == ')') by {
        assert(s[base + argument.len()] == w[base + argument.len() - at]);
    }
    lemma_selector_end_behind_brackets(s, base, argument, 0, 0);
    assert(selector_end(s, at + 5, 0) == selector_end(s, base, 1));
    assert(selector_end(s, at + 4, 0) == selector_end(s, at + 5, 0));
    assert(selector_end(s, at + 3, 0) == selector_end(s, at + 4, 0));
    assert(selector_end(s, at + 2, 0) == selector_end(s, at + 3, 0));
    assert(selector_end(s, at + 1, 0) == selector_end(s, at + 2, 0));
    assert(selector_end(s, at + 1, 0) == end);
    assert(s.subrange(at + 1, end) =~= text);
}

/// Where the selector parser reads a combinator, the scan goes on where the
/// parser stops, with the combinator added to those pending.
proof fn lemma_scan_reads_selector(
    s: Seq<char>,
    at: int,
    depth: int,
    pending: Seq<CombinatorView>,
    combinator: CombinatorView,
    next: int,
)
    requires
        reads(s, at, combinator, next),
    ensures
        scanned(s, at, depth, pending) == scanned(s, next, depth, pending.push(combinator)),
{
}

/// A declaration block closes inside a text where it closes by itself.
proof fn lemma_block_close_inside(s: Seq<char>, at: int, body: Seq<char>, from: int, depth: int)
    requires
        0 <= at,
        at + body.len() <= s.len(),
        s.subrange(at, at + body.len()) == body,
        0 <= from <= body.len(),
        block_close(body, from, depth) < body.len(),
    ensures
        block_close(s, at + from, depth) == at + block_close(body, from, depth),
    decreases body.len() - from,
{
    if from < body.len() {
        assert(s.subrange(at, at + body.len())[from] == s[at + from]);
        if !(body[from] == '}' && depth == 1) {
            lemma_block_close_inside(s, at, body, from + 1, brace_step(depth, body[from]));
        }
    }
}

/// Where a declaration block is written at the top level, the scan reads it
/// as a normal block with the pending combinators as its selector, and goes
/// on behind it with none pending.
proof fn lemma_scan_reads_block(
    s: Seq<char>,
    at: int,
    pending: Seq<CombinatorView>,
    body: Seq<char>,
)
    requires
        0 <= at,
        at + body.len() <= s.len(),
        s.subrange(at, at + body.len()) == body,
        is_block(body),
    ensures
        scanned(s, at, 0, pending) == seq![
            StyleBlockView::Normal(NormalBlockView { selector: pending, content: body }),
        ] + scanned(s, at + body.len(), 0, Seq::empty()),
{
    assert(s.subrange(at, at + body.len())[0] == s[at]);
    lemma_block_close_inside(s, at, body, 1, 1);
    let close = block_close(s, at + 1, 1);
    assert(close == at + body.len() - 1);
    assert(s.subrange(at, close + 1) =~= body);
}

/// A stylesheet of one block is compiled to the text of that block.
proof fn lemma_one_block_text(block: StyleBlockView, marker: Seq<char>)
    ensures
        stylesheet_text(seq![block], marker) == style_block_text(block, marker),
{
    let blocks = seq![block];
    assert(blocks.drop_last() =~= Seq::<StyleBlockView>::empty());
    assert(stylesheet_text(blocks.drop_last(), marker) + style_block_text(block, marker)
        =~= style_block_text(block, marker));
}

/// A text whose normal form is one simple selector and one declaration
/// block, with nothing or one relation symbol between them, is compiled to
/// the selector with the marker, what stands between, and the block as it
/// stands in the normal form. For a selector that is no pseudo selector the
/// marker class stands directly behind the selector as written.
pub proof fn lemma_single_selector_is_scoped(
    css: Seq<char>,
    selector: SelectorView,
    between: Seq<char>,
    body: Seq<char>,
    marker: Seq<char>,
)
    requires
        is_simple(selector),
        is_block(body),
        between.len() == 0 || (between.len() == 1 && is_relation_symbol(between[0])),
        normalized(css) == written(selector) + between + body,
    ensures
        compiled(css, marker) == scoped_text(selector, marker) + between + body,
        !(selector.kind is Pseudo) ==> compiled(css, marker) == written(selector) + seq!['.']
            + marker + between + body,
{
    let s = normalized(css);
    let w = written(selector);
    let end = w.len() as int;
    let relation = relation_at(s[end]).unwrap();
    let combinator = CombinatorView { relation, selector };
    let open: int = end + between.len();
    assert(parsed(css) == scanned(s, 0, 0, Seq::empty()));
    assert(s.subrange(0, end) =~= w);
    assert(s.subrange(open, open + body.len()) =~= body);
    assert(s[open] == body[0]);
    if between.len() == 1 {
        assert(s[end] == between[0]);
        assert(glyph(relation) =~= between);
    } else {
        assert(glyph(relation) =~= between);
    }
    lemma_reads_simple_selector(s, 0, selector, relation);
    lemma_scan_reads_selector(s, 0, 0, Seq::empty(), combinator, open);
    let pending = Seq::<CombinatorView>::empty().push(combinator);
    assert(pending =~= seq![combinator]);
    lemma_scan_reads_block(s, open, pending, body);
    let block = NormalBlockView { selector: pending, content: body };
    assert(scanned(s, s.len() as int, 0, Seq::empty()) =~= Seq::<StyleBlockView>::empty());
    assert(parsed(css) =~= seq![StyleBlockView::Normal(block)]);
    lemma_one_block_text(StyleBlockView::Normal(block), marker);
    lemma_single_selector_block(block, marker);
}

/// A text in which the selector parser reads two combinators, one behind
/// the other, and in which one declaration block fills the rest, is scanned
/// into one normal block whose chain holds the two combinators.
proof fn lemma_pair_is_scanned(
    s: Seq<char>,
    one: CombinatorView,
    start: int,
    two: CombinatorView,
    open: int,
    body: Seq<char>,
)
    requires
        reads(s, 0, one, start),
        reads(s, start, two, open),
        is_block(body),
        0 <= open,
        open + body.len() == s.len(),
        s.subrange(open, s.len() as int) == body,
    ensures
        scanned(s, 0, 0, Seq::empty()) == seq![
            StyleBlockView::Normal(NormalBlockView { selector: seq![one, two], content: body }),
        ],
{
    let after_one = Seq::<CombinatorView>::empty().push(one);
    let chain = after_one.push(two);
    lemma_scan_reads_selector(s, 0, 0, Seq::empty(), one, start);
    lemma_scan_reads_selector(s, start, 0, after_one, two, open);
    lemma_scan_reads_block(s, open, chain, body);
    let block = StyleBlockView::Normal(NormalBlockView { selector: chain, content: body });
    assert(scanned(s, s.len() as int, 0, Seq::empty()) =~= Seq::<StyleBlockView>::empty());
    assert(scanned(s, open, 0, chain) =~= seq![block]);
    assert(chain =~= seq![one, two]);
}

/// A text whose normal form is two simple selectors, a space and one
/// declaration block, the selectors either glued together (`between` is
/// empty) or with a relation symbol between them, is parsed into one normal
/// block whose chain holds the two selectors.
proof fn lemma_pair_is_parsed(
    css: Seq<char>,
    first: SelectorView,
    between: Seq<char>,
    relation: Relation,
    second: SelectorView,
    body: Seq<char>,
)
    requires
        is_simple(first),
        is_simple(second),
        is_block(body),
        normalized(css) == written(first) + between + written(second) + seq![' '] + body,
        if between.len() == 0 {
            relation is Combine && !(second.kind is Tag)
        } else {
            between.len() == 1 && is_relation_symbol(between[0]) && relation_at(between[0]) == Some(
                relation,
            )
        },
    ensures
        parsed(css) == seq![
            StyleBlockView::Normal(
                NormalBlockView {
                    selector: seq![
                        CombinatorView { relation, selector: first },
                        CombinatorView { relation: Relation::Descendant, selector: second },
                    ],
                    content: body,
                },
            ),
        ],
{
    let s = normalized(css);
    let w1 = written(first);
    let w2 = written(second);
    let n1 = w1.len() as int;
    let start: int = n1 + between.len();
    assert(parsed(css) == scanned(s, 0, 0, Seq::empty()));
    assert(s.len() == start + w2.len() + 1 + body.len());
    assert(s.subrange(0, n1) =~= w1);
    assert(s.subrange(start, start + w2.len()) =~= w2);
    assert(s[start + w2.len()] == ' ');
    assert(s.subrange(start + w2.len() + 1, s.len() as int) =~= body);
    if between.len() == 0 {
        assert(s[n1] == w2[0]);
    } else {
        assert(s[n1] == between[0]);
    }
    lemma_reads_simple_selector(s, 0, first, relation);
    lemma_reads_simple_selector(s, start, second, Relation::Descendant);
    lemma_pair_is_scanned(
        s,
        CombinatorView { relation, selector: first },
        start,
        CombinatorView { relation: Relation::Descendant, selector: second },
        start + w2.len() + 1,
        body,
    );
}

/// A text whose normal form is two simple selectors with a relation symbol
/// between them, a space and one declaration block is compiled to both
/// selectors, each with the marker, with exactly that symbol between them.
pub proof fn lemma_related_selectors_are_scoped(
    css: Seq<char>,
    first: SelectorView,
    symbol: char,
    second: SelectorView,
    body: Seq<char>,
    marker: Seq<char>,
)
    requires
        is_simple(first),
        is_simple(second),
        is_relation_symbol(symbol),
        is_block(body),
        normalized(css) == written(first) + seq![symbol] + written(second) + seq![' '] + body,
    ensures
        compiled(css, marker) == scoped_text(first, marker) + seq![symbol] + scoped_text(
            second,
            marker,
        ) + seq![' '] + body,
{
    let relation = relation_at(symbol).unwrap();
    let one = CombinatorView { relation, selector: first };
    let two = CombinatorView { relation: Relation::Descendant, selector: second };
    let block = NormalBlockView { selector: seq![one, two], content: body };
    assert(is_relation_symbol(seq![symbol][0]));
    lemma_pair_is_parsed(css, first, seq![symbol], relation, second, body);
    assert(parsed(css) == seq![StyleBlockView::Normal(block)]);
    lemma_one_block_text(StyleBlockView::Normal(block), marker);
    lemma_related_pair(one, two, body, marker);
    assert(glyph(relation) =~= seq![symbol]);
    assert(glyph(Relation::Descendant) =~= seq![' ']);
}

/// A text whose normal form is two simple selectors glued into one compound
/// selector, a space and one declaration block is compiled with one marker:
/// the first selector is written as it stands, the second with the marker.
pub proof fn lemma_compound_selector_is_scoped_once(
    css: Seq<char>,
    first: SelectorView,
    second: SelectorView,
    body: Seq<char>,
    marker: Seq<char>,
)
    requires
        is_simple(first),
        is_simple(second),
        !(second.kind is Tag),
        is_block(body),
        normalized(css) == written(first) + written(second) + seq![' '] + body,
    ensures
        compiled(css, marker) == unscoped_text(first) + scoped_text(second, marker) + seq![' ']
            + body,
{
    let one = CombinatorView { relation: Relation::Combine, selector: first };
    let two = CombinatorView { relation: Relation::Descendant, selector: second };
    let block = NormalBlockView { selector: seq![one, two], content: body };
    assert(written(first) + Seq::<char>::empty() =~= written(first));
    lemma_pair_is_parsed(css, first, Seq::empty(), Relation::Combine, second, body);
    assert(parsed(css) == seq![StyleBlockView::Normal(block)]);
    lemma_one_block_text(StyleBlockView::Normal(block), marker);
    lemma_compound_of_two(one, two, body, marker);
    assert(glyph(Relation::Descendant) =~= seq![' ']);
}

/// A text whose normal form is a simple selector with a pseudo-element glued
/// to it, a space and one declaration block (the pseudo-element written with
/// one colon, as the normal form has it) is compiled to the selector, the
/// marker class, two colons and the pseudo-element.
pub proof fn lemma_pseudo_element_is_scoped(
    css: Seq<char>,
    base: SelectorView,
    name: Seq<char>,
    body: Seq<char>,
    marker: Seq<char>,
)
    requires
        is_simple(base),
        !(base.kind is Pseudo),
        is_simple(SelectorView { kind: SelectorKind::Pseudo, text: name }),
        is_pseudo_element_name(pseudo_name(name)),
        is_block(body),
        normalized(css) == written(base) + seq![':'] + name + seq![' '] + body,
    ensures
        compiled(css, marker) == written(base) + seq!['.'] + marker + seq![':', ':'] + name + seq![
            ' ',
        ] + body,
{
    let pseudo = SelectorView { kind: SelectorKind::Pseudo, text: name };
    assert(written(base) + seq![':'] + name + seq![' '] + body =~= written(base) + written(pseudo)
        + seq![' '] + body);
    lemma_compound_selector_is_scoped_once(css, base, pseudo, body, marker);
    lemma_pseudo_element_text(name, marker);
    let scoped = scoped_text(pseudo, marker);
    assert(scoped == seq!['.'] + marker + seq![':', ':'] + name);
    assert(unscoped_text(base) == written(base));
    assert(written(base) + scoped + seq![' '] + body =~= written(base) + seq!['.'] + marker + seq![
        ':',
        ':',
    ] + name + seq![' '] + body);
}

/// A text whose normal form is one generic at-rule is compiled to that
/// normal form, whatever the marker: the rule is copied as it stands.
pub proof fn lemma_generic_at_rule_is_copied(css: Seq<char>, marker: Seq<char>)
    requires
        normalized(css).len() > 0,
        normalized(css)[0] == '@',
        !holds_selectors(rule_keyword(normalized(css), 0)),
        generic_rule_end(normalized(css), 0, 0) == normalized(css).len() - 1,
    ensures
        compiled(css, marker) == normalized(css),
{
    let s = normalized(css);
    assert(s.subrange(0, s.len() as int) =~= s);
    assert(found_generic_rule(s, 0) == Some(StyleBlockView::GenericAtRule(s)));
    assert(scanned(s, s.len() as int, 0, Seq::empty()) =~= Seq::<StyleBlockView>::empty());
    assert(parsed(css) =~= seq![StyleBlockView::GenericAtRule(s)]);
    lemma_generic_at_rule_is_kept(s, marker);
}

/// A text whose normal form is a simple selector, a space, a pseudo selector
/// `:deep(X)` with matched round brackets in `X`, a space and one declaration
/// block is compiled to the selector with the marker, a space and `X` as it
/// stands: `X` gets no marker, and nothing is left of `:deep(` and `)`.
pub proof fn lemma_deep_selector_is_not_scoped(
    css: Seq<char>,
    first: SelectorView,
    argument: Seq<char>,
    body: Seq<char>,
    marker: Seq<char>,
)
    requires
        is_simple(first),
        brackets_match(argument, 0, 0),
        is_block(body),
        normalized(css) == written(first) + seq![' ', ':'] + deep_text(argument) + seq![' ']
            + body,
    ensures
        compiled(css, marker) == scoped_text(first, marker) + seq![' '] + argument + seq![' ']
            + body,
{
    let s = normalized(css);
    let w1 = written(first);
    let text = deep_text(argument);
    let deep = SelectorView { kind: SelectorKind::Pseudo, text };
    let one = CombinatorView { relation: Relation::Descendant, selector: first };
    let two = CombinatorView { relation: Relation::Descendant, selector: deep };
    let start: int = w1.len() as int + 1;
    let open: int = start + 1 + text.len() + 1;
    assert(parsed(css) == scanned(s, 0, 0, Seq::empty()));
    assert(s.len() == open + body.len());
    assert(s.subrange(0, w1.len() as int) =~= w1);
    assert(s[w1.len() as int] == ' ');
    assert(s.subrange(start, start + 1 + text.len()) =~= seq![':'] + text);
    assert(s[start + 1 + text.len()] == ' ');
    assert(s.subrange(open, s.len() as int) =~= body);
    lemma_reads_simple_selector(s, 0, first, Relation::Descendant);
    lemma_reads_deep_selector(s, start, argument, Relation::Descendant);
    lemma_pair_is_scanned(s, one, start, two, open, body);
    let block = NormalBlockView { selector: seq![one, two], content: body };
    assert(parsed(css) == seq![StyleBlockView::Normal(block)]);
    lemma_one_block_text(StyleBlockView::Normal(block), marker);
    lemma_related_pair(one, two, body, marker);
    lemma_deep_argument(argument);
    assert(glyph(Relation::Descendant) =~= seq![' ']);
}

/// Whether `x` holds no brace.
pub open spec fn has_no_brace(x: Seq<char>) -> bool {
    forall|i: int| 0 <= i < x.len() ==> #[trigger] x[i] != '{' && x[i] != '}'
}

/// Outside braces, what holds no brace goes to the header of an at-rule with
/// selectors.
proof fn lemma_rule_parts_reads_header(
    s: Seq<char>,
    from: int,
    open: int,
    header: Seq<char>,
    body: Seq<char>,
)
    requires
        0 <= from <= open <= s.len(),
        has_no_brace(s.subrange(from, open)),
    ensures
        rule_parts(s, from, 0, header, body) == rule_parts(
            s,
            open,
            0,
            header + s.subrange(from, open),
            body,
        ),
    decreases open - from,
{
    if from < open {
        assert(s.subrange(from, open)[0] == s[from]);
        assert forall|i: int| 0 <= i < open - from - 1 implies #[trigger] s.subrange(
            from + 1,
            open,
        )[i] != '{' && s.subrange(from + 1, open)[i] != '}' by {
            assert(s.subrange(from, open)[i + 1] == s.subrange(from + 1, open)[i]);
        }
        lemma_rule_parts_reads_header(s, from + 1, open, header.push(s[from]), body);
        assert(header.push(s[from]) + s.subrange(from + 1, open) =~= header + s.subrange(
            from,
            open,
        ));
    } else {
        assert(header + s.subrange(from, open) =~= header);
    }
}

/// Inside braces, all that stands before the closing `}` goes to the body of
/// an at-rule with selectors.
proof fn lemma_rule_parts_reads_body(
    s: Seq<char>,
    from: int,
    depth: int,
    header: Seq<char>,
    body: Seq<char>,
    end: int,
)
    requires
        0 <= from <= end < s.len(),
        depth >= 1,
        block_close(s, from, depth) == end,
    ensures
        rule_parts(s, from, depth, header, body) == Some(
            RuleParts { end, header, body: body + s.subrange(from, end) },
        ),
    decreases end - from,
{
    if s[from] == '}' && depth == 1 {
        assert(body + s.subrange(from, end) =~= body);
    } else {
        lemma_block_close_bounds(s, from + 1, brace_step(depth, s[from]));
        lemma_rule_parts_reads_body(
            s,
            from + 1,
            brace_step(depth, s[from]),
            header,
            body.push(s[from]),
            end,
        );
        assert(body.push(s[from]) + s.subrange(from + 1, end) =~= body + s.subrange(from, end));
    }
}

/// An at-rule with selectors that is written with a header without braces,
/// a `{` at `open` and the `}` that closes it at `end` has what stands before
/// the `{` as its header and what stands between the braces as its body.
pub proof fn lemma_rule_parts_of_braced_rule(s: Seq<char>, at: int, open: int, end: int)
    requires
        0 <= at <= open < end < s.len(),
        has_no_brace(s.subrange(at, open)),
        s[open] == '{',
        block_close(s, open + 1, 1) == end,
    ensures
        rule_parts(s, at, 0, Seq::empty(), Seq::empty()) == Some(
            RuleParts { end, header: s.subrange(at, open), body: s.subrange(open + 1, end) },
        ),
{
    let header = s.subrange(at, open);
    lemma_rule_parts_reads_header(s, at, open, Seq::empty(), Seq::empty());
    assert(Seq::<char>::empty() + header =~= header);
    assert(rule_parts(s, open, 0, header, Seq::empty()) == rule_parts(
        s,
        open + 1,
        1,
        header,
        Seq::empty(),
    ));
    lemma_rule_parts_reads_body(s, open + 1, 1, header, Seq::empty(), end);
    assert(Seq::<char>::empty() + s.subrange(open + 1, end) =~= s.subrange(open + 1, end));
}

/// Where all blocks are normal blocks, keeping the normal ones keeps all.
proof fn lemma_all_normal_are_kept(blocks: Seq<StyleBlockView>)
    requires
        forall|i: int| 0 <= i < blocks.len() ==> #[trigger] blocks[i] is Normal,
    ensures
        as_style_blocks(normal_blocks_of(blocks)) == blocks,
    decreases blocks.len(),
{
    if blocks.len() > 0 {
        let init = blocks.drop_last();
        lemma_all_normal_are_kept(init);
        assert(blocks.last() is Normal);
        let last = blocks.last()->Normal_0;
        assert(normal_blocks_of(blocks) == normal_blocks_of(init).push(last));
        assert(as_style_blocks(normal_blocks_of(init).push(last)) =~= as_style_blocks(
            normal_blocks_of(init),
        ).push(StyleBlockView::Normal(last)));
        assert(init.push(blocks.last()) =~= blocks);
    } else {
        assert(as_style_blocks(normal_blocks_of(blocks)) =~= blocks);
    }
}

/// A text whose normal form is one at-rule with selectors, made of a header
/// without braces and a body in matched braces, is compiled to the header as
/// it stands, then, in braces, the normal blocks of the body compiled as
/// they would be at the top level. Where the body holds nothing but normal
/// blocks, that is the body compiled as a stylesheet of its own.
pub proof fn lemma_at_rule_body_is_scoped(
    css: Seq<char>,
    header: Seq<char>,
    body: Seq<char>,
    marker: Seq<char>,
)
    requires
        header.len() > 0,
        header[0] == '@',
        has_no_brace(header),
        is_block(seq!['{'] + body + seq!['}']),
        normalized(css) == header + seq!['{'] + body + seq!['}'],
        holds_selectors(rule_keyword(normalized(css), 0)),
    ensures
        compiled(css, marker) == header + seq!['{'] + stylesheet_text(
            as_style_blocks(normal_blocks_of(parsed(body))),
            marker,
        ) + seq!['}'],
        (forall|i: int| 0 <= i < parsed(body).len() ==> #[trigger] parsed(body)[i] is Normal)
            ==> compiled(css, marker) == header + seq!['{'] + compiled(body, marker) + seq!['}'],
{
    let s = normalized(css);
    let braced = seq!['{'] + body + seq!['}'];
    let open = header.len() as int;
    let end = s.len() - 1;
    assert(parsed(css) == scanned(s, 0, 0, Seq::empty()));
    assert(s.subrange(0, open) =~= header);
    assert(s.subrange(open, open + braced.len()) =~= braced);
    assert(s[open] == '{');
    lemma_block_close_inside(s, open, braced, 1, 1);
    assert(block_close(s, open + 1, 1) == end);
    lemma_rule_parts_of_braced_rule(s, 0, open, end);
    assert(s.subrange(open + 1, end) =~= body);
    let rule = AtRuleView { at_rule: header, blocks: normal_blocks_of(parsed(body)) };
    let block = StyleBlockView::AtRuleWithSelectors(rule);
    assert(found_rule_with_selectors(s, 0) == Some(block));
    assert(found_at_rule(s, 0) == Some(block));
    assert(scanned(s, s.len() as int, 0, Seq::empty()) =~= Seq::<StyleBlockView>::empty());
    assert(parsed(css) =~= seq![block]);
    lemma_one_block_text(block, marker);
    lemma_at_rule_with_selectors_text(rule, marker);
    if forall|i: int| 0 <= i < parsed(body).len() ==> #[trigger] parsed(body)[i] is Normal {
        lemma_all_normal_are_kept(parsed(body));
    }
}

} // verus!
