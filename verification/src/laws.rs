//! Laws of compilation: what the compiled text of selectors, chains and
//! blocks looks like, whatever they hold.

use crate::grammar::compiled;
use crate::selector::{
    combinator_text, deep_argument, glyph, group_close, is_pseudo_element_name, own_text,
    position_of, pseudo_name, scoped_text, unscoped_text, CombinatorView, Relation, SelectorKind,
    SelectorView,
};
use crate::stylesheet::{
    at_rule_text, chain_text, normal_block_text, normal_blocks_text, style_block_text,
    stylesheet_text, AtRuleView, NormalBlockView, StyleBlockView,
};
use vstd::prelude::*;

verus! {

/// Compilation is a function of the text and the marker: the same text,
/// compiled with the same marker, gives the same output every time.
pub proof fn lemma_compiled_is_determined(
    css: Seq<char>,
    marker: Seq<char>,
    again: Seq<char>,
    again_marker: Seq<char>,
)
    requires
        css == again,
        marker == again_marker,
    ensures
        compiled(css, marker) == compiled(again, again_marker),
{
}

/// A relation is written as at most one character: a descendant as one
/// space, the others as their symbol, and [`Relation::Terminal`] and
/// [`Relation::Combine`] as nothing.
pub proof fn lemma_glyph(relation: Relation)
    ensures
        relation is Descendant ==> glyph(relation) == seq![' '],
        relation is Child ==> glyph(relation) == seq!['>'],
        relation is Sibling ==> glyph(relation) == seq!['+'],
        relation is General ==> glyph(relation) == seq!['~'],
        relation is Namespace ==> glyph(relation) == seq!['|'],
        relation is Terminal || relation is Combine ==> glyph(relation).len() == 0,
        glyph(relation).len() <= 1,
{
}

/// The compiled text of two chains joined is the compiled text of the first
/// followed by that of the second: a chain is compiled combinator by
/// combinator, whatever stands around each.
pub proof fn lemma_chain_text_of_joined(
    front: Seq<CombinatorView>,
    back: Seq<CombinatorView>,
    marker: Seq<char>,
)
    ensures
        chain_text(front + back, marker) == chain_text(front, marker) + chain_text(back, marker),
    decreases back.len(),
{
    if back.len() == 0 {
        assert(front + back =~= front);
        assert(chain_text(front, marker) + chain_text(back, marker) =~= chain_text(
            front,
            marker,
        ));
    } else {
        lemma_chain_text_of_joined(front, back.drop_last(), marker);
        assert((front + back).drop_last() =~= front + back.drop_last());
        assert((front + back).last() == back.last());
        assert(chain_text(front, marker) + chain_text(back.drop_last(), marker) + combinator_text(
            back.last(),
            marker,
        ) =~= chain_text(front, marker) + (chain_text(back.drop_last(), marker) + combinator_text(
            back.last(),
            marker,
        )));
    }
}

/// The compiled text of a chain of one combinator is the compiled text of
/// that combinator.
pub proof fn lemma_chain_text_of_one(combinator: CombinatorView, marker: Seq<char>)
    ensures
        chain_text(seq![combinator], marker) == combinator_text(combinator, marker),
{
    let chain = seq![combinator];
    assert(chain.drop_last() =~= Seq::<CombinatorView>::empty());
    assert(chain_text(chain.drop_last(), marker) + combinator_text(combinator, marker)
        =~= combinator_text(combinator, marker));
}

/// A block with a chain of one combinator is compiled to the compiled text
/// of the combinator, then the content. Where the selector ends a compound
/// selector, that is the selector with the marker, then the glyph of its
/// relation; for a selector that is no pseudo selector the marker class
/// stands directly behind the selector's own text, and nothing but the glyph
/// stands between it and the declaration block.
pub proof fn lemma_single_selector_block(block: NormalBlockView, marker: Seq<char>)
    requires
        block.selector.len() == 1,
    ensures
        normal_block_text(block, marker) == combinator_text(block.selector[0], marker)
            + block.content,
        !(block.selector[0].relation is Combine) ==> normal_block_text(block, marker)
            == scoped_text(block.selector[0].selector, marker) + glyph(block.selector[0].relation)
            + block.content,
        !(block.selector[0].relation is Combine) && !(block.selector[0].selector.kind is Pseudo)
            ==> normal_block_text(block, marker) == own_text(block.selector[0].selector) + seq![
            '.',
        ] + marker + glyph(block.selector[0].relation) + block.content,
        !(block.selector[0].relation is Combine) && block.selector[0].selector.kind is Pseudo
            && deep_argument(block.selector[0].selector.text) is None ==> normal_block_text(
            block,
            marker,
        ) == seq!['.'] + marker + own_text(block.selector[0].selector) + glyph(
            block.selector[0].relation,
        ) + block.content,
{
    let chain = block.selector;
    assert(chain =~= seq![chain[0]]);
    lemma_chain_text_of_one(chain[0], marker);
}

/// A character is found at or after the place from which it is sought, and
/// no character before the place found is the one sought.
pub proof fn lemma_position_of(s: Seq<char>, c: char, from: int)
    requires
        0 <= from <= s.len(),
    ensures
        from <= position_of(s, c, from) <= s.len(),
        position_of(s, c, from) < s.len() ==> s[position_of(s, c, from)] == c,
        forall|i: int| from <= i < position_of(s, c, from) ==> s[i] != c,
    decreases s.len() - from,
{
    if from < s.len() && s[from] != c {
        lemma_position_of(s, c, from + 1);
    }
}

/// No pseudo-element name starts the way `deep` does, so a pseudo selector
/// with such a name holds no `deep(..)` argument.
pub proof fn lemma_pseudo_element_is_not_deep(text: Seq<char>)
    requires
        is_pseudo_element_name(pseudo_name(text)),
    ensures
        deep_argument(text) is None,
{
    reveal_strlit("deep");
    reveal_strlit("after");
    reveal_strlit("backdrop");
    reveal_strlit("before");
    reveal_strlit("cue");
    reveal_strlit("cue-region");
    reveal_strlit("first-letter");
    reveal_strlit("first-line");
    reveal_strlit("file-selector-button");
    reveal_strlit("grammar-error");
    reveal_strlit("marker");
    reveal_strlit("part");
    reveal_strlit("placeholder");
    reveal_strlit("selection");
    reveal_strlit("slotted");
    reveal_strlit("spelling-error");
    reveal_strlit("target-text");
    let name = pseudo_name(text);
    lemma_position_of(text, '(', 0);
    if "deep"@.is_prefix_of(text) {
        assert(text.subrange(0, 4)[0] == 'd');
        assert(text[0] == 'd');
        assert(name.len() > 0);
        assert(name[0] == text[0]);
        assert(false);
    }
}

/// A pseudo selector whose name is a pseudo-element name is written with two
/// colons, and the marker class stands before the colons.
pub proof fn lemma_pseudo_element_text(text: Seq<char>, marker: Seq<char>)
    requires
        is_pseudo_element_name(pseudo_name(text)),
    ensures
        own_text(SelectorView { kind: SelectorKind::Pseudo, text }) == seq![':', ':'] + text,
        scoped_text(SelectorView { kind: SelectorKind::Pseudo, text }, marker) == seq!['.'] + marker
            + seq![':', ':'] + text,
{
    lemma_pseudo_element_is_not_deep(text);
    let selector = SelectorView { kind: SelectorKind::Pseudo, text };
    assert(seq!['.'] + marker + own_text(selector) =~= seq!['.'] + marker + seq![':', ':'] + text);
}

/// A base selector with a pseudo-element glued to it is compiled to the base
/// selector's text, the marker class, two colons and the pseudo-element, so
/// that the marker stands between the base selector and the colons.
pub proof fn lemma_pseudo_element_after_base(
    base: SelectorView,
    text: Seq<char>,
    relation: Relation,
    content: Seq<char>,
    marker: Seq<char>,
)
    requires
        is_pseudo_element_name(pseudo_name(text)),
        !(relation is Combine),
    ensures
        normal_block_text(
            NormalBlockView {
                selector: seq![
                    CombinatorView { relation: Relation::Combine, selector: base },
                    CombinatorView {
                        relation,
                        selector: SelectorView { kind: SelectorKind::Pseudo, text },
                    },
                ],
                content,
            },
            marker,
        ) == unscoped_text(base) + seq!['.'] + marker + seq![':', ':'] + text + glyph(relation)
            + content,
{
    let pseudo = SelectorView { kind: SelectorKind::Pseudo, text };
    let first = CombinatorView { relation: Relation::Combine, selector: base };
    let second = CombinatorView { relation, selector: pseudo };
    lemma_pseudo_element_text(text, marker);
    lemma_compound_of_two(first, second, content, marker);
    assert(unscoped_text(base) + (seq!['.'] + marker + seq![':', ':'] + text) + glyph(relation)
        + content =~= unscoped_text(base) + seq!['.'] + marker + seq![':', ':'] + text + glyph(
        relation,
    ) + content);
}

/// The text of a chain of two combinators is the text of the first followed
/// by the text of the second.
pub proof fn lemma_chain_text_of_two(
    first: CombinatorView,
    second: CombinatorView,
    marker: Seq<char>,
)
    ensures
        chain_text(seq![first, second], marker) == combinator_text(first, marker)
            + combinator_text(second, marker),
{
    lemma_chain_text_of_joined(seq![first], seq![second], marker);
    lemma_chain_text_of_one(first, marker);
    lemma_chain_text_of_one(second, marker);
    assert(seq![first] + seq![second] =~= seq![first, second]);
}

/// Two selectors joined by a relation are each compiled with the marker, and
/// exactly the glyph of the relation stands between them.
pub proof fn lemma_related_pair(
    first: CombinatorView,
    second: CombinatorView,
    content: Seq<char>,
    marker: Seq<char>,
)
    requires
        !(first.relation is Combine),
        !(second.relation is Combine),
    ensures
        normal_block_text(NormalBlockView { selector: seq![first, second], content }, marker)
            == scoped_text(first.selector, marker) + glyph(first.relation) + scoped_text(
            second.selector,
            marker,
        ) + glyph(second.relation) + content,
{
    lemma_chain_text_of_two(first, second, marker);
    assert(combinator_text(first, marker) + combinator_text(second, marker) + content
        =~= scoped_text(first.selector, marker) + glyph(first.relation) + scoped_text(
        second.selector,
        marker,
    ) + glyph(second.relation) + content);
}

/// Two simple selectors glued into one compound selector get one marker
/// between them: the first is written without, the second with it.
pub proof fn lemma_compound_of_two(
    first: CombinatorView,
    second: CombinatorView,
    content: Seq<char>,
    marker: Seq<char>,
)
    requires
        first.relation is Combine,
        !(second.relation is Combine),
    ensures
        normal_block_text(NormalBlockView { selector: seq![first, second], content }, marker)
            == unscoped_text(first.selector) + scoped_text(second.selector, marker) + glyph(
            second.relation,
        ) + content,
{
    lemma_chain_text_of_two(first, second, marker);
    assert(combinator_text(first, marker) + combinator_text(second, marker) + content
        =~= unscoped_text(first.selector) + scoped_text(second.selector, marker) + glyph(
        second.relation,
    ) + content);
}

/// A generic at-rule is compiled to itself, whatever the marker.
pub proof fn lemma_generic_at_rule_is_kept(text: Seq<char>, marker: Seq<char>)
    ensures
        style_block_text(StyleBlockView::GenericAtRule(text), marker) == text,
        stylesheet_text(seq![StyleBlockView::GenericAtRule(text)], marker) == text,
{
    let blocks = seq![StyleBlockView::GenericAtRule(text)];
    assert(blocks.drop_last() =~= Seq::<StyleBlockView>::empty());
    assert(stylesheet_text(blocks.drop_last(), marker) + text =~= text);
}

/// `blocks`, each as a block of a stylesheet.
pub open spec fn as_style_blocks(blocks: Seq<NormalBlockView>) -> Seq<StyleBlockView> {
    blocks.map_values(|b: NormalBlockView| StyleBlockView::Normal(b))
}

/// Normal blocks are compiled inside an at-rule exactly as they are at the
/// top level of a stylesheet.
pub proof fn lemma_nested_blocks_like_top_level(blocks: Seq<NormalBlockView>, marker: Seq<char>)
    ensures
        normal_blocks_text(blocks, marker) == stylesheet_text(as_style_blocks(blocks), marker),
    decreases blocks.len(),
{
    if blocks.len() > 0 {
        lemma_nested_blocks_like_top_level(blocks.drop_last(), marker);
        assert(as_style_blocks(blocks).drop_last() =~= as_style_blocks(blocks.drop_last()));
    }
}

/// An at-rule with selectors is compiled to its header as written, then, in
/// braces, its blocks compiled as they would be at the top level.
pub proof fn lemma_at_rule_with_selectors_text(rule: AtRuleView, marker: Seq<char>)
    ensures
        at_rule_text(rule, marker) == rule.at_rule + seq!['{'] + stylesheet_text(
            as_style_blocks(rule.blocks),
            marker,
        ) + seq!['}'],
{
    lemma_nested_blocks_like_top_level(rule.blocks, marker);
}

/// Whether the round brackets of `x` from `from` on are matched, `depth`
/// brackets being open there.
pub open spec fn brackets_match(x: Seq<char>, from: int, depth: int) -> bool
    decreases x.len() - from,
{
    if from >= x.len() {
        depth == 0
    } else if x[from] == '(' {
        brackets_match(x, from + 1, depth + 1)
    } else if x[from] == ')' {
        depth > 0 && brackets_match(x, from + 1, depth - 1)
    } else {
        brackets_match(x, from + 1, depth)
    }
}

/// Behind matched brackets, the group ends at the `)` that follows them.
proof fn lemma_group_close_behind_matched(
    before: Seq<char>,
    x: Seq<char>,
    from: int,
    depth: int,
)
    requires
        0 <= from <= x.len(),
        depth >= 0,
        brackets_match(x, from, depth),
    ensures
        group_close(before + x + seq![')'], before.len() + from, depth + 1) == before.len()
            + x.len(),
    decreases x.len() - from,
{
    let text = before + x + seq![')'];
    if from < x.len() {
        assert(text[before.len() + from] == x[from]);
        if x[from] == '(' {
            lemma_group_close_behind_matched(before, x, from + 1, depth + 1);
        } else if x[from] == ')' {
            lemma_group_close_behind_matched(before, x, from + 1, depth - 1);
        } else {
            lemma_group_close_behind_matched(before, x, from + 1, depth);
        }
    } else {
        assert(text[before.len() + from] == ')');
    }
}

/// The argument of `deep(X)`, where the round brackets of `X` are matched, is
/// `X`.
pub proof fn lemma_deep_argument(x: Seq<char>)
    requires
        brackets_match(x, 0, 0),
    ensures
        deep_argument("deep("@ + x + seq![')']) == Some(x),
{
    reveal_strlit("deep(");
    reveal_strlit("deep");
    let before = "deep("@;
    let text = before + x + seq![')'];
    assert(text[0] == 'd' && text[1] == 'e' && text[2] == 'e' && text[3] == 'p' && text[4] == '(');
    assert(position_of(text, '(', 4) == 4);
    assert(position_of(text, '(', 3) == 4);
    assert(position_of(text, '(', 2) == 4);
    assert(position_of(text, '(', 1) == 4);
    assert(position_of(text, '(', 0) == 4);
    assert(text.subrange(0, 4) =~= "deep"@);
    lemma_group_close_behind_matched(before, x, 0, 0);
    assert(text.subrange(5, 5 + x.len() as int) =~= x);
}

/// A pseudo selector that holds a `deep(..)` argument is compiled to that
/// argument alone, without marker and without the wrapper, whatever its
/// relation and wherever it stands in a chain: only the glyph of its relation
/// follows.
pub proof fn lemma_deep_is_not_scoped(combinator: CombinatorView, marker: Seq<char>)
    requires
        combinator.selector.kind is Pseudo,
        deep_argument(combinator.selector.text) is Some,
    ensures
        combinator_text(combinator, marker) == deep_argument(combinator.selector.text).unwrap()
            + glyph(combinator.relation),
{
    let inner = deep_argument(combinator.selector.text).unwrap();
    assert(inner + glyph(Relation::Combine) =~= inner);
}

} // verus!
