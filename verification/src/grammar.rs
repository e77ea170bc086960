//! What the parser reads out of a text: the normal form of the text, and the
//! blocks, selectors and at-rules found in it, as functions of the text.

use crate::selector::{CombinatorView, Relation, SelectorKind, SelectorView};
use crate::stylesheet::{stylesheet_text, AtRuleView, NormalBlockView, StyleBlockView};
use crate::text::{
    alphabetic, alphanumeric, collapsed, lemma_collapsed_len, lemma_replaced_len, replaced,
    without,
};
use vstd::prelude::*;

verus! {

/// `s` without the spaces around the occurrences of `symbol`: first where a
/// space stands on both sides, then where one follows, then where one
/// precedes.
pub open spec fn compressed(s: Seq<char>, symbol: Seq<char>) -> Seq<char> {
    let both = replaced(s, seq![' '] + symbol + seq![' '], symbol);
    let after = replaced(both, symbol + seq![' '], symbol);
    replaced(after, seq![' '] + symbol, symbol)
}

/// The normal form in which a text is scanned: whitespace collapsed, `::`
/// written as `:`, and no spaces around `>`, `+`, `|` and `~`, which are
/// treated in this order.
pub open spec fn normalized(s: Seq<char>) -> Seq<char> {
    let single = replaced(collapsed(s), seq![':', ':'], seq![':']);
    let child = compressed(single, seq!['>']);
    let sibling = compressed(child, seq!['+']);
    let namespace = compressed(sibling, seq!['|']);
    compressed(namespace, seq!['~'])
}

/// Removing the spaces around a symbol never lengthens a text.
pub proof fn lemma_compressed_len(s: Seq<char>, symbol: Seq<char>)
    ensures
        compressed(s, symbol).len() <= s.len(),
{
    let both = replaced(s, seq![' '] + symbol + seq![' '], symbol);
    let after = replaced(both, symbol + seq![' '], symbol);
    lemma_replaced_len(s, seq![' '] + symbol + seq![' '], symbol);
    lemma_replaced_len(both, symbol + seq![' '], symbol);
    lemma_replaced_len(after, seq![' '] + symbol, symbol);
}

/// The normal form of a text is no longer than the text.
pub proof fn lemma_normalized_len(s: Seq<char>)
    ensures
        normalized(s).len() <= s.len(),
{
    let single = replaced(collapsed(s), seq![':', ':'], seq![':']);
    let a = compressed(single, seq!['>']);
    let b = compressed(a, seq!['+']);
    let c = compressed(b, seq!['|']);
    lemma_collapsed_len(s);
    lemma_replaced_len(collapsed(s), seq![':', ':'], seq![':']);
    lemma_compressed_len(single, seq!['>']);
    lemma_compressed_len(a, seq!['+']);
    lemma_compressed_len(b, seq!['|']);
    lemma_compressed_len(c, seq!['~']);
}

/// The depth of nesting in round brackets after `c`, where it was `depth`
/// before.
pub open spec fn paren_step(depth: int, c: char) -> int {
    if c == '(' {
        depth + 1
    } else if c == ')' {
        depth - 1
    } else {
        depth
    }
}

/// The depth of nesting in braces after `c`, where it was `depth` before.
pub open spec fn brace_step(depth: int, c: char) -> int {
    if c == '{' {
        depth + 1
    } else if c == '}' {
        depth - 1
    } else {
        depth
    }
}

/// Whether the scan of the top level hands `c` to the selector parser.
pub open spec fn starts_selector(c: char) -> bool {
    c == '.' || c == '#' || c == ':' || c == '[' || c == '_' || alphabetic(c)
}

/// The kind of simple selector that `c` opens, if it opens one.
pub open spec fn opened_kind(c: char) -> Option<SelectorKind> {
    if c == '.' {
        Some(SelectorKind::Class)
    } else if c == '#' {
        Some(SelectorKind::Id)
    } else if c == ':' {
        Some(SelectorKind::Pseudo)
    } else if c == '[' {
        Some(SelectorKind::Attribute)
    } else if alphabetic(c) {
        Some(SelectorKind::Tag)
    } else {
        None
    }
}

/// The relation that a simple selector has where `c` ends it outside round
/// brackets; `None` where `c` does not end a simple selector.
pub open spec fn relation_at(c: char) -> Option<Relation> {
    if c == '.' || c == '#' || c == '[' || c == ':' {
        Some(Relation::Combine)
    } else if c == '{' {
        Some(Relation::Terminal)
    } else if c == '+' {
        Some(Relation::Sibling)
    } else if c == '~' {
        Some(Relation::General)
    } else if c == '|' {
        Some(Relation::Namespace)
    } else if c == '>' {
        Some(Relation::Child)
    } else if c == ' ' {
        Some(Relation::Descendant)
    } else {
        None
    }
}

/// Whether the character that gives this relation is no symbol of the
/// relation but the start of what follows: of the next simple selector for
/// [`Relation::Combine`], of the declaration block for
/// [`Relation::Terminal`].
pub open spec fn is_unwritten(relation: Relation) -> bool {
    relation is Combine || relation is Terminal
}

/// The position of the character that ends the simple selector which is
/// being read at `from`, `depth` round brackets deep: the first one that
/// stands outside round brackets and for which [`relation_at`] gives a
/// relation. `s.len()` if the text ends first.
pub open spec fn selector_end(s: Seq<char>, from: int, depth: int) -> int
    decreases s.len() - from,
{
    if from >= s.len() {
        s.len() as int
    } else if paren_step(depth, s[from]) == 0 && relation_at(s[from]) is Some {
        from
    } else {
        selector_end(s, from + 1, paren_step(depth, s[from]))
    }
}

/// The text of a simple selector of the given kind that was opened at `at`
/// and ended at `end`. A tag keeps the character that opened it; an attribute
/// selector keeps no `]`.
pub open spec fn selector_text(s: Seq<char>, kind: SelectorKind, at: int, end: int) -> Seq<char> {
    match kind {
        SelectorKind::Tag => s.subrange(at, end),
        SelectorKind::Attribute => without(s.subrange(at + 1, end), ']'),
        _ => s.subrange(at + 1, end),
    }
}

/// The combinator that the selector parser reads at `at`, if it reads one.
/// It reads none where the character at `at` opens no selector, and none
/// where the text ends before the selector does.
pub open spec fn found_selector(s: Seq<char>, at: int) -> Option<CombinatorView> {
    if at < 0 || at >= s.len() {
        None
    } else {
        match opened_kind(s[at]) {
            None => None,
            Some(kind) => {
                let end = selector_end(s, at + 1, 0);
                if end >= s.len() {
                    None
                } else {
                    Some(
                        CombinatorView {
                            relation: relation_at(s[end]).unwrap(),
                            selector: SelectorView { kind, text: selector_text(s, kind, at, end) },
                        },
                    )
                }
            },
        }
    }
}

/// Where the selector parser stops, having started at `at`. A character that
/// opens no selector is skipped. The character that ends a selector is left
/// to be read again if it opens the next selector or a block, and is passed
/// over if it is a relation symbol or a space.
pub open spec fn after_selector(s: Seq<char>, at: int) -> int {
    if at < 0 || at >= s.len() {
        at
    } else if opened_kind(s[at]) is None {
        at + 1
    } else {
        let end = selector_end(s, at + 1, 0);
        if end >= s.len() {
            s.len() as int
        } else if is_unwritten(relation_at(s[end]).unwrap()) {
            end
        } else {
            end + 1
        }
    }
}

/// A selector ends at or after the place from which it is read.
pub proof fn lemma_selector_end_bounds(s: Seq<char>, from: int, depth: int)
    requires
        from <= s.len(),
    ensures
        from <= selector_end(s, from, depth) <= s.len(),
    decreases s.len() - from,
{
    if from < s.len() && !(paren_step(depth, s[from]) == 0 && relation_at(s[from]) is Some) {
        lemma_selector_end_bounds(s, from + 1, paren_step(depth, s[from]));
    }
}

/// The selector parser always moves on.
pub proof fn lemma_after_selector_bounds(s: Seq<char>, at: int)
    requires
        0 <= at < s.len(),
    ensures
        at < after_selector(s, at) <= s.len(),
{
    lemma_selector_end_bounds(s, at + 1, 0);
}

/// Whether `c` may stand in the keyword of an at-rule.
pub open spec fn is_keyword_char(c: char) -> bool {
    alphanumeric(c) || c == '-' || c == '@' || c == '_'
}

/// The first position at or after `from` that holds no keyword character.
pub open spec fn keyword_end(s: Seq<char>, from: int) -> int
    decreases s.len() - from,
{
    if from >= s.len() {
        s.len() as int
    } else if !is_keyword_char(s[from]) {
        from
    } else {
        keyword_end(s, from + 1)
    }
}

/// The keyword of the at-rule at `at`: the keyword characters from `at` on.
pub open spec fn rule_keyword(s: Seq<char>, at: int) -> Seq<char> {
    s.subrange(at, keyword_end(s, at))
}

/// Whether the body of an at-rule with this keyword holds normal blocks.
pub open spec fn holds_selectors(keyword: Seq<char>) -> bool {
    ||| keyword == "@media"@
    ||| keyword == "@layer"@
    ||| keyword == "@supports"@
    ||| keyword == "@container"@
}

/// The position of the last character of the generic at-rule that is being
/// read at `from`, `depth` braces deep: the first `;` outside braces, or the
/// first `}` that leaves the braces. `s.len()` if the text ends first.
pub open spec fn generic_rule_end(s: Seq<char>, from: int, depth: int) -> int
    decreases s.len() - from,
{
    if from >= s.len() {
        s.len() as int
    } else if brace_step(depth, s[from]) == 0 && (s[from] == '}' || s[from] == ';') {
        from
    } else {
        generic_rule_end(s, from + 1, brace_step(depth, s[from]))
    }
}

/// A generic at-rule ends at or after the place from which it is read.
pub proof fn lemma_generic_rule_end_bounds(s: Seq<char>, from: int, depth: int)
    requires
        from <= s.len(),
    ensures
        from <= generic_rule_end(s, from, depth) <= s.len(),
    decreases s.len() - from,
{
    if from < s.len() && !(brace_step(depth, s[from]) == 0 && (s[from] == '}' || s[from] == ';')) {
        lemma_generic_rule_end_bounds(s, from + 1, brace_step(depth, s[from]));
    }
}

/// The parts of an at-rule with selectors.
pub struct RuleParts {
    /// The position of the `}` that closes the rule.
    pub end: int,
    /// What stands outside the braces.
    pub header: Seq<char>,
    /// What stands inside the outermost braces.
    pub body: Seq<char>,
}

/// The parts of the at-rule with selectors that is being read at `from`,
/// `depth` braces deep, with `header` and `body` read so far. The rule ends
/// at the first `}` that leaves the braces. Until then a `{` goes to the body
/// if it is nested, and nowhere otherwise; a `}` goes to the body; any other
/// character goes to the header outside braces and to the body inside.
/// `None` if the text ends first.
pub open spec fn rule_parts(
    s: Seq<char>,
    from: int,
    depth: int,
    header: Seq<char>,
    body: Seq<char>,
) -> Option<RuleParts>
    decreases s.len() - from,
{
    if from >= s.len() {
        None
    } else if s[from] == '{' {
        rule_parts(s, from + 1, depth + 1, header, if depth + 1 > 1 {
            body.push('{')
        } else {
            body
        })
    } else if s[from] == '}' && depth == 1 {
        Some(RuleParts { end: from, header, body })
    } else if s[from] == '}' {
        rule_parts(s, from + 1, depth - 1, header, body.push('}'))
    } else if depth == 0 {
        rule_parts(s, from + 1, depth, header.push(s[from]), body)
    } else {
        rule_parts(s, from + 1, depth, header, body.push(s[from]))
    }
}

/// An at-rule with selectors ends inside the text, and its body grows by no
/// more than the characters read.
pub proof fn lemma_rule_parts_bounds(
    s: Seq<char>,
    from: int,
    depth: int,
    header: Seq<char>,
    body: Seq<char>,
)
    requires
        rule_parts(s, from, depth, header, body) is Some,
    ensures
        from <= rule_parts(s, from, depth, header, body).unwrap().end < s.len(),
        rule_parts(s, from, depth, header, body).unwrap().body.len() <= body.len() + (rule_parts(
            s,
            from,
            depth,
            header,
            body,
        ).unwrap().end - from),
    decreases s.len() - from,
{
    if from >= s.len() {
    } else if s[from] == '{' {
        lemma_rule_parts_bounds(s, from + 1, depth + 1, header, if depth + 1 > 1 {
            body.push('{')
        } else {
            body
        });
    } else if s[from] == '}' && depth == 1 {
    } else if s[from] == '}' {
        lemma_rule_parts_bounds(s, from + 1, depth - 1, header, body.push('}'));
    } else if depth == 0 {
        lemma_rule_parts_bounds(s, from + 1, depth, header.push(s[from]), body);
    } else {
        lemma_rule_parts_bounds(s, from + 1, depth, header, body.push(s[from]));
    }
}

/// The position of the `}` that closes the declaration block which is being
/// read at `from`, `depth` braces deep. `s.len()` if the text ends first.
pub open spec fn block_close(s: Seq<char>, from: int, depth: int) -> int
    decreases s.len() - from,
{
    if from >= s.len() {
        s.len() as int
    } else if s[from] == '}' && depth == 1 {
        from
    } else {
        block_close(s, from + 1, brace_step(depth, s[from]))
    }
}

/// A declaration block closes at or after the place from which it is read.
pub proof fn lemma_block_close_bounds(s: Seq<char>, from: int, depth: int)
    requires
        from <= s.len(),
    ensures
        from <= block_close(s, from, depth) <= s.len(),
    decreases s.len() - from,
{
    if from < s.len() && !(s[from] == '}' && depth == 1) {
        lemma_block_close_bounds(s, from + 1, brace_step(depth, s[from]));
    }
}

/// The normal blocks among `blocks`, in order.
pub open spec fn normal_blocks_of(blocks: Seq<StyleBlockView>) -> Seq<NormalBlockView>
    decreases blocks.len(),
{
    if blocks.len() == 0 {
        Seq::empty()
    } else {
        match blocks.last() {
            StyleBlockView::Normal(block) => normal_blocks_of(blocks.drop_last()).push(block),
            _ => normal_blocks_of(blocks.drop_last()),
        }
    }
}

/// The blocks of a stylesheet text: those found by scanning its normal form
/// from the start.
pub open spec fn parsed(css: Seq<char>) -> Seq<StyleBlockView>
    decreases css.len(), 3nat, 0nat,
{
    proof {
        lemma_normalized_len(css);
    }
    scanned(normalized(css), 0, 0, Seq::empty())
}

/// The block that the parser of at-rules with selectors reads at `at`, if it
/// reads one: the rule's header and the normal blocks of its body, the body
/// being parsed as a stylesheet of its own. It reads none where the text ends
/// before the rule does.
pub open spec fn found_rule_with_selectors(s: Seq<char>, at: int) -> Option<StyleBlockView>
    decreases s.len(), 0nat, 0nat,
{
    if at < 0 || at >= s.len() {
        None
    } else {
        match rule_parts(s, at, 0, Seq::empty(), Seq::empty()) {
            Some(parts) => {
                proof {
                    lemma_rule_parts_bounds(s, at, 0, Seq::empty(), Seq::empty());
                }
                Some(
                    StyleBlockView::AtRuleWithSelectors(
                        AtRuleView {
                            at_rule: parts.header,
                            blocks: normal_blocks_of(parsed(parts.body)),
                        },
                    ),
                )
            },
            None => None,
        }
    }
}

/// Where the parser of at-rules with selectors stops, having started at `at`:
/// behind the `}` that closes the rule, or at the end of the text.
pub open spec fn after_rule_with_selectors(s: Seq<char>, at: int) -> int {
    if at < 0 || at >= s.len() {
        at
    } else {
        match rule_parts(s, at, 0, Seq::empty(), Seq::empty()) {
            Some(parts) => parts.end + 1,
            None => s.len() as int,
        }
    }
}

/// The block that the parser of generic at-rules reads at `at`, if it reads
/// one: the rule as written, up to and with the character that ends it. It
/// reads none where the text ends before the rule does.
pub open spec fn found_generic_rule(s: Seq<char>, at: int) -> Option<StyleBlockView> {
    if at < 0 || at >= s.len() || generic_rule_end(s, at, 0) >= s.len() {
        None
    } else {
        Some(StyleBlockView::GenericAtRule(s.subrange(at, generic_rule_end(s, at, 0) + 1)))
    }
}

/// Where the parser of generic at-rules stops, having started at `at`: behind
/// the character that ends the rule, or at the end of the text.
pub open spec fn after_generic_rule(s: Seq<char>, at: int) -> int {
    if at < 0 || at >= s.len() {
        at
    } else if generic_rule_end(s, at, 0) >= s.len() {
        s.len() as int
    } else {
        generic_rule_end(s, at, 0) + 1
    }
}

/// The block that the at-rule parser reads at `at`, if it reads one. A rule
/// whose keyword [`holds_selectors`] is read with its selectors, any other as
/// a generic at-rule.
pub open spec fn found_at_rule(s: Seq<char>, at: int) -> Option<StyleBlockView>
    decreases s.len(), 1nat, 0nat,
{
    if holds_selectors(rule_keyword(s, at)) {
        found_rule_with_selectors(s, at)
    } else {
        found_generic_rule(s, at)
    }
}

/// Where the at-rule parser stops, having started at `at`.
pub open spec fn after_at_rule(s: Seq<char>, at: int) -> int {
    if holds_selectors(rule_keyword(s, at)) {
        after_rule_with_selectors(s, at)
    } else {
        after_generic_rule(s, at)
    }
}

/// The at-rule parser always moves on.
pub proof fn lemma_after_at_rule_bounds(s: Seq<char>, at: int)
    requires
        0 <= at < s.len(),
    ensures
        at < after_at_rule(s, at) <= s.len(),
{
    if holds_selectors(rule_keyword(s, at)) {
        if rule_parts(s, at, 0, Seq::empty(), Seq::empty()) is Some {
            lemma_rule_parts_bounds(s, at, 0, Seq::empty(), Seq::empty());
        }
    } else {
        lemma_generic_rule_end_bounds(s, at, 0);
    }
}

/// The blocks found by scanning `s` from `at` on, outside any declaration
/// block, with `depth` counting the braces (it is zero or less there) and
/// `pending` holding the combinators read since the last block.
///
/// A `{` that brings the depth above zero opens a declaration block, which
/// runs to the `}` that closes it and takes the pending combinators as its
/// selector; a block that is never closed swallows the rest of the text. Any
/// other brace only changes the depth. An `@` is handed to the at-rule
/// parser, a character that [`starts_selector`] to the selector parser, and
/// any other character is skipped.
pub open spec fn scanned(
    s: Seq<char>,
    at: int,
    depth: int,
    pending: Seq<CombinatorView>,
) -> Seq<StyleBlockView>
    decreases s.len(), 2nat, s.len() - at,
{
    if at < 0 || at >= s.len() {
        Seq::empty()
    } else if s[at] == '{' && depth + 1 > 0 {
        let close = block_close(s, at + 1, depth + 1);
        if close >= s.len() {
            Seq::empty()
        } else {
            proof {
                lemma_block_close_bounds(s, at + 1, depth + 1);
            }
            seq![
                StyleBlockView::Normal(
                    NormalBlockView { selector: pending, content: s.subrange(at, close + 1) },
                ),
            ] + scanned(s, close + 1, 0, Seq::empty())
        }
    } else if s[at] == '{' || s[at] == '}' {
        scanned(s, at + 1, brace_step(depth, s[at]), pending)
    } else if s[at] == '@' {
        proof {
            lemma_after_at_rule_bounds(s, at);
        }
        match found_at_rule(s, at) {
            Some(block) => seq![block] + scanned(s, after_at_rule(s, at), depth, pending),
            None => scanned(s, after_at_rule(s, at), depth, pending),
        }
    } else if starts_selector(s[at]) {
        proof {
            lemma_after_selector_bounds(s, at);
        }
        scanned(s, after_selector(s, at), depth, match found_selector(s, at) {
            Some(combinator) => pending.push(combinator),
            None => pending,
        })
    } else {
        scanned(s, at + 1, depth, pending)
    }
}

/// The scoped text that a stylesheet text is compiled to with a marker: the
/// compiled text of the blocks parsed out of it.
pub open spec fn compiled(css: Seq<char>, marker: Seq<char>) -> Seq<char> {
    stylesheet_text(parsed(css), marker)
}

} // verus!
