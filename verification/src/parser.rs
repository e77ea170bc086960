//! The parser: it brings a text into normal form and reads the blocks of a
//! stylesheet out of it.

use crate::grammar::{
    after_at_rule, after_rule_with_selectors, after_selector, block_close, compiled, compressed,
    found_at_rule, found_rule_with_selectors, found_selector, generic_rule_end, holds_selectors,
    is_unwritten,
    keyword_end, lemma_normalized_len, normal_blocks_of, normalized, opened_kind, parsed,
    relation_at, rule_keyword, rule_parts, scanned, selector_end, selector_text,
};
use crate::selector::{Combinator, CombinatorView, Relation, Selector};
use crate::stylesheet::{
    blocks_view, chain_view, normal_blocks_view, AtRuleWithSelectors, NormalBlock,
    NormalBlockView, StyleBlock, StyleBlockView, Stylesheet,
};
use crate::text::{
    collapse_whitespace, is_alphabetic_char, is_alphanumeric_char, matches_at, replace_all,
    string_of, to_chars,
};
use vstd::prelude::*;
use vstd::string::StringExecFns;

verus! {

/// Reads a stylesheet text block by block. `stylesheet` holds the blocks read
/// so far, `current_selector` the combinators read since the last block.
#[derive(Debug)]
pub struct StylesheetParser {
    pub stylesheet: Stylesheet,
    pub current_selector: Vec<Combinator>,
}

impl Default for StylesheetParser {
    fn default() -> (parser: StylesheetParser)
        ensures
            parser.stylesheet@ == Seq::<StyleBlockView>::empty(),
            parser.pending() == Seq::<CombinatorView>::empty(),
    {
        let parser = StylesheetParser {
            stylesheet: Stylesheet::default(),
            current_selector: Vec::new(),
        };
        proof {
            assert(parser.pending() =~= Seq::<CombinatorView>::empty());
        }
        parser
    }
}

/// Whether the character that gives this relation is left to be read again:
/// see [`is_unwritten`].
fn stays_unread(relation: Relation) -> (b: bool)
    ensures
        b == is_unwritten(relation),
{
    matches!(relation, Relation::Combine | Relation::Terminal)
}

/// The relation that a simple selector has where `c` ends it: see
/// [`relation_at`].
fn relation_of(c: char) -> (relation: Option<Relation>)
    ensures
        relation == relation_at(c),
{
    if c == '.' || c == '#' || c == '[' || c == ':' {
        Some(Relation::Combine)
    } else if c == '{' {
        Some(Relation::Terminal)
    } else if c == '+' {
        Some(Relation::Sibling)
    } else if c == '~' {
        Some(Relation::General)
    } else if c == '|' {
        Some(Relation::Namespace)
    } else if c == '>' {
        Some(Relation::Child)
    } else if c == ' ' {
        Some(Relation::Descendant)
    } else {
        None
    }
}

/// The simple selector that `c` opens, if it opens one: see [`opened_kind`].
fn open_selector(c: char) -> (token: Option<Selector>)
    ensures
        match opened_kind(c) {
            Some(kind) => token.is_some() && token.unwrap()@.kind == kind && token.unwrap()@.text
                == (if kind is Tag {
                seq![c]
            } else {
                Seq::empty()
            }),
            None => token.is_none(),
        },
{
    if c == '.' {
        Some(Selector::Class(String::new()))
    } else if c == '#' {
        Some(Selector::Id(String::new()))
    } else if c == ':' {
        Some(Selector::Pseudo(String::new()))
    } else if c == '[' {
        Some(Selector::Attribute(String::new()))
    } else if is_alphabetic_char(c) {
        let mut seed = String::new();
        seed.push(c);
        proof {
            assert(seed@ =~= seq![c]);
        }
        Some(Selector::Tag(seed))
    } else {
        None
    }
}

/// The position of the `}` that closes the declaration block whose `{` stands
/// at `open`: see [`block_close`].
fn find_block_close(css: &Vec<char>, open: usize) -> (close: usize)
    requires
        open < css.len(),
    ensures
        close == block_close(css@, open + 1, 1),
        open < close <= css.len(),
{
    let mut depth: usize = 1;
    let mut i: usize = open + 1;
    while i < css.len()
        invariant
            open < i <= css.len(),
            1 <= depth <= i - open,
            block_close(css@, i as int, depth as int) == block_close(css@, open + 1, 1),
        decreases css.len() - i,
    {
        let c = css[i];
        if c == '}' {
            if depth == 1 {
                return i;
            }
            depth -= 1;
        } else if c == '{' {
            depth += 1;
        }
        i += 1;
    }
    css.len()
}

/// The normal blocks among `blocks`: see [`normal_blocks_of`].
fn keep_normal_blocks(blocks: Vec<StyleBlock>) -> (normal: Vec<NormalBlock>)
    ensures
        normal_blocks_view(normal@) == normal_blocks_of(blocks_view(blocks@)),
{
    let ghost all = blocks_view(blocks@);
    let ghost given = blocks@;
    let mut normal: Vec<NormalBlock> = Vec::new();
    proof {
        assert(all.subrange(0, 0) =~= Seq::<StyleBlockView>::empty());
        assert(normal_blocks_view(normal@) =~= Seq::<NormalBlockView>::empty());
    }
    for block in it: blocks
        invariant
            it.seq() == given,
            all == blocks_view(given),
            normal_blocks_view(normal@) == normal_blocks_of(all.subrange(0, it.index() as int)),
    {
        proof {
            let done = all.subrange(0, it.index() + 1);
            assert(done.drop_last() =~= all.subrange(0, it.index() as int));
            assert(done.last() == block@);
        }
        let ghost before = normal@;
        match block {
            StyleBlock::Normal(inner) => {
                normal.push(inner);
                proof {
                    assert(normal_blocks_view(normal@) =~= normal_blocks_view(before).push(inner@));
                }
            },
            StyleBlock::AtRuleWithSelectors(_) => {},
            StyleBlock::GenericAtRule(_) => {},
        }
    }
    proof {
        assert(all.subrange(0, all.len() as int) =~= all);
    }
    normal
}

impl StylesheetParser {
    /// The combinators read since the last block.
    pub open spec fn pending(&self) -> Seq<CombinatorView> {
        chain_view(self.current_selector@)
    }

    /// Removes the spaces around the occurrences of `combinator` in `css`: see
    /// [`compressed`].
    pub fn compress_combinator(&self, css: String, combinator: &str) -> (out: String)
        ensures
            out@ == compressed(css@, combinator@),
    {
        let mut both = String::new();
        both.push(' ');
        both.append(combinator);
        both.push(' ');
        let mut after = String::new();
        after.append(combinator);
        after.push(' ');
        let mut before = String::new();
        before.push(' ');
        before.append(combinator);
        proof {
            assert(both@ =~= seq![' '] + combinator@ + seq![' ']);
            assert(after@ =~= combinator@ + seq![' ']);
            assert(before@ =~= seq![' '] + combinator@);
        }
        let first = replace_all(css.as_str(), both.as_str(), combinator);
        let second = replace_all(first.as_str(), after.as_str(), combinator);
        replace_all(second.as_str(), before.as_str(), combinator)
    }

    /// Brings `css` into normal form: see [`normalized`].
    fn normalize(&self, css: &str) -> (out: String)
        ensures
            out@ == normalized(css@),
    {
        proof {
            reveal_strlit("::");
            reveal_strlit(":");
            reveal_strlit(">");
            reveal_strlit("+");
            reveal_strlit("|");
            reveal_strlit("~");
            assert("::"@ =~= seq![':', ':']);
            assert(":"@ =~= seq![':']);
            assert(">"@ =~= seq!['>']);
            assert("+"@ =~= seq!['+']);
            assert("|"@ =~= seq!['|']);
            assert("~"@ =~= seq!['~']);
        }
        let css = collapse_whitespace(css);
        let css = replace_all(css.as_str(), "::", ":");
        let css = self.compress_combinator(css, ">");
        let css = self.compress_combinator(css, "+");
        let css = self.compress_combinator(css, "|");
        self.compress_combinator(css, "~")
    }

    /// Parses `css` and appends its blocks to the stylesheet. The scan starts
    /// with the combinators that are pending; those that are pending when the
    /// text ends are dropped.
    pub fn parse_stylesheet(&mut self, css: String)
        ensures
            final(self).stylesheet@ == old(self).stylesheet@ + scanned(
                normalized(css@),
                0,
                0,
                old(self).pending(),
            ),
            final(self).pending() == Seq::<CombinatorView>::empty(),
        decreases css@.len(), 2nat,
    {
        let normal = self.normalize(css.as_str());
        let text = to_chars(normal.as_str());
        proof {
            lemma_normalized_len(css@);
        }
        let ghost goal = old(self).stylesheet@ + scanned(text@, 0, 0, old(self).pending());
        let mut depth: i128 = 0;
        let mut i: usize = 0;
        while i < text.len()
            invariant
                i <= text.len(),
                text@.len() <= css@.len(),
                -i <= depth <= 0,
                self.stylesheet@ + scanned(text@, i as int, depth as int, self.pending()) == goal,
            decreases text.len() - i,
        {
            let c = text[i];
            let ghost blocks = self.stylesheet@;
            let ghost chain = self.pending();
            if c == '{' && depth == 0 {
                let close = find_block_close(&text, i);
                if close >= text.len() {
                    i = text.len();
                    proof {
                        assert(blocks + Seq::<StyleBlockView>::empty() =~= blocks);
                    }
                } else {
                    let content = string_of(&text, i, close + 1);
                    let mut selector: Vec<Combinator> = Vec::new();
                    std::mem::swap(&mut selector, &mut self.current_selector);
                    let block = StyleBlock::Normal(NormalBlock { selector, content });
                    self.stylesheet.blocks.push(block);
                    proof {
                        let rest = scanned(text@, close + 1, 0, Seq::empty());
                        assert(self.pending() =~= Seq::<CombinatorView>::empty());
                        assert(self.stylesheet@ =~= blocks.push(block@));
                        assert(blocks + (seq![block@] + rest) =~= blocks.push(block@) + rest);
                    }
                    depth = 0;
                    i = close + 1;
                }
            } else if c == '{' {
                depth += 1;
                i += 1;
            } else if c == '}' {
                depth -= 1;
                i += 1;
            } else if c == '@' {
                let ghost at = i as int;
                i = self.parse_at_rule(&text, i);
                proof {
                    let rest = scanned(text@, i as int, depth as int, chain);
                    if let Some(block) = found_at_rule(text@, at) {
                        assert(blocks + (seq![block] + rest) =~= blocks.push(block) + rest);
                    }
                }
            } else if c == '.' || c == '#' || c == ':' || c == '[' || c == '_'
                || is_alphabetic_char(c) {
                i = self.parse_selector(&text, i);
            } else {
                i += 1;
            }
        }
        self.current_selector = Vec::new();
        proof {
            assert(self.pending() =~= Seq::<CombinatorView>::empty());
            assert(self.stylesheet@ + Seq::<StyleBlockView>::empty() =~= self.stylesheet@);
        }
    }

    /// Reads the simple selector that starts at `start` and appends it, with
    /// the relation that follows it, to the pending combinators: see
    /// [`found_selector`] and [`after_selector`]. The result is the position
    /// at which the scan goes on.
    pub fn parse_selector(&mut self, css: &Vec<char>, start: usize) -> (next: usize)
        ensures
            next == after_selector(css@, start as int),
            start < css.len() ==> start < next <= css.len(),
            final(self).stylesheet == old(self).stylesheet,
            final(self).pending() == match found_selector(css@, start as int) {
                Some(combinator) => old(self).pending().push(combinator),
                None => old(self).pending(),
            },
    {
        if start >= css.len() {
            return start;
        }
        let mut token = match open_selector(css[start]) {
            Some(token) => token,
            None => {
                return start + 1;
            },
        };
        let ghost kind = token@.kind;
        let mut depth: i128 = 0;
        let mut i: usize = start + 1;
        proof {
            assert(css@.subrange(start as int, start + 1) =~= seq![css@[start as int]]);
            assert(css@.subrange(start + 1, start + 1) =~= Seq::<char>::empty());
        }
        while i < css.len()
            invariant
                start < i <= css.len(),
                -(i - start) <= depth <= i - start,
                opened_kind(css@[start as int]) == Some(kind),
                selector_end(css@, i as int, depth as int) == selector_end(css@, start + 1, 0),
                token@.kind == kind,
                token@.text == selector_text(css@, kind, start as int, i as int),
                *self == *old(self),
            decreases css.len() - i,
        {
            let c = css[i];
            if c == '(' {
                depth += 1;
            } else if c == ')' {
                depth -= 1;
            }
            if depth == 0 {
                if let Some(relation) = relation_of(c) {
                    let stay = stays_unread(relation);
                    let combinator = Combinator::new(relation, token);
                    self.current_selector.push(combinator);
                    proof {
                        assert(selector_end(css@, start + 1, 0) == i);
                        assert(self.pending() =~= old(self).pending().push(combinator@));
                    }
                    return if stay {
                        i
                    } else {
                        i + 1
                    };
                }
            }
            proof {
                assert(css@.subrange(start as int, i + 1) =~= css@.subrange(
                    start as int,
                    i as int,
                ).push(c));
                assert(css@.subrange(start + 1, i + 1) =~= css@.subrange(start + 1, i as int).push(
                    c,
                ));
                assert(css@.subrange(start + 1, i + 1).drop_last() =~= css@.subrange(
                    start + 1,
                    i as int,
                ));
            }
            if !(c == ']' && token.is_attribute()) {
                token.push(c);
            }
            i += 1;
        }
        css.len()
    }

    /// Reads the at-rule that starts at `start` and appends it to the
    /// stylesheet: see [`found_at_rule`] and [`after_at_rule`]. The result is
    /// the position at which the scan goes on.
    pub fn parse_at_rule(&mut self, css: &Vec<char>, start: usize) -> (next: usize)
        ensures
            next == after_at_rule(css@, start as int),
            start < css.len() ==> start < next <= css.len(),
            final(self).current_selector == old(self).current_selector,
            final(self).stylesheet@ == match found_at_rule(css@, start as int) {
                Some(block) => old(self).stylesheet@.push(block),
                None => old(self).stylesheet@,
            },
        decreases css@.len(), 1nat,
    {
        if start >= css.len() {
            return start;
        }
        let mut name_end: usize = start;
        while name_end < css.len() && (is_alphanumeric_char(css[name_end]) || css[name_end] == '-'
            || css[name_end] == '@' || css[name_end] == '_')
            invariant
                start <= name_end <= css.len(),
                keyword_end(css@, name_end as int) == keyword_end(css@, start as int),
            decreases css.len() - name_end,
        {
            name_end += 1;
        }
        let media = to_chars("@media");
        let layer = to_chars("@layer");
        let supports = to_chars("@supports");
        let container = to_chars("@container");
        let length = name_end - start;
        if (length == media.len() && matches_at(css, start, &media)) || (length == layer.len()
            && matches_at(css, start, &layer)) || (length == supports.len() && matches_at(
            css,
            start,
            &supports,
        )) || (length == container.len() && matches_at(css, start, &container)) {
            return self.parse_at_rule_with_selectors(css, start);
        }
        let mut depth: i128 = 0;
        let mut i: usize = start;
        while i < css.len()
            invariant
                start <= i <= css.len(),
                start < css.len(),
                -(i - start) <= depth <= i - start,
                generic_rule_end(css@, i as int, depth as int) == generic_rule_end(
                    css@,
                    start as int,
                    0,
                ),
                !holds_selectors(rule_keyword(css@, start as int)),
                *self == *old(self),
            decreases css.len() - i,
        {
            let c = css[i];
            if c == '{' {
                depth += 1;
            } else if c == '}' {
                depth -= 1;
            }
            if depth == 0 && (c == '}' || c == ';') {
                let raw_rule = string_of(css, start, i + 1);
                let block = StyleBlock::GenericAtRule(raw_rule);
                self.stylesheet.blocks.push(block);
                proof {
                    assert(generic_rule_end(css@, start as int, 0) == i);
                    assert(self.stylesheet@ =~= old(self).stylesheet@.push(block@));
                }
                return i + 1;
            }
            i += 1;
        }
        css.len()
    }

    /// Reads the at-rule with selectors that starts at `start`, parses its
    /// body as a stylesheet of its own and appends the rule, with the normal
    /// blocks of the body, to the stylesheet: see
    /// [`found_rule_with_selectors`] and [`after_rule_with_selectors`]. The
    /// result is the position at which the scan goes on.
    pub fn parse_at_rule_with_selectors(&mut self, css: &Vec<char>, start: usize) -> (next: usize)
        ensures
            next == after_rule_with_selectors(css@, start as int),
            start < css.len() ==> start < next <= css.len(),
            final(self).current_selector == old(self).current_selector,
            final(self).stylesheet@ == match found_rule_with_selectors(css@, start as int) {
                Some(block) => old(self).stylesheet@.push(block),
                None => old(self).stylesheet@,
            },
        decreases css@.len(), 0nat,
    {
        if start >= css.len() {
            return start;
        }
        let mut at_rule = String::new();
        let mut block_content = String::new();
        let mut depth: i128 = 0;
        let mut i: usize = start;
        while i < css.len()
            invariant
                start <= i <= css.len(),
                start < css.len(),
                -(i - start) <= depth <= i - start,
                block_content@.len() <= i - start,
                rule_parts(css@, i as int, depth as int, at_rule@, block_content@) == rule_parts(
                    css@,
                    start as int,
                    0,
                    Seq::empty(),
                    Seq::empty(),
                ),
                *self == *old(self),
            decreases css.len() - i,
        {
            let c = css[i];
            if c == '{' {
                depth += 1;
                if depth > 1 {
                    block_content.push(c);
                }
            } else if c == '}' && depth == 1 {
                let ghost body = block_content@;
                let mut parser = StylesheetParser::default();
                parser.parse_stylesheet(block_content);
                let blocks = keep_normal_blocks(parser.stylesheet.blocks);
                let rule = AtRuleWithSelectors { at_rule, blocks };
                let block = StyleBlock::AtRuleWithSelectors(rule);
                self.stylesheet.blocks.push(block);
                proof {
                    assert(Seq::<StyleBlockView>::empty() + parsed(body) =~= parsed(body));
                    assert(self.stylesheet@ =~= old(self).stylesheet@.push(block@));
                }
                return i + 1;
            } else if c == '}' {
                depth -= 1;
                block_content.push(c);
            } else if depth == 0 {
                at_rule.push(c);
            } else {
                block_content.push(c);
            }
            i += 1;
        }
        css.len()
    }
}

/// Compiles the stylesheet text `css` into a text whose selectors match only
/// what carries the class `scope_class`: see [`compiled`].
pub fn scope_css(css: String, scope_class: &str) -> (output: String)
    ensures
        output@ == compiled(css@, scope_class@),
{
    let mut parser = StylesheetParser::default();
    parser.parse_stylesheet(css);
    proof {
        assert(Seq::<StyleBlockView>::empty() + parsed(css@) =~= parsed(css@));
    }
    parser.stylesheet.compile(scope_class)
}

} // verus!
