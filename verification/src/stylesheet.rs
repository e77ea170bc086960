//! The blocks of a stylesheet and their compilation into scoped CSS text.

use crate::selector::{combinator_text, Combinator, CombinatorView};
use vstd::prelude::*;
use vstd::string::StringExecFns;

verus! {

/// What a [`NormalBlock`] stands for.
pub struct NormalBlockView {
    pub selector: Seq<CombinatorView>,
    pub content: Seq<char>,
}

/// What an [`AtRuleWithSelectors`] stands for.
pub struct AtRuleView {
    pub at_rule: Seq<char>,
    pub blocks: Seq<NormalBlockView>,
}

/// What a [`StyleBlock`] stands for.
pub enum StyleBlockView {
    Normal(NormalBlockView),
    AtRuleWithSelectors(AtRuleView),
    GenericAtRule(Seq<char>),
}

/// The views of a chain of combinators.
pub open spec fn chain_view(chain: Seq<Combinator>) -> Seq<CombinatorView> {
    chain.map_values(|c: Combinator| c@)
}

/// The views of a list of normal blocks.
pub open spec fn normal_blocks_view(blocks: Seq<NormalBlock>) -> Seq<NormalBlockView> {
    blocks.map_values(|b: NormalBlock| b@)
}

/// The views of a list of blocks.
pub open spec fn blocks_view(blocks: Seq<StyleBlock>) -> Seq<StyleBlockView> {
    blocks.map_values(|b: StyleBlock| b@)
}

/// A selector chain and the declaration block that it selects for. `content`
/// holds the block as written, braces included.
#[derive(Debug)]
pub struct NormalBlock {
    pub selector: Vec<Combinator>,
    pub content: String,
}

/// An at-rule such as `@media` whose body holds normal blocks. `at_rule` is
/// what stands before the body.
#[derive(Debug)]
pub struct AtRuleWithSelectors {
    pub at_rule: String,
    pub blocks: Vec<NormalBlock>,
}

/// One block of a stylesheet.
#[derive(Debug)]
pub enum StyleBlock {
    Normal(NormalBlock),
    /// An at-rule like `@media` or `@supports`, which again contains selectors.
    AtRuleWithSelectors(AtRuleWithSelectors),
    /// Any other at-rule, like `@keyframes`, `@page` or `@import`, as written.
    GenericAtRule(String),
}

/// The blocks of a stylesheet, in the order in which they were written.
#[derive(Debug)]
pub struct Stylesheet {
    pub blocks: Vec<StyleBlock>,
}

impl View for NormalBlock {
    type V = NormalBlockView;

    open spec fn view(&self) -> NormalBlockView {
        NormalBlockView { selector: chain_view(self.selector@), content: self.content@ }
    }
}

impl View for AtRuleWithSelectors {
    type V = AtRuleView;

    open spec fn view(&self) -> AtRuleView {
        AtRuleView { at_rule: self.at_rule@, blocks: normal_blocks_view(self.blocks@) }
    }
}

impl View for StyleBlock {
    type V = StyleBlockView;

    open spec fn view(&self) -> StyleBlockView {
        match self {
            StyleBlock::Normal(block) => StyleBlockView::Normal(block@),
            StyleBlock::AtRuleWithSelectors(rule) => StyleBlockView::AtRuleWithSelectors(rule@),
            StyleBlock::GenericAtRule(text) => StyleBlockView::GenericAtRule(text@),
        }
    }
}

impl View for Stylesheet {
    type V = Seq<StyleBlockView>;

    open spec fn view(&self) -> Seq<StyleBlockView> {
        blocks_view(self.blocks@)
    }
}

/// The compiled text of a chain: the compiled texts of its combinators, one
/// after the other.
pub open spec fn chain_text(chain: Seq<CombinatorView>, marker: Seq<char>) -> Seq<char>
    decreases chain.len(),
{
    if chain.len() == 0 {
        Seq::empty()
    } else {
        chain_text(chain.drop_last(), marker) + combinator_text(chain.last(), marker)
    }
}

/// The compiled text of a normal block: the compiled texts of the
/// combinators of its chain, then its content as written.
pub open spec fn normal_block_text(block: NormalBlockView, marker: Seq<char>) -> Seq<char> {
    chain_text(block.selector, marker) + block.content
}

/// The compiled texts of `blocks`, one after the other.
pub open spec fn normal_blocks_text(blocks: Seq<NormalBlockView>, marker: Seq<char>) -> Seq<char>
    decreases blocks.len(),
{
    if blocks.len() == 0 {
        Seq::empty()
    } else {
        normal_blocks_text(blocks.drop_last(), marker) + normal_block_text(blocks.last(), marker)
    }
}

/// The compiled text of an at-rule with selectors: what stands before the
/// body, then the compiled blocks of the body in braces.
pub open spec fn at_rule_text(rule: AtRuleView, marker: Seq<char>) -> Seq<char> {
    rule.at_rule + seq!['{'] + normal_blocks_text(rule.blocks, marker) + seq!['}']
}

/// The compiled text of a block. A generic at-rule is compiled to itself.
pub open spec fn style_block_text(block: StyleBlockView, marker: Seq<char>) -> Seq<char> {
    match block {
        StyleBlockView::Normal(normal) => normal_block_text(normal, marker),
        StyleBlockView::AtRuleWithSelectors(rule) => at_rule_text(rule, marker),
        StyleBlockView::GenericAtRule(text) => text,
    }
}

/// The compiled text of a stylesheet: the compiled texts of its blocks, one
/// after the other.
pub open spec fn stylesheet_text(blocks: Seq<StyleBlockView>, marker: Seq<char>) -> Seq<char>
    decreases blocks.len(),
{
    if blocks.len() == 0 {
        Seq::empty()
    } else {
        stylesheet_text(blocks.drop_last(), marker) + style_block_text(blocks.last(), marker)
    }
}

impl NormalBlock {
    /// Compiles the block: the compiled text of each combinator of the
    /// chain, in order, then the content as it stands. See
    /// [`normal_block_text`].
    pub fn compile(&self, scope_class: &str) -> (output: String)
        ensures
            output@ == normal_block_text(self@, scope_class@),
            output@ == chain_text(self@.selector, scope_class@) + self@.content,
            self@.selector.len() == 0 ==> output@ == self@.content,
    {
        let mut output = String::new();
        let mut i: usize = 0;
        proof {
            assert(self@.selector.subrange(0, 0) =~= Seq::<CombinatorView>::empty());
        }
        while i < self.selector.len()
            invariant
                i <= self.selector.len(),
                output@ == chain_text(self@.selector.subrange(0, i as int), scope_class@),
            decreases self.selector.len() - i,
        {
            proof {
                let done = self@.selector.subrange(0, i + 1);
                assert(done.drop_last() =~= self@.selector.subrange(0, i as int));
                assert(done.last() == self.selector@[i as int]@);
            }
            output.append(self.selector[i].compile(scope_class).as_str());
            i += 1;
        }
        proof {
            assert(self@.selector.subrange(0, i as int) =~= self@.selector);
        }
        output.append(self.content.as_str());
        proof {
            if self@.selector.len() == 0 {
                assert(output@ =~= self@.content);
            }
        }
        output
    }
}

impl AtRuleWithSelectors {
    /// Compiles the at-rule: see [`at_rule_text`].
    pub fn compile(&self, scope_class: &str) -> (output: String)
        ensures
            output@ == at_rule_text(self@, scope_class@),
    {
        let mut output = String::new();
        output.append(self.at_rule.as_str());
        output.push('{');
        let ghost head = output@;
        let mut i: usize = 0;
        proof {
            assert(self@.blocks.subrange(0, 0) =~= Seq::<NormalBlockView>::empty());
        }
        while i < self.blocks.len()
            invariant
                i <= self.blocks.len(),
                head == self@.at_rule + seq!['{'],
                output@ == head + normal_blocks_text(
                    self@.blocks.subrange(0, i as int),
                    scope_class@,
                ),
            decreases self.blocks.len() - i,
        {
            proof {
                let done = self@.blocks.subrange(0, i + 1);
                assert(done.drop_last() =~= self@.blocks.subrange(0, i as int));
                assert(done.last() == self.blocks@[i as int]@);
            }
            output.append(self.blocks[i].compile(scope_class).as_str());
            i += 1;
        }
        proof {
            assert(self@.blocks.subrange(0, i as int) =~= self@.blocks);
        }
        output.push('}');
        output
    }
}

impl StyleBlock {
    /// Whether this is a normal block.
    pub fn is_normal(&self) -> (b: bool)
        ensures
            b == (self@ is Normal),
    {
        matches!(self, StyleBlock::Normal(_))
    }

    /// Compiles the block: see [`style_block_text`].
    pub fn compile(&self, scope_class: &str) -> (output: String)
        ensures
            output@ == style_block_text(self@, scope_class@),
    {
        let mut output = String::new();
        match self {
            StyleBlock::AtRuleWithSelectors(at_rule) => {
                output.append(at_rule.compile(scope_class).as_str());
            },
            StyleBlock::Normal(block) => {
                output.append(block.compile(scope_class).as_str());
            },
            StyleBlock::GenericAtRule(content) => {
                output.append(content.as_str());
            },
        }
        output
    }
}

impl Stylesheet {
    /// Compiles the stylesheet: see [`stylesheet_text`].
    pub fn compile(&self, scope_class: &str) -> (output: String)
        ensures
            output@ == stylesheet_text(self@, scope_class@),
    {
        let mut output = String::new();
        let mut i: usize = 0;
        proof {
            assert(self@.subrange(0, 0) =~= Seq::<StyleBlockView>::empty());
        }
        while i < self.blocks.len()
            invariant
                i <= self.blocks.len(),
                output@ == stylesheet_text(self@.subrange(0, i as int), scope_class@),
            decreases self.blocks.len() - i,
        {
            proof {
                let done = self@.subrange(0, i + 1);
                assert(done.drop_last() =~= self@.subrange(0, i as int));
                assert(done.last() == self.blocks@[i as int]@);
            }
            output.append(self.blocks[i].compile(scope_class).as_str());
            i += 1;
        }
        proof {
            assert(self@.subrange(0, i as int) =~= self@);
        }
        output
    }
}

impl Default for Stylesheet {
    fn default() -> (sheet: Stylesheet)
        ensures
            sheet@ == Seq::<StyleBlockView>::empty(),
    {
        let sheet = Stylesheet { blocks: Vec::new() };
        proof {
            assert(sheet@ =~= Seq::<StyleBlockView>::empty());
        }
        sheet
    }
}

impl Default for AtRuleWithSelectors {
    fn default() -> (rule: AtRuleWithSelectors)
        ensures
            rule@ == (AtRuleView { at_rule: Seq::empty(), blocks: Seq::empty() }),
    {
        let rule = AtRuleWithSelectors { at_rule: String::new(), blocks: Vec::new() };
        proof {
            assert(rule@.blocks =~= Seq::<NormalBlockView>::empty());
        }
        rule
    }
}

} // verus!
