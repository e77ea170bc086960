//! Simple selectors, the combinators that follow them, and how both are
//! written back as CSS text with a scope marker spliced in.

use crate::text::{string_of, to_chars};
use vstd::prelude::*;
use vstd::string::StringExecFns;

verus! {

/// The five kinds of simple selector.
pub enum SelectorKind {
    Tag,
    Class,
    Id,
    Attribute,
    Pseudo,
}

/// What a [`Selector`] stands for: its kind and its text, without the leading
/// sigil and, for an attribute selector, without the brackets.
pub struct SelectorView {
    pub kind: SelectorKind,
    pub text: Seq<char>,
}

/// A simple selector with its text.
#[derive(Debug)]
pub enum Selector {
    Tag(String),
    Class(String),
    Id(String),
    Attribute(String),
    Pseudo(String),
}

impl View for Selector {
    type V = SelectorView;

    open spec fn view(&self) -> SelectorView {
        match self {
            Selector::Tag(text) => SelectorView { kind: SelectorKind::Tag, text: text@ },
            Selector::Class(text) => SelectorView { kind: SelectorKind::Class, text: text@ },
            Selector::Id(text) => SelectorView { kind: SelectorKind::Id, text: text@ },
            Selector::Attribute(text) => SelectorView {
                kind: SelectorKind::Attribute,
                text: text@,
            },
            Selector::Pseudo(text) => SelectorView { kind: SelectorKind::Pseudo, text: text@ },
        }
    }
}

/// The first position at or after `from` where `s` holds `c`, or `s.len()` if
/// there is none.
pub open spec fn position_of(s: Seq<char>, c: char, from: int) -> int
    decreases s.len() - from,
{
    if from >= s.len() {
        s.len() as int
    } else if s[from] == c {
        from
    } else {
        position_of(s, c, from + 1)
    }
}

/// The name of a pseudo selector: its text up to, and without, the first `(`.
pub open spec fn pseudo_name(text: Seq<char>) -> Seq<char> {
    text.subrange(0, position_of(text, '(', 0))
}

/// Whether `name` is one of the pseudo-element names, which are written with
/// two colons.
pub open spec fn is_pseudo_element_name(name: Seq<char>) -> bool {
    ||| name == "after"@
    ||| name == "backdrop"@
    ||| name == "before"@
    ||| name == "cue"@
    ||| name == "cue-region"@
    ||| name == "first-letter"@
    ||| name == "first-line"@
    ||| name == "file-selector-button"@
    ||| name == "grammar-error"@
    ||| name == "marker"@
    ||| name == "part"@
    ||| name == "placeholder"@
    ||| name == "selection"@
    ||| name == "slotted"@
    ||| name == "spelling-error"@
    ||| name == "target-text"@
}

/// The selector as CSS text: its sigil, its text and, for an attribute
/// selector, the closing bracket. A pseudo selector gets two colons if its
/// name is a pseudo-element name and one otherwise.
pub open spec fn own_text(selector: SelectorView) -> Seq<char> {
    match selector.kind {
        SelectorKind::Tag => selector.text,
        SelectorKind::Class => seq!['.'] + selector.text,
        SelectorKind::Id => seq!['#'] + selector.text,
        SelectorKind::Attribute => seq!['['] + selector.text + seq![']'],
        SelectorKind::Pseudo => if is_pseudo_element_name(pseudo_name(selector.text)) {
            seq![':', ':'] + selector.text
        } else {
            seq![':'] + selector.text
        },
    }
}

/// The position of the `)` that closes the group which is open `depth` levels
/// deep at position `from`, or `s.len()` if the group is never closed.
pub open spec fn group_close(s: Seq<char>, from: int, depth: int) -> int
    decreases s.len() - from,
{
    if from >= s.len() {
        s.len() as int
    } else if s[from] == '(' {
        group_close(s, from + 1, depth + 1)
    } else if s[from] == ')' && depth == 1 {
        from
    } else if s[from] == ')' {
        group_close(s, from + 1, depth - 1)
    } else {
        group_close(s, from + 1, depth)
    }
}

/// The argument `X` of a pseudo selector `deep(X)`: what stands between the
/// first `(` of a text that starts with `deep` and the `)` that closes it.
/// `None` where the text does not start with `deep` or holds no such group.
pub open spec fn deep_argument(text: Seq<char>) -> Option<Seq<char>> {
    let open = position_of(text, '(', 0);
    let close = group_close(text, open + 1, 1);
    if "deep"@.is_prefix_of(text) && close < text.len() {
        Some(text.subrange(open + 1, close))
    } else {
        None
    }
}

/// The selector as it is written where no scope marker belongs: the argument
/// of `deep(..)`, or else the selector's own text.
pub open spec fn unscoped_text(selector: SelectorView) -> Seq<char> {
    match deep_argument(selector.text) {
        Some(inner) if selector.kind is Pseudo => inner,
        _ => own_text(selector),
    }
}

/// The selector with the scope marker spliced in. The argument of `deep(..)`
/// stands alone, without marker. Any other pseudo selector follows the marker
/// class; a selector of another kind is followed by it.
pub open spec fn scoped_text(selector: SelectorView, marker: Seq<char>) -> Seq<char> {
    match deep_argument(selector.text) {
        Some(inner) if selector.kind is Pseudo => inner,
        _ => if selector.kind is Pseudo {
            seq!['.'] + marker + own_text(selector)
        } else {
            own_text(selector) + seq!['.'] + marker
        },
    }
}

/// Whether `text` starts with `prefix`.
fn starts_with(text: &Vec<char>, prefix: &Vec<char>) -> (b: bool)
    ensures
        b == prefix@.is_prefix_of(text@),
{
    if prefix.len() > text.len() {
        return false;
    }
    let mut k: usize = 0;
    while k < prefix.len()
        invariant
            k <= prefix.len() <= text.len(),
            forall|j: int| 0 <= j < k ==> text@[j] == prefix@[j],
        decreases prefix.len() - k,
    {
        if text[k] != prefix[k] {
            proof {
                assert(text@.subrange(0, prefix@.len() as int)[k as int] != prefix@[k as int]);
            }
            return false;
        }
        k += 1;
    }
    assert(text@.subrange(0, prefix@.len() as int) =~= prefix@);
    true
}

/// The position of the first `c` in `s` at or after `from`.
fn find(s: &Vec<char>, c: char, from: usize) -> (at: usize)
    requires
        from <= s.len(),
    ensures
        at == position_of(s@, c, from as int),
        from <= at <= s.len(),
{
    let mut i: usize = from;
    while i < s.len() && s[i] != c
        invariant
            from <= i <= s.len(),
            position_of(s@, c, i as int) == position_of(s@, c, from as int),
        decreases s.len() - i,
    {
        i += 1;
    }
    i
}

/// Whether two texts hold the same characters.
fn same_text(a: &Vec<char>, b: &str) -> (same: bool)
    ensures
        same == (a@ == b@),
{
    let other = to_chars(b);
    proof {
        if a@.len() == other@.len() {
            assert(a@.subrange(0, other@.len() as int) =~= a@);
        }
    }
    a.len() == other.len() && starts_with(a, &other)
}

/// Decides [`is_pseudo_element_name`].
fn names_pseudo_element(name: &Vec<char>) -> (b: bool)
    ensures
        b == is_pseudo_element_name(name@),
{
    same_text(name, "after") || same_text(name, "backdrop") || same_text(name, "before")
        || same_text(name, "cue") || same_text(name, "cue-region") || same_text(
        name,
        "first-letter",
    ) || same_text(name, "first-line") || same_text(name, "file-selector-button") || same_text(
        name,
        "grammar-error",
    ) || same_text(name, "marker") || same_text(name, "part") || same_text(name, "placeholder")
        || same_text(name, "selection") || same_text(name, "slotted") || same_text(
        name,
        "spelling-error",
    ) || same_text(name, "target-text")
}

/// Finds the argument of `deep(..)`: see [`deep_argument`].
fn deep_inner(text: &str) -> (inner: Option<String>)
    ensures
        match deep_argument(text@) {
            Some(argument) => inner.is_some() && inner.unwrap()@ == argument,
            None => inner.is_none(),
        },
{
    let chars = to_chars(text);
    let prefix = to_chars("deep");
    if !starts_with(&chars, &prefix) {
        return None;
    }
    let open = find(&chars, '(', 0);
    if open >= chars.len() {
        return None;
    }
    let mut depth: usize = 1;
    let mut i: usize = open + 1;
    while i < chars.len()
        invariant
            chars@ == text@,
            "deep"@.is_prefix_of(text@),
            open == position_of(chars@, '(', 0),
            open < i <= chars.len(),
            1 <= depth <= i - open,
            group_close(chars@, i as int, depth as int) == group_close(chars@, open + 1, 1),
        decreases chars.len() - i,
    {
        let c = chars[i];
        if c == '(' {
            depth += 1;
        } else if c == ')' {
            if depth == 1 {
                assert(group_close(chars@, i as int, depth as int) == i);
                return Some(string_of(&chars, open + 1, i));
            }
            depth -= 1;
        }
        i += 1;
    }
    None
}

impl Clone for Selector {
    fn clone(&self) -> (copy: Selector)
        ensures
            copy@ == self@,
    {
        match self {
            Selector::Tag(text) => Selector::Tag(text.clone()),
            Selector::Class(text) => Selector::Class(text.clone()),
            Selector::Id(text) => Selector::Id(text.clone()),
            Selector::Attribute(text) => Selector::Attribute(text.clone()),
            Selector::Pseudo(text) => Selector::Pseudo(text.clone()),
        }
    }
}

impl Selector {
    /// The text of the selector, without sigil.
    pub fn text(&self) -> (text: &String)
        ensures
            text@ == self@.text,
    {
        match self {
            Selector::Tag(text) => text,
            Selector::Class(text) => text,
            Selector::Id(text) => text,
            Selector::Attribute(text) => text,
            Selector::Pseudo(text) => text,
        }
    }

    /// Appends `c` to the text of the selector.
    pub fn push(&mut self, c: char)
        ensures
            final(self)@ == (SelectorView { kind: old(self)@.kind, text: old(self)@.text.push(c) }),
    {
        match self {
            Selector::Tag(content) => {
                content.push(c);
            },
            Selector::Class(content) => {
                content.push(c);
            },
            Selector::Id(content) => {
                content.push(c);
            },
            Selector::Attribute(content) => {
                content.push(c);
            },
            Selector::Pseudo(content) => {
                content.push(c);
            },
        }
    }

    /// Whether this is an attribute selector.
    pub fn is_attribute(&self) -> (b: bool)
        ensures
            b == (self@.kind is Attribute),
    {
        matches!(self, Selector::Attribute(_))
    }

    /// Whether this is a pseudo selector.
    pub fn is_pseudo(&self) -> (b: bool)
        ensures
            b == (self@.kind is Pseudo),
    {
        matches!(self, Selector::Pseudo(_))
    }

    /// The selector as CSS text: see [`own_text`].
    pub fn css_text(&self) -> (out: String)
        ensures
            out@ == own_text(self@),
    {
        let mut out = String::new();
        match self {
            Selector::Tag(text) => {
                out.append(text.as_str());
            },
            Selector::Class(text) => {
                out.push('.');
                out.append(text.as_str());
            },
            Selector::Id(text) => {
                out.push('#');
                out.append(text.as_str());
            },
            Selector::Attribute(text) => {
                out.push('[');
                out.append(text.as_str());
                out.push(']');
            },
            Selector::Pseudo(text) => {
                let chars = to_chars(text.as_str());
                let end = find(&chars, '(', 0);
                let mut name: Vec<char> = Vec::new();
                let mut k: usize = 0;
                while k < end
                    invariant
                        k <= end <= chars.len(),
                        name@ == chars@.subrange(0, k as int),
                    decreases end - k,
                {
                    name.push(chars[k]);
                    k += 1;
                }
                out.push(':');
                if names_pseudo_element(&name) {
                    out.push(':');
                }
                out.append(text.as_str());
            },
        }
        proof {
            assert(out@ =~= own_text(self@));
        }
        out
    }

    /// The selector as it is written where no scope marker belongs: see
    /// [`unscoped_text`].
    pub fn unscoped(&self) -> (out: String)
        ensures
            out@ == unscoped_text(self@),
    {
        if self.is_pseudo() {
            if let Some(inner) = deep_inner(self.text().as_str()) {
                return inner;
            }
        }
        self.css_text()
    }
}

/// The selector with the scope class spliced in, followed by `combinator`:
/// see [`scoped_text`].
pub fn apply_scope_class(scope_class: &str, combinator: &str, selector: &Selector) -> (out: String)
    ensures
        out@ == scoped_text(selector@, scope_class@) + combinator@,
{
    let mut out = String::new();
    if selector.is_pseudo() {
        match deep_inner(selector.text().as_str()) {
            Some(inner) => {
                out.append(inner.as_str());
            },
            None => {
                out.push('.');
                out.append(scope_class);
                out.append(selector.css_text().as_str());
            },
        }
    } else {
        out.append(selector.css_text().as_str());
        out.push('.');
        out.append(scope_class);
    }
    out.append(combinator);
    proof {
        assert(out@ =~= scoped_text(selector@, scope_class@) + combinator@);
    }
    out
}

/// What follows a simple selector in a selector chain.
#[derive(Clone, Copy, Debug)]
pub enum Relation {
    /// `+`: an adjacent sibling follows.
    Sibling,
    /// `>`: a child follows.
    Child,
    /// `~`: a later sibling follows.
    General,
    /// `|`: a namespace separator follows.
    Namespace,
    /// A space: a descendant follows.
    Descendant,
    /// Nothing: the declaration block follows directly, and the selector
    /// ends the chain.
    Terminal,
    /// Nothing: the next simple selector of the same compound selector
    /// follows directly.
    Combine,
}

/// What a [`Combinator`] stands for.
pub struct CombinatorView {
    pub relation: Relation,
    pub selector: SelectorView,
}

/// A simple selector together with what follows it.
#[derive(Debug)]
pub enum Combinator {
    Sibling(Selector),
    Child(Selector),
    General(Selector),
    Namespace(Selector),
    Descendant(Selector),
    Terminal(Selector),
    Combine(Selector),
}

impl View for Combinator {
    type V = CombinatorView;

    open spec fn view(&self) -> CombinatorView {
        match self {
            Combinator::Sibling(s) => CombinatorView { relation: Relation::Sibling, selector: s@ },
            Combinator::Child(s) => CombinatorView { relation: Relation::Child, selector: s@ },
            Combinator::General(s) => CombinatorView { relation: Relation::General, selector: s@ },
            Combinator::Namespace(s) => CombinatorView {
                relation: Relation::Namespace,
                selector: s@,
            },
            Combinator::Descendant(s) => CombinatorView {
                relation: Relation::Descendant,
                selector: s@,
            },
            Combinator::Terminal(s) => CombinatorView {
                relation: Relation::Terminal,
                selector: s@,
            },
            Combinator::Combine(s) => CombinatorView { relation: Relation::Combine, selector: s@ },
        }
    }
}

/// The text by which a relation is written: one character, or nothing for
/// [`Relation::Terminal`] and [`Relation::Combine`].
pub open spec fn glyph(relation: Relation) -> Seq<char> {
    match relation {
        Relation::Sibling => seq!['+'],
        Relation::Child => seq!['>'],
        Relation::General => seq!['~'],
        Relation::Namespace => seq!['|'],
        Relation::Descendant => seq![' '],
        Relation::Terminal => Seq::empty(),
        Relation::Combine => Seq::empty(),
    }
}

/// The compiled text of a combinator. A selector that ends a compound
/// selector is written with the scope marker spliced in, then the glyph of
/// its relation. A selector with [`Relation::Combine`] stands inside a
/// compound selector and is written without marker, so that each compound
/// selector gets one marker.
pub open spec fn combinator_text(combinator: CombinatorView, marker: Seq<char>) -> Seq<char> {
    if combinator.relation is Combine {
        unscoped_text(combinator.selector)
    } else {
        scoped_text(combinator.selector, marker) + glyph(combinator.relation)
    }
}

impl Clone for Combinator {
    fn clone(&self) -> (copy: Combinator)
        ensures
            copy@ == self@,
    {
        match self {
            Combinator::Sibling(s) => Combinator::Sibling(s.clone()),
            Combinator::Child(s) => Combinator::Child(s.clone()),
            Combinator::General(s) => Combinator::General(s.clone()),
            Combinator::Namespace(s) => Combinator::Namespace(s.clone()),
            Combinator::Descendant(s) => Combinator::Descendant(s.clone()),
            Combinator::Terminal(s) => Combinator::Terminal(s.clone()),
            Combinator::Combine(s) => Combinator::Combine(s.clone()),
        }
    }
}

impl Combinator {
    /// The combinator that says that `relation` follows `selector`.
    pub fn new(relation: Relation, selector: Selector) -> (combinator: Combinator)
        ensures
            combinator@ == (CombinatorView { relation, selector: selector@ }),
    {
        match relation {
            Relation::Sibling => Combinator::Sibling(selector),
            Relation::Child => Combinator::Child(selector),
            Relation::General => Combinator::General(selector),
            Relation::Namespace => Combinator::Namespace(selector),
            Relation::Descendant => Combinator::Descendant(selector),
            Relation::Terminal => Combinator::Terminal(selector),
            Relation::Combine => Combinator::Combine(selector),
        }
    }

    /// The simple selector that the combinator wraps.
    pub fn selector(&self) -> (selector: &Selector)
        ensures
            selector@ == self@.selector,
    {
        match self {
            Combinator::Sibling(s) => s,
            Combinator::Child(s) => s,
            Combinator::General(s) => s,
            Combinator::Namespace(s) => s,
            Combinator::Descendant(s) => s,
            Combinator::Terminal(s) => s,
            Combinator::Combine(s) => s,
        }
    }

    /// Whether the selector stands inside a compound selector, with the next
    /// simple selector directly behind it.
    pub fn is_combine(&self) -> (b: bool)
        ensures
            b == (self@.relation is Combine),
    {
        matches!(self, Combinator::Combine(_))
    }

    /// The compiled text of the combinator: the selector without marker for
    /// [`Combinator::Combine`], and else the selector with the marker, then
    /// the glyph of the relation. See [`combinator_text`].
    pub fn compile(&self, scope_class: &str) -> (out: String)
        ensures
            out@ == combinator_text(self@, scope_class@),
    {
        proof {
            reveal_strlit("+");
            reveal_strlit(">");
            reveal_strlit("~");
            reveal_strlit("|");
            reveal_strlit(" ");
            reveal_strlit("");
            assert("+"@ =~= seq!['+']);
            assert(">"@ =~= seq!['>']);
            assert("~"@ =~= seq!['~']);
            assert("|"@ =~= seq!['|']);
            assert(" "@ =~= seq![' ']);
            assert(""@ =~= Seq::<char>::empty());
        }
        match self {
            Combinator::Sibling(selector) => apply_scope_class(scope_class, "+", selector),
            Combinator::Child(selector) => apply_scope_class(scope_class, ">", selector),
            Combinator::General(selector) => apply_scope_class(scope_class, "~", selector),
            Combinator::Namespace(selector) => apply_scope_class(scope_class, "|", selector),
            Combinator::Descendant(selector) => apply_scope_class(scope_class, " ", selector),
            Combinator::Terminal(selector) => apply_scope_class(scope_class, "", selector),
            Combinator::Combine(selector) => selector.unscoped(),
        }
    }
}

} // verus!
