//! Laws of nesting: each scan for the end of a selector, a block or an
//! at-rule stops at the first place where its stopping condition holds, the
//! depth of nesting being counted from the place where the scan starts.

use crate::grammar::{
    block_close, brace_step, generic_rule_end, paren_step, relation_at, selector_end,
};
use vstd::prelude::*;

verus! {

/// The depth of nesting in braces behind `s[from..to]`, where it is `depth`
/// before.
pub open spec fn brace_depth(s: Seq<char>, from: int, to: int, depth: int) -> int
    decreases to - from,
{
    if to <= from {
        depth
    } else {
        brace_step(brace_depth(s, from, to - 1, depth), s[to - 1])
    }
}

/// The depth of nesting in round brackets behind `s[from..to]`, where it is
/// `depth` before.
pub open spec fn paren_depth(s: Seq<char>, from: int, to: int, depth: int) -> int
    decreases to - from,
{
    if to <= from {
        depth
    } else {
        paren_step(paren_depth(s, from, to - 1, depth), s[to - 1])
    }
}

/// The depth behind a stretch is the depth behind its tail, counted from the
/// depth behind its first character.
proof fn lemma_brace_depth_from_next(s: Seq<char>, from: int, to: int, depth: int)
    requires
        from < to,
    ensures
        brace_depth(s, from, to, depth) == brace_depth(s, from + 1, to, brace_step(depth, s[from])),
    decreases to - from,
{
    if from + 1 < to {
        lemma_brace_depth_from_next(s, from, to - 1, depth);
    } else {
        assert(brace_depth(s, from, from, depth) == depth);
    }
}

/// The depth behind a stretch is the depth behind its tail, counted from the
/// depth behind its first character.
proof fn lemma_paren_depth_from_next(s: Seq<char>, from: int, to: int, depth: int)
    requires
        from < to,
    ensures
        paren_depth(s, from, to, depth) == paren_depth(s, from + 1, to, paren_step(depth, s[from])),
    decreases to - from,
{
    if from + 1 < to {
        lemma_paren_depth_from_next(s, from, to - 1, depth);
    } else {
        assert(paren_depth(s, from, from, depth) == depth);
    }
}

/// Whether a declaration block that is read from `from` on, `depth` braces
/// deep there, closes at `at`: a `}` stands there, one brace deep.
pub open spec fn closes_block(s: Seq<char>, from: int, depth: int, at: int) -> bool {
    s[at] == '}' && brace_depth(s, from, at, depth) == 1
}

/// A declaration block closes at the first `}` that stands one brace deep.
pub proof fn lemma_block_close_is_first(s: Seq<char>, from: int, depth: int)
    requires
        0 <= from <= s.len(),
    ensures
        from <= block_close(s, from, depth) <= s.len(),
        block_close(s, from, depth) < s.len() ==> closes_block(
            s,
            from,
            depth,
            block_close(s, from, depth),
        ),
        forall|at: int|
            from <= at < block_close(s, from, depth) ==> !#[trigger] closes_block(
                s,
                from,
                depth,
                at,
            ),
    decreases s.len() - from,
{
    if from < s.len() && !(s[from] == '}' && depth == 1) {
        let next = brace_step(depth, s[from]);
        lemma_block_close_is_first(s, from + 1, next);
        let close = block_close(s, from, depth);
        if close < s.len() {
            lemma_brace_depth_from_next(s, from, close, depth);
        }
        assert forall|at: int| from <= at < close implies !#[trigger] closes_block(
            s,
            from,
            depth,
            at,
        ) by {
            if at > from {
                lemma_brace_depth_from_next(s, from, at, depth);
                assert(!closes_block(s, from + 1, next, at));
            }
        }
    }
}

/// Whether a simple selector that is read from `from` on, `depth` round
/// brackets deep there, ends at `at`: the character there stands outside
/// round brackets and has a relation.
pub open spec fn ends_selector(s: Seq<char>, from: int, depth: int, at: int) -> bool {
    relation_at(s[at]) is Some && paren_depth(s, from, at + 1, depth) == 0
}

/// A simple selector ends at the first character outside round brackets that
/// has a relation.
pub proof fn lemma_selector_end_is_first(s: Seq<char>, from: int, depth: int)
    requires
        0 <= from <= s.len(),
    ensures
        from <= selector_end(s, from, depth) <= s.len(),
        selector_end(s, from, depth) < s.len() ==> ends_selector(
            s,
            from,
            depth,
            selector_end(s, from, depth),
        ),
        forall|at: int|
            from <= at < selector_end(s, from, depth) ==> !#[trigger] ends_selector(
                s,
                from,
                depth,
                at,
            ),
    decreases s.len() - from,
{
    if from < s.len() {
        let next = paren_step(depth, s[from]);
        assert(paren_depth(s, from, from, depth) == depth);
        assert(paren_depth(s, from, from + 1, depth) == next);
        if !(next == 0 && relation_at(s[from]) is Some) {
            lemma_selector_end_is_first(s, from + 1, next);
            let end = selector_end(s, from, depth);
            if end < s.len() {
                lemma_paren_depth_from_next(s, from, end + 1, depth);
            }
            assert forall|at: int| from <= at < end implies !#[trigger] ends_selector(
                s,
                from,
                depth,
                at,
            ) by {
                if at > from {
                    lemma_paren_depth_from_next(s, from, at + 1, depth);
                    assert(!ends_selector(s, from + 1, next, at));
                }
            }
        }
    }
}

/// Whether a generic at-rule that is read from `from` on, `depth` braces
/// deep there, ends at `at`: a `;` stands there outside braces, or a `}` that
/// leaves the braces.
pub open spec fn ends_generic_rule(s: Seq<char>, from: int, depth: int, at: int) -> bool {
    (s[at] == '}' || s[at] == ';') && brace_depth(s, from, at + 1, depth) == 0
}

/// A generic at-rule ends at the first `;` outside braces or `}` that leaves
/// the braces.
pub proof fn lemma_generic_rule_end_is_first(s: Seq<char>, from: int, depth: int)
    requires
        0 <= from <= s.len(),
    ensures
        from <= generic_rule_end(s, from, depth) <= s.len(),
        generic_rule_end(s, from, depth) < s.len() ==> ends_generic_rule(
            s,
            from,
            depth,
            generic_rule_end(s, from, depth),
        ),
        forall|at: int|
            from <= at < generic_rule_end(s, from, depth) ==> !#[trigger] ends_generic_rule(
                s,
                from,
                depth,
                at,
            ),
    decreases s.len() - from,
{
    if from < s.len() {
        let next = brace_step(depth, s[from]);
        assert(brace_depth(s, from, from, depth) == depth);
        assert(brace_depth(s, from, from + 1, depth) == next);
        if !(next == 0 && (s[from] == '}' || s[from] == ';')) {
            lemma_generic_rule_end_is_first(s, from + 1, next);
            let end = generic_rule_end(s, from, depth);
            if end < s.len() {
                lemma_brace_depth_from_next(s, from, end + 1, depth);
            }
            assert forall|at: int| from <= at < end implies !#[trigger] ends_generic_rule(
                s,
                from,
                depth,
                at,
            ) by {
                if at > from {
                    lemma_brace_depth_from_next(s, from, at + 1, depth);
                    assert(!ends_generic_rule(s, from + 1, next, at));
                }
            }
        }
    }
}

} // verus!
