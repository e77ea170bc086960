//! Laws of the normal form: which texts are in normal form already, so that
//! bringing them into normal form changes nothing.

use crate::grammar::{
    compiled, compressed, generic_rule_end, holds_selectors, normalized, parsed, rule_keyword,
};
use crate::scan_laws::lemma_generic_at_rule_is_copied;
use crate::text::{collapsed, occurs_at, replaced, whitespace};
use vstd::prelude::*;

verus! {

/// Whether `pattern` occurs nowhere in `s`.
pub open spec fn is_absent(s: Seq<char>, pattern: Seq<char>) -> bool {
    forall|at: int| !#[trigger] occurs_at(s, at, pattern)
}

/// Whether all whitespace in `s` is single spaces between other characters.
pub open spec fn is_single_spaced(s: Seq<char>) -> bool {
    forall|i: int|
        0 <= i < s.len() && whitespace(#[trigger] s[i]) ==> s[i] == ' ' && 0 < i < s.len() - 1
            && !whitespace(s[i - 1])
}

/// Whether no space stands before or behind `symbol` in `s`.
pub open spec fn is_tight(s: Seq<char>, symbol: char) -> bool {
    is_absent(s, seq![' ', symbol]) && is_absent(s, seq![symbol, ' '])
}

/// Whether `s` is in normal form: all its whitespace is single spaces between
/// other characters, it holds no `::`, and no space stands before or behind
/// a `>`, `+`, `|` or `~`.
pub open spec fn is_normal_form(s: Seq<char>) -> bool {
    &&& is_single_spaced(s)
    &&& is_absent(s, seq![':', ':'])
    &&& is_tight(s, '>')
    &&& is_tight(s, '+')
    &&& is_tight(s, '|')
    &&& is_tight(s, '~')
}

/// Replacing a pattern that does not occur changes nothing.
pub proof fn lemma_replaced_absent(s: Seq<char>, from: Seq<char>, to: Seq<char>)
    requires
        is_absent(s, from),
    ensures
        replaced(s, from, to) == s,
    decreases s.len(),
{
    if from.len() == 0 {
        assert(s.subrange(0, 0) =~= from);
        assert(occurs_at(s, 0, from));
    } else if s.len() < from.len() {
    } else {
        assert(!occurs_at(s, 0, from));
        let tail = s.drop_first();
        assert forall|at: int| !#[trigger] occurs_at(tail, at, from) by {
            if occurs_at(tail, at, from) {
                assert(s.subrange(at + 1, at + 1 + from.len()) =~= tail.subrange(
                    at,
                    at + from.len(),
                ));
                assert(occurs_at(s, at + 1, from));
            }
        }
        lemma_replaced_absent(tail, from, to);
        assert(seq![s[0]] + tail =~= s);
    }
}

/// `s` without its whitespace.
pub open spec fn solid(s: Seq<char>) -> Seq<char>
    decreases s.len(),
{
    if s.len() == 0 {
        s
    } else if whitespace(s.last()) {
        solid(s.drop_last())
    } else {
        solid(s.drop_last()).push(s.last())
    }
}

/// Collapsing whitespace leaves no whitespace but single spaces between
/// other characters.
pub proof fn lemma_collapsed_is_single_spaced(s: Seq<char>)
    ensures
        is_single_spaced(collapsed(s)),
    decreases s.len(),
{
    if s.len() > 0 {
        let init = collapsed(s.drop_last());
        lemma_collapsed_is_single_spaced(s.drop_last());
        let out = collapsed(s);
        assert forall|i: int| 0 <= i < out.len() && whitespace(#[trigger] out[i]) implies out[i]
            == ' ' && 0 < i < out.len() - 1 && !whitespace(out[i - 1]) by {
            if i < init.len() {
                assert(out[i] == init[i]);
                assert(whitespace(init[i]));
                assert(out[i - 1] == init[i - 1]);
            }
        }
    }
}

/// Collapsing whitespace keeps all that is no whitespace, in its order.
pub proof fn lemma_collapsed_keeps_the_rest(s: Seq<char>)
    ensures
        solid(collapsed(s)) == solid(s),
    decreases s.len(),
{
    if s.len() > 0 {
        let init = collapsed(s.drop_last());
        lemma_collapsed_keeps_the_rest(s.drop_last());
        if whitespace(s.last()) {
        } else if s.len() >= 2 && whitespace(s[s.len() - 2]) && init.len() > 0 {
            let spaced = init.push(' ');
            assert(spaced.drop_last() =~= init);
            assert(spaced.push(s.last()).drop_last() =~= spaced);
            assert(solid(spaced) == solid(init));
        } else {
            assert(init.push(s.last()).drop_last() =~= init);
        }
    }
}

/// Collapsing whitespace a second time changes nothing.
pub proof fn lemma_collapsed_twice(s: Seq<char>)
    ensures
        collapsed(collapsed(s)) == collapsed(s),
{
    lemma_collapsed_is_single_spaced(s);
    lemma_collapsed_single_spaced(collapsed(s));
}

/// Of a text whose whitespace is single spaces between other characters,
/// collapsing keeps every prefix, but for a space at the end of the prefix.
proof fn lemma_collapsed_prefix(s: Seq<char>, n: int)
    requires
        is_single_spaced(s),
        0 <= n <= s.len(),
    ensures
        collapsed(s.subrange(0, n)) == if n > 0 && whitespace(s[n - 1]) {
            s.subrange(0, n - 1)
        } else {
            s.subrange(0, n)
        },
    decreases n,
{
    let prefix = s.subrange(0, n);
    if n > 0 {
        let init = s.subrange(0, n - 1);
        assert(prefix.drop_last() =~= init);
        assert(prefix.last() == s[n - 1]);
        lemma_collapsed_prefix(s, n - 1);
        if whitespace(s[n - 1]) {
            assert(!whitespace(s[n - 2]));
        } else if n >= 2 && whitespace(s[n - 2]) {
            assert(prefix[prefix.len() - 2] == s[n - 2]);
            assert(s[n - 2] == ' ');
            assert(init.len() > 0);
            assert(collapsed(init) == s.subrange(0, n - 2));
            assert(s.subrange(0, n - 2).push(' ').push(s[n - 1]) =~= prefix);
        } else {
            if n >= 2 {
                assert(prefix[prefix.len() - 2] == s[n - 2]);
            }
            assert(init.push(s[n - 1]) =~= prefix);
        }
    }
}

/// Collapsing the whitespace of a text whose whitespace is single spaces
/// between other characters changes nothing.
pub proof fn lemma_collapsed_single_spaced(s: Seq<char>)
    requires
        is_single_spaced(s),
    ensures
        collapsed(s) == s,
{
    lemma_collapsed_prefix(s, s.len() as int);
    assert(s.subrange(0, s.len() as int) =~= s);
}

/// Where a pattern occurs, what it starts with occurs too.
proof fn lemma_start_occurs(s: Seq<char>, at: int, start: Seq<char>, rest: Seq<char>)
    requires
        occurs_at(s, at, start + rest),
    ensures
        occurs_at(s, at, start),
{
    assert(s.subrange(at, at + start.len()) =~= (start + rest).subrange(0, start.len() as int));
    assert((start + rest).subrange(0, start.len() as int) =~= start);
}

/// Taking the spaces from around a symbol changes nothing where no space
/// stands before or behind it.
pub proof fn lemma_compressed_tight(s: Seq<char>, symbol: char)
    requires
        is_tight(s, symbol),
    ensures
        compressed(s, seq![symbol]) == s,
{
    let before = seq![' '] + seq![symbol];
    let behind = seq![symbol] + seq![' '];
    let both = seq![' '] + seq![symbol] + seq![' '];
    assert(before =~= seq![' ', symbol]);
    assert(behind =~= seq![symbol, ' ']);
    assert forall|at: int| !#[trigger] occurs_at(s, at, both) by {
        if occurs_at(s, at, both) {
            lemma_start_occurs(s, at, before, seq![' ']);
        }
    }
    lemma_replaced_absent(s, both, seq![symbol]);
    lemma_replaced_absent(s, behind, seq![symbol]);
    lemma_replaced_absent(s, before, seq![symbol]);
}

/// A text in normal form is its own normal form.
pub proof fn lemma_normal_form_is_kept(s: Seq<char>)
    requires
        is_normal_form(s),
    ensures
        normalized(s) == s,
{
    lemma_collapsed_single_spaced(s);
    lemma_replaced_absent(s, seq![':', ':'], seq![':']);
    lemma_compressed_tight(s, '>');
    lemma_compressed_tight(s, '+');
    lemma_compressed_tight(s, '|');
    lemma_compressed_tight(s, '~');
}

/// A text in normal form that is one generic at-rule is compiled to itself,
/// character by character, whatever the marker.
pub proof fn lemma_generic_at_rule_is_unchanged(css: Seq<char>, marker: Seq<char>)
    requires
        is_normal_form(css),
        css.len() > 0,
        css[0] == '@',
        !holds_selectors(rule_keyword(css, 0)),
        generic_rule_end(css, 0, 0) == css.len() - 1,
    ensures
        compiled(css, marker) == css,
{
    lemma_normal_form_is_kept(css);
    lemma_generic_at_rule_is_copied(css, marker);
}

/// What does not occur in a text does not occur behind its first character.
proof fn lemma_absent_behind_first(s: Seq<char>, pattern: Seq<char>)
    requires
        s.len() > 0,
        is_absent(s, pattern),
    ensures
        is_absent(s.drop_first(), pattern),
{
    let tail = s.drop_first();
    assert forall|at: int| !#[trigger] occurs_at(tail, at, pattern) by {
        if occurs_at(tail, at, pattern) {
            assert(s.subrange(at + 1, at + 1 + pattern.len()) =~= tail.subrange(
                at,
                at + pattern.len(),
            ));
            assert(occurs_at(s, at + 1, pattern));
        }
    }
}

/// Where a text with one colon between `before` and `behind` holds no `::`,
/// the text with two colons in that place is brought back to it when `::` is
/// replaced by `:`.
proof fn lemma_replaced_double_colon(before: Seq<char>, behind: Seq<char>)
    requires
        is_absent(before + seq![':'] + behind, seq![':', ':']),
    ensures
        replaced(before + seq![':', ':'] + behind, seq![':', ':'], seq![':']) == before + seq![
            ':',
        ] + behind,
    decreases before.len(),
{
    let double = seq![':', ':'];
    let single = before + seq![':'] + behind;
    let wide = before + double + behind;
    if before.len() == 0 {
        assert(wide.subrange(0, 2) =~= double);
        assert(wide.subrange(2, wide.len() as int) =~= behind);
        assert(single.drop_first() =~= behind);
        lemma_absent_behind_first(single, double);
        lemma_replaced_absent(behind, double, seq![':']);
        assert(seq![':'] + behind =~= single);
    } else {
        if occurs_at(wide, 0, double) {
            assert(wide.subrange(0, 2)[0] == ':' && wide.subrange(0, 2)[1] == ':');
            assert(single.subrange(0, 2) =~= double);
            assert(occurs_at(single, 0, double));
        }
        let rest = before.drop_first();
        assert(single.drop_first() =~= rest + seq![':'] + behind);
        assert(wide.drop_first() =~= rest + double + behind);
        lemma_absent_behind_first(single, double);
        lemma_replaced_double_colon(rest, behind);
        assert(seq![wide[0]] + (rest + seq![':'] + behind) =~= single);
    }
}

/// A text that would be in normal form with one colon between `before` and
/// `behind` has that text as its normal form when two colons stand there.
pub proof fn lemma_double_colon_is_normalized(before: Seq<char>, behind: Seq<char>)
    requires
        is_normal_form(before + seq![':'] + behind),
    ensures
        normalized(before + seq![':', ':'] + behind) == before + seq![':'] + behind,
{
    let single = before + seq![':'] + behind;
    let wide = before + seq![':', ':'] + behind;
    let n = before.len() as int;
    assert forall|i: int| 0 <= i < wide.len() && whitespace(#[trigger] wide[i]) implies wide[i]
        == ' ' && 0 < i < wide.len() - 1 && !whitespace(wide[i - 1]) by {
        if i < n {
            assert(wide[i] == single[i]);
            if i > 0 {
                assert(wide[i - 1] == single[i - 1]);
            }
        } else {
            assert(i > n + 1);
            assert(wide[i] == single[i - 1]);
            assert(whitespace(single[i - 1]));
            if i - 1 > n + 1 {
                assert(wide[i - 1] == single[i - 2]);
            }
        }
    }
    lemma_collapsed_single_spaced(wide);
    lemma_replaced_double_colon(before, behind);
    lemma_compressed_tight(single, '>');
    lemma_compressed_tight(single, '+');
    lemma_compressed_tight(single, '|');
    lemma_compressed_tight(single, '~');
}

/// The pseudo selectors of a text may be written with one colon or with two:
/// where the text with one colon is in normal form, both are compiled to the
/// same.
pub proof fn lemma_double_colon_is_read_as_one(
    before: Seq<char>,
    behind: Seq<char>,
    marker: Seq<char>,
)
    requires
        is_normal_form(before + seq![':'] + behind),
    ensures
        compiled(before + seq![':', ':'] + behind, marker) == compiled(
            before + seq![':'] + behind,
            marker,
        ),
{
    let single = before + seq![':'] + behind;
    let wide = before + seq![':', ':'] + behind;
    lemma_double_colon_is_normalized(before, behind);
    lemma_normal_form_is_kept(single);
    assert(parsed(wide) == parsed(single));
}

} // verus!
