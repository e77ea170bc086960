//! Character-level text utilities: classification of characters, conversion
//! between strings and character vectors, whitespace collapsing and
//! substring replacement.

use vstd::prelude::*;
use vstd::string::StringExecFns;

verus! {

/// What `char::is_whitespace` says of `c`: whether `c` is whitespace in the
/// sense of Unicode.
pub uninterp spec fn unicode_whitespace(c: char) -> bool;

/// What `char::is_alphabetic` says of `c`: whether `c` is alphabetic in the
/// sense of Unicode.
pub uninterp spec fn unicode_alphabetic(c: char) -> bool;

/// What `char::is_alphanumeric` says of `c`: whether `c` is alphabetic or
/// numeric in the sense of Unicode.
pub uninterp spec fn unicode_alphanumeric(c: char) -> bool;

/// `char::is_whitespace` returns what [`unicode_whitespace`] names: its
/// result depends on the character alone. Nothing more is claimed of it, and
/// the library asks it about characters beyond ASCII only.
pub assume_specification[ char::is_whitespace ](c: char) -> (b: bool)
    ensures
        b == unicode_whitespace(c),
;

/// `char::is_alphabetic` returns what [`unicode_alphabetic`] names: its
/// result depends on the character alone. Nothing more is claimed of it, and
/// the library asks it about characters beyond ASCII only.
pub assume_specification[ char::is_alphabetic ](c: char) -> (b: bool)
    ensures
        b == unicode_alphabetic(c),
;

/// `char::is_alphanumeric` returns what [`unicode_alphanumeric`] names: its
/// result depends on the character alone. Nothing more is claimed of it, and
/// the library asks it about characters beyond ASCII only.
pub assume_specification[ char::is_alphanumeric ](c: char) -> (b: bool)
    ensures
        b == unicode_alphanumeric(c),
;

/// Whether `c` is an ASCII character.
pub open spec fn ascii(c: char) -> bool {
    c <= '\x7f'
}

/// Whether `c` is whitespace: within ASCII the space and the characters from
/// tab to carriage return, beyond ASCII what Unicode counts as whitespace.
pub open spec fn whitespace(c: char) -> bool {
    if ascii(c) {
        c == ' ' || '\t' <= c <= '\r'
    } else {
        unicode_whitespace(c)
    }
}

/// Whether `c` is alphabetic: within ASCII a letter, beyond ASCII what
/// Unicode counts as alphabetic.
pub open spec fn alphabetic(c: char) -> bool {
    if ascii(c) {
        'a' <= c <= 'z' || 'A' <= c <= 'Z'
    } else {
        unicode_alphabetic(c)
    }
}

/// Whether `c` is alphabetic or numeric: within ASCII a letter or a digit,
/// beyond ASCII what Unicode counts as alphabetic or numeric.
pub open spec fn alphanumeric(c: char) -> bool {
    if ascii(c) {
        'a' <= c <= 'z' || 'A' <= c <= 'Z' || '0' <= c <= '9'
    } else {
        unicode_alphanumeric(c)
    }
}

/// Decides [`whitespace`].
pub fn is_whitespace_char(c: char) -> (b: bool)
    ensures
        b == whitespace(c),
{
    if c <= '\x7f' {
        c == ' ' || ('\t' <= c && c <= '\r')
    } else {
        c.is_whitespace()
    }
}

/// Decides [`alphabetic`].
pub fn is_alphabetic_char(c: char) -> (b: bool)
    ensures
        b == alphabetic(c),
{
    if c <= '\x7f' {
        ('a' <= c && c <= 'z') || ('A' <= c && c <= 'Z')
    } else {
        c.is_alphabetic()
    }
}

/// Decides [`alphanumeric`].
pub fn is_alphanumeric_char(c: char) -> (b: bool)
    ensures
        b == alphanumeric(c),
{
    if c <= '\x7f' {
        ('a' <= c && c <= 'z') || ('A' <= c && c <= 'Z') || ('0' <= c && c <= '9')
    } else {
        c.is_alphanumeric()
    }
}

/// `String::push` appends the character `ch` to the end of the string and
/// leaves what was there unchanged.
pub assume_specification[ String::push ](s: &mut String, ch: char)
    ensures
        final(s)@ == old(s)@.push(ch),
;

/// The characters of `s`, in order.
pub fn to_chars(s: &str) -> (v: Vec<char>)
    ensures
        v@ == s@,
{
    let mut v: Vec<char> = Vec::new();
    for c in it: s.chars()
        invariant
            it.seq() == s@,
            v@ == it.seq().subrange(0, it.index() as int),
    {
        v.push(c);
    }
    assert(v@ == s@);
    v
}

/// The string made of the characters `v[from..to]`.
pub fn string_of(v: &Vec<char>, from: usize, to: usize) -> (s: String)
    requires
        from <= to <= v.len(),
    ensures
        s@ == v@.subrange(from as int, to as int),
{
    let mut s = String::new();
    let mut i: usize = from;
    while i < to
        invariant
            from <= i <= to <= v.len(),
            s@ == v@.subrange(from as int, i as int),
        decreases to - i,
    {
        s.push(v[i]);
        i += 1;
    }
    s
}

/// Whether `pattern` occurs in `text` at position `at`.
pub open spec fn occurs_at(text: Seq<char>, at: int, pattern: Seq<char>) -> bool {
    &&& 0 <= at
    &&& at + pattern.len() <= text.len()
    &&& text.subrange(at, at + pattern.len()) == pattern
}

/// Decides [`occurs_at`].
pub fn matches_at(text: &Vec<char>, at: usize, pattern: &Vec<char>) -> (b: bool)
    ensures
        b == occurs_at(text@, at as int, pattern@),
{
    if at > text.len() || pattern.len() > text.len() - at {
        return false;
    }
    let mut k: usize = 0;
    while k < pattern.len()
        invariant
            k <= pattern.len(),
            at + pattern.len() <= text.len(),
            forall|j: int| 0 <= j < k ==> text@[at + j] == pattern@[j],
        decreases pattern.len() - k,
    {
        if text[at + k] != pattern[k] {
            proof {
                let window = text@.subrange(at as int, at + pattern.len());
                assert(window[k as int] != pattern@[k as int]);
            }
            return false;
        }
        k += 1;
    }
    assert(text@.subrange(at as int, at + pattern.len()) =~= pattern@);
    true
}

/// `s` without the occurrences of `c`.
pub open spec fn without(s: Seq<char>, c: char) -> Seq<char>
    decreases s.len(),
{
    if s.len() == 0 {
        s
    } else if s.last() == c {
        without(s.drop_last(), c)
    } else {
        without(s.drop_last(), c).push(s.last())
    }
}

/// `s` with every run of whitespace turned into one space, and without leading
/// or trailing whitespace: the whitespace-separated words of `s` joined by
/// single spaces.
pub open spec fn collapsed(s: Seq<char>) -> Seq<char>
    decreases s.len(),
{
    if s.len() == 0 {
        s
    } else if whitespace(s.last()) {
        collapsed(s.drop_last())
    } else if s.len() >= 2 && whitespace(s[s.len() - 2]) && collapsed(s.drop_last()).len() > 0 {
        collapsed(s.drop_last()).push(' ').push(s.last())
    } else {
        collapsed(s.drop_last()).push(s.last())
    }
}

/// Collapsing whitespace never lengthens a text.
pub proof fn lemma_collapsed_len(s: Seq<char>)
    ensures
        collapsed(s).len() <= s.len(),
    decreases s.len(),
{
    if s.len() > 0 {
        let init = s.drop_last();
        lemma_collapsed_len(init);
        if init.len() > 0 && whitespace(init.last()) {
            lemma_collapsed_len(init.drop_last());
        }
    }
}

/// Collapses whitespace: see [`collapsed`].
pub fn collapse_whitespace(s: &str) -> (out: String)
    ensures
        out@ == collapsed(s@),
{
    let chars = to_chars(s);
    let mut out = String::new();
    let mut started = false;
    let mut gap = false;
    let mut i: usize = 0;
    proof {
        assert(s@.subrange(0, 0) =~= Seq::<char>::empty());
    }
    while i < chars.len()
        invariant
            i <= chars.len(),
            chars@ == s@,
            out@ == collapsed(s@.subrange(0, i as int)),
            gap == (i > 0 && whitespace(s@[i - 1])),
            started == (out@.len() > 0),
        decreases chars.len() - i,
    {
        let c = chars[i];
        proof {
            let prefix = s@.subrange(0, i + 1);
            assert(prefix.drop_last() =~= s@.subrange(0, i as int));
            assert(prefix.last() == c);
            if i > 0 {
                assert(prefix[prefix.len() - 2] == s@[i - 1]);
            }
        }
        if is_whitespace_char(c) {
            gap = true;
        } else {
            if gap && started {
                out.push(' ');
            }
            out.push(c);
            gap = false;
            started = true;
        }
        i += 1;
    }
    proof {
        assert(s@.subrange(0, i as int) =~= s@);
    }
    out
}

/// `s` with `to` before each of its characters and behind the last.
pub open spec fn interleaved(s: Seq<char>, to: Seq<char>) -> Seq<char>
    decreases s.len(),
{
    if s.len() == 0 {
        to
    } else {
        interleaved(s.drop_last(), to).push(s.last()) + to
    }
}

/// `s` with each occurrence of `from` replaced by `to`, the occurrences taken
/// from left to right without overlap. An empty `from` occurs before each
/// character and behind the last.
pub open spec fn replaced(s: Seq<char>, from: Seq<char>, to: Seq<char>) -> Seq<char>
    decreases s.len(),
{
    if from.len() == 0 {
        interleaved(s, to)
    } else if s.len() < from.len() {
        s
    } else if occurs_at(s, 0, from) {
        to + replaced(s.subrange(from.len() as int, s.len() as int), from, to)
    } else {
        seq![s[0]] + replaced(s.drop_first(), from, to)
    }
}

/// Putting nothing between the characters of a text changes nothing.
proof fn lemma_interleaved_nothing(s: Seq<char>)
    ensures
        interleaved(s, Seq::empty()) == s,
    decreases s.len(),
{
    if s.len() > 0 {
        lemma_interleaved_nothing(s.drop_last());
        assert(s.drop_last().push(s.last()) + Seq::<char>::empty() =~= s);
    }
}

/// Replacing by something no longer than the pattern never lengthens a text.
pub proof fn lemma_replaced_len(s: Seq<char>, from: Seq<char>, to: Seq<char>)
    requires
        to.len() <= from.len(),
    ensures
        replaced(s, from, to).len() <= s.len(),
    decreases s.len(),
{
    if from.len() == 0 {
        assert(to =~= Seq::<char>::empty());
        lemma_interleaved_nothing(s);
    } else if s.len() < from.len() {
    } else if occurs_at(s, 0, from) {
        lemma_replaced_len(s.subrange(from.len() as int, s.len() as int), from, to);
    } else {
        lemma_replaced_len(s.drop_first(), from, to);
    }
}

/// Replaces each occurrence of `from` in `s` by `to`: see [`replaced`].
pub fn replace_all(s: &str, from: &str, to: &str) -> (out: String)
    ensures
        out@ == replaced(s@, from@, to@),
{
    let text = to_chars(s);
    let pattern = to_chars(from);
    if pattern.len() == 0 {
        let mut out = to.to_owned();
        let mut k: usize = 0;
        proof {
            assert(s@.subrange(0, 0) =~= Seq::<char>::empty());
        }
        while k < text.len()
            invariant
                k <= text.len(),
                text@ == s@,
                from@.len() == 0,
                out@ == interleaved(s@.subrange(0, k as int), to@),
            decreases text.len() - k,
        {
            proof {
                let prefix = s@.subrange(0, k + 1);
                assert(prefix.drop_last() =~= s@.subrange(0, k as int));
                assert(prefix.last() == text@[k as int]);
            }
            out.push(text[k]);
            out.append(to);
            k += 1;
        }
        proof {
            assert(s@.subrange(0, k as int) =~= s@);
        }
        return out;
    }
    let mut out = String::new();
    let mut i: usize = 0;
    proof {
        assert(s@.subrange(0, s@.len() as int) =~= s@);
    }
    while i < text.len()
        invariant
            i <= text.len(),
            text@ == s@,
            pattern@ == from@,
            pattern.len() > 0,
            out@ + replaced(s@.subrange(i as int, s@.len() as int), from@, to@) == replaced(
                s@,
                from@,
                to@,
            ),
        decreases text.len() - i,
    {
        let ghost rest = s@.subrange(i as int, s@.len() as int);
        let ghost before = out@;
        if matches_at(&text, i, &pattern) {
            proof {
                assert(rest.subrange(0, from@.len() as int) =~= s@.subrange(
                    i as int,
                    i + from@.len(),
                ));
                assert(occurs_at(rest, 0, from@));
                assert(rest.subrange(from@.len() as int, rest.len() as int) =~= s@.subrange(
                    i + from@.len(),
                    s@.len() as int,
                ));
                assert(before + (to@ + replaced(
                    s@.subrange(i + from@.len(), s@.len() as int),
                    from@,
                    to@,
                )) =~= (before + to@) + replaced(
                    s@.subrange(i + from@.len(), s@.len() as int),
                    from@,
                    to@,
                ));
            }
            out.append(to);
            i += pattern.len();
        } else {
            proof {
                let tail = s@.subrange(i + 1, s@.len() as int);
                assert(rest.drop_first() =~= tail);
                if rest.len() >= from@.len() {
                    assert(rest.subrange(0, from@.len() as int) =~= s@.subrange(
                        i as int,
                        i + from@.len(),
                    ));
                    assert(!occurs_at(rest, 0, from@));
                } else {
                    assert(replaced(tail, from@, to@) == tail);
                    assert(rest =~= seq![rest[0]] + tail);
                }
                assert(replaced(rest, from@, to@) == seq![rest[0]] + replaced(tail, from@, to@));
                assert(before + (seq![rest[0]] + replaced(tail, from@, to@)) =~= before.push(
                    text@[i as int],
                ) + replaced(tail, from@, to@));
            }
            out.push(text[i]);
            i += 1;
        }
    }
    proof {
        assert(s@.subrange(i as int, s@.len() as int) =~= Seq::<char>::empty());
    }
    out
}

} // verus!
