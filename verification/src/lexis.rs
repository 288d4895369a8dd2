//! Blanks, comments, names and whole numbers of the script text.

use vstd::prelude::*;
use crate::text::{lemma_skip_more, lemma_skip_step, same_as};

verus! {

// ---------------------------------------------------------------------------
// Blanks and comments
// ---------------------------------------------------------------------------

/// Whether the character is a blank: a space, a tab or a line break.
pub open spec fn is_space(c: char) -> bool {
    c == ' ' || c == '\t' || c == '\n' || c == '\r'
}

/// What follows the end of the current line (the whole rest where no line
/// break comes).
pub open spec fn skip_line(s: Seq<char>) -> Seq<char>
    decreases s.len(),
{
    if s.len() == 0 {
        s
    } else if s[0] == '\n' {
        s.skip(1)
    } else {
        skip_line(s.skip(1))
    }
}

/// Skipping a line does not add text.
pub proof fn lemma_skip_line_len(s: Seq<char>)
    ensures
        skip_line(s).len() <= s.len(),
    decreases s.len(),
{
    if s.len() > 0 && s[0] != '\n' {
        lemma_skip_line_len(s.skip(1));
    }
}

/// Whether `s` opens with the two dashes of a line comment.
pub open spec fn at_comment(s: Seq<char>) -> bool {
    s.len() >= 2 && s[0] == '-' && s[1] == '-'
}

/// What follows the leading blanks and `--` line comments of `s`.
pub open spec fn skip_blank(s: Seq<char>) -> Seq<char>
    decreases s.len(),
{
    if s.len() == 0 {
        s
    } else if is_space(s[0]) {
        skip_blank(s.skip(1))
    } else if at_comment(s) {
        proof {
            lemma_skip_line_len(s.skip(2));
        }
        skip_blank(skip_line(s.skip(2)))
    } else {
        s
    }
}

/// Whether nothing is skipped in front of `s`.
pub open spec fn starts_solid(s: Seq<char>) -> bool {
    s.len() == 0 || (!is_space(s[0]) && !at_comment(s))
}

/// What is left after skipping is no longer than the text and starts solid;
/// a text that starts solid is left as it is.
pub proof fn lemma_skip_blank_props(s: Seq<char>)
    ensures
        skip_blank(s).len() <= s.len(),
        starts_solid(skip_blank(s)),
        starts_solid(s) ==> skip_blank(s) == s,
    decreases s.len(),
{
    if s.len() == 0 {
    } else if is_space(s[0]) {
        lemma_skip_blank_props(s.skip(1));
    } else if at_comment(s) {
        lemma_skip_line_len(s.skip(2));
        lemma_skip_blank_props(skip_line(s.skip(2)));
    }
}

/// Whether every character of `w` is a blank.
pub open spec fn all_space(w: Seq<char>) -> bool {
    forall|i: int| 0 <= i < w.len() ==> is_space(#[trigger] w[i])
}

/// Blanks in front of a text are skipped with the text's own.
pub proof fn lemma_skip_blank_spaces(w: Seq<char>, s: Seq<char>)
    requires
        all_space(w),
    ensures
        skip_blank(w + s) == skip_blank(s),
    decreases w.len(),
{
    if w.len() == 0 {
        assert(w + s =~= s);
    } else {
        assert((w + s)[0] == w[0]);
        assert((w + s).skip(1) =~= w.skip(1) + s);
        assert(all_space(w.skip(1))) by {
            assert forall|i: int| 0 <= i < w.skip(1).len() implies is_space(
                #[trigger] w.skip(1)[i],
            ) by {
                assert(w.skip(1)[i] == w[i + 1]);
            }
        }
        lemma_skip_blank_spaces(w.skip(1), s);
    }
}

/// A line without a line break in it, written as a comment.
pub open spec fn comment_line(t: Seq<char>) -> Seq<char> {
    seq!['-', '-'] + t + seq!['\n']
}

/// Whether the text holds no line feed.
pub open spec fn no_line_break(t: Seq<char>) -> bool {
    forall|i: int| 0 <= i < t.len() ==> #[trigger] t[i] != '\n'
}

/// A line and its line feed are skipped as one.
pub proof fn lemma_skip_line_over(t: Seq<char>, s: Seq<char>)
    requires
        no_line_break(t),
    ensures
        skip_line(t + seq!['\n'] + s) == s,
    decreases t.len(),
{
    let whole = t + seq!['\n'] + s;
    if t.len() == 0 {
        assert(whole[0] == '\n');
        assert(whole.skip(1) =~= s);
    } else {
        assert(whole[0] == t[0]);
        assert(whole.skip(1) =~= t.skip(1) + seq!['\n'] + s);
        assert(no_line_break(t.skip(1))) by {
            assert forall|i: int| 0 <= i < t.skip(1).len() implies #[trigger] t.skip(1)[i]
                != '\n' by {
                assert(t.skip(1)[i] == t[i + 1]);
            }
        }
        lemma_skip_line_over(t.skip(1), s);
    }
}

/// A comment line in front of a text is skipped with the text's own blanks.
pub proof fn lemma_skip_blank_comment(t: Seq<char>, s: Seq<char>)
    requires
        no_line_break(t),
    ensures
        skip_blank(comment_line(t) + s) == skip_blank(s),
{
    let whole = comment_line(t) + s;
    assert(whole[0] == '-' && whole[1] == '-');
    assert(whole.skip(2) =~= t + seq!['\n'] + s);
    lemma_skip_line_over(t, s);
}

/// The position behind the current line.
pub(crate) fn after_line(src: &Vec<char>, pos: usize) -> (end: usize)
    requires
        pos <= src.len(),
    ensures
        pos <= end <= src.len(),
        src@.skip(end as int) == skip_line(src@.skip(pos as int)),
{
    let mut i: usize = pos;
    while i < src.len()
        invariant
            pos <= i <= src.len(),
            skip_line(src@.skip(i as int)) == skip_line(src@.skip(pos as int)),
        decreases src.len() - i,
    {
        proof {
            lemma_skip_step(src@, i as int);
        }
        if src[i] == '\n' {
            return i + 1;
        }
        i += 1;
    }
    i
}

/// The position behind the blanks and comments that start at `pos`.
pub(crate) fn blank_end(src: &Vec<char>, pos: usize) -> (end: usize)
    requires
        pos <= src.len(),
    ensures
        pos <= end <= src.len(),
        src@.skip(end as int) == skip_blank(src@.skip(pos as int)),
{
    let mut i: usize = pos;
    while i < src.len()
        invariant
            pos <= i <= src.len(),
            skip_blank(src@.skip(i as int)) == skip_blank(src@.skip(pos as int)),
        decreases src.len() - i,
    {
        let c = src[i];
        proof {
            lemma_skip_step(src@, i as int);
        }
        if c == ' ' || c == '\t' || c == '\n' || c == '\r' {
            i += 1;
        } else if c == '-' && i + 1 < src.len() && src[i + 1] == '-' {
            proof {
                lemma_skip_more(src@, i as int, 2);
                assert(src@.skip(i as int)[1] == src@[i + 1]);
            }
            i = after_line(src, i + 2);
        } else {
            assert(!at_comment(src@.skip(i as int))) by {
                if i + 1 < src.len() {
                    assert(src@.skip(i as int)[1] == src@[i + 1]);
                }
            }
            return i;
        }
    }
    i
}

// ---------------------------------------------------------------------------
// Names
// ---------------------------------------------------------------------------

/// Whether the character is a decimal digit.
pub open spec fn is_digit(c: char) -> bool {
    '0' <= c && c <= '9'
}

/// Whether a name can start with the character: a letter or an underscore.
pub open spec fn is_name_start(c: char) -> bool {
    ('a' <= c && c <= 'z') || ('A' <= c && c <= 'Z') || c == '_'
}

/// Whether a name can go on with the character: a letter, a digit or an
/// underscore.
pub open spec fn is_name_char(c: char) -> bool {
    is_name_start(c) || is_digit(c)
}

/// The length of the longest prefix of `s` made of name characters.
pub open spec fn name_len(s: Seq<char>) -> nat
    decreases s.len(),
{
    if s.len() > 0 && is_name_char(s[0]) {
        1 + name_len(s.skip(1))
    } else {
        0
    }
}

/// A name is no longer than the text it starts.
pub proof fn lemma_name_len_bound(s: Seq<char>)
    ensures
        name_len(s) <= s.len(),
    decreases s.len(),
{
    if s.len() > 0 && is_name_char(s[0]) {
        lemma_name_len_bound(s.skip(1));
    }
}

/// Whether the text is made of name characters alone.
pub open spec fn all_name_chars(k: Seq<char>) -> bool {
    forall|i: int| 0 <= i < k.len() ==> is_name_char(#[trigger] k[i])
}

/// Whether a name would not run on into `s`.
pub open spec fn ends_name(s: Seq<char>) -> bool {
    s.len() == 0 || !is_name_char(s[0])
}

/// A run of name characters in front of what ends a name is read whole, and
/// no further.
pub proof fn lemma_name_len_of(k: Seq<char>, s: Seq<char>)
    requires
        all_name_chars(k),
        ends_name(s),
    ensures
        name_len(k + s) == k.len(),
    decreases k.len(),
{
    if k.len() == 0 {
        assert(k + s =~= s);
    } else {
        assert((k + s)[0] == k[0]);
        assert((k + s).skip(1) =~= k.skip(1) + s);
        assert(all_name_chars(k.skip(1))) by {
            assert forall|i: int| 0 <= i < k.skip(1).len() implies is_name_char(
                #[trigger] k.skip(1)[i],
            ) by {
                assert(k.skip(1)[i] == k[i + 1]);
            }
        }
        lemma_name_len_of(k.skip(1), s);
    }
}

/// The words that the script language keeps for itself.
pub open spec fn is_reserved(k: Seq<char>) -> bool {
    k == "and"@ || k == "break"@ || k == "do"@ || k == "else"@ || k == "elseif"@ || k == "end"@
        || k == "false"@ || k == "for"@ || k == "function"@ || k == "goto"@ || k == "if"@ || k
        == "in"@ || k == "local"@ || k == "nil"@ || k == "not"@ || k == "or"@ || k == "repeat"@
        || k == "return"@ || k == "then"@ || k == "true"@ || k == "until"@ || k == "while"@
}

/// The reserved words, spelled out.
pub proof fn lemma_reserved_words()
    ensures
        "and"@ == seq!['a', 'n', 'd'],
        "break"@ == seq!['b', 'r', 'e', 'a', 'k'],
        "do"@ == seq!['d', 'o'],
        "else"@ == seq!['e', 'l', 's', 'e'],
        "elseif"@ == seq!['e', 'l', 's', 'e', 'i', 'f'],
        "end"@ == seq!['e', 'n', 'd'],
        "false"@ == seq!['f', 'a', 'l', 's', 'e'],
        "for"@ == seq!['f', 'o', 'r'],
        "function"@ == seq!['f', 'u', 'n', 'c', 't', 'i', 'o', 'n'],
        "goto"@ == seq!['g', 'o', 't', 'o'],
        "if"@ == seq!['i', 'f'],
        "in"@ == seq!['i', 'n'],
        "local"@ == seq!['l', 'o', 'c', 'a', 'l'],
        "nil"@ == seq!['n', 'i', 'l'],
        "not"@ == seq!['n', 'o', 't'],
        "or"@ == seq!['o', 'r'],
        "repeat"@ == seq!['r', 'e', 'p', 'e', 'a', 't'],
        "return"@ == seq!['r', 'e', 't', 'u', 'r', 'n'],
        "then"@ == seq!['t', 'h', 'e', 'n'],
        "true"@ == seq!['t', 'r', 'u', 'e'],
        "until"@ == seq!['u', 'n', 't', 'i', 'l'],
        "while"@ == seq!['w', 'h', 'i', 'l', 'e'],
{
    reveal_strlit("and");
    reveal_strlit("break");
    reveal_strlit("do");
    reveal_strlit("else");
    reveal_strlit("elseif");
    reveal_strlit("end");
    reveal_strlit("false");
    reveal_strlit("for");
    reveal_strlit("function");
    reveal_strlit("goto");
    reveal_strlit("if");
    reveal_strlit("in");
    reveal_strlit("local");
    reveal_strlit("nil");
    reveal_strlit("not");
    reveal_strlit("or");
    reveal_strlit("repeat");
    reveal_strlit("return");
    reveal_strlit("then");
    reveal_strlit("true");
    reveal_strlit("until");
    reveal_strlit("while");
    assert("and"@ =~= seq!['a', 'n', 'd']);
    assert("break"@ =~= seq!['b', 'r', 'e', 'a', 'k']);
    assert("do"@ =~= seq!['d', 'o']);
    assert("else"@ =~= seq!['e', 'l', 's', 'e']);
    assert("elseif"@ =~= seq!['e', 'l', 's', 'e', 'i', 'f']);
    assert("end"@ =~= seq!['e', 'n', 'd']);
    assert("false"@ =~= seq!['f', 'a', 'l', 's', 'e']);
    assert("for"@ =~= seq!['f', 'o', 'r']);
    assert("function"@ =~= seq!['f', 'u', 'n', 'c', 't', 'i', 'o', 'n']);
    assert("goto"@ =~= seq!['g', 'o', 't', 'o']);
    assert("if"@ =~= seq!['i', 'f']);
    assert("in"@ =~= seq!['i', 'n']);
    assert("local"@ =~= seq!['l', 'o', 'c', 'a', 'l']);
    assert("nil"@ =~= seq!['n', 'i', 'l']);
    assert("not"@ =~= seq!['n', 'o', 't']);
    assert("or"@ =~= seq!['o', 'r']);
    assert("repeat"@ =~= seq!['r', 'e', 'p', 'e', 'a', 't']);
    assert("return"@ =~= seq!['r', 'e', 't', 'u', 'r', 'n']);
    assert("then"@ =~= seq!['t', 'h', 'e', 'n']);
    assert("true"@ =~= seq!['t', 'r', 'u', 'e']);
    assert("until"@ =~= seq!['u', 'n', 't', 'i', 'l']);
    assert("while"@ =~= seq!['w', 'h', 'i', 'l', 'e']);
}

/// Whether `k` can stand bare in front of `=`: a name that is not reserved.
pub open spec fn is_plain_name(k: Seq<char>) -> bool {
    k.len() > 0 && is_name_start(k[0]) && all_name_chars(k) && !is_reserved(k)
}

/// Whether a name can go on with the character.
pub(crate) fn name_char(c: char) -> (r: bool)
    ensures
        r == is_name_char(c),
{
    ('a' <= c && c <= 'z') || ('A' <= c && c <= 'Z') || c == '_' || ('0' <= c && c <= '9')
}

/// Whether a name can start with the character.
pub(crate) fn name_start(c: char) -> (r: bool)
    ensures
        r == is_name_start(c),
{
    ('a' <= c && c <= 'z') || ('A' <= c && c <= 'Z') || c == '_'
}

/// The position behind the name characters that start at `pos`.
pub(crate) fn name_end(src: &Vec<char>, pos: usize) -> (end: usize)
    requires
        pos <= src.len(),
    ensures
        pos <= end <= src.len(),
        end - pos == name_len(src@.skip(pos as int)),
{
    let mut i: usize = pos;
    while i < src.len() && name_char(src[i])
        invariant
            pos <= i <= src.len(),
            (i - pos) + name_len(src@.skip(i as int)) == name_len(src@.skip(pos as int)),
        decreases src.len() - i,
    {
        proof {
            lemma_skip_step(src@, i as int);
        }
        i += 1;
    }
    proof {
        if i < src.len() {
            lemma_skip_step(src@, i as int);
        }
    }
    i
}

/// Whether `k` is a reserved word.
pub(crate) fn reserved(k: &Vec<char>) -> (r: bool)
    ensures
        r == is_reserved(k@),
{
    same_as(k, "and") || same_as(k, "break") || same_as(k, "do") || same_as(k, "else") || same_as(
        k,
        "elseif",
    ) || same_as(k, "end") || same_as(k, "false") || same_as(k, "for") || same_as(k, "function")
        || same_as(k, "goto") || same_as(k, "if") || same_as(k, "in") || same_as(k, "local")
        || same_as(k, "nil") || same_as(k, "not") || same_as(k, "or") || same_as(k, "repeat")
        || same_as(k, "return") || same_as(k, "then") || same_as(k, "true") || same_as(k, "until")
        || same_as(k, "while")
}

/// Whether `k` can stand bare in front of `=`.
pub fn plain_name(k: &Vec<char>) -> (r: bool)
    ensures
        r == is_plain_name(k@),
{
    if k.len() == 0 || !name_start(k[0]) {
        return false;
    }
    let mut i: usize = 0;
    while i < k.len()
        invariant
            i <= k.len(),
            forall|j: int| 0 <= j < i ==> is_name_char(#[trigger] k@[j]),
        decreases k.len() - i,
    {
        if !name_char(k[i]) {
            return false;
        }
        i += 1;
    }
    !reserved(k)
}

/// A copy of the characters of `src` from `from` up to `to`.
pub(crate) fn slice_of(src: &Vec<char>, from: usize, to: usize) -> (r: Vec<char>)
    requires
        from <= to <= src.len(),
    ensures
        r@ == src@.subrange(from as int, to as int),
{
    let mut out: Vec<char> = Vec::new();
    let mut i: usize = from;
    while i < to
        invariant
            from <= i <= to <= src.len(),
            out@ == src@.subrange(from as int, i as int),
        decreases to - i,
    {
        out.push(src[i]);
        assert(src@.subrange(from as int, i as int).push(src@[i as int]) =~= src@.subrange(
            from as int,
            i as int + 1,
        ));
        i += 1;
    }
    out
}

} // verus!
