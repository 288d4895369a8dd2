//! Character-level building blocks: conversions between strings and
//! character vectors, string-literal escaping and the matching reader.

use vstd::prelude::*;

verus! {

/// `String::push` appends one character at the end of the string.
pub assume_specification[ String::push ](s: &mut String, c: char)
    ensures
        final(s)@ == old(s)@.push(c),
;

/// The characters of `s`, in order.
pub fn chars_of(s: &str) -> (r: Vec<char>)
    ensures
        r@ == s@,
{
    let mut out: Vec<char> = Vec::new();
    for c in it: s.chars()
        invariant
            out@ == it.seq().take(it.index() as int),
            it.seq() == s@,
    {
        out.push(c);
    }
    out
}

/// The string made of the characters of `v`, in order.
pub fn string_of(v: &Vec<char>) -> (r: String)
    ensures
        r@ == v@,
{
    let mut out = String::new();
    let mut i: usize = 0;
    while i < v.len()
        invariant
            i <= v.len(),
            out@ == v@.take(i as int),
        decreases v.len() - i,
    {
        out.push(v[i]);
        i += 1;
    }
    out
}

/// Appends the elements of `more` to `out`.
pub(crate) fn push_all(out: &mut Vec<char>, more: &Vec<char>)
    ensures
        final(out)@ == old(out)@ + more@,
{
    let ghost before = out@;
    let mut i: usize = 0;
    while i < more.len()
        invariant
            i <= more.len(),
            out@ == before + more@.take(i as int),
        decreases more.len() - i,
    {
        out.push(more[i]);
        i += 1;
    }
}

/// Whether `v` holds exactly the characters of `lit`.
pub(crate) fn same_as(v: &Vec<char>, lit: &str) -> (r: bool)
    ensures
        r == (v@ == lit@),
{
    let w = chars_of(lit);
    if v.len() != w.len() {
        return false;
    }
    let mut i: usize = 0;
    while i < v.len()
        invariant
            i <= v.len(),
            v.len() == w.len(),
            w@ == lit@,
            forall|j: int| 0 <= j < i ==> v@[j] == w@[j],
        decreases v.len() - i,
    {
        if v[i] != w[i] {
            assert(v@[i as int] != lit@[i as int]);
            return false;
        }
        i += 1;
    }
    assert(v@ =~= w@);
    true
}

/// The text from `i` on starts with the element at `i` and goes on with the
/// text from `i + 1` on.
pub proof fn lemma_skip_step<A>(s: Seq<A>, i: int)
    requires
        0 <= i < s.len(),
    ensures
        s.skip(i).len() == s.len() - i,
        s.skip(i)[0] == s[i],
        s.skip(i).skip(1) == s.skip(i + 1),
{
    assert(s.skip(i).skip(1) =~= s.skip(i + 1));
}

/// Pieces written one after the other behind `p` are `p` followed by the
/// pieces put together.
pub proof fn lemma_regroup(
    p: Seq<char>,
    a: Seq<char>,
    b: Seq<char>,
    c: Seq<char>,
    d: Seq<char>,
    e: Seq<char>,
    f: Seq<char>,
)
    ensures
        p + a + b + c == p + (a + b + c),
        p + a + b + c + d + e == p + (a + b + c + d + e),
        p + a + b + c + d + e + f == p + (a + b + c + d + e + f),
{
    assert(p + a + b + c =~= p + (a + b + c));
    assert(p + a + b + c + d + e =~= p + (a + b + c + d + e));
    assert(p + a + b + c + d + e + f =~= p + (a + b + c + d + e + f));
}

/// Skipping twice is skipping once by the sum, and the front of a suffix is a
/// range of the whole.
pub proof fn lemma_skip_more<A>(s: Seq<A>, i: int, k: int)
    requires
        0 <= i,
        0 <= k,
        i + k <= s.len(),
    ensures
        s.skip(i).skip(k) == s.skip(i + k),
        s.skip(i).take(k) == s.subrange(i, i + k),
{
    assert(s.skip(i).skip(k) =~= s.skip(i + k));
    assert(s.skip(i).take(k) =~= s.subrange(i, i + k));
}

// ---------------------------------------------------------------------------
// String literals
// ---------------------------------------------------------------------------

/// How one character is written inside a quoted literal.
pub open spec fn escape_char(c: char) -> Seq<char> {
    if c == '\\' {
        seq!['\\', '\\']
    } else if c == '"' {
        seq!['\\', '"']
    } else if c == '\n' {
        seq!['\\', 'n']
    } else if c == '\r' {
        seq!['\\', 'r']
    } else {
        seq![c]
    }
}

/// The body of the quoted literal for `s`: every backslash, double quote and
/// line break is replaced by its two-character escape.
pub open spec fn escape(s: Seq<char>) -> Seq<char>
    decreases s.len(),
{
    if s.len() == 0 {
        Seq::empty()
    } else {
        escape_char(s[0]) + escape(s.skip(1))
    }
}

/// The quoted literal for `s`. A path is written like any other text: its
/// backslashes come out doubled, its forward slashes as they are.
pub open spec fn quote(s: Seq<char>) -> Seq<char> {
    seq!['"'] + escape(s) + seq!['"']
}

/// The character that the escape `\c` stands for, if it is an accepted escape.
pub open spec fn unescape_char(c: char) -> Option<char> {
    if c == '\\' {
        Some('\\')
    } else if c == '"' {
        Some('"')
    } else if c == '\'' {
        Some('\'')
    } else if c == 'n' {
        Some('\n')
    } else if c == 'r' {
        Some('\r')
    } else if c == 't' {
        Some('\t')
    } else {
        None
    }
}

/// Puts `head` in front of the text of a successful reading.
pub open spec fn prepend(head: Seq<char>, r: Option<(Seq<char>, Seq<char>)>) -> Option<
    (Seq<char>, Seq<char>),
> {
    match r {
        None => None,
        Some((t, rest)) => Some((head + t, rest)),
    }
}

/// Reads the body of a quoted literal, the opening quote already consumed:
/// the text it denotes and what follows the closing quote. `None` where the
/// literal is not closed on its line or holds an unknown escape.
pub open spec fn read_literal(s: Seq<char>) -> Option<(Seq<char>, Seq<char>)>
    decreases s.len(),
{
    if s.len() == 0 {
        None
    } else if s[0] == '"' {
        Some((Seq::empty(), s.skip(1)))
    } else if s[0] == '\n' || s[0] == '\r' {
        None
    } else if s[0] == '\\' {
        if s.len() < 2 {
            None
        } else {
            match unescape_char(s[1]) {
                None => None,
                Some(c) => prepend(seq![c], read_literal(s.skip(2))),
            }
        }
    } else {
        prepend(seq![s[0]], read_literal(s.skip(1)))
    }
}

/// A successful reading consumes at least the closing quote.
pub proof fn lemma_read_literal_consumes(s: Seq<char>)
    ensures
        read_literal(s) matches Some((t, rest)) ==> rest.len() < s.len(),
    decreases s.len(),
{
    if s.len() == 0 {
    } else if s[0] == '"' {
    } else if s[0] == '\\' {
        if s.len() >= 2 {
            lemma_read_literal_consumes(s.skip(2));
        }
    } else {
        lemma_read_literal_consumes(s.skip(1));
    }
}

/// Reading an escaped text up to its closing quote gives the text back, and
/// leaves what stood behind the quote.
pub proof fn lemma_escape_roundtrip(s: Seq<char>, rest: Seq<char>)
    ensures
        read_literal(escape(s) + seq!['"'] + rest) == Some((s, rest)),
    decreases s.len(),
{
    let tail = seq!['"'] + rest;
    assert(escape(s) + seq!['"'] + rest =~= escape(s) + tail);
    if s.len() == 0 {
        assert(escape(s) + tail =~= tail);
        assert(tail.skip(1) =~= rest);
    } else {
        let c = s[0];
        let more = escape(s.skip(1)) + tail;
        lemma_escape_roundtrip(s.skip(1), rest);
        assert(escape(s.skip(1)) + seq!['"'] + rest =~= more);
        let whole = escape(s) + tail;
        assert(whole =~= escape_char(c) + more);
        if c == '\\' || c == '"' || c == '\n' || c == '\r' {
            assert(whole[0] == '\\');
            assert(whole.skip(2) =~= more);
            assert(unescape_char(whole[1]) == Some(c));
        } else {
            assert(whole[0] == c);
            assert(whole.skip(1) =~= more);
        }
        assert(seq![c] + s.skip(1) =~= s);
    }
}

/// Whether the character is written as it is inside a quoted literal.
pub open spec fn is_plain_char(c: char) -> bool {
    c != '\\' && c != '"' && c != '\n' && c != '\r'
}

/// A text without backslashes, quotes and line breaks is its own escaped
/// form; a path with forward slashes is such a text.
pub proof fn lemma_escape_plain(s: Seq<char>)
    requires
        forall|i: int| 0 <= i < s.len() ==> is_plain_char(#[trigger] s[i]),
    ensures
        escape(s) == s,
    decreases s.len(),
{
    if s.len() == 0 {
        assert(escape(s) =~= s);
    } else {
        assert(is_plain_char(s[0]));
        assert forall|i: int| 0 <= i < s.skip(1).len() implies is_plain_char(
            #[trigger] s.skip(1)[i],
        ) by {
            assert(s.skip(1)[i] == s[i + 1]);
        }
        lemma_escape_plain(s.skip(1));
        assert(seq![s[0]] + s.skip(1) =~= s);
    }
}

/// Appends the escaped form of `s` to `out`.
pub(crate) fn escape_into(out: &mut Vec<char>, s: &Vec<char>)
    ensures
        final(out)@ == old(out)@ + escape(s@),
{
    let ghost before = out@;
    let mut j: usize = 0;
    assert(s@.skip(0) =~= s@);
    while j < s.len()
        invariant
            j <= s.len(),
            out@ + escape(s@.skip(j as int)) == before + escape(s@),
        decreases s.len() - j,
    {
        let c = s[j];
        let ghost prev = out@;
        proof {
            lemma_skip_step(s@, j as int);
        }
        if c == '\\' {
            out.push('\\');
            out.push('\\');
        } else if c == '"' {
            out.push('\\');
            out.push('"');
        } else if c == '\n' {
            out.push('\\');
            out.push('n');
        } else if c == '\r' {
            out.push('\\');
            out.push('r');
        } else {
            out.push(c);
        }
        assert(out@ =~= prev + escape_char(c));
        assert(prev + escape(s@.skip(j as int)) =~= out@ + escape(s@.skip(j as int + 1)));
        j += 1;
    }
    assert(escape(s@.skip(s.len() as int)) =~= Seq::<char>::empty());
    assert(out@ + Seq::<char>::empty() =~= out@);
}

/// The body of the quoted literal for `s`.
pub fn escape_string(s: &str) -> (r: String)
    ensures
        r@ == escape(s@),
{
    let src = chars_of(s);
    let mut out: Vec<char> = Vec::new();
    escape_into(&mut out, &src);
    assert(Seq::<char>::empty() + escape(src@) =~= escape(src@));
    string_of(&out)
}

/// Appends the quoted literal for `s` to `out`.
pub(crate) fn quote_into(out: &mut Vec<char>, s: &Vec<char>)
    ensures
        final(out)@ == old(out)@ + quote(s@),
{
    let ghost before = out@;
    out.push('"');
    escape_into(out, s);
    out.push('"');
    assert(out@ =~= before + quote(s@));
}

/// The quoted literal for `s`.
pub fn quote_string(s: &str) -> (r: String)
    ensures
        r@ == quote(s@),
{
    let src = chars_of(s);
    let mut out: Vec<char> = Vec::new();
    quote_into(&mut out, &src);
    assert(Seq::<char>::empty() + quote(src@) =~= quote(src@));
    string_of(&out)
}

/// Reads a literal body starting at `pos`; on success the text and the
/// position behind the closing quote.
pub(crate) fn scan_literal(src: &Vec<char>, pos: usize) -> (r: Option<(Vec<char>, usize)>)
    requires
        pos <= src.len(),
    ensures
        match r {
            None => read_literal(src@.skip(pos as int)) is None,
            Some((t, end)) => pos < end <= src.len() && read_literal(src@.skip(pos as int))
                == Some((t@, src@.skip(end as int))),
        },
{
    let mut acc: Vec<char> = Vec::new();
    let mut i: usize = pos;
    assert(prepend(acc@, read_literal(src@.skip(i as int))) =~= read_literal(
        src@.skip(pos as int),
    )) by {
        match read_literal(src@.skip(pos as int)) {
            None => {},
            Some((t, rest)) => {
                assert(acc@ + t =~= t);
            },
        }
    }
    while i < src.len()
        invariant
            pos <= i <= src.len(),
            prepend(acc@, read_literal(src@.skip(i as int))) == read_literal(
                src@.skip(pos as int),
            ),
        decreases src.len() - i,
    {
        let c = src[i];
        let ghost here = src@.skip(i as int);
        let ghost prev = acc@;
        proof {
            lemma_skip_step(src@, i as int);
        }
        if c == '"' {
            assert(prev + Seq::<char>::empty() =~= prev);
            return Some((acc, i + 1));
        } else if c == '\n' || c == '\r' {
            return None;
        } else if c == '\\' {
            if i + 1 >= src.len() {
                return None;
            }
            let e = src[i + 1];
            proof {
                lemma_skip_more(src@, i as int, 2);
                assert(here[1] == e);
            }
            let d = if e == '\\' {
                '\\'
            } else if e == '"' {
                '"'
            } else if e == '\'' {
                '\''
            } else if e == 'n' {
                '\n'
            } else if e == 'r' {
                '\r'
            } else if e == 't' {
                '\t'
            } else {
                return None;
            };
            acc.push(d);
            i += 2;
            proof {
                match read_literal(src@.skip(i as int)) {
                    None => {},
                    Some((t, rest)) => {
                        assert(prev + (seq![d] + t) =~= acc@ + t);
                    },
                }
            }
        } else {
            acc.push(c);
            i += 1;
            proof {
                match read_literal(src@.skip(i as int)) {
                    None => {},
                    Some((t, rest)) => {
                        assert(prev + (seq![c] + t) =~= acc@ + t);
                    },
                }
            }
        }
    }
    assert(src@.skip(i as int).len() == 0);
    None
}


/// What `text` denotes where it is exactly one quoted literal.
pub open spec fn quoted_text(text: Seq<char>) -> Option<Seq<char>> {
    if text.len() > 0 && text[0] == '"' {
        match read_literal(text.skip(1)) {
            Some((t, rest)) => if rest.len() == 0 {
                Some(t)
            } else {
                None
            },
            None => None,
        }
    } else {
        None
    }
}

/// The text that the quoted literal `text` denotes; `None` where `text` is
/// not exactly one quoted literal.
pub fn read_quoted(text: &str) -> (r: Option<String>)
    ensures
        match r {
            Some(s) => quoted_text(text@) == Some(s@),
            None => quoted_text(text@) is None,
        },
{
    let src = chars_of(text);
    if src.len() == 0 || src[0] != '"' {
        return None;
    }
    match scan_literal(&src, 1) {
        Some((t, end)) => {
            if end == src.len() {
                Some(string_of(&t))
            } else {
                None
            }
        },
        None => None,
    }
}

} // verus!
