//! Writing values as script text: the root table with one entry per line,
//! nested tables and lists inline, under a header of comment lines.

use vstd::prelude::*;
use crate::lexis::{comment_line, is_plain_name, no_line_break, plain_name};
use crate::number::{decimal, push_decimal};
use crate::text::{
    chars_of, lemma_regroup, lemma_skip_step, push_all, quote, quote_into, string_of,
};
use crate::value::{
    all_renderable, entries_renderable, entries_view, lemma_view_list, lemma_view_table,
    list_view, renderable, Entry, EntryView, Value, ValueView,
};

verus! {

/// Why a value could not be written.
#[derive(Debug, PartialEq, Eq, Clone, Copy, Structural)]
pub enum RenderError {
    /// The value holds, where it would be written, something without a
    /// literal form.
    UnsupportedValue,
    /// The name given for the root table cannot stand bare in front of `=`.
    InvalidRoot,
}

/// The word for a value that is not there.
pub open spec fn word_nil() -> Seq<char> {
    seq!['n', 'i', 'l']
}

/// The word for the truth value true.
pub open spec fn word_true() -> Seq<char> {
    seq!['t', 'r', 'u', 'e']
}

/// The word for the truth value false.
pub open spec fn word_false() -> Seq<char> {
    seq!['f', 'a', 'l', 's', 'e']
}

/// What stands in front of an element: nothing in front of the first, a
/// comma and a space in front of the others.
pub open spec fn lead(sep: bool) -> Seq<char> {
    if sep {
        seq![',', ' ']
    } else {
        Seq::empty()
    }
}

/// What stands between a key and its value.
pub open spec fn assign() -> Seq<char> {
    seq![' ', '=', ' ']
}

/// A key as it stands in front of `=`: bare where it is a plain name, else
/// as a quoted literal in square brackets.
pub open spec fn render_key(k: Seq<char>) -> Seq<char> {
    if is_plain_name(k) {
        k
    } else {
        seq!['['] + quote(k) + seq![']']
    }
}

/// The literal for a value. A list is written as its elements between
/// braces, a table as its set entries, each as key, `=` and value; entries
/// whose value is `Absent` are left out.
pub open spec fn render_value(v: ValueView) -> Seq<char>
    decreases v,
{
    match v {
        ValueView::Absent => word_nil(),
        ValueView::Bool(b) => if b {
            word_true()
        } else {
            word_false()
        },
        ValueView::Int(n) => decimal(n),
        ValueView::Str(s) => quote(s),
        ValueView::List(xs) => seq!['{'] + render_list(xs, false) + seq!['}'],
        ValueView::Table(es) => seq!['{'] + render_fields(es, false) + seq!['}'],
        ValueView::Opaque => Seq::empty(),
    }
}

/// The elements of a list, in order; `sep` says whether one was written
/// before them.
pub open spec fn render_list(xs: Seq<ValueView>, sep: bool) -> Seq<char>
    decreases xs,
{
    if xs.len() == 0 {
        Seq::empty()
    } else {
        lead(sep) + render_value(xs[0]) + render_list(xs.skip(1), true)
    }
}

/// The set entries of a table, in order; `sep` says whether one was written
/// before them.
pub open spec fn render_fields(es: Seq<EntryView>, sep: bool) -> Seq<char>
    decreases es,
{
    if es.len() == 0 {
        Seq::empty()
    } else if es[0].value is Absent {
        render_fields(es.skip(1), sep)
    } else {
        lead(sep) + render_key(es[0].key) + assign() + render_value(es[0].value) + render_fields(
            es.skip(1),
            true,
        )
    }
}

/// What stands in front of a line of the root table.
pub open spec fn indent() -> Seq<char> {
    seq![' ', ' ']
}

/// What ends a line of the root table.
pub open spec fn line_end() -> Seq<char> {
    seq![',', '\n']
}

/// One line for each set entry of the root table: two spaces, the key, `=`,
/// the value and a comma.
pub open spec fn render_lines(es: Seq<EntryView>) -> Seq<char>
    decreases es.len(),
{
    if es.len() == 0 {
        Seq::empty()
    } else if es[0].value is Absent {
        render_lines(es.skip(1))
    } else {
        indent() + render_key(es[0].key) + assign() + render_value(es[0].value) + line_end()
            + render_lines(es.skip(1))
    }
}

/// What follows the root name.
pub open spec fn table_open() -> Seq<char> {
    seq![' ', '=', ' ', '{', '\n']
}

/// What closes the root table.
pub open spec fn table_close() -> Seq<char> {
    seq!['}', '\n']
}

/// The assignment of the root table: the root name, `= {`, the lines of the
/// entries, and the closing brace.
pub open spec fn render_table(root: Seq<char>, es: Seq<EntryView>) -> Seq<char> {
    root + table_open() + render_lines(es) + table_close()
}

/// A title with its line breaks replaced by spaces.
pub open spec fn flatten(t: Seq<char>) -> Seq<char> {
    Seq::new(
        t.len(),
        |i: int|
            if t[i] == '\n' {
                ' '
            } else {
                t[i]
            },
    )
}

/// A title without a line break is written as it is.
pub proof fn lemma_flatten_plain(t: Seq<char>)
    requires
        no_line_break(t),
    ensures
        flatten(t) == t,
{
    assert(flatten(t) =~= t);
}

/// The header: each title as a comment line, then an empty line.
pub open spec fn render_header(titles: Seq<Seq<char>>) -> Seq<char>
    decreases titles.len(),
{
    if titles.len() == 0 {
        seq!['\n']
    } else {
        comment_line(flatten(titles[0])) + render_header(titles.skip(1))
    }
}

/// The whole text: the header, then the root table.
pub open spec fn render_document(
    titles: Seq<Seq<char>>,
    root: Seq<char>,
    es: Seq<EntryView>,
) -> Seq<char> {
    render_header(titles) + render_table(root, es)
}

// ---------------------------------------------------------------------------

/// Whether `v` has a literal form all the way down.
pub(crate) fn is_renderable(v: &Value) -> (r: bool)
    ensures
        r == renderable(v@),
    decreases v,
{
    match v {
        Value::Opaque => false,
        Value::List(xs) => {
            proof {
                lemma_view_list(*xs);
            }
            let ghost lv = list_view(xs@);
            let mut i: usize = 0;
            assert(forall|k: int| 0 <= k < xs@.len() ==> decreases_to!(v => #[trigger] xs@[k]));
            assert(lv.skip(0) =~= lv);
            while i < xs.len()
                invariant
                    i <= xs.len(),
                    lv == list_view(xs@),
                    v@ == ValueView::List(lv),
                    all_renderable(lv.skip(i as int)) == all_renderable(lv),
                    forall|k: int| 0 <= k < xs@.len() ==> decreases_to!(v => #[trigger] xs@[k]),
                decreases xs.len() - i,
            {
                proof {
                    lemma_skip_step(lv, i as int);
                }
                if !is_renderable(&xs[i]) {
                    return false;
                }
                i += 1;
            }
            true
        },
        Value::Table(es) => {
            proof {
                lemma_view_table(*es);
            }
            entries_are_renderable(es, Ghost(*v))
        },
        _ => true,
    }
}

/// Whether every entry has a literal form all the way down. `parent` is the
/// value that holds the entries.
pub(crate) fn entries_are_renderable(es: &Vec<Entry>, Ghost(parent): Ghost<Value>) -> (r: bool)
    requires
        forall|k: int| 0 <= k < es@.len() ==> decreases_to!(parent => #[trigger] es@[k]),
    ensures
        r == entries_renderable(entries_view(es@)),
    decreases parent, 0nat,
{
    let ghost ev = entries_view(es@);
    let mut i: usize = 0;
    assert(ev.skip(0) =~= ev);
    while i < es.len()
        invariant
            i <= es.len(),
            ev == entries_view(es@),
            entries_renderable(ev.skip(i as int)) == entries_renderable(ev),
            forall|k: int| 0 <= k < es@.len() ==> decreases_to!(parent => #[trigger] es@[k]),
        decreases es.len() - i,
    {
        proof {
            lemma_skip_step(ev, i as int);
        }
        if !is_renderable(&es[i].value) {
            return false;
        }
        i += 1;
    }
    true
}

fn push_lead(out: &mut Vec<char>, sep: bool)
    ensures
        final(out)@ == old(out)@ + lead(sep),
{
    if sep {
        out.push(',');
        out.push(' ');
        assert(out@ =~= old(out)@ + lead(sep));
    } else {
        assert(out@ =~= old(out)@ + lead(sep));
    }
}

fn push_indent(out: &mut Vec<char>)
    ensures
        final(out)@ == old(out)@ + indent(),
{
    out.push(' ');
    out.push(' ');
    assert(out@ =~= old(out)@ + indent());
}

fn push_line_end(out: &mut Vec<char>)
    ensures
        final(out)@ == old(out)@ + line_end(),
{
    out.push(',');
    out.push('\n');
    assert(out@ =~= old(out)@ + line_end());
}

fn push_assign(out: &mut Vec<char>)
    ensures
        final(out)@ == old(out)@ + assign(),
{
    out.push(' ');
    out.push('=');
    out.push(' ');
    assert(out@ =~= old(out)@ + assign());
}

/// Appends a key as it stands in front of `=`.
fn write_key(out: &mut Vec<char>, key: &String)
    ensures
        final(out)@ == old(out)@ + render_key(key@),
{
    let k = chars_of(key.as_str());
    if plain_name(&k) {
        push_all(out, &k);
    } else {
        out.push('[');
        quote_into(out, &k);
        out.push(']');
        assert(out@ =~= old(out)@ + render_key(key@));
    }
}

/// Appends the literal for `v`.
pub(crate) fn write_value(out: &mut Vec<char>, v: &Value)
    ensures
        final(out)@ == old(out)@ + render_value(v@),
    decreases v,
{
    let ghost before = out@;
    match v {
        Value::Absent => {
            out.push('n');
            out.push('i');
            out.push('l');
            assert(out@ =~= before + word_nil());
        },
        Value::Bool(b) => {
            if *b {
                out.push('t');
                out.push('r');
                out.push('u');
                out.push('e');
                assert(out@ =~= before + word_true());
            } else {
                out.push('f');
                out.push('a');
                out.push('l');
                out.push('s');
                out.push('e');
                assert(out@ =~= before + word_false());
            }
        },
        Value::Int(n) => {
            push_decimal(out, *n);
        },
        Value::Str(s) => {
            let cs = chars_of(s.as_str());
            quote_into(out, &cs);
        },
        Value::List(xs) => {
            proof {
                lemma_view_list(*xs);
            }
            let ghost lv = list_view(xs@);
            out.push('{');
            let mut i: usize = 0;
            assert(forall|k: int| 0 <= k < xs@.len() ==> decreases_to!(v => #[trigger] xs@[k]));
            assert(lv.skip(0) =~= lv);
            while i < xs.len()
                invariant
                    i <= xs.len(),
                    lv == list_view(xs@),
                    out@ + render_list(lv.skip(i as int), i > 0) == before + seq!['{']
                        + render_list(lv, false),
                    forall|k: int| 0 <= k < xs@.len() ==> decreases_to!(v => #[trigger] xs@[k]),
                decreases xs.len() - i,
            {
                let ghost prev = out@;
                let ghost rest = render_list(lv.skip(i as int + 1), true);
                proof {
                    lemma_skip_step(lv, i as int);
                }
                push_lead(out, i > 0);
                write_value(out, &xs[i]);
                proof {
                    let none = Seq::<char>::empty();
                    lemma_regroup(prev, lead(i > 0), render_value(lv[i as int]), rest, none, none, none);
                }
                i += 1;
            }
            assert(render_list(lv.skip(i as int), i > 0) =~= Seq::<char>::empty());
            out.push('}');
            assert(out@ =~= before + render_value(v@));
        },
        Value::Table(es) => {
            proof {
                lemma_view_table(*es);
            }
            let ghost ev = entries_view(es@);
            out.push('{');
            let mut i: usize = 0;
            let mut sep = false;
            assert(forall|k: int| 0 <= k < es@.len() ==> decreases_to!(v => #[trigger] es@[k]));
            assert(ev.skip(0) =~= ev);
            while i < es.len()
                invariant
                    i <= es.len(),
                    ev == entries_view(es@),
                    out@ + render_fields(ev.skip(i as int), sep) == before + seq!['{']
                        + render_fields(ev, false),
                    forall|k: int| 0 <= k < es@.len() ==> decreases_to!(v => #[trigger] es@[k]),
                decreases es.len() - i,
            {
                let ghost prev = out@;
                let ghost rest = render_fields(ev.skip(i as int + 1), true);
                proof {
                    lemma_skip_step(ev, i as int);
                }
                match &es[i].value {
                    Value::Absent => {},
                    value => {
                        push_lead(out, sep);
                        write_key(out, &es[i].key);
                        push_assign(out);
                        write_value(out, value);
                        proof {
                            lemma_regroup(
                                prev,
                                lead(sep),
                                render_key(ev[i as int].key),
                                assign(),
                                render_value(ev[i as int].value),
                                rest,
                                Seq::empty(),
                            );
                        }
                        sep = true;
                    },
                }
                i += 1;
            }
            assert(render_fields(ev.skip(i as int), sep) =~= Seq::<char>::empty());
            out.push('}');
            assert(out@ =~= before + render_value(v@));
        },
        Value::Opaque => {
            assert(out@ =~= before + render_value(v@));
        },
    }
}

/// Appends one line for each set entry.
fn write_lines(out: &mut Vec<char>, es: &Vec<Entry>)
    ensures
        final(out)@ == old(out)@ + render_lines(entries_view(es@)),
{
    let ghost before = out@;
    let ghost ev = entries_view(es@);
    let mut i: usize = 0;
    assert(ev.skip(0) =~= ev);
    while i < es.len()
        invariant
            i <= es.len(),
            ev == entries_view(es@),
            out@ + render_lines(ev.skip(i as int)) == before + render_lines(ev),
        decreases es.len() - i,
    {
        let ghost prev = out@;
        let ghost rest = render_lines(ev.skip(i as int + 1));
        proof {
            lemma_skip_step(ev, i as int);
        }
        match &es[i].value {
            Value::Absent => {},
            value => {
                push_indent(out);
                write_key(out, &es[i].key);
                push_assign(out);
                write_value(out, value);
                push_line_end(out);
                proof {
                    lemma_regroup(
                        prev,
                        indent(),
                        render_key(ev[i as int].key),
                        assign(),
                        render_value(ev[i as int].value),
                        line_end(),
                        rest,
                    );
                }
            },
        }
        i += 1;
    }
    assert(render_lines(ev.skip(i as int)) =~= Seq::<char>::empty());
    assert(out@ + Seq::<char>::empty() =~= out@);
}

/// Appends the assignment of the root table.
pub(crate) fn write_table(out: &mut Vec<char>, root: &Vec<char>, es: &Vec<Entry>)
    ensures
        final(out)@ == old(out)@ + render_table(root@, entries_view(es@)),
{
    let ghost before = out@;
    push_all(out, root);
    out.push(' ');
    out.push('=');
    out.push(' ');
    out.push('{');
    out.push('\n');
    assert(out@ =~= before + root@ + table_open());
    write_lines(out, es);
    out.push('}');
    out.push('\n');
    assert(out@ =~= before + render_table(root@, entries_view(es@)));
}

/// Writes the root table `root` with the entries `es`, one set entry per
/// line. Fails where the root name is no plain name, or where an entry holds
/// something without a literal form.
pub fn render(root: &str, es: &Vec<Entry>) -> (r: Result<String, RenderError>)
    ensures
        match r {
            Ok(text) => is_plain_name(root@) && entries_renderable(entries_view(es@)) && text@
                == render_table(root@, entries_view(es@)),
            Err(RenderError::InvalidRoot) => !is_plain_name(root@),
            Err(RenderError::UnsupportedValue) => is_plain_name(root@) && !entries_renderable(
                entries_view(es@),
            ),
        },
{
    let name = chars_of(root);
    if !plain_name(&name) {
        return Err(RenderError::InvalidRoot);
    }
    let ghost parent = Value::Table(*es);
    assert forall|k: int| 0 <= k < es@.len() implies decreases_to!(parent => #[trigger] es@[k]) by {
        assert(parent->Table_0 == *es);
        assert(decreases_to!(parent => parent->Table_0));
        assert(decreases_to!(*es => es@));
        assert(decreases_to!(es@ => es@[k]));
    }
    if !entries_are_renderable(es, Ghost(parent)) {
        return Err(RenderError::UnsupportedValue);
    }
    let mut out: Vec<char> = Vec::new();
    write_table(&mut out, &name, es);
    assert(Seq::<char>::empty() + render_table(root@, entries_view(es@)) =~= render_table(
        root@,
        entries_view(es@),
    ));
    Ok(string_of(&out))
}

/// The literal for one value. Fails where the value holds something without
/// a literal form.
pub fn render_literal(v: &Value) -> (r: Result<String, RenderError>)
    ensures
        match r {
            Ok(text) => renderable(v@) && text@ == render_value(v@),
            Err(e) => e == RenderError::UnsupportedValue && !renderable(v@),
        },
{
    if !is_renderable(v) {
        return Err(RenderError::UnsupportedValue);
    }
    let mut out: Vec<char> = Vec::new();
    write_value(&mut out, v);
    assert(Seq::<char>::empty() + render_value(v@) =~= render_value(v@));
    Ok(string_of(&out))
}


/// A title with its line breaks replaced by spaces.
pub(crate) fn flat_title(t: &str) -> (r: Vec<char>)
    ensures
        r@ == flatten(t@),
{
    let src = chars_of(t);
    let mut out: Vec<char> = Vec::new();
    let mut i: usize = 0;
    while i < src.len()
        invariant
            i <= src.len(),
            src@ == t@,
            out@.len() == i,
            forall|j: int| 0 <= j < i ==> out@[j] == flatten(t@)[j],
        decreases src.len() - i,
    {
        let c = src[i];
        if c == '\n' {
            out.push(' ');
        } else {
            out.push(c);
        }
        i += 1;
    }
    assert(out@ =~= flatten(t@));
    out
}

/// The contents of a list of titles.
pub open spec fn titles_view(ts: Seq<&str>) -> Seq<Seq<char>> {
    Seq::new(ts.len(), |i: int| ts[i]@)
}

/// Appends the header: each title as a comment line, then an empty line.
pub(crate) fn write_header(out: &mut Vec<char>, titles: &Vec<&str>)
    ensures
        final(out)@ == old(out)@ + render_header(titles_view(titles@)),
{
    let ghost before = out@;
    let ghost tv = titles_view(titles@);
    let mut i: usize = 0;
    assert(tv.skip(0) =~= tv);
    while i < titles.len()
        invariant
            i <= titles.len(),
            tv == titles_view(titles@),
            out@ + render_header(tv.skip(i as int)) == before + render_header(tv),
        decreases titles.len() - i,
    {
        let ghost prev = out@;
        let ghost rest = render_header(tv.skip(i as int + 1));
        proof {
            lemma_skip_step(tv, i as int);
        }
        let line = flat_title(titles[i]);
        out.push('-');
        out.push('-');
        push_all(out, &line);
        out.push('\n');
        assert(out@ =~= prev + comment_line(flatten(tv[i as int])));
        assert(prev + (comment_line(flatten(tv[i as int])) + rest) =~= out@ + rest);
        i += 1;
    }
    out.push('\n');
    assert(render_header(tv.skip(i as int)) =~= seq!['\n']);
}

/// Writes the whole text: the header with one comment line for each of
/// `titles`, then the root table `root` with the entries `es`. Fails where
/// the root name is no plain name, or where an entry holds something
/// without a literal form.
pub fn render_with_header(titles: &Vec<&str>, root: &str, es: &Vec<Entry>) -> (r: Result<
    String,
    RenderError,
>)
    ensures
        match r {
            Ok(text) => is_plain_name(root@) && entries_renderable(entries_view(es@)) && text@
                == render_document(titles_view(titles@), root@, entries_view(es@)),
            Err(RenderError::InvalidRoot) => !is_plain_name(root@),
            Err(RenderError::UnsupportedValue) => is_plain_name(root@) && !entries_renderable(
                entries_view(es@),
            ),
        },
{
    let name = chars_of(root);
    if !plain_name(&name) {
        return Err(RenderError::InvalidRoot);
    }
    let ghost parent = Value::Table(*es);
    assert forall|k: int| 0 <= k < es@.len() implies decreases_to!(parent => #[trigger] es@[k]) by {
        assert(parent->Table_0 == *es);
        assert(decreases_to!(parent => parent->Table_0));
        assert(decreases_to!(*es => es@));
        assert(decreases_to!(es@ => es@[k]));
    }
    if !entries_are_renderable(es, Ghost(parent)) {
        return Err(RenderError::UnsupportedValue);
    }
    let mut out: Vec<char> = Vec::new();
    write_header(&mut out, titles);
    write_table(&mut out, &name, es);
    assert(out@ =~= render_document(titles_view(titles@), root@, entries_view(es@)));
    Ok(string_of(&out))
}

} // verus!
