//! The reader undoes the renderer: reading the text written for a value
//! gives the value as a script sees it.

use vstd::prelude::*;
use crate::lexis::{
    all_name_chars, all_space, comment_line, ends_name, is_digit, is_name_char, is_name_start,
    is_plain_name, is_space, lemma_name_len_of, lemma_skip_blank_comment, lemma_skip_blank_props,
    lemma_skip_blank_spaces, no_line_break, skip_blank, starts_solid,
};
use crate::number::{decimal, digits_of, lemma_decimal_roundtrip, lemma_digits_of};
use crate::parse::{
    at_assign, item_entries, item_values, join_items, read_document, read_item, read_items,
    read_value, value_of_text, word_value, DocumentView, Item,
};
use crate::render::{
    assign, flatten, indent, lead, line_end, render_document, render_fields, render_header,
    render_key, render_lines, render_list, render_table, render_value, word_false, word_nil,
    word_true,
};
use crate::text::{escape, lemma_escape_roundtrip, quote};
use crate::value::{
    all_renderable, entries_renderable, renderable, settled, settled_entries, settled_list,
    EntryView, ValueView,
};

verus! {

/// Whether `t` opens with what can follow an element of a table literal.
pub open spec fn closes(t: Seq<char>) -> bool {
    t.len() > 0 && (t[0] == ',' || t[0] == '}')
}

/// The values `ys` as elements without keys.
pub open spec fn positional(ys: Seq<ValueView>) -> Seq<Item> {
    Seq::new(ys.len(), |i: int| Item { key: None, value: ys[i] })
}

/// The entries `fs` as elements with keys.
pub open spec fn keyed(fs: Seq<EntryView>) -> Seq<Item> {
    Seq::new(fs.len(), |i: int| Item { key: Some(fs[i].key), value: fs[i].value })
}

proof fn lemma_words()
    ensures
        all_name_chars(word_nil()),
        all_name_chars(word_true()),
        all_name_chars(word_false()),
{
    assert forall|i: int| 0 <= i < word_nil().len() implies is_name_char(
        #[trigger] word_nil()[i],
    ) by {
        if i == 0 {
        } else if i == 1 {
        } else {
        }
    }
    assert forall|i: int| 0 <= i < word_true().len() implies is_name_char(
        #[trigger] word_true()[i],
    ) by {
        if i == 0 {
        } else if i == 1 {
        } else if i == 2 {
        } else {
        }
    }
    assert forall|i: int| 0 <= i < word_false().len() implies is_name_char(
        #[trigger] word_false()[i],
    ) by {
        if i == 0 {
        } else if i == 1 {
        } else if i == 2 {
        } else if i == 3 {
        } else {
        }
    }
}

/// How the literal of a value begins.
proof fn lemma_render_head(v: ValueView)
    requires
        renderable(v),
    ensures
        ({
            let r = render_value(v);
            &&& r.len() > 0
            &&& !is_space(r[0])
            &&& r[0] != '[' && r[0] != '}' && r[0] != ',' && r[0] != ';' && r[0] != '='
            &&& r[0] == '-' ==> r.len() >= 2 && is_digit(r[1])
            &&& is_name_start(r[0]) ==> (r == word_nil() || r == word_true() || r == word_false())
                && word_value(r) == Some(settled(v))
        }),
{
    match v {
        ValueView::Int(n) => {
            let m: nat = if n < 0 {
                (-n) as nat
            } else {
                n as nat
            };
            lemma_digits_of(m);
            let d = digits_of(m);
            assert(is_digit(d[0]));
            if n < 0 {
                assert(decimal(n)[1] == d[0]);
            } else {
                assert(decimal(n)[0] == d[0]);
            }
        },
        ValueView::Absent => {},
        ValueView::Bool(b) => {
            assert(word_true()[0] == 't');
            assert(word_false()[0] == 'f');
            assert(word_nil()[0] == 'n');
        },
        ValueView::Str(s) => {},
        ValueView::List(xs) => {},
        ValueView::Table(es) => {},
        ValueView::Opaque => {},
    }
}

proof fn lemma_closes(t: Seq<char>)
    requires
        closes(t),
    ensures
        ends_name(t),
        starts_solid(t),
        skip_blank(t) == t,
        !at_assign(t),
{
    lemma_skip_blank_props(t);
}

/// A literal in front of what closes an element stands solid.
proof fn lemma_body_solid(v: ValueView, tail: Seq<char>)
    requires
        renderable(v),
    ensures
        starts_solid(render_value(v) + tail),
        skip_blank(render_value(v) + tail) == render_value(v) + tail,
        skip_blank(seq![' '] + (render_value(v) + tail)) == render_value(v) + tail,
        (render_value(v) + tail).len() > 0,
        (render_value(v) + tail)[0] == render_value(v)[0],
{
    lemma_render_head(v);
    let r = render_value(v);
    let body = r + tail;
    assert(body[0] == r[0]);
    if r[0] == '-' {
        assert(body[1] == r[1]);
    }
    lemma_skip_blank_props(body);
    assert(all_space(seq![' ']));
    lemma_skip_blank_spaces(seq![' '], body);
}

/// A literal without a key, read as an element.
proof fn lemma_positional_item(v: ValueView, tail: Seq<char>)
    requires
        renderable(v),
        closes(tail),
        read_value(render_value(v) + tail) == Some((settled(v), tail)),
    ensures
        read_item(render_value(v) + tail) == Some((Item { key: None, value: settled(v) }, tail)),
{
    let r = render_value(v);
    let s = r + tail;
    lemma_render_head(v);
    lemma_closes(tail);
    assert(s[0] == r[0]);
    if is_name_start(s[0]) {
        lemma_words();
        lemma_name_len_of(r, tail);
        assert(s.take(r.len() as int) =~= r);
        assert(s.skip(r.len() as int) =~= tail);
    }
}

/// What follows a key: `=` between two spaces, and then the literal.
proof fn lemma_after_key(v: ValueView, tail: Seq<char>)
    requires
        renderable(v),
    ensures
        ({
            let body = render_value(v) + tail;
            let after = assign() + body;
            let eq = skip_blank(after);
            &&& ends_name(after)
            &&& at_assign(eq)
            &&& skip_blank(eq.skip(1)) == body
        }),
{
    let body = render_value(v) + tail;
    let after = assign() + body;
    lemma_body_solid(v, tail);
    let eq = seq!['=', ' '] + body;
    assert(after[0] == ' ');
    assert(after.skip(1) =~= eq);
    assert(eq[0] == '=' && eq[1] == ' ');
    lemma_skip_blank_props(eq);
    assert(skip_blank(after) == eq);
    assert(eq.skip(1) =~= seq![' '] + body);
}

/// A key, `=` and a literal, read as an element.
proof fn lemma_keyed_item(k: Seq<char>, v: ValueView, tail: Seq<char>)
    requires
        renderable(v),
        closes(tail),
        read_value(render_value(v) + tail) == Some((settled(v), tail)),
    ensures
        read_item(render_key(k) + assign() + render_value(v) + tail) == Some(
            (Item { key: Some(k), value: settled(v) }, tail),
        ),
{
    let body = render_value(v) + tail;
    let after = assign() + body;
    let s = render_key(k) + assign() + render_value(v) + tail;
    assert(s =~= render_key(k) + after);
    lemma_after_key(v, tail);
    if is_plain_name(k) {
        assert(s[0] == k[0]);
        lemma_name_len_of(k, after);
        assert(s.take(k.len() as int) =~= k);
        assert(s.skip(k.len() as int) =~= after);
    } else {
        let closing = seq![']'] + after;
        assert(s[0] == '[');
        assert(s.skip(1) =~= quote(k) + closing);
        let q = quote(k) + closing;
        assert(q[0] == '"');
        lemma_skip_blank_props(q);
        assert(q.skip(1) =~= escape(k) + seq!['"'] + closing);
        lemma_escape_roundtrip(k, closing);
        assert(closing[0] == ']');
        lemma_skip_blank_props(closing);
        assert(closing.skip(1) =~= after);
    }
}

/// The reader's step over one element that is followed by what closes it.
proof fn lemma_items_step(w: Seq<char>, x: Seq<char>, item: Item, tail: Seq<char>)
    requires
        all_space(w),
        starts_solid(x),
        x.len() > 0,
        x[0] != '}',
        read_item(x) == Some((item, tail)),
        closes(tail),
        tail.len() <= x.len(),
    ensures
        read_items(w + x) == if tail[0] == '}' {
            Some((seq![item], tail.skip(1)))
        } else {
            join_items(seq![item], read_items(tail.skip(1)))
        },
{
    lemma_skip_blank_spaces(w, x);
    lemma_skip_blank_props(x);
    lemma_closes(tail);
}

/// The elements behind the first are the same text whether or not
/// something was written before them, but for the comma.
proof fn lemma_list_sep(xs: Seq<ValueView>)
    ensures
        render_list(xs, true) == if xs.len() == 0 {
            Seq::<char>::empty()
        } else {
            lead(true) + render_list(xs, false)
        },
{
    if xs.len() > 0 {
        let a = render_value(xs[0]);
        let b = render_list(xs.skip(1), true);
        assert(lead(true) + a + b =~= lead(true) + (lead(false) + a + b));
    }
}

proof fn lemma_fields_sep(es: Seq<EntryView>)
    ensures
        settled_entries(es).len() == 0 ==> render_fields(es, true) == Seq::<char>::empty()
            && render_fields(es, false) == Seq::<char>::empty(),
        settled_entries(es).len() > 0 ==> render_fields(es, true) == lead(true) + render_fields(
            es,
            false,
        ),
    decreases es.len(),
{
    if es.len() == 0 {
    } else if es[0].value is Absent {
        lemma_fields_sep(es.skip(1));
    } else {
        let a = render_key(es[0].key) + assign() + render_value(es[0].value);
        let b = render_fields(es.skip(1), true);
        assert(lead(true) + render_key(es[0].key) + assign() + render_value(es[0].value) + b
            =~= lead(true) + (lead(false) + render_key(es[0].key) + assign() + render_value(
            es[0].value,
        ) + b));
    }
}


/// The brace that closes a table literal.
pub open spec fn brace_close() -> Seq<char> {
    seq!['}']
}

/// Reading the literal of a value gives the value as a script sees it, and
/// leaves what stood behind the literal, provided that this does not run on
/// like a name or a number.
pub proof fn lemma_value_roundtrip(v: ValueView, rest: Seq<char>)
    requires
        renderable(v),
        ends_name(rest),
    ensures
        read_value(render_value(v) + rest) == Some((settled(v), rest)),
    decreases v,
{
    let r = render_value(v);
    let s = r + rest;
    lemma_render_head(v);
    assert(s[0] == r[0]);
    match v {
        ValueView::Absent => {
            lemma_words();
            lemma_name_len_of(r, rest);
            assert(s.take(r.len() as int) =~= r);
            assert(s.skip(r.len() as int) =~= rest);
        },
        ValueView::Bool(b) => {
            lemma_words();
            lemma_name_len_of(r, rest);
            assert(s.take(r.len() as int) =~= r);
            assert(s.skip(r.len() as int) =~= rest);
        },
        ValueView::Int(n) => {
            lemma_decimal_roundtrip(n, rest);
        },
        ValueView::Str(t) => {
            assert(s.skip(1) =~= escape(t) + seq!['"'] + rest);
            lemma_escape_roundtrip(t, rest);
        },
        ValueView::List(xs) => {
            let inner = render_list(xs, false) + brace_close() + rest;
            assert(s.skip(1) =~= Seq::<char>::empty() + inner);
            lemma_list_roundtrip(xs, Seq::empty(), rest);
            let items = positional(settled_list(xs));
            assert(item_values(items) =~= settled_list(xs));
        },
        ValueView::Table(es) => {
            let inner = render_fields(es, false) + brace_close() + rest;
            assert(s.skip(1) =~= Seq::<char>::empty() + inner);
            lemma_fields_roundtrip(es, Seq::empty(), rest);
            let fs = settled_entries(es);
            let items = keyed(fs);
            if fs.len() == 0 {
                assert(item_values(items) =~= Seq::<ValueView>::empty());
            } else {
                assert(items[0].key is Some);
                assert(item_entries(items) =~= fs);
            }
        },
        ValueView::Opaque => {},
    }
}

/// Reading the literal of a value as a text of its own gives the value as a
/// script sees it.
pub proof fn lemma_literal_roundtrip(v: ValueView)
    requires
        renderable(v),
    ensures
        value_of_text(render_value(v)) == Some(settled(v)),
{
    let none = Seq::<char>::empty();
    lemma_value_roundtrip(v, none);
    lemma_body_solid(v, none);
    assert(render_value(v) + none =~= render_value(v));
}

/// Reading the elements written for a list, up to the closing brace, gives
/// the elements as a script sees them.
pub proof fn lemma_list_roundtrip(xs: Seq<ValueView>, w: Seq<char>, rest: Seq<char>)
    requires
        all_renderable(xs),
        all_space(w),
    ensures
        read_items(w + (render_list(xs, false) + brace_close() + rest)) == Some(
            (positional(settled_list(xs)), rest),
        ),
    decreases xs,
{
    let s = render_list(xs, false) + brace_close() + rest;
    if xs.len() == 0 {
        assert(s =~= brace_close() + rest);
        assert(s[0] == '}');
        lemma_skip_blank_spaces(w, s);
        lemma_skip_blank_props(s);
        assert(s.skip(1) =~= rest);
        assert(positional(settled_list(xs)) =~= Seq::<Item>::empty());
    } else {
        let v = xs[0];
        let more = xs.skip(1);
        let tail = render_list(more, true) + brace_close() + rest;
        let x = render_value(v) + tail;
        assert(s =~= x);
        lemma_list_sep(more);
        assert(tail[0] == if more.len() == 0 {
            '}'
        } else {
            ','
        });
        lemma_closes(tail);
        lemma_value_roundtrip(v, tail);
        lemma_positional_item(v, tail);
        lemma_body_solid(v, tail);
        lemma_render_head(v);
        let item = Item { key: None, value: settled(v) };
        lemma_items_step(w, x, item, tail);
        if more.len() == 0 {
            assert(tail.skip(1) =~= rest);
            assert(positional(settled_list(xs)) =~= seq![item]);
        } else {
            let next = render_list(more, false) + brace_close() + rest;
            assert(tail.skip(1) =~= seq![' '] + next);
            assert(all_space(seq![' ']));
            lemma_list_roundtrip(more, seq![' '], rest);
            assert(positional(settled_list(xs)) =~= seq![item] + positional(settled_list(more)));
        }
    }
}

/// A set entry at the front of the entries of a table, taken apart.
proof fn lemma_fields_unfold(es: Seq<EntryView>, rest: Seq<char>)
    requires
        es.len() > 0,
        !(es[0].value is Absent),
    ensures
        render_fields(es, false) + brace_close() + rest == render_key(es[0].key) + assign()
            + render_value(es[0].value) + (render_fields(es.skip(1), true) + brace_close() + rest),
        settled_entries(es) == seq![EntryView { key: es[0].key, value: settled(es[0].value) }]
            + settled_entries(es.skip(1)),
{
    let k = render_key(es[0].key);
    let v = render_value(es[0].value);
    let more = render_fields(es.skip(1), true);
    assert(lead(false) + k + assign() + v + more + brace_close() + rest =~= k + assign() + v + (more
        + brace_close() + rest));
}

/// The reader's step over a written entry with its key.
proof fn lemma_entry_step(w: Seq<char>, k: Seq<char>, v: ValueView, tail: Seq<char>)
    requires
        all_space(w),
        renderable(v),
        closes(tail),
        read_value(render_value(v) + tail) == Some((settled(v), tail)),
    ensures
        read_items(w + (render_key(k) + assign() + render_value(v) + tail)) == if tail[0] == '}' {
            Some((seq![Item { key: Some(k), value: settled(v) }], tail.skip(1)))
        } else {
            join_items(
                seq![Item { key: Some(k), value: settled(v) }],
                read_items(tail.skip(1)),
            )
        },
{
    let x = render_key(k) + assign() + render_value(v) + tail;
    lemma_keyed_item(k, v, tail);
    lemma_key_head(k, assign() + render_value(v) + tail);
    assert(x =~= render_key(k) + (assign() + render_value(v) + tail));
    lemma_items_step(w, x, Item { key: Some(k), value: settled(v) }, tail);
}

/// What follows a written entry: the closing brace where no set entry
/// comes behind it, else a comma, a space and the entries that come.
proof fn lemma_fields_tail(more: Seq<EntryView>, rest: Seq<char>)
    ensures
        ({
            let tail = render_fields(more, true) + brace_close() + rest;
            &&& closes(tail)
            &&& settled_entries(more).len() == 0 ==> tail[0] == '}' && tail.skip(1) == rest
            &&& settled_entries(more).len() > 0 ==> tail[0] == ',' && tail.skip(1) == seq![' '] + (
            render_fields(more, false) + brace_close() + rest)
        }),
{
    lemma_fields_sep(more);
    let tail = render_fields(more, true) + brace_close() + rest;
    if settled_entries(more).len() == 0 {
        assert(tail =~= brace_close() + rest);
        assert(tail.skip(1) =~= rest);
    } else {
        let next = render_fields(more, false) + brace_close() + rest;
        assert(tail =~= lead(true) + next);
        assert(tail.skip(1) =~= seq![' '] + next);
    }
}

/// Reading the entries written for a table, up to the closing brace, gives
/// the set entries as a script sees them.
pub proof fn lemma_fields_roundtrip(es: Seq<EntryView>, w: Seq<char>, rest: Seq<char>)
    requires
        entries_renderable(es),
        all_space(w),
    ensures
        read_items(w + (render_fields(es, false) + brace_close() + rest)) == Some(
            (keyed(settled_entries(es)), rest),
        ),
    decreases es,
{
    if es.len() == 0 {
        let s = render_fields(es, false) + brace_close() + rest;
        assert(s =~= brace_close() + rest);
        assert(s[0] == '}');
        lemma_skip_blank_spaces(w, s);
        lemma_skip_blank_props(s);
        assert(s.skip(1) =~= rest);
        assert(keyed(settled_entries(es)) =~= Seq::<Item>::empty());
    } else if es[0].value is Absent {
        lemma_fields_roundtrip(es.skip(1), w, rest);
    } else {
        let k = es[0].key;
        let v = es[0].value;
        let more = es.skip(1);
        let tail = render_fields(more, true) + brace_close() + rest;
        let item = Item { key: Some(k), value: settled(v) };
        lemma_fields_unfold(es, rest);
        lemma_fields_tail(more, rest);
        lemma_value_roundtrip(v, tail);
        lemma_entry_step(w, k, v, tail);
        if settled_entries(more).len() == 0 {
            assert(keyed(settled_entries(es)) =~= seq![item]);
        } else {
            assert(all_space(seq![' ']));
            lemma_fields_roundtrip(more, seq![' '], rest);
            assert(keyed(settled_entries(es)) =~= seq![item] + keyed(settled_entries(more)));
        }
    }
}

/// A key in front of other text stands solid and is no closing brace.
proof fn lemma_key_head(k: Seq<char>, after: Seq<char>)
    ensures
        starts_solid(render_key(k) + after),
        (render_key(k) + after).len() > 0,
        (render_key(k) + after)[0] != '}',
        (render_key(k) + after).len() > after.len(),
{
    let s = render_key(k) + after;
    if is_plain_name(k) {
        assert(s[0] == k[0]);
    } else {
        assert(s[0] == '[');
    }
}


/// A set entry at the front of the lines of a root table, taken apart.
proof fn lemma_lines_unfold(es: Seq<EntryView>, w: Seq<char>, rest: Seq<char>)
    requires
        es.len() > 0,
        !(es[0].value is Absent),
        all_space(w),
    ensures
        ({
            let next = render_lines(es.skip(1)) + brace_close() + rest;
            let tail = line_end() + next;
            &&& w + (render_lines(es) + brace_close() + rest) == (w + indent()) + (render_key(
                es[0].key,
            ) + assign() + render_value(es[0].value) + tail)
            &&& all_space(w + indent())
            &&& closes(tail)
            &&& tail[0] == ','
            &&& tail.skip(1) == seq!['\n'] + next
        }),
{
    let next = render_lines(es.skip(1)) + brace_close() + rest;
    let tail = line_end() + next;
    let k = render_key(es[0].key);
    let v = render_value(es[0].value);
    let wide = w + indent();
    assert(w + (indent() + k + assign() + v + line_end() + render_lines(es.skip(1)) + brace_close()
        + rest) =~= wide + (k + assign() + v + tail));
    assert forall|i: int| 0 <= i < wide.len() implies is_space(#[trigger] wide[i]) by {
        if i < w.len() {
            assert(wide[i] == w[i]);
        } else {
            assert(wide[i] == indent()[i - w.len()]);
        }
    }
    assert(tail[0] == ',');
    assert(tail.skip(1) =~= seq!['\n'] + next);
}

/// Reading the lines written for the entries of a root table, up to the
/// closing brace, gives the set entries as a script sees them.
pub proof fn lemma_lines_roundtrip(es: Seq<EntryView>, w: Seq<char>, rest: Seq<char>)
    requires
        entries_renderable(es),
        all_space(w),
    ensures
        read_items(w + (render_lines(es) + brace_close() + rest)) == Some(
            (keyed(settled_entries(es)), rest),
        ),
    decreases es.len(),
{
    if es.len() == 0 {
        let s = render_lines(es) + brace_close() + rest;
        assert(s =~= brace_close() + rest);
        assert(s[0] == '}');
        lemma_skip_blank_spaces(w, s);
        lemma_skip_blank_props(s);
        assert(s.skip(1) =~= rest);
        assert(keyed(settled_entries(es)) =~= Seq::<Item>::empty());
    } else if es[0].value is Absent {
        lemma_lines_roundtrip(es.skip(1), w, rest);
    } else {
        let k = es[0].key;
        let v = es[0].value;
        let more = es.skip(1);
        let next = render_lines(more) + brace_close() + rest;
        let tail = line_end() + next;
        let item = Item { key: Some(k), value: settled(v) };
        lemma_lines_unfold(es, w, rest);
        lemma_value_roundtrip(v, tail);
        lemma_entry_step(w + indent(), k, v, tail);
        assert(all_space(seq!['\n']));
        lemma_lines_roundtrip(more, seq!['\n'], rest);
        assert(keyed(settled_entries(es)) =~= seq![item] + keyed(settled_entries(more)));
    }
}

/// The header is skipped with the blanks of what follows it.
pub proof fn lemma_header_skipped(titles: Seq<Seq<char>>, x: Seq<char>)
    ensures
        skip_blank(render_header(titles) + x) == skip_blank(x),
    decreases titles.len(),
{
    if titles.len() == 0 {
        assert(all_space(seq!['\n']));
        lemma_skip_blank_spaces(seq!['\n'], x);
    } else {
        let t = flatten(titles[0]);
        let more = render_header(titles.skip(1)) + x;
        assert(render_header(titles) + x =~= comment_line(t) + more);
        assert(no_line_break(t));
        lemma_skip_blank_comment(t, more);
        lemma_header_skipped(titles.skip(1), x);
    }
}

/// Reading a rendered text gives back the root name and the set entries as
/// a script sees them: every written key is there with the value that was
/// written for it, in the order of writing, and no unset entry is.
pub proof fn lemma_document_roundtrip(titles: Seq<Seq<char>>, root: Seq<char>, es: Seq<EntryView>)
    requires
        is_plain_name(root),
        entries_renderable(es),
    ensures
        read_document(render_document(titles, root, es)) == Some(
            DocumentView { root, entries: settled_entries(es) },
        ),
{
    let lines = render_lines(es) + brace_close() + seq!['\n'];
    let opened = seq!['{'] + (seq!['\n'] + lines);
    let eq = seq!['='] + (seq![' '] + opened);
    let after = seq![' '] + eq;
    let x = root + after;
    assert(render_table(root, es) =~= x);
    lemma_header_skipped(titles, x);
    assert(x[0] == root[0]);
    lemma_skip_blank_props(x);
    assert(after[0] == ' ');
    lemma_name_len_of(root, after);
    assert(x.take(root.len() as int) =~= root);
    assert(x.skip(root.len() as int) =~= after);
    assert(all_space(seq![' ']));
    lemma_skip_blank_spaces(seq![' '], eq);
    assert(eq[0] == '=' && eq[1] == ' ');
    lemma_skip_blank_props(eq);
    assert(eq.skip(1) =~= seq![' '] + opened);
    lemma_skip_blank_spaces(seq![' '], opened);
    assert(opened[0] == '{');
    lemma_skip_blank_props(opened);
    assert(opened.skip(1) =~= seq!['\n'] + lines);
    assert(all_space(seq!['\n']));
    lemma_lines_roundtrip(es, seq!['\n'], seq!['\n']);
    let fs = settled_entries(es);
    lemma_skip_blank_spaces(seq!['\n'], Seq::empty());
    assert(seq!['\n'] + Seq::<char>::empty() =~= seq!['\n']);
    assert(item_entries(keyed(fs)) =~= fs);
}

} // verus!
