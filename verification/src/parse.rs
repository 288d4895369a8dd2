//! Reading script text back: the grammar of the table literals that the
//! renderer writes, and of what a user may reasonably make of them by hand.

use vstd::prelude::*;
use crate::lexis::{
    blank_end, is_digit, is_name_start, is_reserved, lemma_name_len_bound,
    lemma_skip_blank_props, name_end, name_len, name_start, reserved, skip_blank, slice_of,
};
use crate::number::{lemma_digits_len_bound, read_int, scan_int};
use crate::render::{word_false, word_nil, word_true};
use crate::text::{
    chars_of, lemma_read_literal_consumes, lemma_skip_more, lemma_skip_step, read_literal,
    scan_literal, string_of,
};
use crate::value::{entries_view, lemma_view_list, lemma_view_table, list_view, Entry, EntryView, Value, ValueView};

verus! {

/// One element of a table literal as it was read: a value, with the key it
/// was assigned to where it had one.
pub struct Item {
    pub key: Option<Seq<char>>,
    pub value: ValueView,
}

/// The value that a bare word denotes.
pub open spec fn word_value(w: Seq<char>) -> Option<ValueView> {
    if w == word_nil() {
        Some(ValueView::Absent)
    } else if w == word_true() {
        Some(ValueView::Bool(true))
    } else if w == word_false() {
        Some(ValueView::Bool(false))
    } else {
        None
    }
}

/// Whether `s` opens with a single `=`.
pub open spec fn at_assign(s: Seq<char>) -> bool {
    s.len() > 0 && s[0] == '=' && !(s.len() > 1 && s[1] == '=')
}

/// Whether no element has a key.
pub open spec fn all_positional(items: Seq<Item>) -> bool {
    forall|i: int| 0 <= i < items.len() ==> (#[trigger] items[i]).key is None
}

/// Whether every element has a key.
pub open spec fn all_keyed(items: Seq<Item>) -> bool {
    forall|i: int| 0 <= i < items.len() ==> (#[trigger] items[i]).key is Some
}

/// The values of the elements, in order.
pub open spec fn item_values(items: Seq<Item>) -> Seq<ValueView> {
    Seq::new(items.len(), |i: int| items[i].value)
}

/// The elements as entries, each with its key.
pub open spec fn item_entries(items: Seq<Item>) -> Seq<EntryView> {
    Seq::new(items.len(), |i: int| EntryView { key: items[i].key->0, value: items[i].value })
}

/// The value of a table literal with the elements `items`: a list where no
/// element has a key (the empty literal too), a table where each has one.
/// A literal that mixes the two is not accepted.
pub open spec fn assemble(items: Seq<Item>) -> Option<ValueView> {
    if all_positional(items) {
        Some(ValueView::List(item_values(items)))
    } else if all_keyed(items) {
        Some(ValueView::Table(item_entries(items)))
    } else {
        None
    }
}

/// Reads one value at the front of `s`: the value and what follows it.
pub open spec fn read_value(s: Seq<char>) -> Option<(ValueView, Seq<char>)>
    decreases s.len(), 0nat,
{
    if s.len() == 0 {
        None
    } else if s[0] == '"' {
        match read_literal(s.skip(1)) {
            None => None,
            Some((t, rest)) => Some((ValueView::Str(t), rest)),
        }
    } else if s[0] == '{' {
        match read_items(s.skip(1)) {
            None => None,
            Some((items, rest)) => match assemble(items) {
                None => None,
                Some(v) => Some((v, rest)),
            },
        }
    } else if s[0] == '-' || is_digit(s[0]) {
        match read_int(s) {
            None => None,
            Some((n, rest)) => Some((ValueView::Int(n), rest)),
        }
    } else if is_name_start(s[0]) {
        let n = name_len(s) as int;
        match word_value(s.take(n)) {
            None => None,
            Some(v) => Some((v, s.skip(n))),
        }
    } else {
        None
    }
}

/// Reads one element of a table literal at the front of `s`, which starts
/// with neither a blank nor the closing brace.
pub open spec fn read_item(s: Seq<char>) -> Option<(Item, Seq<char>)>
    decreases s.len(), 1nat,
{
    if s.len() == 0 {
        None
    } else if s[0] == '[' {
        let s1 = skip_blank(s.skip(1));
        if s1.len() == 0 || s1[0] != '"' {
            None
        } else {
            match read_literal(s1.skip(1)) {
                None => None,
                Some((k, s2)) => {
                    let s3 = skip_blank(s2);
                    if s3.len() == 0 || s3[0] != ']' {
                        None
                    } else {
                        let s4 = skip_blank(s3.skip(1));
                        if !at_assign(s4) {
                            None
                        } else {
                            proof {
                                lemma_skip_blank_props(s.skip(1));
                                lemma_read_literal_consumes(s1.skip(1));
                                lemma_skip_blank_props(s2);
                                lemma_skip_blank_props(s3.skip(1));
                                lemma_skip_blank_props(s4.skip(1));
                            }
                            match read_value(skip_blank(s4.skip(1))) {
                                None => None,
                                Some((v, rest)) => Some((Item { key: Some(k), value: v }, rest)),
                            }
                        }
                    }
                },
            }
        }
    } else if is_name_start(s[0]) {
        let n = name_len(s) as int;
        let w = s.take(n);
        let s1 = skip_blank(s.skip(n));
        if at_assign(s1) {
            if is_reserved(w) {
                None
            } else {
                proof {
                    lemma_name_len_bound(s);
                    lemma_skip_blank_props(s.skip(n));
                    lemma_skip_blank_props(s1.skip(1));
                }
                match read_value(skip_blank(s1.skip(1))) {
                    None => None,
                    Some((v, rest)) => Some((Item { key: Some(w), value: v }, rest)),
                }
            }
        } else {
            match word_value(w) {
                None => None,
                Some(v) => Some((Item { key: None, value: v }, s.skip(n))),
            }
        }
    } else {
        match read_value(s) {
            None => None,
            Some((v, rest)) => Some((Item { key: None, value: v }, rest)),
        }
    }
}

/// Reads the elements of a table literal up to its closing brace, the
/// opening brace already consumed. Elements are parted by `,` or `;`, and
/// one of these may follow the last.
pub open spec fn read_items(s: Seq<char>) -> Option<(Seq<Item>, Seq<char>)>
    decreases s.len(), 2nat,
{
    let s0 = skip_blank(s);
    if s0.len() == 0 {
        None
    } else if s0[0] == '}' {
        Some((Seq::empty(), s0.skip(1)))
    } else {
        proof {
            lemma_skip_blank_props(s);
        }
        match read_item(s0) {
            None => None,
            Some((item, r)) => {
                let r1 = skip_blank(r);
                if r1.len() == 0 || r1.len() > s0.len() {
                    None
                } else if r1[0] == '}' {
                    Some((seq![item], r1.skip(1)))
                } else if r1[0] == ',' || r1[0] == ';' {
                    match read_items(r1.skip(1)) {
                        None => None,
                        Some((more, rest)) => Some((seq![item] + more, rest)),
                    }
                } else {
                    None
                }
            },
        }
    }
}

/// What a text says: the name of its root table and the entries of that
/// table.
pub struct DocumentView {
    pub root: Seq<char>,
    pub entries: Seq<EntryView>,
}

/// Reads a whole text: blanks and comments, the root name, `=`, one table
/// literal, and nothing but blanks and comments after it. The root table
/// holds entries with keys, or nothing.
pub open spec fn read_document(s: Seq<char>) -> Option<DocumentView> {
    let s0 = skip_blank(s);
    let n = name_len(s0) as int;
    let root = s0.take(n);
    let s1 = skip_blank(s0.skip(n));
    if n == 0 || !is_name_start(s0[0]) || is_reserved(root) || !at_assign(s1) {
        None
    } else {
        let s2 = skip_blank(s1.skip(1));
        if s2.len() == 0 || s2[0] != '{' {
            None
        } else {
            match read_items(s2.skip(1)) {
                None => None,
                Some((items, rest)) => if skip_blank(rest).len() == 0 && all_keyed(items) {
                    Some(DocumentView { root, entries: item_entries(items) })
                } else {
                    None
                },
            }
        }
    }
}

/// Every reading consumes something.
pub proof fn lemma_read_consumes(s: Seq<char>)
    ensures
        read_value(s) matches Some((v, rest)) ==> rest.len() < s.len(),
        read_item(s) matches Some((it, rest)) ==> rest.len() < s.len(),
        read_items(s) matches Some((its, rest)) ==> rest.len() < s.len(),
    decreases s.len(),
{
    if s.len() > 0 {
        // values
        if s[0] == '"' {
            lemma_read_literal_consumes(s.skip(1));
        } else if s[0] == '{' {
            lemma_read_consumes(s.skip(1));
        } else if s[0] == '-' || is_digit(s[0]) {
            lemma_digits_len_bound(s);
            lemma_digits_len_bound(s.skip(1));
        } else if is_name_start(s[0]) {
            lemma_name_len_bound(s);
        }
        // one element
        if s[0] == '[' {
            let s1 = skip_blank(s.skip(1));
            lemma_skip_blank_props(s.skip(1));
            if s1.len() > 0 {
                lemma_read_literal_consumes(s1.skip(1));
                match read_literal(s1.skip(1)) {
                    None => {},
                    Some((k, s2)) => {
                        let s3 = skip_blank(s2);
                        lemma_skip_blank_props(s2);
                        if s3.len() > 0 {
                            let s4 = skip_blank(s3.skip(1));
                            lemma_skip_blank_props(s3.skip(1));
                            if s4.len() > 0 {
                                lemma_skip_blank_props(s4.skip(1));
                                lemma_read_consumes(skip_blank(s4.skip(1)));
                            }
                        }
                    },
                }
            }
        } else if is_name_start(s[0]) {
            let n = name_len(s) as int;
            lemma_name_len_bound(s);
            let s1 = skip_blank(s.skip(n));
            lemma_skip_blank_props(s.skip(n));
            if s1.len() > 0 {
                lemma_skip_blank_props(s1.skip(1));
                lemma_read_consumes(skip_blank(s1.skip(1)));
            }
        }
    }
    // the elements
    let s0 = skip_blank(s);
    lemma_skip_blank_props(s);
    if s0.len() > 0 && s0[0] != '}' {
        if s0.len() < s.len() {
            lemma_read_consumes(s0);
        }
        match read_item(s0) {
            None => {},
            Some((item, r)) => {
                let r1 = skip_blank(r);
                lemma_skip_blank_props(r);
                if r1.len() > 0 && r1.len() <= s0.len() && (r1[0] == ',' || r1[0] == ';') {
                    lemma_read_consumes(r1.skip(1));
                }
            },
        }
    }
}


/// One element of a table literal as the reader holds it.
pub struct RawItem {
    pub key: Option<String>,
    pub value: Value,
}

impl View for RawItem {
    type V = Item;

    open spec fn view(&self) -> Item {
        Item {
            key: match self.key {
                Some(k) => Some(k@),
                None => None,
            },
            value: self.value@,
        }
    }
}

/// The contents of the elements that the reader holds.
pub open spec fn items_view(rs: Seq<RawItem>) -> Seq<Item> {
    Seq::new(rs.len(), |i: int| rs[i]@)
}

/// Puts `head` in front of the elements of a successful reading.
pub open spec fn join_items(head: Seq<Item>, r: Option<(Seq<Item>, Seq<char>)>) -> Option<
    (Seq<Item>, Seq<char>),
> {
    match r {
        None => None,
        Some((more, rest)) => Some((head + more, rest)),
    }
}

/// The value that the bare word `w` denotes.
fn word_of(w: &Vec<char>) -> (r: Option<Value>)
    ensures
        match r {
            None => word_value(w@) is None,
            Some(v) => word_value(w@) == Some(v@),
        },
{
    if w.len() == 3 && w[0] == 'n' && w[1] == 'i' && w[2] == 'l' {
        assert(w@ =~= word_nil());
        Some(Value::Absent)
    } else if w.len() == 4 && w[0] == 't' && w[1] == 'r' && w[2] == 'u' && w[3] == 'e' {
        assert(w@ =~= word_true());
        Some(Value::Bool(true))
    } else if w.len() == 5 && w[0] == 'f' && w[1] == 'a' && w[2] == 'l' && w[3] == 's' && w[4]
        == 'e' {
        assert(w@ =~= word_false());
        Some(Value::Bool(false))
    } else {
        None
    }
}

/// Whether a single `=` stands at `pos`.
fn assign_at(src: &Vec<char>, pos: usize) -> (r: bool)
    requires
        pos <= src.len(),
    ensures
        r == at_assign(src@.skip(pos as int)),
{
    proof {
        if pos < src.len() {
            lemma_skip_step(src@, pos as int);
        }
        if pos + 1 < src.len() {
            assert(src@.skip(pos as int)[1] == src@[pos + 1]);
        }
    }
    pos < src.len() && src[pos] == '=' && !(pos + 1 < src.len() && src[pos + 1] == '=')
}

/// The value of a table literal with the elements `items`.
fn build(items: Vec<RawItem>) -> (r: Option<Value>)
    ensures
        match r {
            None => assemble(items_view(items@)) is None,
            Some(v) => assemble(items_view(items@)) == Some(v@),
        },
{
    let ghost iv = items_view(items@);
    let ghost mut keyed_at: int = 0;
    let ghost mut bare_at: int = 0;
    let mut values: Vec<Value> = Vec::new();
    let mut entries: Vec<Entry> = Vec::new();
    for item in it: items
        invariant
            it.seq() == items@,
            iv == items_view(items@),
            entries@.len() > 0 ==> 0 <= keyed_at < it.index() && iv[keyed_at].key is Some,
            values@.len() > 0 ==> 0 <= bare_at < it.index() && iv[bare_at].key is None,
            entries@.len() == 0 ==> values@.len() == it.index(),
            values@.len() == 0 ==> entries@.len() == it.index(),
            entries@.len() == 0 ==> forall|j: int|
                0 <= j < it.index() ==> (#[trigger] iv[j]).key is None && values@[j]@
                    == iv[j].value,
            values@.len() == 0 ==> forall|j: int|
                0 <= j < it.index() ==> (#[trigger] iv[j]).key is Some && entries@[j].key@
                    == iv[j].key->0 && entries@[j].value@ == iv[j].value,
    {
        let ghost n = it.index() as int;
        assert(iv[n] == item@);
        match item.key {
            Some(k) => {
                entries.push(Entry { key: k, value: item.value });
                proof {
                    keyed_at = n;
                }
            },
            None => {
                values.push(item.value);
                proof {
                    bare_at = n;
                }
            },
        }
    }
    if entries.len() == 0 {
        proof {
            lemma_view_list(values);
            assert(list_view(values@) =~= item_values(iv));
        }
        Some(Value::List(values))
    } else if values.len() == 0 {
        proof {
            assert(iv[keyed_at].key is Some);
            lemma_view_table(entries);
            assert(entries_view(entries@) =~= item_entries(iv));
        }
        Some(Value::Table(entries))
    } else {
        proof {
            assert(iv[keyed_at].key is Some);
            assert(iv[bare_at].key is None);
        }
        None
    }
}

/// Reads one value at `pos`; on success the value and the position behind
/// it.
pub(crate) fn scan_value(src: &Vec<char>, pos: usize) -> (r: Option<(Value, usize)>)
    requires
        pos <= src.len(),
    ensures
        match r {
            None => read_value(src@.skip(pos as int)) is None,
            Some((v, end)) => pos < end <= src.len() && read_value(src@.skip(pos as int)) == Some(
                (v@, src@.skip(end as int)),
            ),
        },
    decreases src.len() - pos, 0nat,
{
    if pos >= src.len() {
        return None;
    }
    proof {
        lemma_skip_step(src@, pos as int);
    }
    let c = src[pos];
    if c == '"' {
        match scan_literal(src, pos + 1) {
            None => None,
            Some((t, end)) => Some((Value::Str(string_of(&t)), end)),
        }
    } else if c == '{' {
        match scan_items(src, pos + 1) {
            None => None,
            Some((items, end)) => match build(items) {
                None => None,
                Some(v) => Some((v, end)),
            },
        }
    } else if c == '-' || ('0' <= c && c <= '9') {
        match scan_int(src, pos) {
            None => None,
            Some((n, end)) => Some((Value::Int(n), end)),
        }
    } else if name_start(c) {
        let end = name_end(src, pos);
        let w = slice_of(src, pos, end);
        proof {
            lemma_skip_more(src@, pos as int, (end - pos) as int);
        }
        match word_of(&w) {
            None => None,
            Some(v) => Some((v, end)),
        }
    } else {
        None
    }
}

/// Reads one element of a table literal at `pos`.
pub(crate) fn scan_item(src: &Vec<char>, pos: usize) -> (r: Option<(RawItem, usize)>)
    requires
        pos <= src.len(),
    ensures
        match r {
            None => read_item(src@.skip(pos as int)) is None,
            Some((item, end)) => pos < end <= src.len() && read_item(src@.skip(pos as int))
                == Some((item@, src@.skip(end as int))),
        },
    decreases src.len() - pos, 1nat,
{
    if pos >= src.len() {
        return None;
    }
    proof {
        lemma_skip_step(src@, pos as int);
    }
    let c = src[pos];
    if c == '[' {
        let p1 = blank_end(src, pos + 1);
        if p1 >= src.len() || src[p1] != '"' {
            proof {
                if p1 < src.len() {
                    lemma_skip_step(src@, p1 as int);
                }
            }
            return None;
        }
        proof {
            lemma_skip_step(src@, p1 as int);
        }
        match scan_literal(src, p1 + 1) {
            None => None,
            Some((k, p2)) => {
                let p3 = blank_end(src, p2);
                if p3 >= src.len() || src[p3] != ']' {
                    proof {
                        if p3 < src.len() {
                            lemma_skip_step(src@, p3 as int);
                        }
                    }
                    return None;
                }
                proof {
                    lemma_skip_step(src@, p3 as int);
                }
                let p4 = blank_end(src, p3 + 1);
                if !assign_at(src, p4) {
                    return None;
                }
                proof {
                    lemma_skip_step(src@, p4 as int);
                }
                let p5 = blank_end(src, p4 + 1);
                match scan_value(src, p5) {
                    None => None,
                    Some((v, end)) => Some((RawItem { key: Some(string_of(&k)), value: v }, end)),
                }
            },
        }
    } else if name_start(c) {
        let end = name_end(src, pos);
        let w = slice_of(src, pos, end);
        proof {
            lemma_skip_more(src@, pos as int, (end - pos) as int);
        }
        let p1 = blank_end(src, end);
        if assign_at(src, p1) {
            if reserved(&w) {
                return None;
            }
            proof {
                lemma_skip_step(src@, p1 as int);
            }
            let p2 = blank_end(src, p1 + 1);
            match scan_value(src, p2) {
                None => None,
                Some((v, e2)) => Some((RawItem { key: Some(string_of(&w)), value: v }, e2)),
            }
        } else {
            match word_of(&w) {
                None => None,
                Some(v) => Some((RawItem { key: None, value: v }, end)),
            }
        }
    } else {
        match scan_value(src, pos) {
            None => None,
            Some((v, end)) => Some((RawItem { key: None, value: v }, end)),
        }
    }
}

/// Reads the elements of a table literal from `pos` up to its closing brace.
pub(crate) fn scan_items(src: &Vec<char>, pos: usize) -> (r: Option<(Vec<RawItem>, usize)>)
    requires
        pos <= src.len(),
    ensures
        match r {
            None => read_items(src@.skip(pos as int)) is None,
            Some((items, end)) => pos < end <= src.len() && read_items(src@.skip(pos as int))
                == Some((items_view(items@), src@.skip(end as int))),
        },
    decreases src.len() - pos, 2nat,
{
    let mut acc: Vec<RawItem> = Vec::new();
    let mut i: usize = pos;
    proof {
        match read_items(src@.skip(pos as int)) {
            None => {},
            Some((more, rest)) => {
                assert(items_view(acc@) + more =~= more);
            },
        }
    }
    loop
        invariant
            pos <= i <= src.len(),
            read_items(src@.skip(pos as int)) == join_items(
                items_view(acc@),
                read_items(src@.skip(i as int)),
            ),
        decreases src.len() - i,
    {
        let ghost here = src@.skip(i as int);
        let ghost head = items_view(acc@);
        let j = blank_end(src, i);
        if j >= src.len() {
            return None;
        }
        proof {
            lemma_skip_step(src@, j as int);
        }
        if src[j] == '}' {
            assert(head + Seq::<Item>::empty() =~= head);
            return Some((acc, j + 1));
        }
        match scan_item(src, j) {
            None => {
                return None;
            },
            Some((item, k)) => {
                let m = blank_end(src, k);
                if m >= src.len() {
                    return None;
                }
                proof {
                    lemma_skip_step(src@, m as int);
                }
                let d = src[m];
                if d == '}' {
                    let ghost single = seq![item@];
                    acc.push(item);
                    assert(items_view(acc@) =~= head + single);
                    return Some((acc, m + 1));
                } else if d == ',' || d == ';' {
                    let ghost single = seq![item@];
                    acc.push(item);
                    proof {
                        assert(items_view(acc@) =~= head + single);
                        match read_items(src@.skip(m as int + 1)) {
                            None => {},
                            Some((more, rest)) => {
                                assert(head + (single + more) =~= items_view(acc@) + more);
                            },
                        }
                    }
                    i = m + 1;
                } else {
                    return None;
                }
            },
        }
    }
}

/// What `s` denotes where it is exactly one value, with nothing but blanks
/// and comments around it.
pub open spec fn value_of_text(s: Seq<char>) -> Option<ValueView> {
    match read_value(skip_blank(s)) {
        Some((v, rest)) => if skip_blank(rest).len() == 0 {
            Some(v)
        } else {
            None
        },
        None => None,
    }
}

/// Reads a text that is exactly one value, with nothing but blanks and
/// comments around it. `None` where the text is anything else.
pub fn read_one(text: &str) -> (r: Option<Value>)
    ensures
        match r {
            None => value_of_text(text@) is None,
            Some(v) => value_of_text(text@) == Some(v@),
        },
{
    let src = chars_of(text);
    assert(src@.skip(0) =~= src@);
    let start = blank_end(&src, 0);
    match scan_value(&src, start) {
        None => None,
        Some((v, end)) => {
            let last = blank_end(&src, end);
            if last < src.len() {
                None
            } else {
                Some(v)
            }
        },
    }
}

/// A text that was read: the name of its root table and the entries of that
/// table.
#[derive(Debug, PartialEq, Eq)]
pub struct Document {
    pub root: String,
    pub entries: Vec<Entry>,
}

impl View for Document {
    type V = DocumentView;

    open spec fn view(&self) -> DocumentView {
        DocumentView { root: self.root@, entries: entries_view(self.entries@) }
    }
}

/// The entries of a root table with the elements `items`.
fn build_entries(items: Vec<RawItem>) -> (r: Option<Vec<Entry>>)
    ensures
        match r {
            None => !all_keyed(items_view(items@)),
            Some(es) => all_keyed(items_view(items@)) && entries_view(es@) == item_entries(
                items_view(items@),
            ),
        },
{
    let ghost iv = items_view(items@);
    match build(items) {
        Some(Value::Table(es)) => {
            proof {
                lemma_view_table(es);
                if all_positional(iv) {
                    assert(iv.len() == 0) by {
                        if iv.len() > 0 {
                            assert(iv[0].key is None);
                        }
                    }
                }
            }
            Some(es)
        },
        Some(Value::List(xs)) => {
            proof {
                lemma_view_list(xs);
                assert(assemble(iv) == Some(ValueView::List(list_view(xs@))));
                assert(all_positional(iv));
                assert(item_values(iv) == list_view(xs@));
                assert(item_values(iv).len() == iv.len());
                assert(list_view(xs@).len() == xs@.len());
            }
            if xs.len() == 0 {
                let none: Vec<Entry> = Vec::new();
                assert(entries_view(none@) =~= item_entries(iv));
                Some(none)
            } else {
                assert(iv[0].key is None);
                None
            }
        },
        _ => None,
    }
}

/// Reads a whole text. `None` where the text is not a single root table
/// with keyed entries in the accepted grammar.
pub fn read(text: &str) -> (r: Option<Document>)
    ensures
        match r {
            None => read_document(text@) is None,
            Some(doc) => read_document(text@) == Some(doc@),
        },
{
    let src = chars_of(text);
    assert(src@.skip(0) =~= src@);
    let p0 = blank_end(&src, 0);
    let p1 = name_end(&src, p0);
    proof {
        lemma_skip_more(src@, p0 as int, (p1 - p0) as int);
        if p0 < src.len() {
            lemma_skip_step(src@, p0 as int);
        }
    }
    if p1 == p0 || !name_start(src[p0]) {
        return None;
    }
    let root = slice_of(&src, p0, p1);
    if reserved(&root) {
        return None;
    }
    let p2 = blank_end(&src, p1);
    if !assign_at(&src, p2) {
        return None;
    }
    proof {
        lemma_skip_step(src@, p2 as int);
    }
    let p3 = blank_end(&src, p2 + 1);
    if p3 >= src.len() || src[p3] != '{' {
        proof {
            if p3 < src.len() {
                lemma_skip_step(src@, p3 as int);
            }
        }
        return None;
    }
    proof {
        lemma_skip_step(src@, p3 as int);
    }
    match scan_items(&src, p3 + 1) {
        None => None,
        Some((items, end)) => {
            let last = blank_end(&src, end);
            if last < src.len() {
                return None;
            }
            match build_entries(items) {
                None => None,
                Some(entries) => Some(Document { root: string_of(&root), entries }),
            }
        },
    }
}

} // verus!
