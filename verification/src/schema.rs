//! The fields of the configuration and the keys under which each is
//! accepted: its current name first, then the names it had before.

use vstd::prelude::*;
use crate::text::{chars_of, same_as};
use crate::value::{
    entries_view, lemma_view_list, list_view, strings_view, Entry, EntryView, Value, ValueView,
};

verus! {

/// A field of the configuration.
#[derive(Debug, Clone, Copy, PartialEq, Eq, Structural)]
pub enum Field {
    Name,
    Author,
    Ver,
    Desc,
    License,
    Git,
    Pkgs,
    Dir,
    Repos,
    Args,
}

/// The keys under which a field is accepted, in the order in which they are
/// tried. The first is the name under which the field is written.
pub open spec fn field_names(f: Field) -> Seq<Seq<char>> {
    match f {
        Field::Name => seq!["name"@],
        Field::Author => seq!["author"@, "maintainer"@],
        Field::Ver => seq!["ver"@, "version"@],
        Field::Desc => seq!["desc"@, "description"@],
        Field::License => seq!["license"@],
        Field::Git => seq!["git"@],
        Field::Pkgs => seq!["pkgs"@, "packages"@],
        Field::Dir => seq!["dir"@, "directory"@],
        Field::Repos => seq!["repos"@, "repositories"@],
        Field::Args => seq!["args"@, "flags"@, "arguments"@],
    }
}

/// The name under which a field is written.
pub open spec fn field_label(f: Field) -> Seq<char> {
    field_names(f)[0]
}

/// The value that stands under `key`: that of the last entry with this key
/// that is set. `None` where no entry with this key is set.
pub open spec fn find(es: Seq<EntryView>, key: Seq<char>) -> Option<ValueView>
    decreases es.len(),
{
    if es.len() == 0 {
        None
    } else {
        match find(es.skip(1), key) {
            Some(v) => Some(v),
            None => if es[0].key == key && !(es[0].value is Absent) {
                Some(es[0].value)
            } else {
                None
            },
        }
    }
}

/// The value that stands under the first of `names` that is set.
pub open spec fn find_any(es: Seq<EntryView>, names: Seq<Seq<char>>) -> Option<ValueView>
    decreases names.len(),
{
    if names.len() == 0 {
        None
    } else {
        match find(es, names[0]) {
            Some(v) => Some(v),
            None => find_any(es, names.skip(1)),
        }
    }
}

/// The value given for a field, under whichever of its names.
pub open spec fn field_value(es: Seq<EntryView>, f: Field) -> Option<ValueView> {
    find_any(es, field_names(f))
}

/// The text that a value holds, if it is a string.
pub open spec fn as_text(v: ValueView) -> Option<Seq<char>> {
    match v {
        ValueView::Str(s) => Some(s),
        _ => None,
    }
}

/// Whether every value is a string.
pub open spec fn all_text(xs: Seq<ValueView>) -> bool {
    forall|i: int| 0 <= i < xs.len() ==> (#[trigger] xs[i]) is Str
}

/// The texts of a list of strings.
pub open spec fn texts_of(xs: Seq<ValueView>) -> Seq<Seq<char>> {
    Seq::new(xs.len(), |i: int| xs[i]->Str_0)
}

/// The texts that a value holds, if it is a list of strings.
pub open spec fn as_text_list(v: ValueView) -> Option<Seq<Seq<char>>> {
    match v {
        ValueView::List(xs) => if all_text(xs) {
            Some(texts_of(xs))
        } else {
            None
        },
        _ => None,
    }
}

/// The entries of a value that stands for a table: those of a table, and
/// none for the empty list, which is how an empty table reads.
pub open spec fn as_entries(v: ValueView) -> Option<Seq<EntryView>> {
    match v {
        ValueView::Table(es) => Some(es),
        ValueView::List(xs) => if xs.len() == 0 {
            Some(Seq::empty())
        } else {
            None
        },
        _ => None,
    }
}

/// Where a value is set further back, it is the one found.
pub proof fn lemma_find_suffix(es: Seq<EntryView>, i: int, key: Seq<char>)
    requires
        0 <= i <= es.len(),
        find(es.skip(i), key) is Some,
    ensures
        find(es, key) == find(es.skip(i), key),
    decreases i,
{
    if i == 0 {
        assert(es.skip(0) =~= es);
    } else {
        assert(es.skip(1).skip(i - 1) =~= es.skip(i));
        lemma_find_suffix(es.skip(1), i - 1, key);
    }
}

/// Whether `key` holds exactly the characters of `lit`.
pub fn key_is(key: &String, lit: &str) -> (r: bool)
    ensures
        r == (key@ == lit@),
{
    let k = chars_of(key.as_str());
    same_as(&k, lit)
}

/// The value that stands under `key`.
pub fn lookup<'a>(es: &'a Vec<Entry>, key: &str) -> (r: Option<&'a Value>)
    ensures
        match r {
            None => find(entries_view(es@), key@) is None,
            Some(v) => find(entries_view(es@), key@) == Some(v@),
        },
{
    let ghost ev = entries_view(es@);
    let mut i: usize = es.len();
    while i > 0
        invariant
            i <= es.len(),
            ev == entries_view(es@),
            find(ev.skip(i as int), key@) is None,
        decreases i,
    {
        i -= 1;
        proof {
            assert(ev.skip(i as int).skip(1) =~= ev.skip(i as int + 1));
            assert(ev.skip(i as int)[0] == ev[i as int]);
        }
        if key_is(&es[i].key, key) {
            match &es[i].value {
                Value::Absent => {},
                v => {
                    proof {
                        lemma_find_suffix(ev, i as int, key@);
                    }
                    return Some(v);
                },
            }
        }
    }
    assert(ev.skip(0) =~= ev);
    None
}

/// The keys under which a field is accepted.
pub fn names_of(f: Field) -> (r: Vec<&'static str>)
    ensures
        r@.len() == field_names(f).len(),
        forall|i: int| 0 <= i < r@.len() ==> (#[trigger] r@[i])@ == field_names(f)[i],
{
    match f {
        Field::Name => vec!["name"],
        Field::Author => vec!["author", "maintainer"],
        Field::Ver => vec!["ver", "version"],
        Field::Desc => vec!["desc", "description"],
        Field::License => vec!["license"],
        Field::Git => vec!["git"],
        Field::Pkgs => vec!["pkgs", "packages"],
        Field::Dir => vec!["dir", "directory"],
        Field::Repos => vec!["repos", "repositories"],
        Field::Args => vec!["args", "flags", "arguments"],
    }
}

/// The name under which a field is written.
pub fn label_of(f: Field) -> (r: String)
    ensures
        r@ == field_label(f),
{
    let names = names_of(f);
    names[0].to_owned()
}

/// The value given for a field, under whichever of its names.
pub fn lookup_field<'a>(es: &'a Vec<Entry>, f: Field) -> (r: Option<&'a Value>)
    ensures
        match r {
            None => field_value(entries_view(es@), f) is None,
            Some(v) => field_value(entries_view(es@), f) == Some(v@),
        },
{
    let ghost ev = entries_view(es@);
    let ghost names = field_names(f);
    let keys = names_of(f);
    let mut i: usize = 0;
    assert(names.skip(0) =~= names);
    while i < keys.len()
        invariant
            i <= keys.len(),
            names == field_names(f),
            keys@.len() == names.len(),
            forall|j: int| 0 <= j < keys@.len() ==> (#[trigger] keys@[j])@ == names[j],
            ev == entries_view(es@),
            find_any(ev, names.skip(i as int)) == find_any(ev, names),
        decreases keys.len() - i,
    {
        proof {
            assert(names.skip(i as int)[0] == names[i as int]);
            assert(names.skip(i as int).skip(1) =~= names.skip(i as int + 1));
        }
        match lookup(es, keys[i]) {
            Some(v) => {
                return Some(v);
            },
            None => {},
        }
        i += 1;
    }
    None
}

/// The text that `v` holds, if it is a string.
pub fn text_of_value(v: &Value) -> (r: Option<String>)
    ensures
        match r {
            None => as_text(v@) is None,
            Some(s) => as_text(v@) == Some(s@),
        },
{
    match v {
        Value::Str(s) => Some(s.clone()),
        _ => None,
    }
}

/// The texts that `v` holds, if it is a list of strings.
pub fn texts_of_value(v: &Value) -> (r: Option<Vec<String>>)
    ensures
        match r {
            None => as_text_list(v@) is None,
            Some(xs) => as_text_list(v@) == Some(strings_view(xs@)),
        },
{
    match v {
        Value::List(xs) => {
            proof {
                lemma_view_list(*xs);
            }
            let ghost lv = list_view(xs@);
            let mut out: Vec<String> = Vec::new();
            let mut i: usize = 0;
            while i < xs.len()
                invariant
                    i <= xs.len(),
                    lv == list_view(xs@),
                    v@ == ValueView::List(lv),
                    out@.len() == i,
                    forall|j: int| 0 <= j < i ==> (#[trigger] lv[j]) is Str && lv[j]->Str_0 == out@[j]@,
                decreases xs.len() - i,
            {
                match &xs[i] {
                    Value::Str(s) => {
                        out.push(s.clone());
                    },
                    _ => {
                        assert(!(lv[i as int] is Str));
                        return None;
                    },
                }
                i += 1;
            }
            assert(strings_view(out@) =~= texts_of(lv));
            Some(out)
        },
        _ => None,
    }
}

} // verus!
