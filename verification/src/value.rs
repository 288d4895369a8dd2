//! The values that a script table can hold, as the renderer and the reader
//! see them.

use vstd::prelude::*;

verus! {

/// A value of the script language, owned by the host.
///
/// A `Table` keeps its entries in the order in which they were given. An
/// entry whose value is `Absent` stands for an optional setting that is
/// unset. `Opaque` stands for whatever the script language can hold that has
/// no literal form (a function, a host object, a fractional number).
#[derive(Debug, PartialEq, Eq)]
pub enum Value {
    Absent,
    Bool(bool),
    Int(i64),
    Str(String),
    List(Vec<Value>),
    Table(Vec<Entry>),
    Opaque,
}

/// One entry of a table: a key and the value that stands under it.
#[derive(Debug, PartialEq, Eq)]
pub struct Entry {
    pub key: String,
    pub value: Value,
}

/// The mathematical content of a [`Value`].
pub enum ValueView {
    Absent,
    Bool(bool),
    Int(int),
    Str(Seq<char>),
    List(Seq<ValueView>),
    Table(Seq<EntryView>),
    Opaque,
}

/// The mathematical content of an [`Entry`].
pub struct EntryView {
    pub key: Seq<char>,
    pub value: ValueView,
}

impl View for Value {
    type V = ValueView;

    open spec fn view(&self) -> ValueView
        decreases self,
    {
        match self {
            Value::Absent => ValueView::Absent,
            Value::Bool(b) => ValueView::Bool(*b),
            Value::Int(n) => ValueView::Int(*n as int),
            Value::Str(s) => ValueView::Str(s@),
            Value::List(xs) => ValueView::List(
                Seq::new(
                    xs@.len(),
                    |i: int|
                        if 0 <= i < xs@.len() {
                            xs@[i].view()
                        } else {
                            ValueView::Absent
                        },
                ),
            ),
            Value::Table(es) => ValueView::Table(
                Seq::new(
                    es@.len(),
                    |i: int|
                        if 0 <= i < es@.len() {
                            EntryView { key: es@[i].key@, value: es@[i].value.view() }
                        } else {
                            EntryView { key: Seq::empty(), value: ValueView::Absent }
                        },
                ),
            ),
            Value::Opaque => ValueView::Opaque,
        }
    }
}

/// The contents of a list of values.
pub open spec fn list_view(xs: Seq<Value>) -> Seq<ValueView> {
    Seq::new(xs.len(), |i: int| xs[i]@)
}

/// The contents of the entries of a table.
pub open spec fn entries_view(es: Seq<Entry>) -> Seq<EntryView> {
    Seq::new(es.len(), |i: int| EntryView { key: es[i].key@, value: es[i].value@ })
}

/// The contents of a list of strings.
pub open spec fn strings_view(xs: Seq<String>) -> Seq<Seq<char>> {
    Seq::new(xs.len(), |i: int| xs[i]@)
}

/// The contents of a list value are the contents of its elements.
pub proof fn lemma_view_list(xs: Vec<Value>)
    ensures
        Value::List(xs)@ == ValueView::List(list_view(xs@)),
{
    assert(Value::List(xs)@->List_0 =~= list_view(xs@));
}

/// The contents of a table value are the contents of its entries.
pub proof fn lemma_view_table(es: Vec<Entry>)
    ensures
        Value::Table(es)@ == ValueView::Table(entries_view(es@)),
{
    assert(Value::Table(es)@->Table_0 =~= entries_view(es@));
}

/// Whether the value has a literal form all the way down: nothing `Opaque`
/// stands in it, and every whole number fits in 64 bits.
pub open spec fn renderable(v: ValueView) -> bool
    decreases v,
{
    match v {
        ValueView::Opaque => false,
        ValueView::Int(n) => i64::MIN <= n <= i64::MAX,
        ValueView::List(xs) => all_renderable(xs),
        ValueView::Table(es) => entries_renderable(es),
        _ => true,
    }
}

/// Whether every value of the list has a literal form all the way down.
pub open spec fn all_renderable(xs: Seq<ValueView>) -> bool
    decreases xs,
{
    if xs.len() == 0 {
        true
    } else {
        renderable(xs[0]) && all_renderable(xs.skip(1))
    }
}

/// Whether the value of every entry has a literal form all the way down.
pub open spec fn entries_renderable(es: Seq<EntryView>) -> bool
    decreases es,
{
    if es.len() == 0 {
        true
    } else {
        renderable(es[0].value) && entries_renderable(es.skip(1))
    }
}

/// Entries whose values all have a literal form can be written.
pub proof fn lemma_entries_renderable(es: Seq<EntryView>)
    requires
        forall|i: int| 0 <= i < es.len() ==> renderable(#[trigger] es[i].value),
    ensures
        entries_renderable(es),
    decreases es.len(),
{
    if es.len() > 0 {
        assert(renderable(es[0].value));
        assert forall|i: int| 0 <= i < es.skip(1).len() implies renderable(
            #[trigger] es.skip(1)[i].value,
        ) by {
            assert(es.skip(1)[i] == es[i + 1]);
        }
        lemma_entries_renderable(es.skip(1));
    }
}

/// A list whose elements all have a literal form can be written.
pub proof fn lemma_all_renderable(xs: Seq<ValueView>)
    requires
        forall|i: int| 0 <= i < xs.len() ==> renderable(#[trigger] xs[i]),
    ensures
        all_renderable(xs),
    decreases xs.len(),
{
    if xs.len() > 0 {
        assert(renderable(xs[0]));
        assert forall|i: int| 0 <= i < xs.skip(1).len() implies renderable(
            #[trigger] xs.skip(1)[i],
        ) by {
            assert(xs.skip(1)[i] == xs[i + 1]);
        }
        lemma_all_renderable(xs.skip(1));
    }
}

/// The value as a script sees it once the text written for it has been run:
/// unset entries are gone, and a table left without entries is the empty
/// list.
pub open spec fn settled(v: ValueView) -> ValueView
    decreases v,
{
    match v {
        ValueView::List(xs) => ValueView::List(settled_list(xs)),
        ValueView::Table(es) => {
            let fs = settled_entries(es);
            if fs.len() == 0 {
                ValueView::List(Seq::empty())
            } else {
                ValueView::Table(fs)
            }
        },
        _ => v,
    }
}

/// The elements of a list as a script sees them.
pub open spec fn settled_list(xs: Seq<ValueView>) -> Seq<ValueView>
    decreases xs,
{
    if xs.len() == 0 {
        Seq::empty()
    } else {
        seq![settled(xs[0])] + settled_list(xs.skip(1))
    }
}

/// The set entries as a script sees them, in order.
pub open spec fn settled_entries(es: Seq<EntryView>) -> Seq<EntryView>
    decreases es,
{
    if es.len() == 0 {
        Seq::empty()
    } else if es[0].value is Absent {
        settled_entries(es.skip(1))
    } else {
        seq![EntryView { key: es[0].key, value: settled(es[0].value) }] + settled_entries(
            es.skip(1),
        )
    }
}

/// A list of strings as a value.
pub open spec fn string_list(xs: Seq<Seq<char>>) -> Seq<ValueView> {
    Seq::new(xs.len(), |i: int| ValueView::Str(xs[i]))
}

impl Value {
    /// A value with the same contents.
    fn duplicate(&self) -> (r: Value)
        ensures
            r@ == self@,
        decreases self,
    {
        match self {
            Value::Absent => Value::Absent,
            Value::Bool(b) => Value::Bool(*b),
            Value::Int(n) => Value::Int(*n),
            Value::Str(s) => Value::Str(s.clone()),
            Value::List(xs) => {
                let mut out: Vec<Value> = Vec::new();
                let mut i: usize = 0;
                assert(forall|k: int|
                    0 <= k < xs@.len() ==> decreases_to!(self => #[trigger] xs@[k]));
                while i < xs.len()
                    invariant
                        i <= xs.len(),
                        out@.len() == i,
                        forall|j: int| 0 <= j < i ==> out@[j]@ == xs@[j]@,
                        forall|k: int|
                            0 <= k < xs@.len() ==> decreases_to!(self => #[trigger] xs@[k]),
                    decreases xs.len() - i,
                {
                    out.push(xs[i].duplicate());
                    i += 1;
                }
                proof {
                    lemma_view_list(out);
                    lemma_view_list(*xs);
                    assert(list_view(out@) =~= list_view(xs@));
                }
                Value::List(out)
            },
            Value::Table(es) => {
                let mut out: Vec<Entry> = Vec::new();
                let mut i: usize = 0;
                assert(forall|k: int|
                    0 <= k < es@.len() ==> decreases_to!(self => #[trigger] es@[k]));
                while i < es.len()
                    invariant
                        i <= es.len(),
                        out@.len() == i,
                        forall|j: int|
                            0 <= j < i ==> out@[j].key@ == es@[j].key@ && out@[j].value@
                                == es@[j].value@,
                        forall|k: int|
                            0 <= k < es@.len() ==> decreases_to!(self => #[trigger] es@[k]),
                    decreases es.len() - i,
                {
                    out.push(Entry { key: es[i].key.clone(), value: es[i].value.duplicate() });
                    i += 1;
                }
                proof {
                    lemma_view_table(out);
                    lemma_view_table(*es);
                    assert(entries_view(out@) =~= entries_view(es@));
                }
                Value::Table(out)
            },
            Value::Opaque => Value::Opaque,
        }
    }
}

impl Clone for Value {
    fn clone(&self) -> (r: Value)
        ensures
            r@ == self@,
    {
        self.duplicate()
    }
}

impl Clone for Entry {
    fn clone(&self) -> (r: Entry)
        ensures
            r.key@ == self.key@,
            r.value@ == self.value@,
    {
        Entry { key: self.key.clone(), value: self.value.duplicate() }
    }
}

/// A list with the same strings.
pub fn duplicate_strings(xs: &Vec<String>) -> (r: Vec<String>)
    ensures
        strings_view(r@) == strings_view(xs@),
{
    let mut out: Vec<String> = Vec::new();
    let mut i: usize = 0;
    while i < xs.len()
        invariant
            i <= xs.len(),
            out@.len() == i,
            forall|j: int| 0 <= j < i ==> out@[j]@ == xs@[j]@,
        decreases xs.len() - i,
    {
        out.push(xs[i].clone());
        i += 1;
    }
    assert(strings_view(out@) =~= strings_view(xs@));
    out
}

} // verus!
