//! What holds of the configuration across its operations.

use vstd::prelude::*;
use crate::config::{
    config_entries, config_text, default_config, field_of, first_bad, installed,
    lemma_config_renderable, lemma_root_plain, list_value, loaded, merged, resolved,
    root_entries, titles, with_package, without, without_package, ConfigView, ModelError,
};
use crate::roundtrip::lemma_document_roundtrip;
use crate::schema::{
    all_text, as_entries, as_text_list, field_names, field_value, find, find_any, texts_of, Field,
};
use crate::text::{escape, lemma_escape_roundtrip, quote, read_literal};
use crate::value::{
    settled, settled_entries, settled_list, string_list, EntryView, ValueView,
};

verus! {

/// What a script finds under a key after the entries were written and read
/// is what stood there, as a script sees it.
pub proof fn lemma_find_settled(es: Seq<EntryView>, key: Seq<char>)
    ensures
        find(settled_entries(es), key) == match find(es, key) {
            Some(v) => Some(settled(v)),
            None => None,
        },
    decreases es.len(),
{
    if es.len() > 0 {
        lemma_find_settled(es.skip(1), key);
        if !(es[0].value is Absent) {
            let first = EntryView { key: es[0].key, value: settled(es[0].value) };
            let more = settled_entries(es.skip(1));
            assert((seq![first] + more).skip(1) =~= more);
            assert(!(settled(es[0].value) is Absent));
        }
    }
}

/// No value stands under a key that no entry has.
pub proof fn lemma_find_none(es: Seq<EntryView>, key: Seq<char>)
    requires
        forall|j: int| 0 <= j < es.len() ==> (#[trigger] es[j]).key != key,
    ensures
        find(es, key) is None,
    decreases es.len(),
{
    if es.len() > 0 {
        assert forall|j: int| 0 <= j < es.skip(1).len() implies (#[trigger] es.skip(1)[j]).key
            != key by {
            assert(es.skip(1)[j] == es[j + 1]);
        }
        lemma_find_none(es.skip(1), key);
        assert(es[0].key != key);
    }
}

/// Under a key that one entry alone has stands the value of that entry, if
/// it is set.
pub proof fn lemma_find_unique(es: Seq<EntryView>, i: int, key: Seq<char>)
    requires
        0 <= i < es.len(),
        es[i].key == key,
        forall|j: int| 0 <= j < es.len() && j != i ==> (#[trigger] es[j]).key != key,
    ensures
        find(es, key) == if es[i].value is Absent {
            None
        } else {
            Some(es[i].value)
        },
    decreases es.len(),
{
    let more = es.skip(1);
    if i == 0 {
        assert forall|j: int| 0 <= j < more.len() implies (#[trigger] more[j]).key != key by {
            assert(more[j] == es[j + 1]);
        }
        lemma_find_none(more, key);
    } else {
        assert forall|j: int| 0 <= j < more.len() && j != i - 1 implies (#[trigger] more[j]).key
            != key by {
            assert(more[j] == es[j + 1]);
        }
        assert(more[i - 1] == es[i]);
        lemma_find_unique(more, i - 1, key);
        assert(es[0].key != key);
    }
}

/// A list of strings is written and read back unchanged.
pub proof fn lemma_strings_settled(xs: Seq<Seq<char>>)
    ensures
        settled(list_value(xs)) == list_value(xs),
        as_text_list(list_value(xs)) == Some(xs),
{
    lemma_text_list_settled(string_list(xs));
    assert(texts_of(string_list(xs)) =~= xs);
}

proof fn lemma_text_list_settled(vs: Seq<ValueView>)
    requires
        all_text(vs),
    ensures
        settled_list(vs) == vs,
    decreases vs.len(),
{
    if vs.len() == 0 {
        assert(settled_list(vs) =~= vs);
    } else {
        assert(vs[0] is Str);
        assert(settled(vs[0]) == vs[0]);
        assert forall|i: int| 0 <= i < vs.skip(1).len() implies (#[trigger] vs.skip(1)[i]) is Str by {
            assert(vs.skip(1)[i] == vs[i + 1]);
        }
        lemma_text_list_settled(vs.skip(1));
        assert(seq![vs[0]] + vs.skip(1) =~= vs);
    }
}

/// The names of the fields, by length and first letter.
proof fn lemma_key_shapes()
    ensures
        "name"@.len() == 4 && "name"@[0] == 'n',
        "author"@.len() == 6,
        "ver"@.len() == 3 && "ver"@[0] == 'v',
        "desc"@.len() == 4 && "desc"@[0] == 'd',
        "license"@.len() == 7,
        "git"@.len() == 3 && "git"@[0] == 'g',
        "pkgs"@.len() == 4 && "pkgs"@[0] == 'p',
        "dir"@.len() == 3 && "dir"@[0] == 'd',
        "args"@.len() == 4 && "args"@[0] == 'a',
        "repos"@.len() == 5 && "repos"@[0] == 'r',
        "packages"@.len() == 8,
        "flags"@.len() == 5 && "flags"@[0] == 'f',
        "arguments"@.len() == 9,
{
    reveal_strlit("name");
    reveal_strlit("author");
    reveal_strlit("ver");
    reveal_strlit("desc");
    reveal_strlit("license");
    reveal_strlit("git");
    reveal_strlit("pkgs");
    reveal_strlit("dir");
    reveal_strlit("args");
    reveal_strlit("repos");
    reveal_strlit("packages");
    reveal_strlit("flags");
    reveal_strlit("arguments");
}

/// Whether `k` is none of the names under which the settings are written.
spec fn is_foreign(k: Seq<char>) -> bool {
    k != "name"@ && k != "author"@ && k != "ver"@ && k != "desc"@ && k != "license"@ && k
        != "git"@ && k != "pkgs"@ && k != "dir"@ && k != "args"@ && k != "repos"@
}

proof fn lemma_foreign_key(c: ConfigView, k: Seq<char>)
    requires
        is_foreign(k),
    ensures
        find(config_entries(c), k) is None,
{
    let es = config_entries(c);
    assert forall|j: int| 0 <= j < es.len() implies (#[trigger] es[j]).key != k by {
        if j == 0 {
        } else if j == 1 {
        } else if j == 2 {
        } else if j == 3 {
        } else if j == 4 {
        } else if j == 5 {
        } else if j == 6 {
        } else if j == 7 {
        } else if j == 8 {
        } else {
        }
    }
    lemma_find_none(es, k);
}

/// Under the name of each field, the written settings hold the field.
proof fn lemma_own_key(c: ConfigView, i: int)
    requires
        0 <= i < 10,
    ensures
        find(config_entries(c), config_entries(c)[i].key) == if config_entries(c)[i].value is Absent {
            None
        } else {
            Some(config_entries(c)[i].value)
        },
{
    let es = config_entries(c);
    let key = es[i].key;
    lemma_key_shapes();
    assert forall|j: int| 0 <= j < es.len() && j != i implies (#[trigger] es[j]).key != key by {
        if j == 0 {
        } else if j == 1 {
        } else if j == 2 {
        } else if j == 3 {
        } else if j == 4 {
        } else if j == 5 {
        } else if j == 6 {
        } else if j == 7 {
        } else if j == 8 {
        } else {
        }
    }
    lemma_find_unique(es, i, key);
}

/// What the written settings give for a field is what the field holds.
proof fn lemma_field_read_back(c: ConfigView, f: Field)
    ensures
        field_value(settled_entries(config_entries(c)), f) == if field_of(c, f) is Absent {
            None
        } else {
            Some(field_of(c, f))
        },
{
    let es = config_entries(c);
    let fs = settled_entries(es);
    let names = field_names(f);
    lemma_key_shapes();
    lemma_strings_settled(c.repos);
    if c.pkgs is Some {
        lemma_strings_settled(c.pkgs->0);
    }
    if c.args is Some {
        lemma_strings_settled(c.args->0);
    }
    let i: int = match f {
        Field::Name => 0,
        Field::Author => 1,
        Field::Ver => 2,
        Field::Desc => 3,
        Field::License => 4,
        Field::Git => 5,
        Field::Pkgs => 6,
        Field::Dir => 7,
        Field::Repos => 8,
        Field::Args => 9,
    };
    assert(es[i].key == names[0]);
    assert(es[i].value == field_of(c, f));
    lemma_own_key(c, i);
    lemma_find_settled(es, names[0]);
    if field_of(c, f) is Absent {
        if f == Field::Pkgs {
            lemma_foreign_key(c, "packages"@);
            lemma_find_settled(es, "packages"@);
            assert(names.skip(1)[0] == "packages"@);
            assert(names.skip(1).skip(1).len() == 0);
            assert(find_any(fs, names.skip(1).skip(1)) is None);
            assert(find_any(fs, names.skip(1)) is None);
        } else {
            assert(f == Field::Args);
            lemma_foreign_key(c, "flags"@);
            lemma_find_settled(es, "flags"@);
            lemma_foreign_key(c, "arguments"@);
            lemma_find_settled(es, "arguments"@);
            assert(names.skip(1)[0] == "flags"@);
            assert(names.skip(1).skip(1)[0] == "arguments"@);
            assert(names.skip(1).skip(1).skip(1).len() == 0);
            assert(find_any(fs, names.skip(1).skip(1).skip(1)) is None);
            assert(find_any(fs, names.skip(1).skip(1)) is None);
            assert(find_any(fs, names.skip(1)) is None);
        }
    }
}

/// Loading what was written for the settings `c` gives `c` back, over any
/// settings `base` in which no list is set that `c` leaves unset. The
/// defaults are such a `base`, so writing the defaults and loading the text
/// gives the defaults.
pub proof fn lemma_load_roundtrip(c: ConfigView, base: ConfigView)
    requires
        c.pkgs is None ==> base.pkgs is None,
        c.args is None ==> base.args is None,
    ensures
        loaded(config_text(c), base) == Ok::<ConfigView, Seq<char>>(c),
{
    lemma_root_plain();
    lemma_config_renderable(c);
    lemma_document_roundtrip(titles(), "krait"@, root_entries(c));
    let es = config_entries(c);
    let fs = settled_entries(es);
    let rs = root_entries(c);
    // the root table holds the one table of the settings
    assert(rs.skip(1).len() == 0);
    assert(settled_entries(rs.skip(1)) =~= Seq::<EntryView>::empty());
    assert(!(es[0].value is Absent));
    assert(fs.len() > 0);
    let section = ValueView::Table(fs);
    assert(settled(rs[0].value) == section);
    let top = seq![EntryView { key: "config"@, value: section }];
    assert(settled_entries(rs) =~= top);
    assert(top.skip(1).len() == 0);
    assert(find(top.skip(1), "config"@) is None);
    assert(find(top, "config"@) == Some(section));
    assert(as_entries(section) == Some(fs));
    // each field reads back
    lemma_field_read_back(c, Field::Name);
    lemma_field_read_back(c, Field::Author);
    lemma_field_read_back(c, Field::Ver);
    lemma_field_read_back(c, Field::Desc);
    lemma_field_read_back(c, Field::License);
    lemma_field_read_back(c, Field::Git);
    lemma_field_read_back(c, Field::Pkgs);
    lemma_field_read_back(c, Field::Dir);
    lemma_field_read_back(c, Field::Repos);
    lemma_field_read_back(c, Field::Args);
    lemma_strings_settled(c.repos);
    if c.pkgs is Some {
        lemma_strings_settled(c.pkgs->0);
    }
    if c.args is Some {
        lemma_strings_settled(c.args->0);
    }
    assert(first_bad(fs) is None);
    let p = resolved(fs)->Ok_0;
    assert(merged(base, p) == c);
}

/// Writing the defaults and loading the text gives the defaults, whatever
/// the home directory and the separator they were made for.
pub proof fn lemma_defaults_roundtrip(home: Seq<char>, sep: char)
    ensures
        loaded(config_text(default_config(home, sep)), default_config(home, sep)) == Ok::<
            ConfigView,
            Seq<char>,
        >(default_config(home, sep)),
{
    lemma_load_roundtrip(default_config(home, sep), default_config(home, sep));
}

/// The first name of a field that is set decides: where no earlier name of
/// the field is set in the source, the value under a later name is the one
/// taken for the field.
pub proof fn lemma_find_any_at(es: Seq<EntryView>, names: Seq<Seq<char>>, i: int, v: ValueView)
    requires
        0 <= i < names.len(),
        forall|j: int| 0 <= j < i ==> find(es, #[trigger] names[j]) is None,
        find(es, names[i]) == Some(v),
    ensures
        find_any(es, names) == Some(v),
    decreases i,
{
    if i > 0 {
        assert(find(es, names[0]) is None);
        assert forall|j: int| 0 <= j < i - 1 implies find(es, #[trigger] names.skip(1)[j]) is None by {
            assert(names.skip(1)[j] == names[j + 1]);
        }
        assert(names.skip(1)[i - 1] == names[i]);
        lemma_find_any_at(es, names.skip(1), i - 1, v);
    }
}

/// A source that gives a field under an earlier name only, and not under
/// the names that are tried before it, sets the field to what stands under
/// that name.
pub proof fn lemma_alias_taken(
    es: Seq<EntryView>,
    base: ConfigView,
    f: Field,
    i: int,
    v: ValueView,
)
    requires
        0 <= i < field_names(f).len(),
        forall|j: int| 0 <= j < i ==> find(es, #[trigger] field_names(f)[j]) is None,
        find(es, field_names(f)[i]) == Some(v),
        resolved(es) is Ok,
    ensures
        field_of(merged(base, resolved(es)->Ok_0), f) == v,
{
    lemma_find_any_at(es, field_names(f), i, v);
    assert(field_value(es, f) == Some(v));
    assert(first_bad(es) is None);
    match f {
        Field::Pkgs => {
            let xs = v->List_0;
            assert(string_list(texts_of(xs)) =~= xs);
        },
        Field::Repos => {
            let xs = v->List_0;
            assert(string_list(texts_of(xs)) =~= xs);
        },
        Field::Args => {
            let xs = v->List_0;
            assert(string_list(texts_of(xs)) =~= xs);
        },
        _ => {},
    }
}

/// Recording a package where none was ever recorded starts the list with
/// that package alone, and recording the same package once more is refused
/// as a duplicate.
pub proof fn lemma_first_package(c: ConfigView, name: Seq<char>)
    requires
        c.pkgs is None,
    ensures
        with_package(c, name) == Ok::<ConfigView, ModelError>(
            ConfigView { pkgs: Some(seq![name]), ..c },
        ),
        with_package(ConfigView { pkgs: Some(seq![name]), ..c }, name) == Err::<
            ConfigView,
            ModelError,
        >(ModelError::DuplicateEntry),
{
    assert(Seq::<Seq<char>>::empty().push(name) =~= seq![name]);
    assert(seq![name][0] == name);
}

/// A package that was just recorded is there, and recording it again is
/// refused; taking it out again leaves the packages that were there before.
pub proof fn lemma_package_added(c: ConfigView, name: Seq<char>)
    requires
        !installed(c).contains(name),
    ensures
        with_package(c, name) is Ok,
        installed(with_package(c, name)->Ok_0).contains(name),
        with_package(with_package(c, name)->Ok_0, name) is Err,
        without_package(with_package(c, name)->Ok_0, name) == Ok::<ConfigView, ModelError>(
            ConfigView { pkgs: Some(installed(c)), ..c },
        ),
{
    let xs = installed(c);
    let ys = xs.push(name);
    assert(ys[xs.len() as int] == name);
    lemma_without_pushed(xs, name);
}

/// Taking out a text that a list does not hold leaves the list as it is.
pub proof fn lemma_without_missing(xs: Seq<Seq<char>>, name: Seq<char>)
    requires
        !xs.contains(name),
    ensures
        without(xs, name) == xs,
    decreases xs.len(),
{
    reveal(Seq::filter);
    if xs.len() > 0 {
        let front = xs.drop_last();
        assert(!front.contains(name)) by {
            if front.contains(name) {
                let j = choose|j: int| 0 <= j < front.len() && front[j] == name;
                assert(xs[j] == name);
            }
        }
        lemma_without_missing(front, name);
        assert(xs.last() != name) by {
            assert(xs[xs.len() - 1] == xs.last());
        }
        assert(front.push(xs.last()) =~= xs);
        assert(without(xs, name) == without(front, name).push(xs.last()));
    } else {
        assert(without(xs, name) =~= xs);
    }
}

proof fn lemma_without_pushed(xs: Seq<Seq<char>>, name: Seq<char>)
    requires
        !xs.contains(name),
    ensures
        without(xs.push(name), name) == xs,
{
    reveal(Seq::filter);
    lemma_without_missing(xs, name);
    assert(xs.push(name).drop_last() =~= xs);
    assert(xs.push(name).last() == name);
    assert(without(xs.push(name), name) == without(xs, name));
}

/// A quoted literal reads back as the text it was made of, whatever
/// backslashes, quotes and line breaks the text holds.
pub proof fn lemma_quote_roundtrip(s: Seq<char>, rest: Seq<char>)
    ensures
        (quote(s) + rest)[0] == '"',
        read_literal((quote(s) + rest).skip(1)) == Some((s, rest)),
{
    lemma_escape_roundtrip(s, rest);
    assert((quote(s) + rest).skip(1) =~= escape(s) + seq!['"'] + rest);
}

} // verus!
