//! The settings of the package manager: identity, installed packages,
//! directory, repositories and default arguments.

use vstd::prelude::*;
use crate::lexis::{
    all_name_chars, comment_line, is_name_char, is_plain_name, is_reserved, lemma_reserved_words,
    no_line_break,
};
use crate::parse::{read, read_document};
use crate::render::{
    flat_title, flatten, lemma_flatten_plain, render_document, render_header, render_table, titles_view, write_header,
    write_table,
};
use crate::schema::{
    as_entries, as_text, as_text_list, field_label, field_value, find, key_is, label_of, lookup,
    lookup_field, text_of_value, texts_of_value, Field,
};
use crate::resolver::{home_dir, join, join_path, main_separator, require_home, ResolverError};
use crate::text::{chars_of, push_all, string_of};
use crate::value::{
    duplicate_strings, entries_renderable, entries_view, lemma_all_renderable,
    lemma_entries_renderable, lemma_view_list, lemma_view_table, list_view, renderable,
    string_list, strings_view, Entry, EntryView, Value, ValueView,
};

verus! {

/// The settings of the package manager.
///
/// `pkgs` and `args` tell "never set" (`None`) from "set, and empty"
/// (`Some` of an empty list). The order of `repos` and of `args` counts:
/// the first repository is asked first, and arguments apply from the left.
#[derive(Debug, PartialEq, Eq)]
pub struct KraitConfig {
    /// The name of the package manager.
    pub name: String,
    /// Its author.
    pub author: String,
    /// Its version.
    pub ver: String,
    /// What it is, in a line.
    pub desc: String,
    /// Its license.
    pub license: String,
    /// Where its sources are kept.
    pub git: String,
    /// The installed packages.
    pub pkgs: Option<Vec<String>>,
    /// Its directory.
    pub dir: String,
    /// The repositories that packages come from.
    pub repos: Vec<String>,
    /// The arguments that apply to every run.
    pub args: Option<Vec<String>>,
}

/// The mathematical content of a [`KraitConfig`].
pub struct ConfigView {
    pub name: Seq<char>,
    pub author: Seq<char>,
    pub ver: Seq<char>,
    pub desc: Seq<char>,
    pub license: Seq<char>,
    pub git: Seq<char>,
    pub pkgs: Option<Seq<Seq<char>>>,
    pub dir: Seq<char>,
    pub repos: Seq<Seq<char>>,
    pub args: Option<Seq<Seq<char>>>,
}

/// The contents of an optional list of strings.
pub open spec fn optional_strings_view(o: Option<Vec<String>>) -> Option<Seq<Seq<char>>> {
    match o {
        Some(xs) => Some(strings_view(xs@)),
        None => None,
    }
}

impl View for KraitConfig {
    type V = ConfigView;

    open spec fn view(&self) -> ConfigView {
        ConfigView {
            name: self.name@,
            author: self.author@,
            ver: self.ver@,
            desc: self.desc@,
            license: self.license@,
            git: self.git@,
            pkgs: optional_strings_view(self.pkgs),
            dir: self.dir@,
            repos: strings_view(self.repos@),
            args: optional_strings_view(self.args),
        }
    }
}

impl Clone for KraitConfig {
    /// Settings with the same contents.
    fn clone(&self) -> (r: KraitConfig)
        ensures
            r@ == self@,
    {
        KraitConfig {
            name: self.name.clone(),
            author: self.author.clone(),
            ver: self.ver.clone(),
            desc: self.desc.clone(),
            license: self.license.clone(),
            git: self.git.clone(),
            pkgs: match &self.pkgs {
                Some(xs) => Some(duplicate_strings(xs)),
                None => None,
            },
            dir: self.dir.clone(),
            repos: duplicate_strings(&self.repos),
            args: match &self.args {
                Some(xs) => Some(duplicate_strings(xs)),
                None => None,
            },
        }
    }
}

/// The settings that hold where nothing was persisted, for a user whose
/// home directory is `home` on a platform that parts path components by
/// `sep`.
pub open spec fn default_config(home: Seq<char>, sep: char) -> ConfigView {
    ConfigView {
        name: "krait"@,
        author: "miten <57693631+m1ten@users.noreply.github.com>"@,
        ver: "0.0.1"@,
        desc: "cross platform package manager"@,
        license: "Apache-2.0"@,
        git: "https://github.com/m1ten/krait"@,
        pkgs: None,
        dir: join_path(home, "krait"@, sep),
        repos: seq!["https://github.com/m1ten/krait-pkgs"@],
        args: None,
    }
}

/// A list of strings as a value.
pub open spec fn list_value(xs: Seq<Seq<char>>) -> ValueView {
    ValueView::List(string_list(xs))
}

/// An optional list of strings as a value: `Absent` where it is unset.
pub open spec fn optional_list_value(o: Option<Seq<Seq<char>>>) -> ValueView {
    match o {
        Some(xs) => list_value(xs),
        None => ValueView::Absent,
    }
}

/// An entry that holds a text.
pub open spec fn text_entry(key: Seq<char>, s: Seq<char>) -> EntryView {
    EntryView { key, value: ValueView::Str(s) }
}

/// The settings as the entries of the `config` table, in the order in which
/// they are written.
pub open spec fn config_entries(c: ConfigView) -> Seq<EntryView> {
    seq![
        text_entry("name"@, c.name),
        text_entry("author"@, c.author),
        text_entry("ver"@, c.ver),
        text_entry("desc"@, c.desc),
        text_entry("license"@, c.license),
        text_entry("git"@, c.git),
        EntryView { key: "pkgs"@, value: optional_list_value(c.pkgs) },
        text_entry("dir"@, c.dir),
        EntryView { key: "repos"@, value: list_value(c.repos) },
        EntryView { key: "args"@, value: optional_list_value(c.args) },
    ]
}

/// The entries of the root table: the one table `config`.
pub open spec fn root_entries(c: ConfigView) -> Seq<EntryView> {
    seq![EntryView { key: "config"@, value: ValueView::Table(config_entries(c)) }]
}

/// The titles of the header of a persisted configuration.
pub open spec fn titles() -> Seq<Seq<char>> {
    seq![
        "           Krait Config           "@,
        " Automatically generated by Krait "@,
        "      READ THE DOCUMENTATION      "@,
    ]
}

/// The text of a persisted configuration: the header, then the root table
/// `krait` with the settings in its table `config`.
pub open spec fn config_text(c: ConfigView) -> Seq<char> {
    render_document(titles(), "krait"@, root_entries(c))
}

/// The pieces of `parts` one after the other.
pub open spec fn concat(parts: Seq<Seq<char>>) -> Seq<char>
    decreases parts.len(),
{
    if parts.len() == 0 {
        Seq::empty()
    } else {
        concat(parts.drop_last()) + parts.last()
    }
}

/// An entry that holds a copy of the text `s` under `key`.
pub(crate) fn text_of(key: &str, s: &String) -> (r: Entry)
    ensures
        r.key@ == key@,
        r.value@ == ValueView::Str(s@),
{
    Entry { key: key.to_owned(), value: Value::Str(s.clone()) }
}

/// The list of strings `xs` as a value.
pub(crate) fn list_of(xs: &Vec<String>) -> (r: Value)
    ensures
        r@ == list_value(strings_view(xs@)),
{
    let mut out: Vec<Value> = Vec::new();
    let mut i: usize = 0;
    while i < xs.len()
        invariant
            i <= xs.len(),
            out@.len() == i,
            forall|j: int| 0 <= j < i ==> (#[trigger] out@[j])@ == ValueView::Str(xs@[j]@),
        decreases xs.len() - i,
    {
        out.push(Value::Str(xs[i].clone()));
        i += 1;
    }
    proof {
        lemma_view_list(out);
        assert(list_view(out@) =~= string_list(strings_view(xs@)));
    }
    Value::List(out)
}

/// The optional list of strings `o` as a value.
pub(crate) fn optional_list_of(o: &Option<Vec<String>>) -> (r: Value)
    ensures
        r@ == optional_list_value(optional_strings_view(*o)),
{
    match o {
        Some(xs) => list_of(xs),
        None => Value::Absent,
    }
}

/// Every list of strings can be written.
pub proof fn lemma_strings_renderable(xs: Seq<Seq<char>>)
    ensures
        renderable(list_value(xs)),
        renderable(optional_list_value(Some(xs))),
{
    let vs = string_list(xs);
    assert forall|i: int| 0 <= i < vs.len() implies renderable(#[trigger] vs[i]) by {
        assert(vs[i] is Str);
    }
    lemma_all_renderable(vs);
}

/// Every configuration can be written.
pub proof fn lemma_config_renderable(c: ConfigView)
    ensures
        entries_renderable(config_entries(c)),
        entries_renderable(root_entries(c)),
{
    let es = config_entries(c);
    lemma_strings_renderable(c.repos);
    if c.pkgs is Some {
        lemma_strings_renderable(c.pkgs->0);
    }
    if c.args is Some {
        lemma_strings_renderable(c.args->0);
    }
    assert forall|i: int| 0 <= i < es.len() implies renderable(#[trigger] es[i].value) by {
        if i == 0 {
        } else if i == 1 {
        } else if i == 2 {
        } else if i == 3 {
        } else if i == 4 {
        } else if i == 5 {
        } else if i == 6 {
        } else if i == 7 {
        } else if i == 8 {
        } else {
        }
    }
    lemma_entries_renderable(es);
    let rs = root_entries(c);
    assert(renderable(rs[0].value));
    lemma_entries_renderable(rs);
}

impl KraitConfig {
    /// The entries of the `config` table for these settings.
    pub fn to_entries(&self) -> (r: Vec<Entry>)
        ensures
            entries_view(r@) == config_entries(self@),
    {
        let mut out: Vec<Entry> = Vec::new();
        out.push(text_of("name", &self.name));
        out.push(text_of("author", &self.author));
        out.push(text_of("ver", &self.ver));
        out.push(text_of("desc", &self.desc));
        out.push(text_of("license", &self.license));
        out.push(text_of("git", &self.git));
        out.push(Entry { key: "pkgs".to_owned(), value: optional_list_of(&self.pkgs) });
        out.push(text_of("dir", &self.dir));
        out.push(Entry { key: "repos".to_owned(), value: list_of(&self.repos) });
        out.push(Entry { key: "args".to_owned(), value: optional_list_of(&self.args) });
        assert(entries_view(out@) =~= config_entries(self@));
        out
    }

    /// The settings as one value: the table `config` in a root table.
    pub fn to_root(&self) -> (r: Vec<Entry>)
        ensures
            entries_view(r@) == root_entries(self@),
    {
        let es = self.to_entries();
        let table = Value::Table(es);
        proof {
            lemma_view_table(es);
        }
        let mut out: Vec<Entry> = Vec::new();
        out.push(Entry { key: "config".to_owned(), value: table });
        assert(entries_view(out@) =~= root_entries(self@));
        out
    }
}


/// Why a persisted configuration was not accepted.
#[derive(Debug, Clone, PartialEq, Eq)]
pub enum ConfigError {
    /// The part named here is not as it must be: the root table, the table
    /// `config`, or a field, under the name it is written with.
    Malformed(String),
}

/// Why a change to the settings was not made.
#[derive(Debug, Clone, Copy, PartialEq, Eq, Structural)]
pub enum ModelError {
    /// The entry is there already.
    DuplicateEntry,
    /// The entry is not there.
    NotFound,
}

/// Settings as a source gives them: each field either given or not.
#[derive(Debug, Clone, PartialEq, Eq)]
pub struct ConfigPatch {
    pub name: Option<String>,
    pub author: Option<String>,
    pub ver: Option<String>,
    pub desc: Option<String>,
    pub license: Option<String>,
    pub git: Option<String>,
    pub pkgs: Option<Vec<String>>,
    pub dir: Option<String>,
    pub repos: Option<Vec<String>>,
    pub args: Option<Vec<String>>,
}

/// The mathematical content of a [`ConfigPatch`].
pub struct PatchView {
    pub name: Option<Seq<char>>,
    pub author: Option<Seq<char>>,
    pub ver: Option<Seq<char>>,
    pub desc: Option<Seq<char>>,
    pub license: Option<Seq<char>>,
    pub git: Option<Seq<char>>,
    pub pkgs: Option<Seq<Seq<char>>>,
    pub dir: Option<Seq<char>>,
    pub repos: Option<Seq<Seq<char>>>,
    pub args: Option<Seq<Seq<char>>>,
}

/// The contents of an optional text.
pub open spec fn optional_text_view(o: Option<String>) -> Option<Seq<char>> {
    match o {
        Some(s) => Some(s@),
        None => None,
    }
}

impl View for ConfigPatch {
    type V = PatchView;

    open spec fn view(&self) -> PatchView {
        PatchView {
            name: optional_text_view(self.name),
            author: optional_text_view(self.author),
            ver: optional_text_view(self.ver),
            desc: optional_text_view(self.desc),
            license: optional_text_view(self.license),
            git: optional_text_view(self.git),
            pkgs: optional_strings_view(self.pkgs),
            dir: optional_text_view(self.dir),
            repos: optional_strings_view(self.repos),
            args: optional_strings_view(self.args),
        }
    }
}

/// What a source gives for a field that holds a text: `Some(None)` where
/// it gives nothing, `None` where what it gives is no string.
pub open spec fn text_field(es: Seq<EntryView>, f: Field) -> Option<Option<Seq<char>>> {
    match field_value(es, f) {
        None => Some(None),
        Some(v) => match as_text(v) {
            Some(s) => Some(Some(s)),
            None => None,
        },
    }
}

/// What a source gives for a field that holds a list of texts: `Some(None)`
/// where it gives nothing, `None` where what it gives is no list of
/// strings.
pub open spec fn list_field(es: Seq<EntryView>, f: Field) -> Option<Option<Seq<Seq<char>>>> {
    match field_value(es, f) {
        None => Some(None),
        Some(v) => match as_text_list(v) {
            Some(xs) => Some(Some(xs)),
            None => None,
        },
    }
}

/// The first field, in the order of the settings, for which the source
/// gives something of the wrong kind.
pub open spec fn first_bad(es: Seq<EntryView>) -> Option<Field> {
    if text_field(es, Field::Name) is None {
        Some(Field::Name)
    } else if text_field(es, Field::Author) is None {
        Some(Field::Author)
    } else if text_field(es, Field::Ver) is None {
        Some(Field::Ver)
    } else if text_field(es, Field::Desc) is None {
        Some(Field::Desc)
    } else if text_field(es, Field::License) is None {
        Some(Field::License)
    } else if text_field(es, Field::Git) is None {
        Some(Field::Git)
    } else if list_field(es, Field::Pkgs) is None {
        Some(Field::Pkgs)
    } else if text_field(es, Field::Dir) is None {
        Some(Field::Dir)
    } else if list_field(es, Field::Repos) is None {
        Some(Field::Repos)
    } else if list_field(es, Field::Args) is None {
        Some(Field::Args)
    } else {
        None
    }
}

/// What the entries of a source give, field by field: for each field the
/// value under the first of its names that is set. Keys that are no name of
/// a field count for nothing.
pub open spec fn resolved(es: Seq<EntryView>) -> Result<PatchView, Field> {
    match first_bad(es) {
        Some(f) => Err(f),
        None => Ok(
            PatchView {
                name: text_field(es, Field::Name)->0,
                author: text_field(es, Field::Author)->0,
                ver: text_field(es, Field::Ver)->0,
                desc: text_field(es, Field::Desc)->0,
                license: text_field(es, Field::License)->0,
                git: text_field(es, Field::Git)->0,
                pkgs: list_field(es, Field::Pkgs)->0,
                dir: text_field(es, Field::Dir)->0,
                repos: list_field(es, Field::Repos)->0,
                args: list_field(es, Field::Args)->0,
            },
        ),
    }
}

/// What `o` holds, or `b` where it holds nothing.
pub open spec fn either<T>(o: Option<T>, b: T) -> T {
    match o {
        Some(x) => x,
        None => b,
    }
}

/// `o` where it holds something, else `b`.
pub open spec fn either_optional<T>(o: Option<T>, b: Option<T>) -> Option<T> {
    match o {
        Some(x) => Some(x),
        None => b,
    }
}

/// `base` with every field that `p` gives taken from `p`.
pub open spec fn merged(base: ConfigView, p: PatchView) -> ConfigView {
    ConfigView {
        name: either(p.name, base.name),
        author: either(p.author, base.author),
        ver: either(p.ver, base.ver),
        desc: either(p.desc, base.desc),
        license: either(p.license, base.license),
        git: either(p.git, base.git),
        pkgs: either_optional(p.pkgs, base.pkgs),
        dir: either(p.dir, base.dir),
        repos: either(p.repos, base.repos),
        args: either_optional(p.args, base.args),
    }
}

/// What loading `text` over the settings `base` gives: the settings, or the
/// name of the part that is not as it must be.
pub open spec fn loaded(text: Seq<char>, base: ConfigView) -> Result<ConfigView, Seq<char>> {
    match read_document(text) {
        None => Err("krait"@),
        Some(doc) => if doc.root != "krait"@ {
            Err("krait"@)
        } else {
            match find(doc.entries, "config"@) {
                None => Ok(base),
                Some(section) => match as_entries(section) {
                    None => Err("config"@),
                    Some(es) => match resolved(es) {
                        Err(f) => Err(field_label(f)),
                        Ok(p) => Ok(merged(base, p)),
                    },
                },
            }
        },
    }
}

fn take_text(es: &Vec<Entry>, f: Field) -> (r: Result<Option<String>, Field>)
    ensures
        match r {
            Err(g) => g == f && text_field(entries_view(es@), f) is None,
            Ok(o) => text_field(entries_view(es@), f) == Some(optional_text_view(o)),
        },
{
    match lookup_field(es, f) {
        None => Ok(None),
        Some(v) => match text_of_value(v) {
            Some(s) => Ok(Some(s)),
            None => Err(f),
        },
    }
}

fn take_list(es: &Vec<Entry>, f: Field) -> (r: Result<Option<Vec<String>>, Field>)
    ensures
        match r {
            Err(g) => g == f && list_field(entries_view(es@), f) is None,
            Ok(o) => list_field(entries_view(es@), f) == Some(optional_strings_view(o)),
        },
{
    match lookup_field(es, f) {
        None => Ok(None),
        Some(v) => match texts_of_value(v) {
            Some(xs) => Ok(Some(xs)),
            None => Err(f),
        },
    }
}

/// What the entries `es` give, field by field, or the first field for
/// which they give something of the wrong kind.
pub fn resolve(es: &Vec<Entry>) -> (r: Result<ConfigPatch, Field>)
    ensures
        match r {
            Ok(p) => resolved(entries_view(es@)) == Ok::<PatchView, Field>(p@),
            Err(f) => resolved(entries_view(es@)) == Err::<PatchView, Field>(f),
        },
{
    let name = match take_text(es, Field::Name) {
        Ok(v) => v,
        Err(f) => {
            return Err(f);
        },
    };
    let author = match take_text(es, Field::Author) {
        Ok(v) => v,
        Err(f) => {
            return Err(f);
        },
    };
    let ver = match take_text(es, Field::Ver) {
        Ok(v) => v,
        Err(f) => {
            return Err(f);
        },
    };
    let desc = match take_text(es, Field::Desc) {
        Ok(v) => v,
        Err(f) => {
            return Err(f);
        },
    };
    let license = match take_text(es, Field::License) {
        Ok(v) => v,
        Err(f) => {
            return Err(f);
        },
    };
    let git = match take_text(es, Field::Git) {
        Ok(v) => v,
        Err(f) => {
            return Err(f);
        },
    };
    let pkgs = match take_list(es, Field::Pkgs) {
        Ok(v) => v,
        Err(f) => {
            return Err(f);
        },
    };
    let dir = match take_text(es, Field::Dir) {
        Ok(v) => v,
        Err(f) => {
            return Err(f);
        },
    };
    let repos = match take_list(es, Field::Repos) {
        Ok(v) => v,
        Err(f) => {
            return Err(f);
        },
    };
    let args = match take_list(es, Field::Args) {
        Ok(v) => v,
        Err(f) => {
            return Err(f);
        },
    };
    Ok(ConfigPatch { name, author, ver, desc, license, git, pkgs, dir, repos, args })
}

fn pick(o: Option<String>, b: String) -> (r: String)
    ensures
        r@ == either(optional_text_view(o), b@),
{
    match o {
        Some(x) => x,
        None => b,
    }
}

/// Whether `xs` holds the text `s`.
pub fn holds(xs: &Vec<String>, s: &str) -> (r: bool)
    ensures
        r == strings_view(xs@).contains(s@),
{
    let ghost sv = strings_view(xs@);
    let mut i: usize = 0;
    while i < xs.len()
        invariant
            i <= xs.len(),
            sv == strings_view(xs@),
            forall|j: int| 0 <= j < i ==> sv[j] != s@,
        decreases xs.len() - i,
    {
        if key_is(&xs[i], s) {
            assert(sv[i as int] == s@);
            return true;
        }
        i += 1;
    }
    false
}

/// The list `xs` without the text `s`, in the same order.
pub open spec fn without(xs: Seq<Seq<char>>, s: Seq<char>) -> Seq<Seq<char>> {
    xs.filter(|x: Seq<char>| x != s)
}

fn strip(xs: &Vec<String>, s: &str) -> (r: Vec<String>)
    ensures
        strings_view(r@) == without(strings_view(xs@), s@),
{
    let ghost sv = strings_view(xs@);
    let ghost keep = |x: Seq<char>| x != s@;
    let mut out: Vec<String> = Vec::new();
    let mut i: usize = 0;
    assert(sv.take(0) =~= Seq::<Seq<char>>::empty());
    assert(strings_view(out@) =~= Seq::<Seq<char>>::empty());
    while i < xs.len()
        invariant
            i <= xs.len(),
            sv == strings_view(xs@),
            keep == (|x: Seq<char>| x != s@),
            strings_view(out@) == sv.take(i as int).filter(keep),
        decreases xs.len() - i,
    {
        let ghost prev = strings_view(out@);
        proof {
            let t = sv.take(i as int + 1);
            assert(t.drop_last() =~= sv.take(i as int));
            assert(t.last() == sv[i as int]);
            reveal(Seq::filter);
        }
        if !key_is(&xs[i], s) {
            out.push(xs[i].clone());
            assert(strings_view(out@) =~= prev.push(sv[i as int]));
        }
        i += 1;
    }
    assert(sv.take(i as int) =~= sv);
    out
}

impl KraitConfig {
    /// The settings that hold where nothing was persisted, for a user whose
    /// home directory is `home` on a platform that parts path components by
    /// `sep`. Every field holds its default; the directory is `krait` below
    /// `home`.
    pub fn default_in(home: &str, sep: char) -> (r: KraitConfig)
        ensures
            r@ == default_config(home@, sep),
    {
        let repos = vec!["https://github.com/m1ten/krait-pkgs".to_owned()];
        assert(strings_view(repos@) =~= seq!["https://github.com/m1ten/krait-pkgs"@]);
        KraitConfig {
            name: "krait".to_owned(),
            author: "miten <57693631+m1ten@users.noreply.github.com>".to_owned(),
            ver: "0.0.1".to_owned(),
            desc: "cross platform package manager".to_owned(),
            license: "Apache-2.0".to_owned(),
            git: "https://github.com/m1ten/krait".to_owned(),
            pkgs: None,
            dir: join(home, "krait", sep),
            repos,
            args: None,
        }
    }

    /// The default settings for the home directory `home`, or the error
    /// that says there is none.
    pub fn from_home(home: Option<String>, sep: char) -> (r: Result<KraitConfig, ResolverError>)
        ensures
            match home {
                Some(h) => r matches Ok(c) && c@ == default_config(h@, sep),
                None => r == Err::<KraitConfig, ResolverError>(ResolverError::NoHomeDirectory),
            },
    {
        match require_home(home) {
            Ok(h) => Ok(KraitConfig::default_in(h.as_str(), sep)),
            Err(e) => Err(e),
        }
    }

    /// The default settings for the invoking user. The home directory and
    /// the path separator are asked of the platform; whatever it answers,
    /// the result is that of [`KraitConfig::from_home`] on the answer.
    pub fn new() -> (r: Result<KraitConfig, ResolverError>)
        ensures
            match r {
                Ok(c) => exists|home: Seq<char>, sep: char| c@ == default_config(home, sep),
                Err(e) => e == ResolverError::NoHomeDirectory,
            },
    {
        let sep = main_separator();
        let home = home_dir();
        let ghost asked = home;
        let r = KraitConfig::from_home(home, sep);
        proof {
            if asked is Some {
                assert(r->Ok_0@ == default_config(asked->0@, sep));
            }
        }
        r
    }

    /// `base` with every field that `patch` gives taken from `patch`;
    /// the fields that `patch` does not give stay as they are.
    pub fn merge(base: KraitConfig, patch: ConfigPatch) -> (r: KraitConfig)
        ensures
            r@ == merged(base@, patch@),
    {
        KraitConfig {
            name: pick(patch.name, base.name),
            author: pick(patch.author, base.author),
            ver: pick(patch.ver, base.ver),
            desc: pick(patch.desc, base.desc),
            license: pick(patch.license, base.license),
            git: pick(patch.git, base.git),
            pkgs: match patch.pkgs {
                Some(xs) => Some(xs),
                None => base.pkgs,
            },
            dir: pick(patch.dir, base.dir),
            repos: match patch.repos {
                Some(xs) => xs,
                None => base.repos,
            },
            args: match patch.args {
                Some(xs) => Some(xs),
                None => base.args,
            },
        }
    }

    /// Loads persisted settings over `base`: every field that the text
    /// gives, under its current name or an earlier one, is taken from the
    /// text, and every other field from `base`. Keys that are no name of a
    /// field are passed over. Either all of it resolves, or the error names
    /// the part that does not: `krait` where the text is no root table of
    /// that name, `config` where that entry is no table, else the first
    /// field that holds something of the wrong kind.
    pub fn load(raw_text: &str, base: KraitConfig) -> (r: Result<KraitConfig, ConfigError>)
        ensures
            match r {
                Ok(c) => loaded(raw_text@, base@) == Ok::<ConfigView, Seq<char>>(c@),
                Err(ConfigError::Malformed(part)) => loaded(raw_text@, base@) == Err::<
                    ConfigView,
                    Seq<char>,
                >(part@),
            },
    {
        let doc = match read(raw_text) {
            Some(doc) => doc,
            None => {
                return Err(ConfigError::Malformed("krait".to_owned()));
            },
        };
        if !key_is(&doc.root, "krait") {
            return Err(ConfigError::Malformed("krait".to_owned()));
        }
        let section = match lookup(&doc.entries, "config") {
            Some(v) => v,
            None => {
                return Ok(base);
            },
        };
        let resolved = match section {
            Value::Table(es) => {
                proof {
                    lemma_view_table(*es);
                }
                resolve(es)
            },
            Value::List(xs) => {
                proof {
                    lemma_view_list(*xs);
                }
                if xs.len() != 0 {
                    return Err(ConfigError::Malformed("config".to_owned()));
                }
                let none: Vec<Entry> = Vec::new();
                assert(entries_view(none@) =~= Seq::<EntryView>::empty());
                resolve(&none)
            },
            _ => {
                return Err(ConfigError::Malformed("config".to_owned()));
            },
        };
        match resolved {
            Ok(patch) => Ok(KraitConfig::merge(base, patch)),
            Err(f) => Err(ConfigError::Malformed(label_of(f))),
        }
    }

    /// These settings with `name` added behind the installed packages. Where
    /// no package was ever recorded, the list is started. Fails where the
    /// package is recorded already.
    pub fn add_package(&self, name: &str) -> (r: Result<KraitConfig, ModelError>)
        ensures
            match r {
                Ok(c) => with_package(self@, name@) == Ok::<ConfigView, ModelError>(c@),
                Err(e) => with_package(self@, name@) == Err::<ConfigView, ModelError>(e),
            },
    {
        let mut c = self.clone();
        let mut list = match c.pkgs {
            Some(xs) => xs,
            None => Vec::new(),
        };
        assert(strings_view(list@) =~= installed(self@));
        if holds(&list, name) {
            return Err(ModelError::DuplicateEntry);
        }
        let ghost before = strings_view(list@);
        list.push(name.to_owned());
        assert(strings_view(list@) =~= before.push(name@));
        c.pkgs = Some(list);
        Ok(c)
    }

    /// These settings without the installed package `name`. Fails where the
    /// package is not recorded.
    pub fn remove_package(&self, name: &str) -> (r: Result<KraitConfig, ModelError>)
        ensures
            match r {
                Ok(c) => without_package(self@, name@) == Ok::<ConfigView, ModelError>(c@),
                Err(e) => without_package(self@, name@) == Err::<ConfigView, ModelError>(e),
            },
    {
        let mut c = self.clone();
        let list = match c.pkgs {
            Some(xs) => xs,
            None => Vec::new(),
        };
        assert(strings_view(list@) =~= installed(self@));
        if !holds(&list, name) {
            return Err(ModelError::NotFound);
        }
        c.pkgs = Some(strip(&list, name));
        Ok(c)
    }

    /// These settings with `url` added behind the repositories. Fails where
    /// the repository is listed already.
    pub fn add_repo(&self, url: &str) -> (r: Result<KraitConfig, ModelError>)
        ensures
            match r {
                Ok(c) => with_repo(self@, url@) == Ok::<ConfigView, ModelError>(c@),
                Err(e) => with_repo(self@, url@) == Err::<ConfigView, ModelError>(e),
            },
    {
        if holds(&self.repos, url) {
            return Err(ModelError::DuplicateEntry);
        }
        let mut c = self.clone();
        let ghost before = strings_view(c.repos@);
        c.repos.push(url.to_owned());
        assert(strings_view(c.repos@) =~= before.push(url@));
        Ok(c)
    }
}

/// The installed packages: none where none was ever recorded.
pub open spec fn installed(c: ConfigView) -> Seq<Seq<char>> {
    match c.pkgs {
        Some(xs) => xs,
        None => Seq::empty(),
    }
}

/// The settings with the package `name` recorded behind the others, or
/// `DuplicateEntry` where it is recorded already.
pub open spec fn with_package(c: ConfigView, name: Seq<char>) -> Result<ConfigView, ModelError> {
    if installed(c).contains(name) {
        Err(ModelError::DuplicateEntry)
    } else {
        Ok(ConfigView { pkgs: Some(installed(c).push(name)), ..c })
    }
}

/// The settings without the package `name`, the others in their order, or
/// `NotFound` where it is not recorded.
pub open spec fn without_package(c: ConfigView, name: Seq<char>) -> Result<
    ConfigView,
    ModelError,
> {
    if installed(c).contains(name) {
        Ok(ConfigView { pkgs: Some(without(installed(c), name)), ..c })
    } else {
        Err(ModelError::NotFound)
    }
}

/// The settings with the repository `url` behind the others, or
/// `DuplicateEntry` where it is listed already.
pub open spec fn with_repo(c: ConfigView, url: Seq<char>) -> Result<ConfigView, ModelError> {
    if c.repos.contains(url) {
        Err(ModelError::DuplicateEntry)
    } else {
        Ok(ConfigView { repos: c.repos.push(url), ..c })
    }
}


/// What a field holds, as a value: a string for a text, a list of strings
/// for a list, and `Absent` for a list that was never set.
pub open spec fn field_of(c: ConfigView, f: Field) -> ValueView {
    match f {
        Field::Name => ValueView::Str(c.name),
        Field::Author => ValueView::Str(c.author),
        Field::Ver => ValueView::Str(c.ver),
        Field::Desc => ValueView::Str(c.desc),
        Field::License => ValueView::Str(c.license),
        Field::Git => ValueView::Str(c.git),
        Field::Pkgs => optional_list_value(c.pkgs),
        Field::Dir => ValueView::Str(c.dir),
        Field::Repos => list_value(c.repos),
        Field::Args => optional_list_value(c.args),
    }
}

/// No title of the header holds a line break, so each is written as it is.
pub proof fn lemma_titles_plain()
    ensures
        flatten(titles()[0]) == titles()[0],
        flatten(titles()[1]) == titles()[1],
        flatten(titles()[2]) == titles()[2],
{
    reveal_strlit("           Krait Config           ");
    reveal_strlit(" Automatically generated by Krait ");
    reveal_strlit("      READ THE DOCUMENTATION      ");
    assert(no_line_break(titles()[0]));
    assert(no_line_break(titles()[1]));
    assert(no_line_break(titles()[2]));
    lemma_flatten_plain(titles()[0]);
    lemma_flatten_plain(titles()[1]);
    lemma_flatten_plain(titles()[2]);
}

/// The name of the root table can stand bare in front of `=`.
pub proof fn lemma_root_plain()
    ensures
        is_plain_name("krait"@),
{
    reveal_strlit("krait");
    let k = "krait"@;
    assert(k =~= seq!['k', 'r', 'a', 'i', 't']);
    lemma_reserved_words();
    assert(all_name_chars(k)) by {
        assert forall|i: int| 0 <= i < k.len() implies is_name_char(
            #[trigger] k[i],
        ) by {
            if i == 0 {
            } else if i == 1 {
            } else if i == 2 {
            } else if i == 3 {
            } else {
            }
        }
    }
    assert(k[0] == 'k');
    assert(!is_reserved(k)) by {
        assert("break"@[0] == 'b');
        assert("false"@[0] == 'f');
        assert("local"@[0] == 'l');
        assert("until"@[0] == 'u');
        assert("while"@[0] == 'w');
    }
}

impl KraitConfig {
    /// What the field `f` holds, as a value.
    pub fn get(&self, f: Field) -> (r: Value)
        ensures
            r@ == field_of(self@, f),
    {
        match f {
            Field::Name => Value::Str(self.name.clone()),
            Field::Author => Value::Str(self.author.clone()),
            Field::Ver => Value::Str(self.ver.clone()),
            Field::Desc => Value::Str(self.desc.clone()),
            Field::License => Value::Str(self.license.clone()),
            Field::Git => Value::Str(self.git.clone()),
            Field::Pkgs => optional_list_of(&self.pkgs),
            Field::Dir => Value::Str(self.dir.clone()),
            Field::Repos => list_of(&self.repos),
            Field::Args => optional_list_of(&self.args),
        }
    }

    /// The text of the persisted configuration for these settings.
    pub fn render(&self) -> (r: String)
        ensures
            r@ == config_text(self@),
    {
        let root = self.to_root();
        let ts: Vec<&str> = vec![
            "           Krait Config           ",
            " Automatically generated by Krait ",
            "      READ THE DOCUMENTATION      ",
        ];
        assert(titles_view(ts@) =~= titles());
        let mut out: Vec<char> = Vec::new();
        write_header(&mut out, &ts);
        write_table(&mut out, &chars_of("krait"), &root);
        assert(out@ =~= config_text(self@));
        string_of(&out)
    }

    /// The text of the persisted configuration in pieces: one for each
    /// line of the header, one for the empty line behind them, and one for
    /// the root table. Put one after the other they are the text that
    /// [`KraitConfig::render`] gives.
    pub fn gen_lua(&self) -> (r: Vec<String>)
        ensures
            r@.len() == 5,
            r@[0]@ == seq!['-', '-'] + titles()[0],
            r@[1]@ == seq!['\n', '-', '-'] + titles()[1],
            r@[2]@ == seq!['\n', '-', '-'] + titles()[2],
            r@[3]@ == seq!['\n'],
            r@[4]@ == seq!['\n'] + render_table("krait"@, root_entries(self@)),
            concat(strings_view(r@)) == config_text(self@),
    {
        proof {
            lemma_titles_plain();
        }
        let root = self.to_root();
        let mut first: Vec<char> = Vec::new();
        first.push('-');
        first.push('-');
        push_all(&mut first, &flat_title("           Krait Config           "));
        let mut second: Vec<char> = Vec::new();
        second.push('\n');
        second.push('-');
        second.push('-');
        push_all(&mut second, &flat_title(" Automatically generated by Krait "));
        let mut third: Vec<char> = Vec::new();
        third.push('\n');
        third.push('-');
        third.push('-');
        push_all(&mut third, &flat_title("      READ THE DOCUMENTATION      "));
        let mut fourth: Vec<char> = Vec::new();
        fourth.push('\n');
        let mut fifth: Vec<char> = Vec::new();
        fifth.push('\n');
        write_table(&mut fifth, &chars_of("krait"), &root);
        assert(first@ =~= seq!['-', '-'] + titles()[0]);
        assert(second@ =~= seq!['\n', '-', '-'] + titles()[1]);
        assert(third@ =~= seq!['\n', '-', '-'] + titles()[2]);
        assert(fourth@ =~= seq!['\n']);
        assert(fifth@ =~= seq!['\n'] + render_table("krait"@, root_entries(self@)));
        let mut out: Vec<String> = Vec::new();
        out.push(string_of(&first));
        out.push(string_of(&second));
        out.push(string_of(&third));
        out.push(string_of(&fourth));
        out.push(string_of(&fifth));
        proof {
            let parts = strings_view(out@);
            let ts = titles();
            let body = render_table("krait"@, root_entries(self@));
            assert(parts.len() == 5);
            let four = parts.drop_last();
            let three = four.drop_last();
            let two = three.drop_last();
            let one = two.drop_last();
            let none = one.drop_last();
            assert(none.len() == 0);
            assert(concat(none) =~= Seq::<char>::empty());
            assert(concat(one) == concat(none) + one.last());
            assert(concat(two) == concat(one) + two.last());
            assert(concat(three) == concat(two) + three.last());
            assert(concat(four) == concat(three) + four.last());
            assert(concat(parts) == concat(four) + parts.last());
            let after_first = ts.skip(1);
            let after_second = after_first.skip(1);
            let after_third = after_second.skip(1);
            assert(after_third.len() == 0);
            assert(render_header(after_third) =~= seq!['\n']);
            assert(render_header(after_second) == comment_line(flatten(after_second[0]))
                + render_header(after_third));
            assert(render_header(after_first) == comment_line(flatten(after_first[0]))
                + render_header(after_second));
            assert(render_header(ts) == comment_line(flatten(ts[0])) + render_header(after_first));
            assert(concat(parts) =~= render_header(ts) + body);
        }
        out
    }
}

} // verus!
