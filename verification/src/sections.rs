//! The settings laid out in sections: identity, packages and directories,
//! each a table of its own under the root.

use vstd::prelude::*;
use crate::config::{
    list_of, list_value, optional_list_of, optional_list_value, optional_strings_view, text_entry,
    text_of,
};
use crate::render::{render_document, titles_view, write_header, write_table};
use crate::text::{chars_of, string_of};
use crate::resolver::{home_dir, join, join_path, main_separator, require_home, ResolverError};
use crate::value::{
    entries_view, lemma_view_table, strings_view, Entry, EntryView, Value, ValueView,
};

verus! {

/// Identity, repositories and default flags.
#[derive(Debug, Clone, PartialEq, Eq)]
pub struct NPInfo {
    /// The name of the package manager.
    pub name: String,
    /// Its author.
    pub author: String,
    /// Its version.
    pub ver: String,
    /// What it is, in a line.
    pub desc: String,
    /// Its license.
    pub license: String,
    /// Where its sources are kept.
    pub git: String,
    /// The repositories that packages come from; the first is asked first.
    pub repos: Vec<String>,
    /// The flags that apply to every run, from the left.
    pub flags: Option<Vec<String>>,
}

/// The installed packages.
#[derive(Debug, Clone, PartialEq, Eq)]
pub struct NP {
    /// The installed packages; `None` where none was ever recorded.
    pub pkgs: Option<Vec<String>>,
}

/// The directories of the package manager.
#[derive(Debug, Clone, PartialEq, Eq)]
pub struct NPDir {
    /// The root directory.
    pub dir: String,
    /// Where packages are kept.
    pub pkg_dir: String,
    /// Where downloads are kept.
    pub cache_dir: String,
}

/// The settings in sections.
#[derive(Debug, Clone, PartialEq, Eq)]
pub struct NPConfig {
    pub info: NPInfo,
    pub pkg: NP,
    pub dir: NPDir,
}

/// The mathematical content of an [`NPInfo`].
pub struct InfoView {
    pub name: Seq<char>,
    pub author: Seq<char>,
    pub ver: Seq<char>,
    pub desc: Seq<char>,
    pub license: Seq<char>,
    pub git: Seq<char>,
    pub repos: Seq<Seq<char>>,
    pub flags: Option<Seq<Seq<char>>>,
}

/// The mathematical content of an [`NP`].
pub struct PackagesView {
    pub pkgs: Option<Seq<Seq<char>>>,
}

/// The mathematical content of an [`NPDir`].
pub struct DirView {
    pub dir: Seq<char>,
    pub pkg_dir: Seq<char>,
    pub cache_dir: Seq<char>,
}

/// The mathematical content of an [`NPConfig`].
pub struct SectionsView {
    pub info: InfoView,
    pub pkg: PackagesView,
    pub dir: DirView,
}

impl View for NPInfo {
    type V = InfoView;

    open spec fn view(&self) -> InfoView {
        InfoView {
            name: self.name@,
            author: self.author@,
            ver: self.ver@,
            desc: self.desc@,
            license: self.license@,
            git: self.git@,
            repos: strings_view(self.repos@),
            flags: optional_strings_view(self.flags),
        }
    }
}

impl View for NP {
    type V = PackagesView;

    open spec fn view(&self) -> PackagesView {
        PackagesView { pkgs: optional_strings_view(self.pkgs) }
    }
}

impl View for NPDir {
    type V = DirView;

    open spec fn view(&self) -> DirView {
        DirView { dir: self.dir@, pkg_dir: self.pkg_dir@, cache_dir: self.cache_dir@ }
    }
}

impl View for NPConfig {
    type V = SectionsView;

    open spec fn view(&self) -> SectionsView {
        SectionsView { info: self.info@, pkg: self.pkg@, dir: self.dir@ }
    }
}

/// The identity that holds where nothing was persisted.
pub open spec fn default_info() -> InfoView {
    InfoView {
        name: "neopkg"@,
        author: "miten"@,
        ver: "0.0.1"@,
        desc: "cross platform package manager"@,
        license: "Apache-2.0"@,
        git: "https://github.com/m1ten/neopkg"@,
        repos: seq!["https://github.com/m1ten/neopkgs"@],
        flags: None,
    }
}

/// The directories that hold where nothing was persisted, below the home
/// directory `home`.
pub open spec fn default_dirs(home: Seq<char>, sep: char) -> DirView {
    DirView {
        dir: join_path(home, "neopkg"@, sep),
        pkg_dir: join_path(home, "neopkg/pkg"@, sep),
        cache_dir: join_path(home, "neopkg/cache"@, sep),
    }
}

/// The settings that hold where nothing was persisted.
pub open spec fn default_sections(home: Seq<char>, sep: char) -> SectionsView {
    SectionsView {
        info: default_info(),
        pkg: PackagesView { pkgs: None },
        dir: default_dirs(home, sep),
    }
}

/// The identity as the entries of the table `info`.
pub open spec fn info_entries(v: InfoView) -> Seq<EntryView> {
    seq![
        text_entry("name"@, v.name),
        text_entry("author"@, v.author),
        text_entry("ver"@, v.ver),
        text_entry("desc"@, v.desc),
        text_entry("license"@, v.license),
        text_entry("git"@, v.git),
        EntryView { key: "repos"@, value: list_value(v.repos) },
        EntryView { key: "flags"@, value: optional_list_value(v.flags) },
    ]
}

/// The packages as the entries of the table `pkg`.
pub open spec fn packages_entries(v: PackagesView) -> Seq<EntryView> {
    seq![EntryView { key: "pkgs"@, value: optional_list_value(v.pkgs) }]
}

/// The directories as the entries of the table `dir`.
pub open spec fn dir_entries(v: DirView) -> Seq<EntryView> {
    seq![
        text_entry("dir"@, v.dir),
        text_entry("pkg_dir"@, v.pkg_dir),
        text_entry("cache_dir"@, v.cache_dir),
    ]
}

/// The sections as the entries of the root table, each a table of its own.
pub open spec fn section_entries(v: SectionsView) -> Seq<EntryView> {
    seq![
        EntryView { key: "info"@, value: ValueView::Table(info_entries(v.info)) },
        EntryView { key: "pkg"@, value: ValueView::Table(packages_entries(v.pkg)) },
        EntryView { key: "dir"@, value: ValueView::Table(dir_entries(v.dir)) },
    ]
}

/// The titles of the header of the persisted settings.
pub open spec fn section_titles() -> Seq<Seq<char>> {
    seq![
        "           Neopkg Config           "@,
        " Automatically generated by Neopkg "@,
        "       READ THE DOCUMENTATION      "@,
    ]
}

/// The text of the persisted settings: the header, then the root table
/// `neopkg` with one table for each section.
pub open spec fn sections_text(v: SectionsView) -> Seq<char> {
    render_document(section_titles(), "neopkg"@, section_entries(v))
}

impl Default for NPInfo {
    /// The identity that holds where nothing was persisted.
    fn default() -> (r: NPInfo)
        ensures
            r@ == default_info(),
    {
        let repos = vec!["https://github.com/m1ten/neopkgs".to_owned()];
        assert(strings_view(repos@) =~= seq!["https://github.com/m1ten/neopkgs"@]);
        NPInfo {
            name: "neopkg".to_owned(),
            author: "miten".to_owned(),
            ver: "0.0.1".to_owned(),
            desc: "cross platform package manager".to_owned(),
            license: "Apache-2.0".to_owned(),
            git: "https://github.com/m1ten/neopkg".to_owned(),
            repos,
            flags: None,
        }
    }
}

impl Default for NP {
    /// No package was ever recorded.
    fn default() -> (r: NP)
        ensures
            r@ == (PackagesView { pkgs: None }),
    {
        NP { pkgs: None }
    }
}

impl NPInfo {
    /// The entries of the table `info`.
    pub fn to_entries(&self) -> (r: Vec<Entry>)
        ensures
            entries_view(r@) == info_entries(self@),
    {
        let mut out: Vec<Entry> = Vec::new();
        out.push(text_of("name", &self.name));
        out.push(text_of("author", &self.author));
        out.push(text_of("ver", &self.ver));
        out.push(text_of("desc", &self.desc));
        out.push(text_of("license", &self.license));
        out.push(text_of("git", &self.git));
        out.push(Entry { key: "repos".to_owned(), value: list_of(&self.repos) });
        out.push(Entry { key: "flags".to_owned(), value: optional_list_of(&self.flags) });
        assert(entries_view(out@) =~= info_entries(self@));
        out
    }
}

impl NP {
    /// The entries of the table `pkg`.
    pub fn to_entries(&self) -> (r: Vec<Entry>)
        ensures
            entries_view(r@) == packages_entries(self@),
    {
        let mut out: Vec<Entry> = Vec::new();
        out.push(Entry { key: "pkgs".to_owned(), value: optional_list_of(&self.pkgs) });
        assert(entries_view(out@) =~= packages_entries(self@));
        out
    }
}

impl NPDir {
    /// The directories that hold where nothing was persisted, below the
    /// home directory `home`.
    pub fn default_in(home: &str, sep: char) -> (r: NPDir)
        ensures
            r@ == default_dirs(home@, sep),
    {
        NPDir {
            dir: join(home, "neopkg", sep),
            pkg_dir: join(home, "neopkg/pkg", sep),
            cache_dir: join(home, "neopkg/cache", sep),
        }
    }

    /// The entries of the table `dir`.
    pub fn to_entries(&self) -> (r: Vec<Entry>)
        ensures
            entries_view(r@) == dir_entries(self@),
    {
        let mut out: Vec<Entry> = Vec::new();
        out.push(text_of("dir", &self.dir));
        out.push(text_of("pkg_dir", &self.pkg_dir));
        out.push(text_of("cache_dir", &self.cache_dir));
        assert(entries_view(out@) =~= dir_entries(self@));
        out
    }
}

fn section(key: &str, es: Vec<Entry>) -> (r: Entry)
    ensures
        r.key@ == key@,
        r.value@ == ValueView::Table(entries_view(es@)),
{
    proof {
        lemma_view_table(es);
    }
    Entry { key: key.to_owned(), value: Value::Table(es) }
}

impl NPConfig {
    /// The settings that hold where nothing was persisted, for a user whose
    /// home directory is `home` on a platform that parts path components by
    /// `sep`.
    pub fn default_in(home: &str, sep: char) -> (r: NPConfig)
        ensures
            r@ == default_sections(home@, sep),
    {
        NPConfig { info: NPInfo::default(), pkg: NP::default(), dir: NPDir::default_in(home, sep) }
    }

    /// The default settings for the home directory `home`, or the error
    /// that says there is none.
    pub fn from_home(home: Option<String>, sep: char) -> (r: Result<NPConfig, ResolverError>)
        ensures
            match home {
                Some(h) => r matches Ok(c) && c@ == default_sections(h@, sep),
                None => r == Err::<NPConfig, ResolverError>(ResolverError::NoHomeDirectory),
            },
    {
        match require_home(home) {
            Ok(h) => Ok(NPConfig::default_in(h.as_str(), sep)),
            Err(e) => Err(e),
        }
    }

    /// The default settings for the invoking user. The home directory and
    /// the path separator are asked of the platform; whatever it answers,
    /// the result is that of [`NPConfig::from_home`] on the answer.
    pub fn new() -> (r: Result<NPConfig, ResolverError>)
        ensures
            match r {
                Ok(c) => exists|home: Seq<char>, sep: char| c@ == default_sections(home, sep),
                Err(e) => e == ResolverError::NoHomeDirectory,
            },
    {
        let sep = main_separator();
        let home = home_dir();
        let ghost asked = home;
        let r = NPConfig::from_home(home, sep);
        proof {
            if asked is Some {
                assert(r->Ok_0@ == default_sections(asked->0@, sep));
            }
        }
        r
    }

    /// The sections as the entries of the root table.
    pub fn to_root(&self) -> (r: Vec<Entry>)
        ensures
            entries_view(r@) == section_entries(self@),
    {
        let mut out: Vec<Entry> = Vec::new();
        out.push(section("info", self.info.to_entries()));
        out.push(section("pkg", self.pkg.to_entries()));
        out.push(section("dir", self.dir.to_entries()));
        assert(entries_view(out@) =~= section_entries(self@));
        out
    }

    /// The text of the persisted settings.
    pub fn render(&self) -> (r: String)
        ensures
            r@ == sections_text(self@),
    {
        let root = self.to_root();
        let ts: Vec<&str> = vec![
            "           Neopkg Config           ",
            " Automatically generated by Neopkg ",
            "       READ THE DOCUMENTATION      ",
        ];
        assert(titles_view(ts@) =~= section_titles());
        let mut out: Vec<char> = Vec::new();
        write_header(&mut out, &ts);
        write_table(&mut out, &chars_of("neopkg"), &root);
        assert(out@ =~= sections_text(self@));
        string_of(&out)
    }
}

} // verus!
