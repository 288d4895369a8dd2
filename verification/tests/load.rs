use krait_config::config::{resolve, ConfigError, ConfigPatch, KraitConfig};
use krait_config::parse::read;
use krait_config::schema::{lookup, lookup_field, names_of, Field};
use krait_config::value::{Entry, Value};

fn base() -> KraitConfig {
    KraitConfig::default_in("/home/alice", '/')
}

fn strings(xs: &[&str]) -> Vec<String> {
    xs.iter().map(|s| s.to_string()).collect()
}

fn malformed(part: &str) -> Result<KraitConfig, ConfigError> {
    Err(ConfigError::Malformed(part.to_string()))
}

#[test]
fn written_defaults_load_as_the_defaults() {
    let d = base();
    assert_eq!(KraitConfig::load(&d.render(), base()), Ok(d));
}

#[test]
fn written_defaults_load_over_other_defaults() {
    let d = base();
    let other = KraitConfig::default_in("C:\\Users\\Bob", '\\');
    assert_eq!(KraitConfig::load(&d.render(), other), Ok(d));
}

#[test]
fn pieces_load_like_the_whole_text() {
    let d = base();
    assert_eq!(KraitConfig::load(&d.gen_lua().concat(), base()), Ok(d));
}

#[test]
fn every_setting_comes_back() {
    let c = KraitConfig {
        name: "k \"2\"".to_string(),
        author: "a\\b".to_string(),
        ver: "".to_string(),
        desc: "two\nlines -- no comment".to_string(),
        license: "}".to_string(),
        git: "{,;=".to_string(),
        pkgs: Some(strings(&["foo", "bar baz", "", "nil"])),
        dir: "C:\\Users\\Alice\\krait".to_string(),
        repos: strings(&["r1", "r\"2\"", "r3\\"]),
        args: Some(vec![]),
    };
    assert_eq!(KraitConfig::load(&c.render(), base()), Ok(c));
}

#[test]
fn empty_repositories_come_back_empty() {
    let mut c = base();
    c.repos = vec![];
    let loaded = KraitConfig::load(&c.render(), base()).unwrap();
    assert_eq!(loaded.repos, Vec::<String>::new());
    assert_eq!(loaded, c);
}

#[test]
fn unset_and_empty_lists_stay_apart() {
    let mut unset = base();
    unset.pkgs = None;
    let mut empty = base();
    empty.pkgs = Some(vec![]);
    assert_eq!(KraitConfig::load(&unset.render(), base()).unwrap().pkgs, None);
    assert_eq!(KraitConfig::load(&empty.render(), base()).unwrap().pkgs, Some(vec![]));
}

#[test]
fn earlier_names_are_accepted() {
    let text = "krait = { config = {\n\
        maintainer = \"someone\",\n\
        version = \"9.9\",\n\
        description = \"old\",\n\
        packages = {\"a\", \"b\"},\n\
        directory = \"/opt/krait\",\n\
        repositories = {\"https://example.org/r\"},\n\
        flags = {\"-q\"},\n\
    } }";
    let c = KraitConfig::load(text, base()).unwrap();
    assert_eq!(c.author, "someone");
    assert_eq!(c.ver, "9.9");
    assert_eq!(c.desc, "old");
    assert_eq!(c.pkgs, Some(strings(&["a", "b"])));
    assert_eq!(c.dir, "/opt/krait");
    assert_eq!(c.repos, strings(&["https://example.org/r"]));
    assert_eq!(c.args, Some(strings(&["-q"])));
    assert_eq!(c.name, "krait");
    assert_eq!(c.license, "Apache-2.0");
    assert_eq!(c.git, "https://github.com/m1ten/krait");
}

#[test]
fn the_third_name_of_the_arguments_is_accepted() {
    let c = KraitConfig::load("krait = { config = { arguments = {\"-x\"} } }", base()).unwrap();
    assert_eq!(c.args, Some(strings(&["-x"])));
}

#[test]
fn earlier_names_are_written_back_under_the_current_name() {
    let c = KraitConfig::load("krait = { config = { version = \"2.0\", flags = {\"-q\"} } }", base()).unwrap();
    let out = c.render();
    assert!(out.contains("ver = \"2.0\""));
    assert!(out.contains("args = {\"-q\"}"));
    assert!(!out.contains("version"));
    assert!(!out.contains("flags"));
}

#[test]
fn the_current_name_goes_first() {
    let text = "krait = { config = { version = \"old\", ver = \"new\", arguments = {\"3\"}, flags = {\"2\"} } }";
    let c = KraitConfig::load(text, base()).unwrap();
    assert_eq!(c.ver, "new");
    assert_eq!(c.args, Some(strings(&["2"])));
}

#[test]
fn the_last_of_two_equal_keys_counts() {
    let c = KraitConfig::load("krait = { config = { ver = \"1\", ver = \"2\" } }", base()).unwrap();
    assert_eq!(c.ver, "2");
}

#[test]
fn a_key_set_to_nil_counts_as_not_written() {
    let c = KraitConfig::load("krait = { config = { ver = nil, version = \"7\", name = nil } }", base()).unwrap();
    assert_eq!(c.ver, "7");
    assert_eq!(c.name, "krait");
}

#[test]
fn unknown_keys_are_passed_over() {
    let text = "krait = { future = 1, config = { name = \"n\", colour = \"red\", nested = { a = { 1, 2 } } }, more = {} }";
    let c = KraitConfig::load(text, base()).unwrap();
    assert_eq!(c.name, "n");
    let mut expected = base();
    expected.name = "n".to_string();
    assert_eq!(c, expected);
}

#[test]
fn absent_fields_take_their_defaults() {
    let c = KraitConfig::load("krait = { config = { } }", base()).unwrap();
    assert_eq!(c, base());
    let d = KraitConfig::load("krait = { }", base()).unwrap();
    assert_eq!(d, base());
    let e = KraitConfig::load("krait = { config = { dir = \"/x\" } }", base()).unwrap();
    assert_eq!(e.dir, "/x");
    assert_eq!(e.name, "krait");
}

#[test]
fn text_that_is_no_root_table_is_malformed() {
    for text in [
        "",
        "krait",
        "krait =",
        "krait = 5",
        "krait = {",
        "krait = { config = { name = \"x\" }",
        "krait = { config = { name = \"x } }",
        "krait = { } trailing",
        "krait == { }",
        "krait = { 1, 2 }",
        "krait = { config = { name = 1.5 } }",
        "krait = { config = { name = \"a\" \"b\" } }",
        "krait = { config = { 1, name = \"x\" } }",
        "krait = { config = { n = 99999999999999999999 } }",
        "krait = { config = { n = tru } }",
        "krait = { config = { end = 1 } }",
        "local krait = { }",
    ] {
        assert_eq!(KraitConfig::load(text, base()), malformed("krait"), "{}", text);
    }
}

#[test]
fn another_root_name_is_malformed() {
    assert_eq!(KraitConfig::load("neopkg = { config = { } }", base()), malformed("krait"));
}

#[test]
fn a_config_entry_that_is_no_table_is_malformed() {
    assert_eq!(KraitConfig::load("krait = { config = 5 }", base()), malformed("config"));
    assert_eq!(KraitConfig::load("krait = { config = \"x\" }", base()), malformed("config"));
    assert_eq!(KraitConfig::load("krait = { config = { \"a\" } }", base()), malformed("config"));
}

#[test]
fn the_first_field_of_the_wrong_kind_is_named() {
    assert_eq!(KraitConfig::load("krait = { config = { name = 5 } }", base()), malformed("name"));
    assert_eq!(KraitConfig::load("krait = { config = { maintainer = true } }", base()), malformed("author"));
    assert_eq!(KraitConfig::load("krait = { config = { version = {} } }", base()), malformed("ver"));
    assert_eq!(KraitConfig::load("krait = { config = { desc = {\"a\"} } }", base()), malformed("desc"));
    assert_eq!(KraitConfig::load("krait = { config = { license = 1 } }", base()), malformed("license"));
    assert_eq!(KraitConfig::load("krait = { config = { git = false } }", base()), malformed("git"));
    assert_eq!(KraitConfig::load("krait = { config = { pkgs = \"a\" } }", base()), malformed("pkgs"));
    assert_eq!(KraitConfig::load("krait = { config = { packages = {1} } }", base()), malformed("pkgs"));
    assert_eq!(KraitConfig::load("krait = { config = { directory = 2 } }", base()), malformed("dir"));
    assert_eq!(KraitConfig::load("krait = { config = { repos = {a = \"b\"} } }", base()), malformed("repos"));
    assert_eq!(KraitConfig::load("krait = { config = { flags = {\"a\", nil} } }", base()), malformed("args"));
    assert_eq!(
        KraitConfig::load("krait = { config = { args = 1, git = 2, desc = 3 } }", base()),
        malformed("desc")
    );
}

#[test]
fn nothing_is_built_from_a_malformed_text() {
    let r = KraitConfig::load("krait = { config = { name = \"fine\", repos = 3 } }", base());
    assert_eq!(r, malformed("repos"));
}

#[test]
fn comments_and_loose_layout_are_read() {
    let text = "-- my settings\n\n  krait={config={\n-- the name\nname=\"n\";ver = \"1\" -- trailing\n,\n\t[\"desc\"]\n=\n\"d\" , [ \"git\" ] = \"g\";}\n,}\n-- end\n";
    let c = KraitConfig::load(text, base()).unwrap();
    assert_eq!(c.name, "n");
    assert_eq!(c.ver, "1");
    assert_eq!(c.desc, "d");
    assert_eq!(c.git, "g");
}

#[test]
fn merge_takes_what_the_patch_gives() {
    let patch = ConfigPatch {
        name: Some("n".to_string()),
        author: None,
        ver: None,
        desc: Some("".to_string()),
        license: None,
        git: None,
        pkgs: Some(vec![]),
        dir: None,
        repos: Some(strings(&["a", "b"])),
        args: None,
    };
    let mut b = base();
    b.args = Some(strings(&["-k"]));
    let m = KraitConfig::merge(b.clone(), patch);
    assert_eq!(m.name, "n");
    assert_eq!(m.author, b.author);
    assert_eq!(m.ver, b.ver);
    assert_eq!(m.desc, "");
    assert_eq!(m.license, b.license);
    assert_eq!(m.git, b.git);
    assert_eq!(m.pkgs, Some(vec![]));
    assert_eq!(m.dir, b.dir);
    assert_eq!(m.repos, strings(&["a", "b"]));
    assert_eq!(m.args, Some(strings(&["-k"])));
}

#[test]
fn merge_with_an_empty_patch_changes_nothing() {
    let patch = ConfigPatch {
        name: None,
        author: None,
        ver: None,
        desc: None,
        license: None,
        git: None,
        pkgs: None,
        dir: None,
        repos: None,
        args: None,
    };
    assert_eq!(KraitConfig::merge(base(), patch), base());
}

#[test]
fn resolve_reads_the_entries_of_a_source() {
    let es = vec![
        Entry { key: "description".to_string(), value: Value::Str("d".to_string()) },
        Entry { key: "other".to_string(), value: Value::Int(1) },
        Entry { key: "pkgs".to_string(), value: Value::List(vec![Value::Str("p".to_string())]) },
    ];
    let p = resolve(&es).unwrap();
    assert_eq!(p.desc, Some("d".to_string()));
    assert_eq!(p.pkgs, Some(strings(&["p"])));
    assert_eq!(p.name, None);
    assert_eq!(p.repos, None);
    let bad = vec![Entry { key: "dir".to_string(), value: Value::Opaque }];
    assert_eq!(resolve(&bad), Err(Field::Dir));
}

#[test]
fn lookups_go_by_name_and_earlier_names() {
    let doc = read("t = { a = 1, b = 2, a = 3, version = \"v\" }").unwrap();
    assert_eq!(lookup(&doc.entries, "a"), Some(&Value::Int(3)));
    assert_eq!(lookup(&doc.entries, "b"), Some(&Value::Int(2)));
    assert_eq!(lookup(&doc.entries, "c"), None);
    assert_eq!(lookup_field(&doc.entries, Field::Ver), Some(&Value::Str("v".to_string())));
    assert_eq!(lookup_field(&doc.entries, Field::Name), None);
    assert_eq!(names_of(Field::Args), vec!["args", "flags", "arguments"]);
    assert_eq!(names_of(Field::Name), vec!["name"]);
}
