use krait_config::lexis::plain_name;
use krait_config::parse::{read, read_one, Document};
use krait_config::render::{render, render_literal};
use krait_config::text::{chars_of, string_of};
use krait_config::value::{Entry, Value};

fn entry(key: &str, value: Value) -> Entry {
    Entry { key: key.to_string(), value }
}

fn text(s: &str) -> Value {
    Value::Str(s.to_string())
}

fn value_of(src: &str) -> Option<Value> {
    read_one(src)
}

#[test]
fn values_of_every_kind_are_read() {
    assert_eq!(value_of("nil"), Some(Value::Absent));
    assert_eq!(value_of(" true\n"), Some(Value::Bool(true)));
    assert_eq!(value_of("false -- so it is"), Some(Value::Bool(false)));
    assert_eq!(value_of("42 "), Some(Value::Int(42)));
    assert_eq!(value_of("-17"), Some(Value::Int(-17)));
    assert_eq!(value_of("007"), Some(Value::Int(7)));
    assert_eq!(value_of("\"a\\\"b\""), Some(text("a\"b")));
    assert_eq!(value_of("{}"), Some(Value::List(vec![])));
    assert_eq!(value_of("{ 1 , 2 ; 3 , }"), Some(Value::List(vec![Value::Int(1), Value::Int(2), Value::Int(3)])));
    assert_eq!(value_of("{a=1}"), Some(Value::Table(vec![entry("a", Value::Int(1))])));
    assert_eq!(
        value_of("-- first\n{ a = { b = { \"c\" } } }"),
        Some(Value::Table(vec![entry("a", Value::Table(vec![entry("b", Value::List(vec![text("c")]))]))]))
    );
}

#[test]
fn what_is_no_value_is_not_read() {
    for src in ["", "1 2", "true,", "truth", "nill", "-", "--1", "- 1", "{", "{1", "{1 2}", "{a=}", "{=1}", "{a=1, 2}", "{1, a=2}", "\"open", "'single'", "[1]", "=", "}", ",", "{[a]=1}", "{[\"a\"=1}", "{[\"a\"] 1}", "{a==1}", "{and=1}", "x"] {
        assert_eq!(value_of(src), None, "{}", src);
    }
}

#[test]
fn whole_numbers_must_fit() {
    let at = |s: &str| read_one(s);
    assert_eq!(at("9223372036854775807"), Some(Value::Int(i64::MAX)));
    assert_eq!(at("-9223372036854775808"), Some(Value::Int(i64::MIN)));
    assert_eq!(at("9223372036854775808"), None);
    assert_eq!(at("-9223372036854775809"), None);
    assert_eq!(at("99999999999999999999999999999999999999999999"), None);
    assert_eq!(at("0000000000000000000000000000000000000012"), Some(Value::Int(12)));
    assert_eq!(at("12ab"), None);
    assert_eq!(at("1.5"), None);
    assert_eq!(at("0x10"), None);
    assert_eq!(at("-0"), Some(Value::Int(0)));
    assert_eq!(at("+1"), None);
}

#[test]
fn a_text_is_one_root_table() {
    let doc = read("-- c\nroot = { a = 1, b = \"x\" }\n").unwrap();
    assert_eq!(doc, Document { root: "root".to_string(), entries: vec![entry("a", Value::Int(1)), entry("b", text("x"))] });
    assert_eq!(read("root = {}"), Some(Document { root: "root".to_string(), entries: vec![] }));
    assert_eq!(read("root = { 1 }"), None);
    assert_eq!(read("root = { a = 1 } more"), None);
    assert_eq!(read("root = { a = 1 } -- fine"), Some(Document { root: "root".to_string(), entries: vec![entry("a", Value::Int(1))] }));
    assert_eq!(read("while = { }"), None);
    assert_eq!(read("9x = { }"), None);
    assert_eq!(read("= { }"), None);
}

#[test]
fn written_values_read_back() {
    let values = vec![
        Value::Absent,
        Value::Bool(true),
        Value::Bool(false),
        Value::Int(0),
        Value::Int(-1),
        Value::Int(i64::MIN),
        Value::Int(i64::MAX),
        text(""),
        text("-- not a comment"),
        text("\"\\\n\r\t'"),
        Value::List(vec![]),
        Value::List(vec![Value::Absent, Value::Int(-5), text("x"), Value::List(vec![Value::Bool(true)])]),
        Value::Table(vec![entry("a", Value::Int(1)), entry("b c", text("d")), entry("end", Value::List(vec![]))]),
        Value::Table(vec![entry("t", Value::Table(vec![entry("u", Value::Table(vec![entry("v", Value::Int(3))]))]))]),
    ];
    for v in values {
        let out = render_literal(&v).unwrap();
        assert_eq!(value_of(&out), Some(v), "{}", out);
    }
}

#[test]
fn unset_entries_are_gone_after_reading() {
    let v = Value::Table(vec![entry("a", Value::Absent), entry("b", Value::Int(1)), entry("c", Value::Absent)]);
    let out = render_literal(&v).unwrap();
    assert_eq!(value_of(&out), Some(Value::Table(vec![entry("b", Value::Int(1))])));
    let none = Value::Table(vec![entry("a", Value::Absent)]);
    assert_eq!(value_of(&render_literal(&none).unwrap()), Some(Value::List(vec![])));
}

#[test]
fn a_written_root_table_reads_back() {
    let es = vec![
        entry("name", text("n")),
        entry("unset", Value::Absent),
        entry("list", Value::List(vec![text("a"), text("b")])),
        entry("odd key", Value::Int(1)),
    ];
    let out = render("root", &es).unwrap();
    let doc = read(&out).unwrap();
    assert_eq!(doc.root, "root");
    assert_eq!(
        doc.entries,
        vec![entry("name", text("n")), entry("list", Value::List(vec![text("a"), text("b")])), entry("odd key", Value::Int(1))]
    );
}

#[test]
fn plain_names_are_names_that_are_not_reserved() {
    let is = |s: &str| plain_name(&s.chars().collect::<Vec<char>>());
    assert!(is("a"));
    assert!(is("_"));
    assert!(is("krait"));
    assert!(is("a1_B"));
    assert!(is("And"));
    assert!(!is(""));
    assert!(!is("1a"));
    assert!(!is("a-b"));
    assert!(!is("a b"));
    assert!(!is("é"));
    for w in ["and", "break", "do", "else", "elseif", "end", "false", "for", "function", "goto", "if", "in", "local", "nil", "not", "or", "repeat", "return", "then", "true", "until", "while"] {
        assert!(!is(w), "{}", w);
    }
}

#[test]
fn characters_and_strings_convert_both_ways() {
    let s = "héllo \u{1F600}\n";
    let cs = chars_of(s);
    assert_eq!(cs, s.chars().collect::<Vec<char>>());
    assert_eq!(string_of(&cs), s);
    assert_eq!(string_of(&vec![]), "");
}
