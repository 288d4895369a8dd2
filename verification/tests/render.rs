use krait_config::config::KraitConfig;
use krait_config::render::{render, render_literal, render_with_header, RenderError};
use krait_config::text::{escape_string, quote_string, read_quoted};
use krait_config::value::{Entry, Value};

fn entry(key: &str, value: Value) -> Entry {
    Entry { key: key.to_string(), value }
}

fn text(s: &str) -> Value {
    Value::Str(s.to_string())
}

#[test]
fn default_settings_render_exactly() {
    let c = KraitConfig::default_in("/home/alice", '/');
    let expected = "--           Krait Config           \n\
-- Automatically generated by Krait \n\
--      READ THE DOCUMENTATION      \n\
\n\
krait = {\n  \
config = {name = \"krait\", author = \"miten <57693631+m1ten@users.noreply.github.com>\", ver = \"0.0.1\", desc = \"cross platform package manager\", license = \"Apache-2.0\", git = \"https://github.com/m1ten/krait\", dir = \"/home/alice/krait\", repos = {\"https://github.com/m1ten/krait-pkgs\"}},\n\
}\n";
    assert_eq!(c.render(), expected);
}

#[test]
fn set_lists_are_written_in_order_and_unset_ones_left_out() {
    let mut c = KraitConfig::default_in("/h", '/');
    c.pkgs = Some(vec![]);
    c.args = Some(vec!["--yes".to_string(), "-v".to_string()]);
    let out = c.render();
    assert!(out.contains("git = \"https://github.com/m1ten/krait\", pkgs = {}, dir = \"/h/krait\", repos = {\"https://github.com/m1ten/krait-pkgs\"}, args = {\"--yes\", \"-v\"}},"));
    let d = KraitConfig::default_in("/h", '/');
    assert!(!d.render().contains("pkgs ="));
    assert!(!d.render().contains("args ="));
}

#[test]
fn gen_lua_gives_the_header_lines_first() {
    let c = KraitConfig::default_in("/home/alice", '/');
    let parts = c.gen_lua();
    assert_eq!(parts.len(), 5);
    assert_eq!(parts[0], "--           Krait Config           ");
    assert_eq!(parts[1], "\n-- Automatically generated by Krait ");
    assert_eq!(parts[2], "\n--      READ THE DOCUMENTATION      ");
    assert_eq!(parts[3], "\n");
    assert!(parts[4].starts_with("\nkrait = {\n  config = {name = \"krait\""));
    assert_eq!(parts.concat(), c.render());
}

#[test]
fn keys_come_in_the_order_of_the_settings() {
    let m = KraitConfig {
        name: "n".to_string(),
        author: "a".to_string(),
        ver: "v".to_string(),
        desc: "d".to_string(),
        license: "l".to_string(),
        git: "g".to_string(),
        pkgs: Some(vec!["p".to_string()]),
        dir: "krait".to_string(),
        repos: vec!["r1".to_string(), "r2".to_string(), "r3".to_string()],
        args: Some(vec!["-a".to_string(), "-b".to_string()]),
    };
    let text = m.gen_lua().concat();
    assert!(text.ends_with(
        "krait = {\n  config = {name = \"n\", author = \"a\", ver = \"v\", desc = \"d\", license = \"l\", git = \"g\", pkgs = {\"p\"}, dir = \"krait\", repos = {\"r1\", \"r2\", \"r3\"}, args = {\"-a\", \"-b\"}},\n}\n"
    ));
    let at = |key: &str| text.find(&format!("{} = ", key)).unwrap();
    let order = ["name", "author", "ver", "desc", "license", "git", "pkgs", "dir", "repos", "args"];
    for pair in order.windows(2) {
        assert!(at(pair[0]) < at(pair[1]), "{} before {}", pair[0], pair[1]);
    }
    let keys: Vec<String> = m.to_entries().into_iter().map(|e| e.key).collect();
    assert_eq!(keys, order);
}

#[test]
fn gen_lua_pieces_are_the_header_lines_and_the_table() {
    let m = KraitConfig {
        name: "krait".to_string(),
        author: "a".to_string(),
        ver: "0.0.1".to_string(),
        desc: "d".to_string(),
        license: "MIT".to_string(),
        git: "g".to_string(),
        pkgs: None,
        dir: "krait".to_string(),
        repos: vec!["r".to_string()],
        args: None,
    };
    let v = m.gen_lua();
    assert_eq!(v.len(), 5);
    assert_eq!(v[0], "--           Krait Config           ");
    assert_eq!(v[1], "\n-- Automatically generated by Krait ");
    assert_eq!(v[2], "\n--      READ THE DOCUMENTATION      ");
    assert_eq!(v[3], "\n");
    assert_eq!(
        v[4],
        "\nkrait = {\n  config = {name = \"krait\", author = \"a\", ver = \"0.0.1\", desc = \"d\", license = \"MIT\", git = \"g\", dir = \"krait\", repos = {\"r\"}},\n}\n"
    );
    let again = m.gen_lua();
    assert_eq!(v, again);
}

#[test]
fn render_is_the_same_every_time() {
    let c = KraitConfig::default_in("/home/alice", '/');
    assert_eq!(c.render(), c.render());
    assert_eq!(c.gen_lua(), c.gen_lua());
}

#[test]
fn quotes_and_backslashes_are_escaped() {
    assert_eq!(escape_string("a\"b\\c"), "a\\\"b\\\\c");
    assert_eq!(quote_string("a\"b\\c"), "\"a\\\"b\\\\c\"");
    assert_eq!(quote_string(""), "\"\"");
    assert_eq!(quote_string("two\nlines\r"), "\"two\\nlines\\r\"");
    assert_eq!(quote_string("C:\\Users\\Alice"), "\"C:\\\\Users\\\\Alice\"");
    assert_eq!(quote_string("/home/alice"), "\"/home/alice\"");
}

#[test]
fn quoted_text_reads_back() {
    for s in ["\"\\", "a\"b\\c", "", "plain", "tab\there", "\\\\\"\"", "line\nbreak", "é \u{1F600}"] {
        assert_eq!(read_quoted(&quote_string(s)), Some(s.to_string()));
    }
    assert_eq!(read_quoted("\"\\\"\\\\\""), Some("\"\\".to_string()));
    assert_eq!(read_quoted("\"a\\tb\\'c\""), Some("a\tb'c".to_string()));
    assert_eq!(read_quoted("\"open"), None);
    assert_eq!(read_quoted("\"bad\\q\""), None);
    assert_eq!(read_quoted("\"raw\nbreak\""), None);
    assert_eq!(read_quoted("\"two\" \"literals\""), None);
    assert_eq!(read_quoted("bare"), None);
    assert_eq!(read_quoted(""), None);
}

#[test]
fn literals_of_every_kind() {
    assert_eq!(render_literal(&Value::Absent), Ok("nil".to_string()));
    assert_eq!(render_literal(&Value::Bool(true)), Ok("true".to_string()));
    assert_eq!(render_literal(&Value::Bool(false)), Ok("false".to_string()));
    assert_eq!(render_literal(&Value::Int(0)), Ok("0".to_string()));
    assert_eq!(render_literal(&Value::Int(42)), Ok("42".to_string()));
    assert_eq!(render_literal(&Value::Int(-7)), Ok("-7".to_string()));
    assert_eq!(render_literal(&Value::Int(1234567890)), Ok("1234567890".to_string()));
    assert_eq!(render_literal(&Value::Int(i64::MAX)), Ok("9223372036854775807".to_string()));
    assert_eq!(render_literal(&Value::Int(i64::MIN)), Ok("-9223372036854775808".to_string()));
    assert_eq!(render_literal(&text("hi")), Ok("\"hi\"".to_string()));
    assert_eq!(render_literal(&Value::List(vec![])), Ok("{}".to_string()));
    assert_eq!(
        render_literal(&Value::List(vec![Value::Int(1), text("two"), Value::Absent, Value::Bool(true)])),
        Ok("{1, \"two\", nil, true}".to_string())
    );
    assert_eq!(render_literal(&Value::Table(vec![])), Ok("{}".to_string()));
}

#[test]
fn nested_tables_are_written_inline() {
    let v = Value::Table(vec![
        entry("a", Value::Int(1)),
        entry("unset", Value::Absent),
        entry("inner", Value::Table(vec![entry("b", Value::List(vec![text("x"), text("y")]))])),
        entry("last", Value::Bool(false)),
    ]);
    assert_eq!(
        render_literal(&v),
        Ok("{a = 1, inner = {b = {\"x\", \"y\"}}, last = false}".to_string())
    );
}

#[test]
fn unset_entries_are_left_out() {
    let v = Value::Table(vec![entry("a", Value::Absent), entry("b", Value::Absent)]);
    assert_eq!(render_literal(&v), Ok("{}".to_string()));
    let w = Value::Table(vec![entry("a", Value::Absent), entry("b", Value::Int(2))]);
    assert_eq!(render_literal(&w), Ok("{b = 2}".to_string()));
    let out = render("t", &vec![entry("a", Value::Absent), entry("b", text(""))]).unwrap();
    assert_eq!(out, "t = {\n  b = \"\",\n}\n");
}

#[test]
fn keys_that_are_no_plain_names_go_in_brackets() {
    let v = Value::Table(vec![
        entry("two words", Value::Int(1)),
        entry("end", Value::Int(2)),
        entry("9lives", Value::Int(3)),
        entry("", Value::Int(4)),
        entry("q\"k", Value::Int(5)),
        entry("_ok9", Value::Int(6)),
    ]);
    assert_eq!(
        render_literal(&v),
        Ok("{[\"two words\"] = 1, [\"end\"] = 2, [\"9lives\"] = 3, [\"\"] = 4, [\"q\\\"k\"] = 5, _ok9 = 6}".to_string())
    );
}

#[test]
fn root_table_has_one_entry_per_line() {
    let es = vec![entry("name", text("x")), entry("n", Value::Int(3)), entry("on", Value::Bool(true))];
    assert_eq!(render("cfg", &es), Ok("cfg = {\n  name = \"x\",\n  n = 3,\n  on = true,\n}\n".to_string()));
    assert_eq!(render("cfg", &vec![]), Ok("cfg = {\n}\n".to_string()));
}

#[test]
fn header_lines_are_comments() {
    let es = vec![entry("a", Value::Int(1))];
    let out = render_with_header(&vec!["one", "two\nlines"], "t", &es).unwrap();
    assert_eq!(out, "--one\n--two lines\n\nt = {\n  a = 1,\n}\n");
    let bare = render_with_header(&vec![], "t", &es).unwrap();
    assert_eq!(bare, "\nt = {\n  a = 1,\n}\n");
}

#[test]
fn what_has_no_literal_is_refused() {
    assert_eq!(render_literal(&Value::Opaque), Err(RenderError::UnsupportedValue));
    assert_eq!(
        render_literal(&Value::List(vec![Value::Int(1), Value::Opaque])),
        Err(RenderError::UnsupportedValue)
    );
    let deep = vec![entry("a", Value::Table(vec![entry("b", Value::List(vec![Value::Opaque]))]))];
    assert_eq!(render("t", &deep), Err(RenderError::UnsupportedValue));
    assert_eq!(render_with_header(&vec!["x"], "t", &deep), Err(RenderError::UnsupportedValue));
}

#[test]
fn a_root_name_must_be_a_plain_name() {
    let es = vec![entry("a", Value::Int(1))];
    assert_eq!(render("", &es), Err(RenderError::InvalidRoot));
    assert_eq!(render("two words", &es), Err(RenderError::InvalidRoot));
    assert_eq!(render("local", &es), Err(RenderError::InvalidRoot));
    assert_eq!(render("1st", &es), Err(RenderError::InvalidRoot));
    assert_eq!(render("krait", &vec![entry("x", Value::Opaque)]), Err(RenderError::UnsupportedValue));
    assert_eq!(render("bad name", &vec![entry("x", Value::Opaque)]), Err(RenderError::InvalidRoot));
    assert!(render("_r2", &es).is_ok());
}
