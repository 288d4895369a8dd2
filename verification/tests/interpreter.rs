use krait_config::config::KraitConfig;
use krait_config::render::{render, render_literal};
use krait_config::value::{Entry, Value};
use mlua::{Lua, Table};

fn strings(xs: &[&str]) -> Vec<String> {
    xs.iter().map(|s| s.to_string()).collect()
}

fn list_of(t: &Table, key: &str) -> Option<Vec<String>> {
    let v: Option<Table> = t.get(key).unwrap();
    v.map(|l| l.sequence_values::<String>().map(|x| x.unwrap()).collect())
}

fn run(text: &str) -> (Lua, ()) {
    let lua = Lua::new();
    lua.load(text).exec().unwrap();
    (lua, ())
}

#[test]
fn the_interpreter_sees_the_written_defaults() {
    let c = KraitConfig::default_in("/home/alice", '/');
    let (lua, _) = run(&c.render());
    let krait: Table = lua.globals().get("krait").unwrap();
    let config: Table = krait.get("config").unwrap();
    assert_eq!(config.get::<_, String>("name").unwrap(), c.name);
    assert_eq!(config.get::<_, String>("author").unwrap(), c.author);
    assert_eq!(config.get::<_, String>("ver").unwrap(), c.ver);
    assert_eq!(config.get::<_, String>("desc").unwrap(), c.desc);
    assert_eq!(config.get::<_, String>("license").unwrap(), c.license);
    assert_eq!(config.get::<_, String>("git").unwrap(), c.git);
    assert_eq!(config.get::<_, String>("dir").unwrap(), c.dir);
    assert_eq!(list_of(&config, "repos"), Some(c.repos.clone()));
    assert_eq!(list_of(&config, "pkgs"), None);
    assert_eq!(list_of(&config, "args"), None);
    assert!(!config.contains_key("pkgs").unwrap());
    assert!(!config.contains_key("args").unwrap());
}

#[test]
fn the_interpreter_sees_every_written_setting() {
    let c = KraitConfig {
        name: "k \"2\"".to_string(),
        author: "a\\b".to_string(),
        ver: "".to_string(),
        desc: "two\nlines\r -- no comment".to_string(),
        license: "}".to_string(),
        git: "tab\t'single'".to_string(),
        pkgs: Some(strings(&["foo", "bar baz", ""])),
        dir: "C:\\Users\\Alice\\krait".to_string(),
        repos: strings(&["r1", "r\"2\"", "r3\\"]),
        args: Some(vec![]),
    };
    let (lua, _) = run(&c.render());
    let krait: Table = lua.globals().get("krait").unwrap();
    let config: Table = krait.get("config").unwrap();
    assert_eq!(config.get::<_, String>("name").unwrap(), c.name);
    assert_eq!(config.get::<_, String>("author").unwrap(), c.author);
    assert_eq!(config.get::<_, String>("ver").unwrap(), c.ver);
    assert_eq!(config.get::<_, String>("desc").unwrap(), c.desc);
    assert_eq!(config.get::<_, String>("license").unwrap(), c.license);
    assert_eq!(config.get::<_, String>("git").unwrap(), c.git);
    assert_eq!(config.get::<_, String>("dir").unwrap(), c.dir);
    assert_eq!(list_of(&config, "repos"), Some(c.repos.clone()));
    assert_eq!(list_of(&config, "pkgs"), c.pkgs.clone());
    assert_eq!(list_of(&config, "args"), Some(vec![]));
}

#[test]
fn the_interpreter_sees_the_lists_in_order() {
    let mut m = KraitConfig::default_in("/home/alice", '/');
    m.repos = strings(&["r1", "r2", "r3"]);
    m.args = Some(strings(&["-a", "-b"]));
    let (lua, _) = run(&m.gen_lua().concat());
    let krait: Table = lua.globals().get("krait").unwrap();
    let config: Table = krait.get("config").unwrap();
    assert_eq!(list_of(&config, "repos"), Some(strings(&["r1", "r2", "r3"])));
    assert_eq!(list_of(&config, "args"), Some(strings(&["-a", "-b"])));
}

#[test]
fn the_interpreter_reads_a_quote_and_a_backslash() {
    let s = "\"\\";
    let out = render_literal(&Value::Str(s.to_string())).unwrap();
    assert_eq!(out, "\"\\\"\\\\\"");
    let lua = Lua::new();
    let back: String = lua.load(&format!("return {}", out)).eval().unwrap();
    assert_eq!(back, s);
}

#[test]
fn the_interpreter_keeps_the_order_of_lists() {
    let v = Value::List(vec![Value::Int(3), Value::Int(-1), Value::Int(2), Value::Int(i64::MIN), Value::Int(i64::MAX)]);
    let out = render_literal(&v).unwrap();
    let lua = Lua::new();
    let t: Table = lua.load(&format!("return {}", out)).eval().unwrap();
    let back: Vec<i64> = t.sequence_values::<i64>().map(|x| x.unwrap()).collect();
    assert_eq!(back, vec![3, -1, 2, i64::MIN, i64::MAX]);
}

#[test]
fn the_interpreter_reads_keys_in_brackets() {
    let es = vec![
        Entry { key: "two words".to_string(), value: Value::Bool(true) },
        Entry { key: "end".to_string(), value: Value::Int(7) },
        Entry { key: "plain".to_string(), value: Value::Table(vec![Entry { key: "x".to_string(), value: Value::Bool(false) }]) },
    ];
    let (lua, _) = run(&render("root", &es).unwrap());
    let root: Table = lua.globals().get("root").unwrap();
    assert_eq!(root.get::<_, bool>("two words").unwrap(), true);
    assert_eq!(root.get::<_, i64>("end").unwrap(), 7);
    let plain: Table = root.get("plain").unwrap();
    assert_eq!(plain.get::<_, bool>("x").unwrap(), false);
}

struct Bound(krait_config::bridge::Session);

impl mlua::UserData for Bound {
    fn add_methods<'lua, M: mlua::UserDataMethods<'lua, Self>>(methods: &mut M) {
        methods.add_method("get", |lua, this, name: String| {
            Ok(match this.0.read(&name) {
                Some(Value::Str(s)) => mlua::Value::String(lua.create_string(&s)?),
                Some(Value::List(xs)) => {
                    let t = lua.create_table()?;
                    for (i, x) in xs.iter().enumerate() {
                        if let Value::Str(s) = x {
                            t.raw_seti(i + 1, s.as_str())?;
                        }
                    }
                    mlua::Value::Table(t)
                }
                _ => mlua::Value::Nil,
            })
        });
    }
}

fn bound_state(model: &KraitConfig) -> Lua {
    let lua = Lua::new();
    let session = krait_config::bridge::Session::new();
    let free = !lua.globals().contains_key("krait").unwrap();
    let session = session.bind(model, free).ok().unwrap().start();
    lua.globals().set("krait", Bound(session)).unwrap();
    lua
}

#[test]
fn scripts_read_the_bound_settings() {
    let model = KraitConfig::default_in("/home/alice", '/').add_package("one").unwrap();
    let lua = bound_state(&model);
    let name: String = lua.load("return krait:get(\"name\")").eval().unwrap();
    assert_eq!(name, "krait");
    let dir: String = lua.load("return krait:get(\"dir\")").eval().unwrap();
    assert_eq!(dir, "/home/alice/krait");
    let first: String = lua.load("return krait:get(\"pkgs\")[1]").eval().unwrap();
    assert_eq!(first, "one");
    let count: i64 = lua.load("return #krait:get(\"repos\")").eval().unwrap();
    assert_eq!(count, 1);
    let unset: bool = lua.load("return krait:get(\"args\") == nil").eval().unwrap();
    assert!(unset);
    let unknown: bool = lua.load("return krait:get(\"secret\") == nil").eval().unwrap();
    assert!(unknown);
}

#[test]
fn two_interpreter_sessions_are_isolated() {
    let model = KraitConfig::default_in("/home/alice", '/');
    let first = bound_state(&model);
    let changed = model.add_package("only-here").unwrap();
    let second = bound_state(&changed);
    let in_first: bool = first.load("return krait:get(\"pkgs\") == nil").eval().unwrap();
    let in_second: String = second.load("return krait:get(\"pkgs\")[1]").eval().unwrap();
    assert!(in_first);
    assert_eq!(in_second, "only-here");
    first.globals().set("krait", mlua::Value::Nil).unwrap();
    let still: String = second.load("return krait:get(\"name\")").eval().unwrap();
    assert_eq!(still, "krait");
}

#[test]
fn a_taken_global_name_fails_the_binding() {
    let lua = Lua::new();
    lua.load("krait = 1").exec().unwrap();
    let free = !lua.globals().contains_key("krait").unwrap();
    let r = krait_config::bridge::Session::new().bind(&KraitConfig::default_in("/h", '/'), free);
    assert_eq!(r.err(), Some(krait_config::bridge::BridgeError::BindingFailed("krait".to_string())));
}
