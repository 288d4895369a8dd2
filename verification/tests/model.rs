use krait_config::bridge::{field_for, BridgeError, Session, SessionState};
use krait_config::config::{holds, KraitConfig, ModelError};
use krait_config::console::{read_answer, scan_token};
use krait_config::schema::Field;
use krait_config::value::Value;

fn base() -> KraitConfig {
    KraitConfig::default_in("/home/alice", '/')
}

fn strings(xs: &[&str]) -> Vec<String> {
    xs.iter().map(|s| s.to_string()).collect()
}

#[test]
fn the_first_package_starts_the_list() {
    let c = base();
    assert_eq!(c.pkgs, None);
    let d = c.add_package("foo").unwrap();
    assert_eq!(d.pkgs, Some(strings(&["foo"])));
    assert_eq!(d.add_package("foo"), Err(ModelError::DuplicateEntry));
    let mut expected = base();
    expected.pkgs = Some(strings(&["foo"]));
    assert_eq!(d, expected);
    assert_eq!(c, base());
}

#[test]
fn packages_are_added_behind_the_others() {
    let c = base().add_package("a").unwrap().add_package("b").unwrap().add_package("c").unwrap();
    assert_eq!(c.pkgs, Some(strings(&["a", "b", "c"])));
    assert_eq!(c.add_package("b"), Err(ModelError::DuplicateEntry));
    let mut empty = base();
    empty.pkgs = Some(vec![]);
    assert_eq!(empty.add_package("x").unwrap().pkgs, Some(strings(&["x"])));
}

#[test]
fn packages_are_taken_out_in_place() {
    let c = base().add_package("a").unwrap().add_package("b").unwrap().add_package("c").unwrap();
    let d = c.remove_package("b").unwrap();
    assert_eq!(d.pkgs, Some(strings(&["a", "c"])));
    assert_eq!(d.remove_package("b"), Err(ModelError::NotFound));
    assert_eq!(base().remove_package("a"), Err(ModelError::NotFound));
    let e = d.remove_package("a").unwrap().remove_package("c").unwrap();
    assert_eq!(e.pkgs, Some(vec![]));
    let mut twice = base();
    twice.pkgs = Some(strings(&["x", "y", "x"]));
    assert_eq!(twice.remove_package("x").unwrap().pkgs, Some(strings(&["y"])));
}

#[test]
fn adding_then_removing_a_package_leaves_the_others() {
    let c = base().add_package("a").unwrap();
    let d = c.add_package("b").unwrap().remove_package("b").unwrap();
    assert_eq!(d, c);
}

#[test]
fn repositories_are_added_once() {
    let c = base();
    let d = c.add_repo("https://example.org/r").unwrap();
    assert_eq!(d.repos, strings(&["https://github.com/m1ten/krait-pkgs", "https://example.org/r"]));
    assert_eq!(d.add_repo("https://example.org/r"), Err(ModelError::DuplicateEntry));
    assert_eq!(c.add_repo("https://github.com/m1ten/krait-pkgs"), Err(ModelError::DuplicateEntry));
    assert_eq!(d.name, c.name);
    assert_eq!(d.pkgs, c.pkgs);
}

#[test]
fn holds_finds_a_text_in_a_list() {
    let xs = strings(&["a", "b"]);
    assert!(holds(&xs, "a"));
    assert!(holds(&xs, "b"));
    assert!(!holds(&xs, "c"));
    assert!(!holds(&vec![], "a"));
}

#[test]
fn fields_are_read_as_values() {
    let c = base().add_package("p").unwrap();
    assert_eq!(c.get(Field::Name), Value::Str("krait".to_string()));
    assert_eq!(c.get(Field::Dir), Value::Str("/home/alice/krait".to_string()));
    assert_eq!(c.get(Field::Pkgs), Value::List(vec![Value::Str("p".to_string())]));
    assert_eq!(c.get(Field::Args), Value::Absent);
    assert_eq!(
        c.get(Field::Repos),
        Value::List(vec![Value::Str("https://github.com/m1ten/krait-pkgs".to_string())])
    );
    assert_eq!(c.clone(), c);
}

#[test]
fn a_session_goes_through_its_states() {
    let s = Session::new();
    assert_eq!(s.state(), SessionState::Created);
    assert_eq!(s.read("name"), None);
    let s = s.start();
    assert_eq!(s.state(), SessionState::Created);
    let s = s.bind(&base(), true).ok().unwrap();
    assert_eq!(s.state(), SessionState::Bound);
    assert_eq!(s.read("name"), None);
    let s = s.start();
    assert_eq!(s.state(), SessionState::Active);
    assert_eq!(s.read("name"), Some(Value::Str("krait".to_string())));
    assert_eq!(s.read("dir"), Some(Value::Str("/home/alice/krait".to_string())));
    assert_eq!(s.read("pkgs"), Some(Value::Absent));
    assert_eq!(s.read("version"), None);
    assert_eq!(s.read("nothing"), None);
    let s = s.close();
    assert_eq!(s.state(), SessionState::Closed);
    assert_eq!(s.read("name"), None);
    let s = s.start();
    assert_eq!(s.state(), SessionState::Closed);
}

#[test]
fn a_refused_binding_names_the_global() {
    let r = Session::new().bind(&base(), false);
    assert_eq!(r.err(), Some(BridgeError::BindingFailed("krait".to_string())));
}

#[test]
fn a_session_binds_once() {
    let s = Session::new().bind(&base(), true).ok().unwrap();
    assert_eq!(s.bind(&base(), true).err(), Some(BridgeError::BindingFailed("krait".to_string())));
    let active = Session::new().bind(&base(), true).ok().unwrap().start();
    assert!(active.bind(&base(), true).is_err());
    let closed = Session::new().close();
    assert!(closed.bind(&base(), true).is_err());
}

#[test]
fn sessions_hold_their_own_copies() {
    let mut model = base();
    let first = Session::new().bind(&model, true).ok().unwrap().start();
    model = model.add_package("late").unwrap();
    let second = Session::new().bind(&model, true).ok().unwrap().start();
    assert_eq!(first.read("pkgs"), Some(Value::Absent));
    assert_eq!(second.read("pkgs"), Some(Value::List(vec![Value::Str("late".to_string())])));
    let first = first.close();
    assert_eq!(first.read("pkgs"), None);
    assert_eq!(second.read("pkgs"), Some(Value::List(vec![Value::Str("late".to_string())])));
}

#[test]
fn accessors_go_by_the_written_names() {
    assert_eq!(field_for("name"), Some(Field::Name));
    assert_eq!(field_for("author"), Some(Field::Author));
    assert_eq!(field_for("ver"), Some(Field::Ver));
    assert_eq!(field_for("desc"), Some(Field::Desc));
    assert_eq!(field_for("license"), Some(Field::License));
    assert_eq!(field_for("git"), Some(Field::Git));
    assert_eq!(field_for("pkgs"), Some(Field::Pkgs));
    assert_eq!(field_for("dir"), Some(Field::Dir));
    assert_eq!(field_for("repos"), Some(Field::Repos));
    assert_eq!(field_for("args"), Some(Field::Args));
    assert_eq!(field_for("flags"), None);
    assert_eq!(field_for(""), None);
}

#[test]
fn an_answer_ends_at_the_stopper_or_the_line() {
    assert_eq!(scan_token(&b"hello world\n".to_vec(), b' '), Some(b"hello".to_vec()));
    assert_eq!(scan_token(&b"hello world\n".to_vec(), b'\n'), Some(b"hello world".to_vec()));
    assert_eq!(scan_token(&b"one\ntwo three".to_vec(), b' '), Some(b"one".to_vec()));
    assert_eq!(scan_token(&b"\nrest".to_vec(), b' '), Some(vec![]));
    assert_eq!(scan_token(&b"no end".to_vec(), b'\n'), None);
    assert_eq!(scan_token(&vec![], b' '), None);
}

#[test]
fn yes_and_no_are_understood() {
    assert_eq!(read_answer("y"), Some(true));
    assert_eq!(read_answer("yes"), Some(true));
    assert_eq!(read_answer(""), Some(true));
    assert_eq!(read_answer("n"), Some(false));
    assert_eq!(read_answer("no"), Some(false));
    assert_eq!(read_answer("maybe"), None);
    assert_eq!(read_answer("Y"), None);
    assert_eq!(read_answer(" y"), None);
}
