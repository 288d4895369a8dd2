use krait_config::config::KraitConfig;
use krait_config::resolver::{join, require_home, ResolverError};
use krait_config::sections::{NPConfig, NPDir, NPInfo, NP};

#[test]
fn default_fields_hold_their_literals() {
    let c = KraitConfig::default_in("/home/alice", '/');
    assert_eq!(c.name, "krait");
    assert_eq!(c.author, "miten <57693631+m1ten@users.noreply.github.com>");
    assert_eq!(c.ver, "0.0.1");
    assert_eq!(c.desc, "cross platform package manager");
    assert_eq!(c.license, "Apache-2.0");
    assert_eq!(c.git, "https://github.com/m1ten/krait");
    assert_eq!(c.pkgs, None);
    assert_eq!(c.dir, "/home/alice/krait");
    assert_eq!(c.repos, vec!["https://github.com/m1ten/krait-pkgs".to_string()]);
    assert_eq!(c.args, None);
}

#[test]
fn default_repositories_hold_one_entry() {
    let c = KraitConfig::default_in("/root", '/');
    assert_eq!(c.repos.len(), 1);
    assert_eq!(c.repos[0], "https://github.com/m1ten/krait-pkgs");
}

#[test]
fn default_directory_on_a_backslash_platform() {
    let c = KraitConfig::default_in("C:\\Users\\Alice", '\\');
    assert_eq!(c.dir, "C:\\Users\\Alice\\krait");
}

#[test]
fn join_adds_one_separator() {
    assert_eq!(join("/home/alice", "krait", '/'), "/home/alice/krait");
    assert_eq!(join("/home/alice/", "krait", '/'), "/home/alice/krait");
    assert_eq!(join("/", "krait", '/'), "/krait");
    assert_eq!(join("", "krait", '/'), "krait");
    assert_eq!(join("C:\\Users\\A", "neopkg/pkg", '\\'), "C:\\Users\\A\\neopkg/pkg");
}

#[test]
fn no_home_directory_is_an_error() {
    assert_eq!(require_home(None), Err(ResolverError::NoHomeDirectory));
    assert_eq!(require_home(Some("/home/bob".to_string())), Ok("/home/bob".to_string()));
    assert_eq!(KraitConfig::from_home(None, '/'), Err(ResolverError::NoHomeDirectory));
    assert_eq!(NPConfig::from_home(None, '/'), Err(ResolverError::NoHomeDirectory));
}

#[test]
fn from_home_gives_the_defaults() {
    let c = KraitConfig::from_home(Some("/home/bob".to_string()), '/').unwrap();
    assert_eq!(c, KraitConfig::default_in("/home/bob", '/'));
}

#[test]
fn new_asks_the_platform() {
    match KraitConfig::new() {
        Ok(c) => {
            assert_eq!(c.name, "krait");
            assert!(c.dir.ends_with("krait"));
            assert_eq!(c.pkgs, None);
            let home = dirs::home_dir().unwrap();
            assert_eq!(c.dir, home.join("krait").to_string_lossy().to_string());
        }
        Err(e) => {
            assert_eq!(e, ResolverError::NoHomeDirectory);
            assert!(dirs::home_dir().is_none());
        }
    }
}

#[test]
fn sectioned_defaults_hold_their_literals() {
    let info = NPInfo::default();
    assert_eq!(info.name, "neopkg");
    assert_eq!(info.author, "miten");
    assert_eq!(info.ver, "0.0.1");
    assert_eq!(info.desc, "cross platform package manager");
    assert_eq!(info.license, "Apache-2.0");
    assert_eq!(info.git, "https://github.com/m1ten/neopkg");
    assert_eq!(info.repos, vec!["https://github.com/m1ten/neopkgs".to_string()]);
    assert_eq!(info.flags, None);
    assert_eq!(NP::default().pkgs, None);
    let d = NPDir::default_in("/home/alice", '/');
    assert_eq!(d.dir, "/home/alice/neopkg");
    assert_eq!(d.pkg_dir, "/home/alice/neopkg/pkg");
    assert_eq!(d.cache_dir, "/home/alice/neopkg/cache");
    let c = NPConfig::default_in("/home/alice", '/');
    assert_eq!(c.info, info);
    assert_eq!(c.pkg, NP::default());
    assert_eq!(c.dir, d);
}

#[test]
fn sectioned_settings_render_one_table_per_section() {
    let c = NPConfig::default_in("/home/alice", '/');
    let expected = "--           Neopkg Config           \n\
-- Automatically generated by Neopkg \n\
--       READ THE DOCUMENTATION      \n\
\n\
neopkg = {\n  \
info = {name = \"neopkg\", author = \"miten\", ver = \"0.0.1\", desc = \"cross platform package manager\", license = \"Apache-2.0\", git = \"https://github.com/m1ten/neopkg\", repos = {\"https://github.com/m1ten/neopkgs\"}},\n  \
pkg = {},\n  \
dir = {dir = \"/home/alice/neopkg\", pkg_dir = \"/home/alice/neopkg/pkg\", cache_dir = \"/home/alice/neopkg/cache\"},\n\
}\n";
    assert_eq!(c.render(), expected);
}
