use linearf::bundle::{
    crate_of_path, dependent_crates, format_cargo_toml, path_segments, ActionDescriptor,
    ConverterDescriptor, Crate, MatcherDescriptor, Recipe, SourceDescriptor, Stash, F
};
use linearf::manifest::Dependency;
use linearf::relpath::{path_components_exec, relative};

#[test]
fn can_relative() {
    assert_eq!(relative("/foo.ts", "/bar.ts"), "bar.ts");
    assert_eq!(relative("/foo.ts", "/foo/bar.ts"), "foo/bar.ts");
    assert_eq!(relative("/foo/bar.ts", "/bar.ts"), "../bar.ts");
}

#[test]
fn relative_climbs_out_of_deep_directories() {
    assert_eq!(relative("/a/b/c/Cargo.toml", "/a/core"), "../../core");
    assert_eq!(relative("/a/b/Cargo.toml", "/a/b/src"), "src");
    assert_eq!(relative("x/Cargo.toml", "/abs/core"), "/abs/core");
}

#[test]
fn path_components_skip_dots_and_repeated_separators() {
    assert_eq!(path_components_exec("/a//b/./c/"), vec!["/", "a", "b", "c"]);
    assert_eq!(path_components_exec("./a"), vec![".", "a"]);
    assert_eq!(path_components_exec("a/../b"), vec!["a", "..", "b"]);
    assert_eq!(path_components_exec(""), Vec::<String>::new());
}

fn descriptor(name: &str, path: &str) -> SourceDescriptor {
    SourceDescriptor { name: name.into(), path: path.into() }
}

fn recipe() -> Recipe {
    Recipe {
        crates: vec![
            Crate { name: "flavors_plain".into(), dir: "/p/plain".into() },
            Crate { name: "unused".into(), dir: "/p/unused".into() },
            Crate { name: "flavors_tokio".into(), dir: "/p/tokio".into() },
            Crate { name: "acts".into(), dir: "/p/acts".into() },
        ],
        sources: vec![
            descriptor("identity", "flavors_plain::Identity"),
            descriptor("command", "flavors_tokio::Command"),
        ],
        matchers: vec![MatcherDescriptor {
            name: "substring".into(),
            path: "flavors_plain::Substring".into()
        }],
        converters: vec![ConverterDescriptor {
            name: "format_line".into(),
            path: "flavors_plain::FormatLine".into()
        }],
        actions: vec![ActionDescriptor { name: "open".into(), path: "acts::Open".into() }],
    }
}

#[test]
fn crate_of_path_takes_the_first_segment() {
    assert_eq!(crate_of_path("flavors_plain::Identity"), "flavors_plain");
    assert_eq!(crate_of_path("a::b::c"), "a");
    assert_eq!(crate_of_path("single"), "single");
    assert_eq!(crate_of_path("a:b::c"), "a:b");
    assert_eq!(crate_of_path(""), "");
}

#[test]
fn path_segments_split_on_double_colons() {
    assert_eq!(path_segments("a::b::c"), vec!["a", "b", "c"]);
    assert_eq!(path_segments("a"), vec!["a"]);
    assert_eq!(path_segments("a::"), vec!["a", ""]);
    assert_eq!(path_segments("a:::b"), vec!["a", ":b"]);
}

#[test]
fn dependent_crates_keeps_used_crates_in_recipe_order() {
    let r = recipe();
    let names: Vec<&str> = dependent_crates(&r).iter().map(|c| c.name.as_str()).collect();
    // actions do not count
    assert_eq!(names, vec!["flavors_plain", "flavors_tokio"]);
}

#[test]
fn dependent_crates_of_empty_recipe() {
    let r = Recipe::default();
    assert!(dependent_crates(&r).is_empty());
}

#[test]
fn cargo_manifest_of_registry() {
    let m = format_cargo_toml(&recipe());
    assert_eq!(m.package.name, "registry");
    assert_eq!(m.package.version, "0.1.0");
    assert_eq!(m.package.edition, "2021");
    assert!(m.entries.is_empty());
    let keys: Vec<&str> = m.dependencies.iter().map(|(k, _)| k.as_str()).collect();
    assert_eq!(keys, vec!["linearf", "serde", "log", "rayon", "flavors_plain", "flavors_tokio"]);
    match &m.dependencies[0].1 {
        Dependency::Path(p) => assert_eq!(p, "../core"),
        _ => panic!("linearf goes by path"),
    }
    match &m.dependencies[1].1 {
        Dependency::Version { version, features } => {
            assert_eq!(version, "*");
            assert_eq!(features, &vec!["derive".to_string()]);
        }
        _ => panic!("serde goes by version"),
    }
    match &m.dependencies[5].1 {
        Dependency::Path(p) => assert_eq!(p, "/p/tokio"),
        _ => panic!("a crate goes by path"),
    }
}

#[test]
fn stash_keeps_crates_then_manifest_then_lib() {
    let f = |p: &str| F { p: p.into(), s: format!("text of {}", p) };
    let stash = Stash::stash(vec![f("c1"), f("c2")], f("Cargo.toml"), f("lib.rs"));
    let files = stash.restore();
    let paths: Vec<&str> = files.iter().map(|f| f.p.as_str()).collect();
    assert_eq!(paths, vec!["c1", "c2", "Cargo.toml", "lib.rs"]);
    assert_eq!(files[3].s, "text of lib.rs");
}
