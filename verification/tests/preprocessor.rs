use linearf::bundle::{patched_manifest, PatchError};
use linearf::manifest::Dependency;
use linearf::preprocessor::{format_cargo_toml, registry_manifest, Crate, MatchDescriptor, Recipe, SourceDescriptor};

fn crates(cs: &[(&str, &str)]) -> Recipe {
    Recipe {
        crates: cs.iter().map(|(n, d)| Crate { name: n.to_string(), dep: d.to_string() }).collect(),
        sources: vec![],
        matchers: vec![],
    }
}

#[test]
fn preprocessor_manifest_lists_fixed_dependencies_and_crate_entries() {
    let recipe = Recipe {
        crates: vec![
            Crate { name: "flavors".into(), dep: "{ path = \"/f\" }".into() },
            Crate { name: "other".into(), dep: "\"1.0\"".into() },
        ],
        sources: vec![SourceDescriptor { name: "s".into(), path: "flavors::S".into() }],
        matchers: vec![MatchDescriptor { name: "m".into(), path: "flavors::M".into() }],
    };
    let m = format_cargo_toml(&recipe).unwrap();
    assert_eq!(m.package.name, "registry");
    assert_eq!(m.package.edition, "2018");
    let keys: Vec<&str> = m.dependencies.iter().map(|(k, _)| k.as_str()).collect();
    assert_eq!(keys, vec!["linearf", "async-trait", "serde", "log"]);
    assert!(matches!(&m.dependencies[0].1, Dependency::Path(p) if p == "../core"));
    let names: Vec<&str> = m.entries.iter().map(|(k, _)| k.as_str()).collect();
    assert_eq!(names, vec!["flavors", "other"]);
    assert_eq!(m.entries[0].1.get("path").and_then(|v| v.as_str()), Some("/f"));
    assert_eq!(m.entries[1].1.as_str(), Some("1.0"));
}

#[test]
fn preprocessor_default_recipe_has_no_crate_entries() {
    let m = format_cargo_toml(&Recipe::default()).unwrap();
    assert!(m.entries.is_empty());
    assert_eq!(m.dependencies.len(), 4);
}

#[test]
fn preprocessor_manifest_fails_on_text_that_is_not_toml() {
    assert!(format_cargo_toml(&crates(&[("foo", "{")])).is_err());
    // the first text that is not TOML decides, whatever follows
    assert!(matches!(registry_manifest(&crates(&[("ok", "\"1\""), ("foo", "{"), ("#", "x")])), Some(Err(_))));
}

#[test]
fn preprocessor_manifest_takes_the_first_entry_in_key_order() {
    let m = format_cargo_toml(&crates(&[("b", "1\na = 2")])).unwrap();
    assert_eq!(m.entries.len(), 1);
    assert_eq!(m.entries[0].0, "a");
    assert_eq!(m.entries[0].1.as_integer(), Some(2));
}

#[test]
fn preprocessor_manifest_needs_an_entry_in_each_text() {
    assert!(registry_manifest(&crates(&[("#", "x")])).is_none());
    assert!(registry_manifest(&crates(&[("a", "\"1\"")])).is_some());
}

#[test]
fn user_manifest_points_at_the_core() {
    let text = "[package]\nname = \"mine\"\nversion = \"0.2.0\"\n\n[dependencies]\nserde = \"1\"\nlinearf = \"0.1\"\n";
    let m = patched_manifest(text, "flavors", "/a/flavors/Cargo.toml", "/a/core").unwrap();
    let deps = m.get("dependencies").and_then(|v| v.as_table()).unwrap();
    assert_eq!(deps.get("linearf").and_then(|v| v.get("path")).and_then(|v| v.as_str()), Some("../core"));
    assert_eq!(deps.get("linearf").and_then(|v| v.as_table()).map(|t| t.len()), Some(1));
    assert_eq!(deps.get("serde").and_then(|v| v.as_str()), Some("1"));
    let package = m.get("package").and_then(|v| v.as_table()).unwrap();
    assert_eq!(package.get("name").and_then(|v| v.as_str()), Some("flavors"));
    assert_eq!(package.get("version").and_then(|v| v.as_str()), Some("0.2.0"));
    assert_eq!(m.len(), 2);
}

#[test]
fn user_manifest_errors() {
    assert!(matches!(patched_manifest("[package]\nname = \"x\"\n", "f", "/a/f/Cargo.toml", "/a/core"),
        Err(PatchError::NoDependencies)));
    assert!(matches!(patched_manifest("dependencies = 1\n[package]\nname = \"x\"\n", "f", "/a/f/Cargo.toml", "/a/core"),
        Err(PatchError::NoDependencies)));
    assert!(matches!(patched_manifest("[dependencies]\n", "f", "/a/f/Cargo.toml", "/a/core"),
        Err(PatchError::NoPackage)));
    assert!(matches!(patched_manifest("[dependencies", "f", "/a/f/Cargo.toml", "/a/core"),
        Err(PatchError::NotToml(_))));
}
