use vstd::prelude::*;
use crate::manifest::{Dependency, Manifest, Package, dep_table_view, dep_view};
use crate::toml_table::{TomlTable, toml_parsed, toml_error, first_entry, parse_table, table_first};
use toml::Value as TomlValue;

verus! {

/// What the registry of sources and matchers is generated from.
#[derive(Debug)]
pub struct Recipe {
    pub crates: Vec<Crate>,
    pub sources: Vec<SourceDescriptor>,
    pub matchers: Vec<MatchDescriptor>,
}

impl Default for Recipe {
    fn default() -> (r: Self)
        ensures
            r.crates@.len() == 0,
            r.sources@.len() == 0,
            r.matchers@.len() == 0,
    {
        Recipe { crates: Vec::new(), sources: Vec::new(), matchers: Vec::new() }
    }
}

/// A crate to depend on: its name and the TOML that says how, as it would
/// stand after `name = ` in a manifest.
#[derive(Debug)]
pub struct Crate {
    pub name: String,
    pub dep: String,
}

/// A source to build in: the name it is called by, and its path in Rust.
#[derive(Debug)]
pub struct SourceDescriptor {
    pub name: String,
    pub path: String,
}

/// A matcher to build in: the name it is called by, and its path in Rust.
#[derive(Debug)]
pub struct MatchDescriptor {
    pub name: String,
    pub path: String,
}

/// The dependencies every registry has: the finder's core by path, and
/// async-trait, serde with its derive, and log at any version.
pub open spec fn fixed_deps() -> Map<Seq<char>, (bool, Seq<char>, Seq<Seq<char>>)> {
    map![
        "linearf"@ => (true, "../core"@, Seq::<Seq<char>>::empty()),
        "async-trait"@ => (false, "*"@, Seq::<Seq<char>>::empty()),
        "serde"@ => (false, "*"@, seq!["derive"@]),
        "log"@ => (false, "*"@, Seq::<Seq<char>>::empty())
    ]
}

/// The line of TOML that makes a manifest depend on `c`.
pub open spec fn dep_line(c: Crate) -> Seq<char> {
    c.name@ + " = "@ + c.dep@
}

/// Whether the dependency text of every crate before the `i`-th reads as
/// TOML.
pub open spec fn parsed_before(crates: Seq<Crate>, i: int) -> bool {
    forall|j: int| 0 <= j < i ==> #[trigger] toml_parsed(dep_line(crates[j])) is Some
}

/// Whether the dependency text of the `i`-th crate reads as TOML that holds
/// no entry at all (such as a line that is all comment).
pub open spec fn holds_no_entry(crates: Seq<Crate>, i: int) -> bool {
    toml_parsed(dep_line(crates[i])) matches Some(t) && first_entry(t) is None
}

/// Whether the manifest is read without coming on a crate whose dependency
/// text holds no entry: every crate up to the first one whose text is not
/// TOML holds one.
pub open spec fn entries_found(crates: Seq<Crate>) -> bool {
    forall|i: int| 0 <= i < crates.len() && parsed_before(crates, i) ==> !#[trigger] holds_no_entry(crates, i)
}

/// What the manifest of the registry crate is for `recipe`: the fixed
/// dependencies, then the first entry of each crate's dependency text read
/// as TOML; or the error of the first text that is not TOML.
pub open spec fn manifest_made(recipe: Recipe, r: Result<Manifest, String>) -> bool {
    let cs = recipe.crates@;
    &&& (r is Err <==> exists|i: int| 0 <= i < cs.len() && #[trigger] toml_parsed(dep_line(cs[i])) is None)
    &&& (r matches Err(e) ==> exists|i: int|
        0 <= i < cs.len() && parsed_before(cs, i) && #[trigger] toml_parsed(dep_line(cs[i])) is None
            && e@ == toml_error(dep_line(cs[i])))
    &&& (r matches Ok(m) ==> {
        &&& m.package.name@ == "registry"@
        &&& m.package.version@ == "0.1.0"@
        &&& m.package.edition@ == "2018"@
        &&& dep_table_view(m.dependencies@) == fixed_deps()
        &&& m.entries@.len() == cs.len()
        &&& forall|i: int|
            0 <= i < cs.len() ==> first_entry(toml_parsed(dep_line(cs[i]))->0) == Some(
                (#[trigger] m.entries@[i].0@, m.entries@[i].1),
            )
    })
}

/// The line of TOML that makes a manifest depend on `c`.
fn dep_text(c: &Crate) -> (r: String)
    ensures
        r@ == dep_line(*c),
{
    proof {
        reveal_strlit(" = ");
    }
    let mut line = c.name.clone();
    line.append(" = ");
    line.append(c.dep.as_str());
    line
}

/// The manifest of the registry crate, where reading the crates' dependency
/// texts comes on no text that holds no entry; nothing where it does.
pub fn registry_manifest(recipe: &Recipe) -> (r: Option<Result<Manifest, String>>)
    ensures
        r is None <==> !entries_found(recipe.crates@),
        r matches Some(m) ==> manifest_made(*recipe, m),
{
    let ghost cs = recipe.crates@;
    let mut i: usize = 0;
    while i < recipe.crates.len()
        invariant
            i <= cs.len(),
            cs == recipe.crates@,
            parsed_before(cs, i as int),
            forall|k: int| 0 <= k < i ==> !#[trigger] holds_no_entry(cs, k),
        decreases cs.len() - i,
    {
        let line = dep_text(&recipe.crates[i]);
        match parse_table(line.as_str()) {
            Err(_) => {
                assert forall|k: int| 0 <= k < cs.len() && parsed_before(cs, k) implies !#[trigger] holds_no_entry(
                    cs,
                    k,
                ) by {
                    if k > i {
                        assert(toml_parsed(dep_line(cs[i as int])) is Some);
                    }
                }
                return Some(format_cargo_toml(recipe));
            },
            Ok(t) => {
                let ghost t0 = t;
                if table_first(t).is_none() {
                    assert(holds_no_entry(cs, i as int));
                    return None;
                }
                assert(first_entry(t0) is Some);
            },
        }
        i = i + 1;
        assert(parsed_before(cs, i as int)) by {
            assert forall|j: int| 0 <= j < i implies #[trigger] toml_parsed(dep_line(cs[j])) is Some by {
                if j < i - 1 {
                    assert(0 <= j < i - 1);
                }
            }
        }
    }
    Some(format_cargo_toml(recipe))
}

/// The manifest of the registry crate: the fixed dependencies, then for each
/// crate of the recipe the entry that its dependency text gives as TOML;
/// fails on the first text that is not TOML.
pub fn format_cargo_toml(recipe: &Recipe) -> (r: Result<Manifest, String>)
    requires
        entries_found(recipe.crates@),
    ensures
        manifest_made(*recipe, r),
{
    proof {
        reveal_strlit("linearf");
        reveal_strlit("../core");
        reveal_strlit("async-trait");
        reveal_strlit("serde");
        reveal_strlit("*");
        reveal_strlit("derive");
        reveal_strlit("log");
        reveal_strlit("registry");
        reveal_strlit("0.1.0");
        reveal_strlit("2018");
        reveal_strlit(" = ");
    }
    let mut d: Vec<(String, Dependency)> = Vec::new();
    d.push(("linearf".to_owned(), Dependency::Path("../core".to_owned())));
    let ghost d1 = d@;
    d.push(("async-trait".to_owned(), Dependency::Version { version: "*".to_owned(), features: Vec::new() }));
    let ghost d2 = d@;
    let mut features: Vec<String> = Vec::new();
    features.push("derive".to_owned());
    assert(features.deep_view() =~= seq!["derive"@]);
    d.push(("serde".to_owned(), Dependency::Version { version: "*".to_owned(), features }));
    let ghost d3 = d@;
    d.push(("log".to_owned(), Dependency::Version { version: "*".to_owned(), features: Vec::new() }));
    proof {
        assert(d@.drop_last() =~= d3);
        assert(d3.drop_last() =~= d2);
        assert(d2.drop_last() =~= d1);
        assert(d1.drop_last() =~= Seq::<(String, Dependency)>::empty());
        assert(dep_view(d2[1].1) =~~= (false, "*"@, Seq::<Seq<char>>::empty()));
        assert(dep_view(d3[2].1) == (false, "*"@, seq!["derive"@]));
        assert(dep_view(d@[3].1) =~~= (false, "*"@, Seq::<Seq<char>>::empty()));
        assert(dep_table_view(d1.drop_last()) == Map::<Seq<char>, (bool, Seq<char>, Seq<Seq<char>>)>::empty());
        assert(dep_table_view(d1) == Map::<Seq<char>, (bool, Seq<char>, Seq<Seq<char>>)>::empty().insert(
            "linearf"@,
            (true, "../core"@, Seq::<Seq<char>>::empty()),
        ));
        assert(dep_table_view(d2) == dep_table_view(d1).insert(
            "async-trait"@,
            (false, "*"@, Seq::<Seq<char>>::empty()),
        ));
        assert(dep_table_view(d3) == dep_table_view(d2).insert("serde"@, (false, "*"@, seq!["derive"@])));
        assert(dep_table_view(d@) == dep_table_view(d3).insert(
            "log"@,
            (false, "*"@, Seq::<Seq<char>>::empty()),
        ));
        assert(dep_table_view(d@) =~= fixed_deps());
    }
    let ghost cs = recipe.crates@;
    let mut entries: Vec<(String, TomlValue)> = Vec::new();
    let mut i: usize = 0;
    while i < recipe.crates.len()
        invariant
            i <= cs.len(),
            cs == recipe.crates@,
            entries_found(cs),
            parsed_before(cs, i as int),
            entries@.len() == i,
            forall|k: int|
                0 <= k < i ==> first_entry(toml_parsed(dep_line(cs[k]))->0) == Some(
                    (#[trigger] entries@[k].0@, entries@[k].1),
                ),
        decreases cs.len() - i,
    {
        let line = dep_text(&recipe.crates[i]);
        let t = match parse_table(line.as_str()) {
            Ok(t) => t,
            Err(e) => {
                return Err(e);
            },
        };
        assert(!holds_no_entry(cs, i as int));
        let ghost t0 = t;
        match table_first(t) {
            Some(kv) => {
                entries.push(kv);
            },
            None => {
                assert(first_entry(t0) is None);
                assert(false);
                return Err(String::new());
            },
        }
        i = i + 1;
        assert(parsed_before(cs, i as int)) by {
            assert forall|j: int| 0 <= j < i implies #[trigger] toml_parsed(dep_line(cs[j])) is Some by {
                if j < i - 1 {
                    assert(0 <= j < i - 1);
                }
            }
        }
    }
    Ok(Manifest {
        package: Package {
            name: "registry".to_owned(),
            version: "0.1.0".to_owned(),
            edition: "2018".to_owned(),
        },
        dependencies: d,
        entries,
    })
}

} // verus!
