use vstd::prelude::*;
use toml::Value as TomlValue;

verus! {

/// How a manifest depends on a crate.
#[derive(Debug)]
pub enum Dependency {
    /// By the directory it lies in
    Path(String),
    /// By a version requirement, with the features to switch on
    Version { version: String, features: Vec<String> },
}

/// The package table of a manifest.
#[derive(Debug)]
pub struct Package {
    pub name: String,
    pub version: String,
    pub edition: String,
}

/// A cargo manifest: its package, its dependencies in the order they were
/// set (a later entry for a name replaces an earlier one), and then entries
/// read from TOML, each a name and its TOML value, set in the same way.
#[derive(Debug)]
pub struct Manifest {
    pub package: Package,
    pub dependencies: Vec<(String, Dependency)>,
    pub entries: Vec<(String, TomlValue)>,
}

/// A dependency as plain values: whether it goes by path, the path or
/// version, and the features.
pub open spec fn dep_view(d: Dependency) -> (bool, Seq<char>, Seq<Seq<char>>) {
    match d {
        Dependency::Path(p) => (true, p@, Seq::empty()),
        Dependency::Version { version, features } => (false, version@, features.deep_view()),
    }
}

/// The dependencies that entries set, each name to its last entry.
pub open spec fn dep_table_view(entries: Seq<(String, Dependency)>) -> Map<
    Seq<char>,
    (bool, Seq<char>, Seq<Seq<char>>),
>
    decreases entries.len(),
{
    if entries.len() == 0 {
        Map::empty()
    } else {
        dep_table_view(entries.drop_last()).insert(entries.last().0@, dep_view(entries.last().1))
    }
}

} // verus!
