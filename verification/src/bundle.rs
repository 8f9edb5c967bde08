use vstd::prelude::*;
use crate::manifest::{Dependency, Manifest, Package, dep_table_view, dep_view};
use crate::relpath::{relative, relative_path};
use crate::toml_table::{
    TomlTable, table_entries, value_table, value_text, toml_parsed, toml_error, lookup, new_table,
    table_insert, table_remove, table_get, is_table, table_value, text_value, into_table, parse_table,
};
use toml::Value as TomlValue;

verus! {

/// What the registry is built from: the crates that hold the user's sources,
/// matchers, converters and actions, and which of them to use under which
/// names.
#[derive(Debug)]
pub struct Recipe {
    pub crates: Vec<Crate>,
    pub sources: Vec<SourceDescriptor>,
    pub matchers: Vec<MatcherDescriptor>,
    pub converters: Vec<ConverterDescriptor>,
    pub actions: Vec<ActionDescriptor>,
}

impl Default for Recipe {
    fn default() -> (r: Self)
        ensures
            r.crates@.len() == 0,
            r.sources@.len() == 0,
            r.matchers@.len() == 0,
            r.converters@.len() == 0,
            r.actions@.len() == 0,
    {
        Recipe {
            crates: Vec::new(),
            sources: Vec::new(),
            matchers: Vec::new(),
            converters: Vec::new(),
            actions: Vec::new(),
        }
    }
}

/// A crate of the user's, by name, and the directory it lies in.
#[derive(Debug)]
pub struct Crate {
    pub name: String,
    pub dir: String,
}

/// A source to build in: the name it is called by, and its path in Rust.
#[derive(Debug)]
pub struct SourceDescriptor {
    pub name: String,
    pub path: String,
}

/// A matcher to build in: the name it is called by, and its path in Rust.
#[derive(Debug)]
pub struct MatcherDescriptor {
    pub name: String,
    pub path: String,
}

/// A converter to build in: the name it is called by, and its path in Rust.
#[derive(Debug)]
pub struct ConverterDescriptor {
    pub name: String,
    pub path: String,
}

/// An action to build in: the name it is called by, and its path in Rust.
#[derive(Debug)]
pub struct ActionDescriptor {
    pub name: String,
    pub path: String,
}

/// Where the first `::` of `s` starts, or the length of `s` if it has none.
pub open spec fn first_sep(s: Seq<char>) -> int
    decreases s.len(),
{
    if s.len() < 2 {
        s.len() as int
    } else if s[0] == ':' && s[1] == ':' {
        0
    } else {
        1 + first_sep(s.drop_first())
    }
}

/// The pieces of a Rust path between its `::`.
pub open spec fn segments(s: Seq<char>) -> Seq<Seq<char>>
    decreases s.len(),
{
    let k = first_sep(s);
    if 0 <= k && k + 2 <= s.len() {
        seq![s.take(k)] + segments(s.skip(k + 2))
    } else {
        seq![s]
    }
}

/// The crate that a Rust path starts with: what comes before its first `::`.
pub open spec fn crate_of(s: Seq<char>) -> Seq<char> {
    s.take(first_sep(s))
}

proof fn lemma_first_sep(t: Seq<char>, k: int)
    requires
        0 <= k <= t.len(),
        forall|m: int| 0 <= m < k && m + 1 < t.len() ==> !(#[trigger] t[m] == ':' && t[m + 1] == ':'),
        (k + 1 < t.len() && t[k] == ':' && t[k + 1] == ':') || k + 1 >= t.len(),
    ensures
        k + 1 < t.len() ==> first_sep(t) == k,
        k + 1 >= t.len() ==> first_sep(t) == t.len(),
    decreases k,
{
    if t.len() < 2 {
    } else if t[0] == ':' && t[1] == ':' {
        assert(k == 0);
    } else {
        lemma_first_sep(t.drop_first(), k - 1);
    }
}

/// Where the next `::` at or after `from` starts, or where the text ends.
fn next_sep(s: &str, from: usize) -> (r: usize)
    requires
        from <= s@.len(),
    ensures
        from <= r <= s@.len(),
        r + 1 < s@.len() ==> r - from == first_sep(s@.skip(from as int)),
        r + 1 >= s@.len() ==> first_sep(s@.skip(from as int)) == s@.len() - from,
        r + 1 < s@.len() ==> s@[r as int] == ':' && s@[r + 1] == ':',
        r + 1 >= s@.len() ==> r == s@.len(),
{
    let n = s.unicode_len();
    let mut j = from;
    while n - j >= 2 && !(s.get_char(j) == ':' && s.get_char(j + 1) == ':')
        invariant
            from <= j <= n,
            n == s@.len(),
            forall|m: int| from <= m < j && m + 1 < n ==> !(#[trigger] s@[m] == ':' && s@[m + 1] == ':'),
        decreases n - j,
    {
        j = j + 1;
    }
    let ghost t = s@.skip(from as int);
    proof {
        assert forall|m: int| 0 <= m < j - from && m + 1 < t.len() implies !(#[trigger] t[m] == ':' && t[m + 1]
            == ':') by {
            assert(t[m] == s@[m + from]);
            assert(t[m + 1] == s@[m + 1 + from]);
        }
        if j + 1 < n {
            assert(t[j - from] == s@[j as int]);
            assert(t[j - from + 1] == s@[j + 1]);
        }
        lemma_first_sep(t, j - from);
    }
    if n - j >= 2 {
        j
    } else {
        n
    }
}

/// The crate that the Rust path `path` starts with.
pub fn crate_of_path(path: &str) -> (r: String)
    ensures
        r@ == crate_of(path@),
{
    let k = next_sep(path, 0);
    assert(path@.skip(0) =~= path@);
    assert(k == first_sep(path@));
    let r = path.substring_char(0, k).to_owned();
    assert(r@ =~= path@.take(first_sep(path@)));
    r
}

/// The pieces of the Rust path `path` between its `::`.
pub fn path_segments(path: &str) -> (r: Vec<String>)
    ensures
        r.deep_view() == segments(path@),
{
    let n = path.unicode_len();
    let ghost s = path@;
    let mut out: Vec<String> = Vec::new();
    let mut pos: usize = 0;
    assert(s.skip(0) =~= s);
    loop
        invariant
            n == s.len(),
            s == path@,
            pos <= n,
            segments(s) == out.deep_view() + segments(s.skip(pos as int)),
        decreases n - pos,
    {
        let k = next_sep(path, pos);
        let ghost t = s.skip(pos as int);
        if n - k >= 2 {
            let piece = path.substring_char(pos, k).to_owned();
            let ghost before = out.deep_view();
            proof {
                assert(piece@ =~= t.take(k - pos));
                assert(t.skip(k - pos + 2) =~= s.skip(k + 2));
                assert(segments(t) == seq![t.take(k - pos)] + segments(t.skip(k - pos + 2)));
            }
            out.push(piece);
            proof {
                assert(out.deep_view() =~= before.push(piece@));
                assert(before.push(piece@) + segments(s.skip(k + 2)) =~= before + (seq![piece@]
                    + segments(s.skip(k + 2))));
            }
            pos = k + 2;
        } else {
            let piece = path.substring_char(pos, n).to_owned();
            let ghost before = out.deep_view();
            proof {
                assert(piece@ =~= t);
                assert(segments(t) == seq![t]);
            }
            out.push(piece);
            proof {
                assert(out.deep_view() =~= before.push(piece@));
                assert(out.deep_view() =~= before + seq![t]);
            }
            return out;
        }
    }
}

/// The crates whose names start a path of the sources, matchers or
/// converters of a recipe.
pub open spec fn used_crate_names(recipe: Recipe) -> Set<Seq<char>> {
    Set::new(
        |name: Seq<char>|
            (exists|i: int|
                0 <= i < recipe.sources@.len() && crate_of(#[trigger] recipe.sources@[i].path@) == name)
                || (exists|i: int|
                0 <= i < recipe.matchers@.len() && crate_of(#[trigger] recipe.matchers@[i].path@) == name)
                || (exists|i: int|
                0 <= i < recipe.converters@.len() && crate_of(#[trigger] recipe.converters@[i].path@)
                    == name),
    )
}

/// The crates of `cs` whose names are in `names`, in their order.
pub open spec fn crates_named(cs: Seq<Crate>, names: Set<Seq<char>>) -> Seq<Crate>
    decreases cs.len(),
{
    if cs.len() == 0 {
        Seq::empty()
    } else {
        let rest = crates_named(cs.drop_last(), names);
        if names.contains(cs.last().name@) {
            rest.push(cs.last())
        } else {
            rest
        }
    }
}

/// Whether `name` is among `names`.
fn contains_name(names: &Vec<String>, name: &String) -> (r: bool)
    ensures
        r == exists|i: int| 0 <= i < names@.len() && #[trigger] names@[i]@ == name@,
{
    let mut i: usize = 0;
    while i < names.len()
        invariant
            i <= names@.len(),
            forall|j: int| 0 <= j < i ==> #[trigger] names@[j]@ != name@,
        decreases names@.len() - i,
    {
        if names[i] == *name {
            return true;
        }
        i = i + 1;
    }
    false
}

/// The crates of the recipe that its sources, matchers or converters come
/// from, in the order the recipe lists them.
pub fn dependent_crates(recipe: &Recipe) -> (r: Vec<&Crate>)
    ensures
        r@.len() == crates_named(recipe.crates@, used_crate_names(*recipe)).len(),
        forall|i: int|
            0 <= i < r@.len() ==> *r@[i] == crates_named(recipe.crates@, used_crate_names(*recipe))[i],
{
    let ghost names = used_crate_names(*recipe);
    let mut deps: Vec<String> = Vec::new();
    let mut i: usize = 0;
    while i < recipe.sources.len()
        invariant
            i <= recipe.sources@.len(),
            deps@.len() == i,
            forall|k: int| 0 <= k < i ==> #[trigger] deps@[k]@ == crate_of(recipe.sources@[k].path@),
        decreases recipe.sources@.len() - i,
    {
        deps.push(crate_of_path(recipe.sources[i].path.as_str()));
        i = i + 1;
    }
    let ns = recipe.sources.len();
    let mut i: usize = 0;
    while i < recipe.matchers.len()
        invariant
            i <= recipe.matchers@.len(),
            ns == recipe.sources@.len(),
            deps@.len() == ns + i,
            forall|k: int| 0 <= k < ns ==> #[trigger] deps@[k]@ == crate_of(recipe.sources@[k].path@),
            forall|k: int|
                0 <= k < i ==> #[trigger] deps@[ns + k]@ == crate_of(recipe.matchers@[k].path@),
        decreases recipe.matchers@.len() - i,
    {
        deps.push(crate_of_path(recipe.matchers[i].path.as_str()));
        i = i + 1;
    }
    let nm = recipe.matchers.len();
    let mut i: usize = 0;
    while i < recipe.converters.len()
        invariant
            i <= recipe.converters@.len(),
            ns == recipe.sources@.len(),
            nm == recipe.matchers@.len(),
            deps@.len() == ns + nm + i,
            forall|k: int| 0 <= k < ns ==> #[trigger] deps@[k]@ == crate_of(recipe.sources@[k].path@),
            forall|k: int|
                0 <= k < nm ==> #[trigger] deps@[ns + k]@ == crate_of(recipe.matchers@[k].path@),
            forall|k: int|
                0 <= k < i ==> #[trigger] deps@[ns + nm + k]@ == crate_of(recipe.converters@[k].path@),
        decreases recipe.converters@.len() - i,
    {
        deps.push(crate_of_path(recipe.converters[i].path.as_str()));
        i = i + 1;
    }
    proof {
        assert forall|name: Seq<char>|
            names.contains(name) <==> exists|k: int| 0 <= k < deps@.len() && #[trigger] deps@[k]@ == name by {
            if names.contains(name) {
                if exists|k: int|
                    0 <= k < recipe.sources@.len() && crate_of(#[trigger] recipe.sources@[k].path@)
                        == name {
                    let k = choose|k: int|
                        0 <= k < recipe.sources@.len() && crate_of(#[trigger] recipe.sources@[k].path@)
                            == name;
                    assert(deps@[k]@ == name);
                } else if exists|k: int|
                    0 <= k < recipe.matchers@.len() && crate_of(#[trigger] recipe.matchers@[k].path@)
                        == name {
                    let k = choose|k: int|
                        0 <= k < recipe.matchers@.len() && crate_of(#[trigger] recipe.matchers@[k].path@)
                            == name;
                    assert(deps@[ns + k]@ == name);
                } else {
                    let k = choose|k: int|
                        0 <= k < recipe.converters@.len() && crate_of(
                            #[trigger] recipe.converters@[k].path@,
                        ) == name;
                    assert(deps@[ns + nm + k]@ == name);
                }
            }
            if exists|k: int| 0 <= k < deps@.len() && #[trigger] deps@[k]@ == name {
                let k = choose|k: int| 0 <= k < deps@.len() && #[trigger] deps@[k]@ == name;
                if k < ns {
                    assert(crate_of(recipe.sources@[k].path@) == name);
                } else if k < ns + nm {
                    assert(deps@[ns + (k - ns)] == deps@[k]);
                    assert(crate_of(recipe.matchers@[k - ns].path@) == name);
                } else {
                    assert(deps@[ns + nm + (k - ns - nm)] == deps@[k]);
                    assert(crate_of(recipe.converters@[k - ns - nm].path@) == name);
                }
            }
        }
    }
    let mut r: Vec<&Crate> = Vec::new();
    let mut i: usize = 0;
    while i < recipe.crates.len()
        invariant
            i <= recipe.crates@.len(),
            forall|name: Seq<char>|
                names.contains(name) <==> exists|k: int| 0 <= k < deps@.len() && #[trigger] deps@[k]@ == name,
            r@.len() == crates_named(recipe.crates@.take(i as int), names).len(),
            forall|k: int|
                0 <= k < r@.len() ==> *r@[k] == crates_named(recipe.crates@.take(i as int), names)[k],
        decreases recipe.crates@.len() - i,
    {
        let c = &recipe.crates[i];
        let keep = contains_name(&deps, &c.name);
        proof {
            let t = recipe.crates@.take(i + 1);
            assert(t.drop_last() =~= recipe.crates@.take(i as int));
            assert(t.last() == *c);
            assert(keep == names.contains(c.name@));
        }
        if keep {
            r.push(c);
        }
        i = i + 1;
    }
    assert(recipe.crates@.take(i as int) =~= recipe.crates@);
    r
}

/// The cargo manifest of the registry: the finder's core, serde with its
/// derive, log and rayon, and each crate that the recipe uses by its
/// directory.
pub open spec fn registry_deps(recipe: Recipe) -> Map<Seq<char>, (bool, Seq<char>, Seq<Seq<char>>)> {
    let fixed = map![
        "linearf"@ => (true, "../core"@, Seq::<Seq<char>>::empty()),
        "serde"@ => (false, "*"@, seq!["derive"@]),
        "log"@ => (false, "*"@, Seq::<Seq<char>>::empty()),
        "rayon"@ => (false, "*"@, Seq::<Seq<char>>::empty())
    ];
    with_crate_dirs(fixed, crates_named(recipe.crates@, used_crate_names(recipe)))
}

/// `m` with each crate of `cs`, in order, set to depend on it by its
/// directory.
pub open spec fn with_crate_dirs(
    m: Map<Seq<char>, (bool, Seq<char>, Seq<Seq<char>>)>,
    cs: Seq<Crate>,
) -> Map<Seq<char>, (bool, Seq<char>, Seq<Seq<char>>)>
    decreases cs.len(),
{
    if cs.len() == 0 {
        m
    } else {
        with_crate_dirs(m, cs.drop_last()).insert(cs.last().name@, (true, cs.last().dir@, Seq::empty()))
    }
}

/// The cargo manifest of the registry crate that a recipe builds.
pub fn format_cargo_toml(recipe: &Recipe) -> (r: Manifest)
    ensures
        r.package.name@ == "registry"@,
        r.package.version@ == "0.1.0"@,
        r.package.edition@ == "2021"@,
        dep_table_view(r.dependencies@) == registry_deps(*recipe),
        r.entries@.len() == 0,
{
    proof {
        reveal_strlit("linearf");
        reveal_strlit("../core");
        reveal_strlit("serde");
        reveal_strlit("*");
        reveal_strlit("derive");
        reveal_strlit("log");
        reveal_strlit("rayon");
        reveal_strlit("registry");
        reveal_strlit("0.1.0");
        reveal_strlit("2021");
    }
    let mut d: Vec<(String, Dependency)> = Vec::new();
    d.push(("linearf".to_owned(), Dependency::Path("../core".to_owned())));
    let ghost d1 = d@;
    let mut features: Vec<String> = Vec::new();
    features.push("derive".to_owned());
    assert(features.deep_view() =~= seq!["derive"@]);
    d.push(("serde".to_owned(), Dependency::Version { version: "*".to_owned(), features }));
    let ghost d2 = d@;
    d.push(("log".to_owned(), Dependency::Version { version: "*".to_owned(), features: Vec::new() }));
    let ghost d3 = d@;
    d.push(("rayon".to_owned(), Dependency::Version { version: "*".to_owned(), features: Vec::new() }));
    let ghost fixed = dep_table_view(d@);
    proof {
        assert(d@.drop_last() =~= d3);
        assert(d3.drop_last() =~= d2);
        assert(d2.drop_last() =~= d1);
        assert(d1.drop_last() =~= Seq::<(String, Dependency)>::empty());
        assert(dep_view(d1[0].1) == (true, "../core"@, Seq::<Seq<char>>::empty()));
        assert(dep_view(d2[1].1) == (false, "*"@, seq!["derive"@]));
        assert(dep_view(d3[2].1) =~~= (false, "*"@, Seq::<Seq<char>>::empty()));
        assert(dep_view(d@[3].1) =~~= (false, "*"@, Seq::<Seq<char>>::empty()));
        assert(dep_table_view(d1.drop_last()) == Map::<Seq<char>, (bool, Seq<char>, Seq<Seq<char>>)>::empty());
        assert(d1.last().0@ == "linearf"@);
        assert(dep_table_view(d1) == Map::<Seq<char>, (bool, Seq<char>, Seq<Seq<char>>)>::empty().insert(
            "linearf"@,
            (true, "../core"@, Seq::<Seq<char>>::empty()),
        ));
        assert(dep_table_view(d2) == dep_table_view(d1).insert("serde"@, (false, "*"@, seq!["derive"@])));
        assert(dep_table_view(d3) == dep_table_view(d2).insert(
            "log"@,
            (false, "*"@, Seq::<Seq<char>>::empty()),
        ));
        assert(fixed == dep_table_view(d3).insert("rayon"@, (false, "*"@, Seq::<Seq<char>>::empty())));
        let f2 = map![
            "linearf"@ => (true, "../core"@, Seq::<Seq<char>>::empty()),
            "serde"@ => (false, "*"@, seq!["derive"@]),
            "log"@ => (false, "*"@, Seq::<Seq<char>>::empty()),
            "rayon"@ => (false, "*"@, Seq::<Seq<char>>::empty())
        ];
        assert(fixed =~= f2);
    }
    let cs = dependent_crates(recipe);
    let ghost want = crates_named(recipe.crates@, used_crate_names(*recipe));
    let mut i: usize = 0;
    while i < cs.len()
        invariant
            i <= cs@.len(),
            cs@.len() == want.len(),
            forall|k: int| 0 <= k < cs@.len() ==> *cs@[k] == want[k],
            dep_table_view(d@) == with_crate_dirs(fixed, want.take(i as int)),
        decreases cs@.len() - i,
    {
        let c = cs[i];
        let ghost d0 = d@;
        d.push((c.name.clone(), Dependency::Path(c.dir.clone())));
        proof {
            assert(d@.drop_last() =~= d0);
            assert(want.take(i + 1).drop_last() =~= want.take(i as int));
            assert(want.take(i + 1).last() == *c);
        }
        i = i + 1;
    }
    assert(want.take(i as int) =~= want);
    Manifest {
        package: Package {
            name: "registry".to_owned(),
            version: "0.1.0".to_owned(),
            edition: "2021".to_owned(),
        },
        dependencies: d,
        entries: Vec::new(),
    }
}

/// A file as it was before the build changed it: its path and its text.
#[derive(Debug)]
pub struct F {
    pub p: String,
    pub s: String,
}

/// The files that a build rewrites, as they were, to be written back after.
pub struct Stash {
    files: Vec<F>,
}

impl Stash {
    pub closed spec fn spec_files(&self) -> Seq<F> {
        self.files@
    }

    /// Keeps the manifests of the user's crates, then the registry's
    /// manifest and its library file, in that order.
    pub fn stash(crates: Vec<F>, cargo_toml: F, lib: F) -> (r: Self)
        ensures
            r.spec_files() == crates@.push(cargo_toml).push(lib),
    {
        let mut files = crates;
        files.push(cargo_toml);
        files.push(lib);
        Stash { files }
    }

    /// The files kept, to be written back in this order.
    pub fn restore(self) -> (r: Vec<F>)
        ensures
            r@ == self.spec_files(),
    {
        self.files
    }
}

/// Why the manifest of a user's crate could not be pointed at the core.
#[derive(Debug)]
pub enum PatchError {
    /// The manifest is not TOML: what reading it said.
    NotToml(String),
    /// It has no table of dependencies.
    NoDependencies,
    /// It has no package table.
    NoPackage,
}

/// Whether the entry `key` of `t` is there and is a table.
pub open spec fn has_table(t: TomlTable, key: Seq<char>) -> bool {
    lookup(table_entries(t), key) matches Some(v) && value_table(v) is Some
}

/// The table under `key` of `t`.
pub open spec fn table_under(t: TomlTable, key: Seq<char>) -> TomlTable {
    value_table(table_entries(t)[key])->0
}

/// Whether `v` is the dependency `{ path = path }`.
pub open spec fn path_dep(v: TomlValue, path: Seq<char>) -> bool {
    value_table(v) matches Some(pt) && table_entries(pt).dom() == set!["path"@] && value_text(
        table_entries(pt)["path"@],
    ) == Some(path)
}

/// Whether `new` is the manifest `old` pointed at the core: its dependency
/// `linearf` set to `{ path = core_path }` and its package named `name`,
/// every other entry kept.
pub open spec fn patched(old: TomlTable, new: TomlTable, name: Seq<char>, core_path: Seq<char>) -> bool {
    let deps = table_under(old, "dependencies"@);
    let pack = table_under(old, "package"@);
    let mid = table_entries(old).insert("dependencies"@, table_entries(new)["dependencies"@]);
    &&& table_entries(new) == mid.insert("package"@, table_entries(new)["package"@])
    &&& value_table(table_entries(new)["dependencies"@]) matches Some(d2) && table_entries(d2)
        == table_entries(deps).insert("linearf"@, table_entries(d2)["linearf"@]) && path_dep(
        table_entries(d2)["linearf"@],
        core_path,
    )
    &&& value_table(table_entries(new)["package"@]) matches Some(p2) && table_entries(p2)
        == table_entries(pack).insert("name"@, table_entries(p2)["name"@]) && value_text(
        table_entries(p2)["name"@],
    ) == Some(name)
}

/// Takes the table under `key` out of `t`, sets `inner_key` in it to `v`, and
/// puts it back; the other entries stay.
fn set_inner(t: &mut TomlTable, key: &str, inner_key: &str, v: TomlValue)
    requires
        has_table(*old(t), key@),
    ensures
        table_entries(*final(t)) == table_entries(*old(t)).insert(key@, table_entries(*final(t))[key@]),
        table_entries(table_under(*final(t), key@)) == table_entries(table_under(*old(t), key@)).insert(
            inner_key@,
            v,
        ),
        value_table(table_entries(*final(t))[key@]) is Some,
{
    let ghost t0 = *t;
    let taken = table_remove(t, key);
    let inner = match taken {
        Some(w) => w,
        None => {
            assert(false);
            return;
        },
    };
    let mut inner = match into_table(inner) {
        Ok(x) => x,
        Err(_) => {
            assert(false);
            return;
        },
    };
    table_insert(&mut inner, inner_key, v);
    let value = table_value(inner);
    table_insert(t, key, value);
    assert(table_entries(*t) =~= table_entries(t0).insert(key@, table_entries(*t)[key@]));
}

/// Points the manifest `table` of a user's crate at the core: its
/// dependency `linearf` becomes `{ path = core_path }` and its package is
/// named `name`. Fails, leaving the table as it was, when it has no table of
/// dependencies, or else no package table.
pub fn patch_manifest(table: &mut TomlTable, name: &str, core_path: &str) -> (r: Result<(), PatchError>)
    ensures
        !has_table(*old(table), "dependencies"@) ==> r matches Err(PatchError::NoDependencies),
        has_table(*old(table), "dependencies"@) && !has_table(*old(table), "package"@) ==> r matches Err(
            PatchError::NoPackage,
        ),
        r is Err ==> *final(table) == *old(table),
        has_table(*old(table), "dependencies"@) && has_table(*old(table), "package"@) ==> r is Ok,
        r is Ok ==> patched(*old(table), *final(table), name@, core_path@),
{
    proof {
        reveal_strlit("dependencies");
        reveal_strlit("package");
        reveal_strlit("linearf");
        reveal_strlit("name");
        reveal_strlit("path");
    }
    let deps_ok = match table_get(table, "dependencies") {
        Some(v) => is_table(v),
        None => false,
    };
    if !deps_ok {
        return Err(PatchError::NoDependencies);
    }
    let package_ok = match table_get(table, "package") {
        Some(v) => is_table(v),
        None => false,
    };
    if !package_ok {
        return Err(PatchError::NoPackage);
    }
    let ghost t0 = *table;
    let mut path_table = new_table();
    let path = text_value(core_path);
    let ghost pv = path;
    table_insert(&mut path_table, "path", path);
    assert(table_entries(path_table).dom() =~= set!["path"@]);
    let dep = table_value(path_table);
    let ghost dv = dep;
    set_inner(table, "dependencies", "linearf", dep);
    let ghost t1 = *table;
    assert("dependencies"@.len() != "package"@.len());
    assert(has_table(t0, "package"@));
    assert(table_entries(t0).dom().contains("package"@));
    assert(has_table(t1, "package"@)) by {
        assert(table_entries(t1)["package"@] == table_entries(t0)["package"@]);
    }
    assert(table_under(t1, "package"@) == table_under(t0, "package"@));
    let name_value = text_value(name);
    let ghost nv = name_value;
    set_inner(table, "package", "name", name_value);
    proof {
        assert(path_dep(dv, core_path@));
        assert(table_entries(*table)["dependencies"@] == table_entries(t1)["dependencies"@]);
        let d2 = table_under(t1, "dependencies"@);
        assert(table_entries(d2)["linearf"@] == dv);
        let p2 = table_under(*table, "package"@);
        assert(table_entries(p2)["name"@] == nv);
        assert(table_entries(*table) =~= table_entries(t0).insert(
            "dependencies"@,
            table_entries(*table)["dependencies"@],
        ).insert("package"@, table_entries(*table)["package"@]));
    }
    Ok(())
}

/// The manifest `text` of a user's crate, read as TOML and pointed at the
/// core, whose directory is `core`, from where the manifest lies,
/// `manifest_path`.
pub fn patched_manifest(text: &str, name: &str, manifest_path: &str, core: &str) -> (r: Result<
    TomlTable,
    PatchError,
>)
    ensures
        match toml_parsed(text@) {
            None => r matches Err(PatchError::NotToml(e)) && e@ == toml_error(text@),
            Some(t) => {
                &&& !has_table(t, "dependencies"@) ==> (r matches Err(PatchError::NoDependencies))
                &&& has_table(t, "dependencies"@) && !has_table(t, "package"@) ==> (r matches Err(
                    PatchError::NoPackage,
                ))
                &&& has_table(t, "dependencies"@) && has_table(t, "package"@) ==> (r matches Ok(m)
                    && patched(t, m, name@, relative_path(manifest_path@, core@)))
            },
        },
{
    let mut t = match parse_table(text) {
        Ok(t) => t,
        Err(e) => {
            return Err(PatchError::NotToml(e));
        },
    };
    let core_path = relative(manifest_path, core);
    match patch_manifest(&mut t, name, core_path.as_str()) {
        Ok(()) => Ok(t),
        Err(e) => Err(e),
    }
}

} // verus!
