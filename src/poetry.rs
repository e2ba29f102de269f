//! What a Poetry project declares in `pyproject.toml`, and which extras its
//! lock file records for the declared packages.
use vstd::prelude::*;

use crate::domain::extras_view;
use crate::text::{
    before_first, contains_name, contains_str, distinct_names, is_substring, lemma_push_name,
    merge_names, name_set, names_of, prefix_before, str_eq, trim, trim_str,
};

verus! {

/// The dependency tables of `pyproject.toml`, by package name.
pub struct PoetryManifest {
    /// `[tool.poetry.dependencies]`.
    pub dependencies: Vec<String>,
    /// `[tool.poetry.dev-dependencies]`, where present.
    pub dev_dependencies: Option<Vec<String>>,
    /// `[tool.poetry.group.dev.dependencies]`, where present.
    pub group_dev_dependencies: Option<Vec<String>>,
}

/// The names of an optional table.
pub open spec fn optional_names(v: Option<Vec<String>>) -> Set<Seq<char>> {
    match v {
        Some(v) => name_set(v@),
        None => Set::empty(),
    }
}

/// The development dependencies, from both places that Poetry keeps them in.
pub open spec fn dev_packages(m: PoetryManifest) -> Set<Seq<char>> {
    optional_names(m.dev_dependencies).union(optional_names(m.group_dev_dependencies))
}

/// The declared packages: the dependencies, and the development dependencies
/// where asked for, but never `python` itself.
pub open spec fn declared_packages(m: PoetryManifest, with_dev: bool) -> Set<Seq<char>> {
    let all = if with_dev {
        name_set(m.dependencies@).union(dev_packages(m))
    } else {
        name_set(m.dependencies@)
    };
    all.remove("python"@)
}

/// Returns the development dependencies, from both places Poetry keeps them in.
pub fn get_dev_dependencies(manifest: &PoetryManifest) -> (r: Vec<String>)
    ensures
        name_set(r@) == dev_packages(*manifest),
        distinct_names(r@),
{
    let mut all: Vec<String> = Vec::new();
    assert(name_set(all@) =~= Set::<Seq<char>>::empty());
    if let Some(dev) = &manifest.dev_dependencies {
        merge_names(&mut all, dev);
    }
    if let Some(dev) = &manifest.group_dev_dependencies {
        merge_names(&mut all, dev);
    }
    assert(name_set(all@) =~= dev_packages(*manifest));
    all
}

/// The names of `names`, once each, but `python`.
fn names_except_python(names: &Vec<String>) -> (r: Vec<String>)
    ensures
        name_set(r@) == name_set(names@).remove("python"@),
        distinct_names(r@),
{
    let mut result: Vec<String> = Vec::new();
    let mut k: usize = 0;
    while k < names.len()
        invariant
            k <= names@.len(),
            distinct_names(result@),
            forall|s: Seq<char>|
                #[trigger] name_set(result@).contains(s) <==> s != "python"@ && exists|j: int|
                    0 <= j < k && names@[j]@ == s,
        decreases names@.len() - k,
    {
        let ghost before = result@;
        let name = names[k].as_str();
        if !str_eq(name, "python") && !contains_name(&result, name) {
            proof {
                lemma_push_name(before, names@[k as int]);
            }
            result.push(names[k].clone());
        }
        assert forall|s: Seq<char>|
            #[trigger] name_set(result@).contains(s) <==> s != "python"@ && exists|j: int|
                0 <= j < k + 1 && names@[j]@ == s by {
            assert(name_set(before).contains(s) == names_of(before).contains(s));
            assert(name_set(result@).contains(s) == names_of(result@).contains(s));
            if names_of(result@).contains(s) && !names_of(before).contains(s) {
                assert(names@[k as int]@ == s);
            }
        }
        k = k + 1;
    }
    assert forall|s: Seq<char>|
        #[trigger] name_set(result@).contains(s) <==> name_set(names@).remove("python"@).contains(s) by {
        if name_set(names@).contains(s) {
            let j = choose|j: int| 0 <= j < names_of(names@).len() && names_of(names@)[j] == s;
        }
        if exists|j: int| 0 <= j < k && names@[j]@ == s {
            let j = choose|j: int| 0 <= j < k && names@[j]@ == s;
            assert(names_of(names@)[j] == s);
        }
    }
    assert(name_set(result@) =~= name_set(names@).remove("python"@));
    result
}

/// Returns the declared packages of a project: its dependencies and, where
/// `with_dev_deps` asks for them, its development dependencies, but never
/// `python` itself.
pub fn get_dependencies_from_pyproject(manifest: &PoetryManifest, with_dev_deps: bool) -> (r: Vec<
    String,
>)
    ensures
        name_set(r@) == declared_packages(*manifest, with_dev_deps),
        distinct_names(r@),
{
    let mut result = names_except_python(&manifest.dependencies);
    if with_dev_deps {
        let dev = get_dev_dependencies(manifest);
        let dev = names_except_python(&dev);
        merge_names(&mut result, &dev);
        assert(name_set(result@) =~= declared_packages(*manifest, with_dev_deps));
    } else {
        assert(name_set(result@) =~= declared_packages(*manifest, with_dev_deps));
    }
    result
}

/// A package record of `poetry.lock`: its name and, where it has extras, the
/// requirement strings of each extras group.
pub struct LockPackage {
    pub name: String,
    pub extras: Option<Vec<Vec<String>>>,
}

/// Some declared package name occurs in the requirement string.
pub open spec fn mentions_declared(req: Seq<char>, declared: Set<Seq<char>>) -> bool {
    exists|d: Seq<char>| declared.contains(d) && #[trigger] is_substring(d, req)
}

/// The package that a requirement string names: what comes before its first
/// `(`, without surrounding white space.
pub open spec fn requirement_name(req: Seq<char>) -> Seq<char> {
    trim(before_first(req, '('))
}

/// The names of the requirements of one group that mention a declared package.
pub open spec fn group_extras(reqs: Seq<Seq<char>>, declared: Set<Seq<char>>) -> Seq<Seq<char>>
    decreases reqs.len(),
{
    if reqs.len() == 0 {
        Seq::empty()
    } else {
        let earlier = group_extras(reqs.drop_last(), declared);
        if mentions_declared(reqs.last(), declared) {
            earlier.push(requirement_name(reqs.last()))
        } else {
            earlier
        }
    }
}

/// The names of the requirements of all groups that mention a declared package.
pub open spec fn groups_extras(groups: Seq<Seq<Seq<char>>>, declared: Set<Seq<char>>) -> Seq<
    Seq<char>,
>
    decreases groups.len(),
{
    if groups.len() == 0 {
        Seq::empty()
    } else {
        groups_extras(groups.drop_last(), declared) + group_extras(groups.last(), declared)
    }
}

/// The extras groups of a record, as character sequences.
pub open spec fn lock_groups(p: LockPackage) -> Seq<Seq<Seq<char>>> {
    match p.extras {
        Some(groups) => groups@.map_values(|g: Vec<String>| names_of(g@)),
        None => Seq::empty(),
    }
}

/// The extras that the records named `name` bundle, in record order.
pub open spec fn extras_of(
    records: Seq<LockPackage>,
    name: Seq<char>,
    declared: Set<Seq<char>>,
) -> Seq<Seq<char>>
    decreases records.len(),
{
    if records.len() == 0 {
        Seq::empty()
    } else {
        let last = records.last();
        extras_of(records.drop_last(), name, declared) + if last.name@ == name {
            groups_extras(lock_groups(last), declared)
        } else {
            Seq::empty()
        }
    }
}

/// `x` maps each record name that bundles extras, once, to all the extras
/// that the records of that name bundle, and holds no other name.
pub open spec fn is_extras_mapping(
    x: Seq<(Seq<char>, Seq<Seq<char>>)>,
    records: Seq<LockPackage>,
    declared: Set<Seq<char>>,
) -> bool {
    &&& forall|a: int, b: int| 0 <= a < b < x.len() ==> x[a].0 != x[b].0
    &&& forall|a: int|
        #![trigger x[a]]
        0 <= a < x.len() ==> x[a].1 == extras_of(records, x[a].0, declared) && x[a].1.len() > 0
    &&& forall|name: Seq<char>|
        #![trigger extras_of(records, name, declared)]
        extras_of(records, name, declared).len() > 0 ==> exists|a: int|
            0 <= a < x.len() && x[a].0 == name
}

/// Whether some declared package name occurs in `req`.
fn mentions_declared_package(req: &str, declared: &Vec<String>) -> (r: bool)
    ensures
        r == mentions_declared(req@, name_set(declared@)),
{
    let mut k: usize = 0;
    while k < declared.len()
        invariant
            k <= declared@.len(),
            forall|j: int| 0 <= j < k ==> !is_substring(declared@[j]@, req@),
        decreases declared@.len() - k,
    {
        if contains_str(req, declared[k].as_str()) {
            assert(names_of(declared@)[k as int] == declared@[k as int]@);
            assert(name_set(declared@).contains(declared@[k as int]@));
            return true;
        }
        k = k + 1;
    }
    assert forall|d: Seq<char>| name_set(declared@).contains(d) implies !#[trigger] is_substring(
        d,
        req@,
    ) by {
        let j = choose|j: int| 0 <= j < names_of(declared@).len() && names_of(declared@)[j] == d;
    }
    false
}

/// The extras that one record bundles for the declared packages.
fn package_extras(package: &LockPackage, declared: &Vec<String>) -> (r: Vec<String>)
    ensures
        names_of(r@) == groups_extras(lock_groups(*package), name_set(declared@)),
{
    let ghost m = name_set(declared@);
    let mut out: Vec<String> = Vec::new();
    match &package.extras {
        None => {
            assert(names_of(out@) =~= Seq::<Seq<char>>::empty());
        },
        Some(groups) => {
            let ghost gs = lock_groups(*package);
            assert(names_of(out@) =~= groups_extras(gs.subrange(0, 0), m));
            let mut g: usize = 0;
            while g < groups.len()
                invariant
                    m == name_set(declared@),
                    gs == groups@.map_values(|g: Vec<String>| names_of(g@)),
                    g <= groups@.len(),
                    names_of(out@) == groups_extras(gs.subrange(0, g as int), m),
                decreases groups@.len() - g,
            {
                let reqs = &groups[g];
                let ghost done = names_of(out@);
                assert(gs[g as int] == names_of(reqs@));
                let mut k: usize = 0;
                assert(names_of(out@) =~= done + group_extras(names_of(reqs@).subrange(0, 0), m));
                while k < reqs.len()
                    invariant
                        m == name_set(declared@),
                        k <= reqs@.len(),
                        names_of(out@) == done + group_extras(names_of(reqs@).subrange(0, k as int), m),
                    decreases reqs@.len() - k,
                {
                    let ghost rs = names_of(reqs@).subrange(0, k + 1);
                    assert(rs.drop_last() =~= names_of(reqs@).subrange(0, k as int));
                    assert(rs.last() == reqs@[k as int]@);
                    let req = reqs[k].as_str();
                    if mentions_declared_package(req, declared) {
                        let name = String::from_str(trim_str(prefix_before(req, '(')));
                        let ghost before = out@;
                        out.push(name);
                        assert(names_of(out@) =~= names_of(before).push(name@));
                    }
                    k = k + 1;
                }
                let ghost next = gs.subrange(0, g + 1);
                assert(next.drop_last() =~= gs.subrange(0, g as int));
                assert(names_of(reqs@).subrange(0, reqs@.len() as int) =~= names_of(reqs@));
                g = g + 1;
            }
            assert(gs.subrange(0, groups@.len() as int) =~= gs);
        },
    }
    out
}

/// The extras of the records named `name`, in record order.
fn collect_extras_of(records: &Vec<LockPackage>, name: &str, declared: &Vec<String>) -> (r: Vec<
    String,
>)
    ensures
        names_of(r@) == extras_of(records@, name@, name_set(declared@)),
{
    let ghost m = name_set(declared@);
    let mut out: Vec<String> = Vec::new();
    let mut k: usize = 0;
    assert(names_of(out@) =~= extras_of(records@.subrange(0, 0), name@, m));
    while k < records.len()
        invariant
            m == name_set(declared@),
            k <= records@.len(),
            names_of(out@) == extras_of(records@.subrange(0, k as int), name@, m),
        decreases records@.len() - k,
    {
        let ghost next = records@.subrange(0, k + 1);
        assert(next.drop_last() =~= records@.subrange(0, k as int));
        assert(next.last() == records@[k as int]);
        let ghost before = out@;
        if str_eq(records[k].name.as_str(), name) {
            let mut found = package_extras(&records[k], declared);
            out.append(&mut found);
            assert(names_of(out@) =~= names_of(before) + groups_extras(
                lock_groups(records@[k as int]),
                m,
            ));
        } else {
            assert(names_of(out@) =~= names_of(before) + Seq::<Seq<char>>::empty());
        }
        k = k + 1;
    }
    assert(records@.subrange(0, records@.len() as int) =~= records@);
    out
}

/// The records named `name` bundle an extra exactly when one of them does.
proof fn lemma_extras_of_nonempty(records: Seq<LockPackage>, name: Seq<char>, declared: Set<Seq<char>>)
    ensures
        extras_of(records, name, declared).len() > 0 <==> exists|k: int|
            0 <= k < records.len() && records[k].name@ == name && #[trigger] groups_extras(
                lock_groups(records[k]),
                declared,
            ).len() > 0,
    decreases records.len(),
{
    if records.len() > 0 {
        let rest = records.drop_last();
        lemma_extras_of_nonempty(rest, name, declared);
        if exists|k: int|
            0 <= k < rest.len() && rest[k].name@ == name && #[trigger] groups_extras(
                lock_groups(rest[k]),
                declared,
            ).len() > 0 {
            let k = choose|k: int|
                0 <= k < rest.len() && rest[k].name@ == name && #[trigger] groups_extras(
                    lock_groups(rest[k]),
                    declared,
                ).len() > 0;
            assert(records[k] == rest[k]);
        }
        if exists|k: int|
            0 <= k < records.len() && records[k].name@ == name && #[trigger] groups_extras(
                lock_groups(records[k]),
                declared,
            ).len() > 0 {
            let k = choose|k: int|
                0 <= k < records.len() && records[k].name@ == name && #[trigger] groups_extras(
                    lock_groups(records[k]),
                    declared,
                ).len() > 0;
            if k < rest.len() {
                assert(rest[k] == records[k]);
            }
        }
    }
}

/// Checks the lock records for extras of the declared packages and returns,
/// for each record name that has any, the extras it bundles: the name before
/// `(` of every requirement string of its extras groups in which a declared
/// name occurs.
pub fn check_lock_file_for_package_extras(
    lock_packages: &Vec<LockPackage>,
    manifest_packages: &Vec<String>,
) -> (r: Vec<(String, Vec<String>)>)
    ensures
        is_extras_mapping(extras_view(r@), lock_packages@, name_set(manifest_packages@)),
{
    let ghost m = name_set(manifest_packages@);
    let mut keys: Vec<String> = Vec::new();
    let mut k: usize = 0;
    while k < lock_packages.len()
        invariant
            m == name_set(manifest_packages@),
            k <= lock_packages@.len(),
            distinct_names(keys@),
            forall|n: Seq<char>|
                #[trigger] names_of(keys@).contains(n) <==> exists|j: int|
                    0 <= j < k && lock_packages@[j].name@ == n && #[trigger] groups_extras(
                        lock_groups(lock_packages@[j]),
                        m,
                    ).len() > 0,
        decreases lock_packages@.len() - k,
    {
        let ghost before = keys@;
        let package = &lock_packages[k];
        let found = package_extras(package, manifest_packages);
        if found.len() > 0 && !contains_name(&keys, package.name.as_str()) {
            proof {
                lemma_push_name(before, package.name);
            }
            keys.push(package.name.clone());
        }
        assert forall|n: Seq<char>|
            #[trigger] names_of(keys@).contains(n) <==> exists|j: int|
                0 <= j < k + 1 && lock_packages@[j].name@ == n && #[trigger] groups_extras(
                    lock_groups(lock_packages@[j]),
                    m,
                ).len() > 0 by {
            if names_of(keys@).contains(n) && !names_of(before).contains(n) {
                assert(groups_extras(lock_groups(lock_packages@[k as int]), m).len() > 0);
            }
            if exists|j: int|
                0 <= j < k + 1 && lock_packages@[j].name@ == n && #[trigger] groups_extras(
                    lock_groups(lock_packages@[j]),
                    m,
                ).len() > 0 {
                let j = choose|j: int|
                    0 <= j < k + 1 && lock_packages@[j].name@ == n && #[trigger] groups_extras(
                        lock_groups(lock_packages@[j]),
                        m,
                    ).len() > 0;
                if j == k {
                    assert(names_of(keys@).contains(n));
                }
            }
        }
        k = k + 1;
    }
    let mut result: Vec<(String, Vec<String>)> = Vec::new();
    let mut a: usize = 0;
    while a < keys.len()
        invariant
            m == name_set(manifest_packages@),
            distinct_names(keys@),
            a <= keys@.len(),
            result@.len() == a,
            forall|n: Seq<char>|
                #[trigger] names_of(keys@).contains(n) <==> exists|j: int|
                    0 <= j < lock_packages@.len() && lock_packages@[j].name@ == n
                        && #[trigger] groups_extras(lock_groups(lock_packages@[j]), m).len() > 0,
            forall|i: int| 0 <= i < a ==> #[trigger] result@[i].0@ == keys@[i]@,
            forall|i: int|
                #![trigger result@[i]]
                0 <= i < a ==> names_of(result@[i].1@) == extras_of(lock_packages@, result@[i].0@, m)
                    && names_of(result@[i].1@).len() > 0,
        decreases keys@.len() - a,
    {
        let key = &keys[a];
        let extras = collect_extras_of(lock_packages, key.as_str(), manifest_packages);
        proof {
            assert(names_of(keys@)[a as int] == key@);
            assert(names_of(keys@).contains(key@));
            lemma_extras_of_nonempty(lock_packages@, key@, m);
        }
        result.push((key.clone(), extras));
        a = a + 1;
    }
    assert forall|x: int, y: int| 0 <= x < y < result@.len() implies result@[x].0@ != result@[y].0@ by {
        assert(names_of(keys@)[x] == keys@[x]@);
        assert(names_of(keys@)[y] == keys@[y]@);
    }
    assert forall|name: Seq<char>|
        #[trigger] extras_of(lock_packages@, name, m).len() > 0 implies exists|i: int|
            0 <= i < result@.len() && result@[i].0@ == name by {
        lemma_extras_of_nonempty(lock_packages@, name, m);
        assert(names_of(keys@).contains(name));
        let i = choose|i: int| 0 <= i < names_of(keys@).len() && names_of(keys@)[i] == name;
        assert(result@[i].0@ == keys@[i]@);
    }
    let ghost x = extras_view(result@);
    assert forall|i: int| 0 <= i < x.len() implies #[trigger] x[i] == (
        result@[i].0@,
        names_of(result@[i].1@),
    ) by {}
    assert forall|name: Seq<char>|
        #[trigger] extras_of(lock_packages@, name, m).len() > 0 implies exists|i: int|
            0 <= i < x.len() && x[i].0 == name by {
        let i = choose|i: int| 0 <= i < result@.len() && result@[i].0@ == name;
        assert(x[i].0 == name);
    }
    result
}

} // verus!
