//! The project under inspection and the reconciliation of what it declares
//! against what it imports.
use vstd::prelude::*;

use crate::formatters::{normalize, reformat_package_name};
use crate::poetry::{
    check_lock_file_for_package_extras, declared_packages, get_dependencies_from_pyproject,
    is_extras_mapping, LockPackage, PoetryManifest,
};
use crate::python_ast::{get_imports_from_src, scan_result, ScanError, SourceFile};
use crate::text::{contains_name, distinct_names, lemma_push_name, name_set, names_of};

verus! {

/// A mapping from a parent package to the extras it bundles, as character sequences.
pub open spec fn extras_view(x: Seq<(String, Vec<String>)>) -> Seq<(Seq<char>, Seq<Seq<char>>)> {
    x.map_values(|e: (String, Vec<String>)| (e.0@, names_of(e.1@)))
}

/// `(a, b)` indexes the `b`-th extra listed under the `a`-th parent.
pub open spec fn has_pair(x: Seq<(Seq<char>, Seq<Seq<char>>)>, a: int, b: int) -> bool {
    0 <= a < x.len() && 0 <= b < x[a].1.len()
}

/// `extra` is listed under `parent`.
pub open spec fn is_extra_of(
    x: Seq<(Seq<char>, Seq<Seq<char>>)>,
    parent: Seq<char>,
    extra: Seq<char>,
) -> bool {
    exists|a: int, b: int| #[trigger] has_pair(x, a, b) && x[a].0 == parent && x[a].1[b] == extra
}

/// Declared names, normalized, that are not among the imports.
pub open spec fn base_unused(declared: Set<Seq<char>>, imports: Set<Seq<char>>) -> Set<Seq<char>> {
    Set::new(
        |s: Seq<char>|
            !imports.contains(s) && exists|d: Seq<char>| declared.contains(d) && #[trigger] normalize(d)
                == s,
    )
}

/// The normalized names of all extras of the mapping.
pub open spec fn bundled_names(x: Seq<(Seq<char>, Seq<Seq<char>>)>) -> Set<Seq<char>> {
    Set::new(
        |s: Seq<char>| exists|a: int, b: int| #[trigger] has_pair(x, a, b) && normalize(x[a].1[b]) == s,
    )
}

/// The text that marks `extra` as bundled by `parent`.
pub open spec fn annotate(extra: Seq<char>, parent: Seq<char>) -> Seq<char> {
    extra + " - an extra of "@ + parent
}

/// The pair `(a, b)` yields the annotation `s`: its parent and its normalized
/// extra are both unused.
pub open spec fn annotates(
    unused: Set<Seq<char>>,
    x: Seq<(Seq<char>, Seq<Seq<char>>)>,
    a: int,
    b: int,
    s: Seq<char>,
) -> bool {
    &&& has_pair(x, a, b)
    &&& unused.contains(x[a].0)
    &&& unused.contains(normalize(x[a].1[b]))
    &&& s == annotate(x[a].1[b], x[a].0)
}

/// All annotations that the mapping yields over `unused`.
pub open spec fn annotations(unused: Set<Seq<char>>, x: Seq<(Seq<char>, Seq<Seq<char>>)>) -> Set<
    Seq<char>,
> {
    Set::new(|s: Seq<char>| exists|a: int, b: int| #[trigger] annotates(unused, x, a, b, s))
}

/// The unused set after extras are accounted for: every unused name that is an
/// extra of some parent leaves, and each extra whose parent is unused as well
/// comes back annotated with that parent.
pub open spec fn filter_extras(unused: Set<Seq<char>>, x: Seq<(Seq<char>, Seq<Seq<char>>)>) -> Set<
    Seq<char>,
> {
    unused.difference(bundled_names(x)).union(annotations(unused, x))
}

/// The packages possibly unused by a project.
pub open spec fn unused_packages(
    declared: Set<Seq<char>>,
    imports: Set<Seq<char>>,
    x: Seq<(Seq<char>, Seq<Seq<char>>)>,
) -> Set<Seq<char>> {
    filter_extras(base_unused(declared, imports), x)
}

/// When every declared name, once normalized, is imported, no package is
/// reported unused, whatever the extras.
pub proof fn lemma_all_imported_none_unused(
    declared: Set<Seq<char>>,
    imports: Set<Seq<char>>,
    x: Seq<(Seq<char>, Seq<Seq<char>>)>,
)
    requires
        forall|d: Seq<char>| declared.contains(d) ==> imports.contains(#[trigger] normalize(d)),
    ensures
        unused_packages(declared, imports, x) == Set::<Seq<char>>::empty(),
{
    let base = base_unused(declared, imports);
    assert(base =~= Set::<Seq<char>>::empty());
    assert forall|s: Seq<char>| !#[trigger] annotations(base, x).contains(s) by {
        if annotations(base, x).contains(s) {
            let (a, b) = choose|a: int, b: int| #[trigger] annotates(base, x, a, b, s);
        }
    }
    assert(unused_packages(declared, imports, x) =~= Set::<Seq<char>>::empty());
}

/// When no declared name, once normalized, is imported and there are no
/// extras, every normalized declared name is reported unused, and nothing else.
pub proof fn lemma_none_imported_all_unused(declared: Set<Seq<char>>, imports: Set<Seq<char>>)
    requires
        forall|d: Seq<char>| declared.contains(d) ==> !imports.contains(#[trigger] normalize(d)),
    ensures
        unused_packages(declared, imports, Seq::empty()) == Set::new(
            |s: Seq<char>| exists|d: Seq<char>| declared.contains(d) && #[trigger] normalize(d) == s,
        ),
{
    let x = Seq::<(Seq<char>, Seq<Seq<char>>)>::empty();
    let base = base_unused(declared, imports);
    assert(bundled_names(x) =~= Set::<Seq<char>>::empty());
    assert(annotations(base, x) =~= Set::<Seq<char>>::empty());
    assert(unused_packages(declared, imports, x) =~= Set::new(
        |s: Seq<char>| exists|d: Seq<char>| declared.contains(d) && #[trigger] normalize(d) == s,
    ));
}

/// A name that the extras add is always an annotation of an extra whose parent
/// and whose normalized name are both in the base unused set; a name of the
/// base set that the extras take away is always the normalized name of an
/// extra, and where that extra's parent is unused too its annotation is there.
pub proof fn lemma_extras_only_annotate_or_drop(
    unused: Set<Seq<char>>,
    x: Seq<(Seq<char>, Seq<Seq<char>>)>,
)
    ensures
        forall|s: Seq<char>|
            #[trigger] filter_extras(unused, x).contains(s) && !unused.contains(s) ==> exists|
                a: int,
                b: int,
            |
                #[trigger] has_pair(x, a, b) && unused.contains(x[a].0) && unused.contains(
                    normalize(x[a].1[b]),
                ) && s == annotate(x[a].1[b], x[a].0),
        forall|s: Seq<char>|
            unused.contains(s) && !#[trigger] filter_extras(unused, x).contains(s) ==> exists|
                a: int,
                b: int,
            |
                #[trigger] has_pair(x, a, b) && normalize(x[a].1[b]) == s && (!unused.contains(
                    x[a].0,
                ) || filter_extras(unused, x).contains(annotate(x[a].1[b], x[a].0))),
{
    assert forall|s: Seq<char>|
        #[trigger] filter_extras(unused, x).contains(s) && !unused.contains(s) implies exists|
            a: int,
            b: int,
        |
            #[trigger] has_pair(x, a, b) && unused.contains(x[a].0) && unused.contains(
                normalize(x[a].1[b]),
            ) && s == annotate(x[a].1[b], x[a].0) by {
        let (a, b) = choose|a: int, b: int| #[trigger] annotates(unused, x, a, b, s);
        assert(has_pair(x, a, b));
    }
    assert forall|s: Seq<char>|
        unused.contains(s) && !#[trigger] filter_extras(unused, x).contains(s) implies exists|
            a: int,
            b: int,
        |
            #[trigger] has_pair(x, a, b) && normalize(x[a].1[b]) == s && (!unused.contains(x[a].0)
                || filter_extras(unused, x).contains(annotate(x[a].1[b], x[a].0))) by {
        assert(bundled_names(x).contains(s));
        let (a, b) = choose|a: int, b: int| #[trigger] has_pair(x, a, b) && normalize(x[a].1[b]) == s;
        if unused.contains(x[a].0) {
            assert(annotates(unused, x, a, b, annotate(x[a].1[b], x[a].0)));
            assert(annotations(unused, x).contains(annotate(x[a].1[b], x[a].0)));
        }
    }
}

/// The package manager whose files describe the project.
pub enum PackageManager {
    Poetry,
}

/// What a project declares, what its extras are, and what its sources import.
pub struct PythonProject {
    manifest_packages: Vec<String>,
    extra_packages: Vec<(String, Vec<String>)>,
    import_statements: Vec<String>,
}

impl PythonProject {

    /// Builds a project of the given package manager from its manifest, its
    /// lock records (absent where it has no lock file) and its source tree;
    /// fails exactly where a scanned source file does not parse.
    pub fn new(
        pkg_manager: PackageManager,
        manifest: &PoetryManifest,
        lock_packages: &Option<Vec<LockPackage>>,
        sources: &Vec<SourceFile>,
        dev: bool,
    ) -> (r: Result<Self, ScanError>)
        ensures
            r is Ok <==> scan_result(sources@) is Some,
            r matches Ok(p) ==> p.describes(*manifest, *lock_packages, sources@, dev),
            r matches Err(ScanError::Parse { path, error }) ==> exists|i: int|
                0 <= i < sources@.len() && crate::python_ast::is_scanned(#[trigger] sources@[i])
                    && crate::python_ast::parsed_module(sources@[i].source@) is None
                    && sources@[i].path@ == path@,
    {
        match pkg_manager {
            PackageManager::Poetry => Self::new_poetry(manifest, lock_packages, sources, dev),
        }
    }

    /// The project holds what the manifest declares (development dependencies
    /// too where `dev` asks for them), the extras that the lock records bundle
    /// for those (none without a lock file), and what the sources import.
    pub open spec fn describes(
        &self,
        manifest: PoetryManifest,
        lock_packages: Option<Vec<LockPackage>>,
        sources: Seq<SourceFile>,
        dev: bool,
    ) -> bool {
        &&& self.declared() == declared_packages(manifest, dev)
        &&& scan_result(sources) == Some(self.imports())
        &&& match lock_packages {
            None => self.extras().len() == 0,
            Some(records) => is_extras_mapping(self.extras(), records@, self.declared()),
        }
    }

    /// Builds a Poetry project; see `new`.
    fn new_poetry(
        manifest: &PoetryManifest,
        lock_packages: &Option<Vec<LockPackage>>,
        sources: &Vec<SourceFile>,
        dev: bool,
    ) -> (r: Result<Self, ScanError>)
        ensures
            r is Ok <==> scan_result(sources@) is Some,
            r matches Ok(p) ==> p.describes(*manifest, *lock_packages, sources@, dev),
            r matches Err(ScanError::Parse { path, error }) ==> exists|i: int|
                0 <= i < sources@.len() && crate::python_ast::is_scanned(#[trigger] sources@[i])
                    && crate::python_ast::parsed_module(sources@[i].source@) is None
                    && sources@[i].path@ == path@,
    {
        let manifest_packages = get_dependencies_from_pyproject(manifest, dev);
        let extra_packages = match lock_packages {
            Some(records) => check_lock_file_for_package_extras(records, &manifest_packages),
            None => Vec::new(),
        };
        let import_statements = get_imports_from_src(sources)?;
        Ok(Self { manifest_packages, extra_packages, import_statements })
    }
    /// The declared package names, as written in the manifest.
    pub closed spec fn declared(&self) -> Set<Seq<char>> {
        name_set(self.manifest_packages@)
    }

    /// The top-level modules that the sources import.
    pub closed spec fn imports(&self) -> Set<Seq<char>> {
        name_set(self.import_statements@)
    }

    /// The extras that each parent package bundles.
    pub closed spec fn extras(&self) -> Seq<(Seq<char>, Seq<Seq<char>>)> {
        extras_view(self.extra_packages@)
    }

    /// The extras that each parent package bundles.
    pub fn extra_packages(&self) -> (r: &Vec<(String, Vec<String>)>)
        ensures
            extras_view(r@) == self.extras(),
    {
        &self.extra_packages
    }

    /// Whether some extra of the project normalizes to `name`.
    fn bundles(&self, name: &str) -> (r: bool)
        ensures
            r == bundled_names(self.extras()).contains(name@),
    {
        let ghost x = self.extras();
        let mut a: usize = 0;
        while a < self.extra_packages.len()
            invariant
                x == self.extras(),
                a <= x.len(),
                forall|i: int, j: int|
                    #![trigger has_pair(x, i, j)]
                    has_pair(x, i, j) && i < a ==> normalize(x[i].1[j]) != name@,
            decreases x.len() - a,
        {
            let extras = &self.extra_packages[a].1;
            let mut b: usize = 0;
            while b < extras.len()
                invariant
                    x == self.extras(),
                    a < x.len(),
                    extras@ == self.extra_packages@[a as int].1@,
                    x[a as int].1 == names_of(extras@),
                    b <= extras@.len(),
                    forall|i: int, j: int|
                        #![trigger has_pair(x, i, j)]
                        has_pair(x, i, j) && (i < a || (i == a && j < b)) ==> normalize(x[i].1[j])
                            != name@,
                decreases extras@.len() - b,
            {
                let n = reformat_package_name(extras[b].as_str());
                if crate::text::str_eq(n.as_str(), name) {
                    assert(has_pair(x, a as int, b as int));
                    return true;
                }
                b = b + 1;
            }
            a = a + 1;
        }
        false
    }

    /// Returns the set of unused packages: the normalized declared names
    /// that no source imports, with extras accounted for.
    pub fn get_unused_packages(&self) -> (r: Vec<String>)
        ensures
            name_set(r@) == unused_packages(self.declared(), self.imports(), self.extras()),
            distinct_names(r@),
    {
        let unused_packages = self.find_unused_manifest_packages();
        self.filter_package_extras(unused_packages)
    }

    /// Returns the normalized declared names that no source imports.
    pub fn find_unused_manifest_packages(&self) -> (r: Vec<String>)
        ensures
            name_set(r@) == base_unused(self.declared(), self.imports()),
            distinct_names(r@),
    {
        let ghost m = names_of(self.manifest_packages@);
        let ghost imports = self.imports();
        let mut result: Vec<String> = Vec::new();
        let mut k: usize = 0;
        while k < self.manifest_packages.len()
            invariant
                m == names_of(self.manifest_packages@),
                imports == self.imports(),
                k <= m.len(),
                distinct_names(result@),
                forall|s: Seq<char>|
                    #[trigger] names_of(result@).contains(s) <==> (!imports.contains(s) && exists|
                        i: int,
                    | 0 <= i < k && #[trigger] normalize(m[i]) == s),
            decreases m.len() - k,
        {
            let n = reformat_package_name(self.manifest_packages[k].as_str());
            assert(n@ == normalize(m[k as int]));
            let ghost old_result = result@;
            if !contains_name(&self.import_statements, n.as_str()) && !contains_name(
                &result,
                n.as_str(),
            ) {
                proof {
                    lemma_push_name(old_result, n);
                }
                result.push(n);
            }
            assert forall|s: Seq<char>|
                #[trigger] names_of(result@).contains(s) <==> (!imports.contains(s) && exists|
                    i: int,
                | 0 <= i < k + 1 && #[trigger] normalize(m[i]) == s) by {
                if !imports.contains(s) && exists|i: int| 0 <= i < k + 1 && #[trigger] normalize(m[i]) == s {
                    let i = choose|i: int| 0 <= i < k + 1 && #[trigger] normalize(m[i]) == s;
                    if i < k {
                    }
                }
                if names_of(result@).contains(s) && !names_of(old_result).contains(s) {
                    assert(normalize(m[k as int]) == s);
                }
            }
            k = k + 1;
        }
        let ghost declared = self.declared();
        assert forall|s: Seq<char>|
            name_set(result@).contains(s) <==> #[trigger] base_unused(declared, imports).contains(s) by {
            if base_unused(declared, imports).contains(s) {
                let d = choose|d: Seq<char>| declared.contains(d) && #[trigger] normalize(d) == s;
                let i = choose|i: int| 0 <= i < m.len() && m[i] == d;
                assert(normalize(m[i]) == s);
            }
            if name_set(result@).contains(s) {
                let i = choose|i: int| 0 <= i < m.len() && #[trigger] normalize(m[i]) == s;
                assert(declared.contains(m[i]));
            }
        }
        assert(name_set(result@) =~= base_unused(declared, imports));
        result
    }

    /// Returns `unused_packages` with extras accounted for: an extra leaves the
    /// set, and where its parent is unused too it comes back as
    /// `"<extra> - an extra of <parent>"`.
    pub fn filter_package_extras(&self, unused_packages: Vec<String>) -> (r: Vec<String>)
        ensures
            name_set(r@) == filter_extras(name_set(unused_packages@), self.extras()),
            distinct_names(r@),
    {
        let ghost unused = name_set(unused_packages@);
        let ghost x = self.extras();
        let ghost u = names_of(unused_packages@);
        let mut result: Vec<String> = Vec::new();
        let mut k: usize = 0;
        while k < unused_packages.len()
            invariant
                unused == name_set(unused_packages@),
                u == names_of(unused_packages@),
                x == self.extras(),
                k <= u.len(),
                distinct_names(result@),
                forall|s: Seq<char>|
                    #[trigger] names_of(result@).contains(s) <==> (!bundled_names(x).contains(s)
                        && exists|i: int| 0 <= i < k && u[i] == s),
            decreases u.len() - k,
        {
            let name = unused_packages[k].as_str();
            let ghost old_result = result@;
            if !self.bundles(name) && !contains_name(&result, name) {
                proof {
                    lemma_push_name(old_result, unused_packages@[k as int]);
                }
                result.push(unused_packages[k].clone());
            }
            assert forall|s: Seq<char>|
                #[trigger] names_of(result@).contains(s) <==> (!bundled_names(x).contains(s)
                    && exists|i: int| 0 <= i < k + 1 && u[i] == s) by {
                if !bundled_names(x).contains(s) && exists|i: int| 0 <= i < k + 1 && u[i] == s {
                    let i = choose|i: int| 0 <= i < k + 1 && u[i] == s;
                    if i < k {
                    } else {
                        assert(u[i] == unused_packages@[k as int]@);
                    }
                }
                if names_of(result@).contains(s) && !names_of(old_result).contains(s) {
                    assert(u[k as int] == s);
                }
            }
            k = k + 1;
        }
        let ghost kept = result@;
        assert forall|s: Seq<char>|
            #[trigger] names_of(kept).contains(s) <==> unused.difference(bundled_names(x)).contains(
                s,
            ) by {
            if unused.contains(s) {
                let i = choose|i: int| 0 <= i < u.len() && u[i] == s;
            }
        }
        let mut a: usize = 0;
        while a < self.extra_packages.len()
            invariant
                unused == name_set(unused_packages@),
                u == names_of(unused_packages@),
                x == self.extras(),
                a <= x.len(),
                distinct_names(result@),
                forall|s: Seq<char>|
                    #[trigger] names_of(result@).contains(s) <==> (names_of(kept).contains(s)
                        || exists|i: int, j: int| i < a && #[trigger] annotates(unused, x, i, j, s)),
            decreases x.len() - a,
        {
            let parent = &self.extra_packages[a].0;
            let extras = &self.extra_packages[a].1;
            let parent_unused = contains_name(&unused_packages, parent.as_str());
            let mut b: usize = 0;
            while b < extras.len()
                invariant
                    unused == name_set(unused_packages@),
                    u == names_of(unused_packages@),
                    x == self.extras(),
                    a < x.len(),
                    parent@ == x[a as int].0,
                    extras@ == self.extra_packages@[a as int].1@,
                    x[a as int].1 == names_of(extras@),
                    parent_unused == unused.contains(parent@),
                    b <= extras@.len(),
                    distinct_names(result@),
                    forall|s: Seq<char>|
                        #[trigger] names_of(result@).contains(s) <==> (names_of(kept).contains(s)
                            || exists|i: int, j: int|
                            (i < a || (i == a && j < b)) && #[trigger] annotates(unused, x, i, j, s)),
                decreases extras@.len() - b,
            {
                let ghost old_result = result@;
                let extra = extras[b].as_str();
                let n = reformat_package_name(extra);
                let mut added = false;
                if parent_unused && contains_name(&unused_packages, n.as_str()) {
                    let mut annotated = String::from_str(extra);
                    annotated.append(" - an extra of ");
                    annotated.append(parent.as_str());
                    assert(annotates(unused, x, a as int, b as int, annotated@));
                    if !contains_name(&result, annotated.as_str()) {
                        proof {
                            lemma_push_name(old_result, annotated);
                        }
                        result.push(annotated);
                    }
                    added = true;
                }
                assert forall|s: Seq<char>|
                    #[trigger] names_of(result@).contains(s) <==> (names_of(kept).contains(s)
                        || exists|i: int, j: int|
                        (i < a || (i == a && j < b + 1)) && #[trigger] annotates(unused, x, i, j, s)) by {
                    if exists|i: int, j: int|
                        (i < a || (i == a && j < b + 1)) && #[trigger] annotates(unused, x, i, j, s) {
                        let (i, j) = choose|i: int, j: int|
                            (i < a || (i == a && j < b + 1)) && #[trigger] annotates(unused, x, i, j, s);
                        if i == a && j == b {
                            assert(added);
                        } else {
                            assert(names_of(old_result).contains(s));
                        }
                    }
                    if names_of(result@).contains(s) && !names_of(old_result).contains(s) {
                        assert(annotates(unused, x, a as int, b as int, s));
                    }
                }
                b = b + 1;
            }
            assert forall|s: Seq<char>|
                #[trigger] names_of(result@).contains(s) <==> (names_of(kept).contains(s)
                    || exists|i: int, j: int| i < a + 1 && #[trigger] annotates(unused, x, i, j, s)) by {
                if exists|i: int, j: int| i < a + 1 && #[trigger] annotates(unused, x, i, j, s) {
                    let (i, j) = choose|i: int, j: int| i < a + 1 && #[trigger] annotates(unused, x, i, j, s);
                    assert(i < a || (i == a && j < x[a as int].1.len()));
                }
            }
            a = a + 1;
        }
        assert forall|s: Seq<char>|
            name_set(result@).contains(s) <==> #[trigger] filter_extras(unused, x).contains(s) by {
            if annotations(unused, x).contains(s) {
                let (i, j) = choose|i: int, j: int| #[trigger] annotates(unused, x, i, j, s);
                assert(i < a);
            }
            if exists|i: int, j: int| i < a && #[trigger] annotates(unused, x, i, j, s) {
                let (i, j) = choose|i: int, j: int| i < a && #[trigger] annotates(unused, x, i, j, s);
                assert(annotations(unused, x).contains(s));
            }
        }
        assert(name_set(result@) =~= filter_extras(unused, x));
        result
    }
}

} // verus!
