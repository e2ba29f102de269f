//! Collects the third-party modules that a Python source tree imports.
use vstd::prelude::*;

use rustpython_parser::{ast, Parse, ParseError, ParseErrorType};
use rustpython_parser_core::BaseError;

use crate::python_std_lib::{is_std_lib_module, is_std_lib_name};
use crate::text::{
    before_first, contains_name, distinct_names, lemma_push_name, merge_names, name_set, names_of,
    prefix_before, str_eq,
};

verus! {

/// rustpython_parser's error, carried unopened to the caller of a scan.
#[verifier::external_type_specification]
#[verifier::external_body]
#[verifier::reject_recursive_types(T)]
pub struct ExBaseError<T>(BaseError<T>);

/// The kind of a rustpython_parser error, carried inside it.
#[verifier::external_type_specification]
#[verifier::external_body]
pub struct ExParseErrorType(ParseErrorType);

/// A top-level statement of a Python module, kept as far as imports go.
pub enum Statement {
    /// `import a.b, c`: the dotted module names.
    Import(Vec<String>),
    /// `from a.b import c`: the module imported from, absent for `from . import c`.
    ImportFrom(Option<String>),
    /// Any other statement.
    Other,
}

/// A statement as character sequences.
pub enum StatementModel {
    Import(Seq<Seq<char>>),
    ImportFrom(Option<Seq<char>>),
    Other,
}

impl View for Statement {
    type V = StatementModel;

    open spec fn view(&self) -> StatementModel {
        match self {
            Statement::Import(names) => StatementModel::Import(names_of(names@)),
            Statement::ImportFrom(Some(m)) => StatementModel::ImportFrom(Some(m@)),
            Statement::ImportFrom(None) => StatementModel::ImportFrom(None),
            Statement::Other => StatementModel::Other,
        }
    }
}

/// The top-level statements of `source` parsed as a Python module, or `None`
/// where it does not parse.
pub uninterp spec fn parsed_module(source: Seq<char>) -> Option<Seq<StatementModel>>;

/// Relies on rustpython_parser's `Suite::parse`: it fails exactly on sources
/// that are no Python module, whatever path is given for its messages, and
/// otherwise yields the module's top-level statements in order. Of an
/// `import` the dotted names are kept, of a `from` import its module.
#[verifier::external_body]
fn parse_statements(source: &str, source_path: &str) -> (r: Result<Vec<Statement>, ParseError>)
    ensures
        match r {
            Ok(stmts) => parsed_module(source@) == Some(stmts@.map_values(|s: Statement| s@)),
            Err(_) => parsed_module(source@) is None,
        },
{
    let suite = ast::Suite::parse(source, source_path)?;
    Ok(suite.into_iter().map(|stmt| match stmt {
        ast::Stmt::Import(i) => Statement::Import(i.names.into_iter().map(|a| a.name.into()).collect()),
        ast::Stmt::ImportFrom(f) => Statement::ImportFrom(f.module.map(|m| m.into())),
        _ => Statement::Other,
    }).collect())
}

/// The module paths that a statement imports.
pub open spec fn statement_modules(st: StatementModel) -> Seq<Seq<char>> {
    match st {
        StatementModel::Import(names) => names,
        StatementModel::ImportFrom(Some(m)) => seq![m],
        _ => Seq::empty(),
    }
}

/// The module `path` yields `s`: `s` is its top-level name and lies outside
/// the standard library.
pub open spec fn yields_import(path: Seq<char>, s: Seq<char>) -> bool {
    s == before_first(path, '.') && !is_std_lib_name(s)
}

/// The third-party top-level modules that the statements import.
pub open spec fn module_imports(stmts: Seq<StatementModel>) -> Set<Seq<char>> {
    Set::new(
        |s: Seq<char>|
            exists|i: int, j: int|
                0 <= i < stmts.len() && 0 <= j < statement_modules(stmts[i]).len()
                    && #[trigger] yields_import(statement_modules(stmts[i])[j], s),
    )
}

/// Why a scan stopped.
#[derive(Debug)]
pub enum ScanError {
    /// The source file at `path` is no Python module.
    Parse { path: String, error: ParseError },
}

/// Adds the top-level name of `module` unless it is in the standard library
/// or already there.
fn add_import(imports: &mut Vec<String>, module: &str)
    requires
        distinct_names(old(imports)@),
    ensures
        distinct_names(final(imports)@),
        forall|s: Seq<char>|
            #[trigger] name_set(final(imports)@).contains(s) <==> name_set(old(imports)@).contains(s)
                || yields_import(module@, s),
{
    let top = prefix_before(module, '.');
    if !is_std_lib_module(top) && !contains_name(imports, top) {
        let name = String::from_str(top);
        proof {
            lemma_push_name(old(imports)@, name);
        }
        imports.push(name);
    }
}

/// Returns the third-party top-level modules that the statements import:
/// of every `import` name and every `from` module, the part before its first
/// `.`, where that is no standard-library module.
pub fn imports_of_statements(stmts: &Vec<Statement>) -> (r: Vec<String>)
    ensures
        name_set(r@) == module_imports(stmts@.map_values(|s: Statement| s@)),
        distinct_names(r@),
{
    let ghost model = stmts@.map_values(|s: Statement| s@);
    let mut imports: Vec<String> = Vec::new();
    let mut i: usize = 0;
    while i < stmts.len()
        invariant
            model == stmts@.map_values(|s: Statement| s@),
            i <= stmts@.len(),
            distinct_names(imports@),
            forall|s: Seq<char>|
                #[trigger] name_set(imports@).contains(s) <==> exists|k: int, j: int|
                    0 <= k < i && 0 <= j < statement_modules(model[k]).len()
                        && #[trigger] yields_import(statement_modules(model[k])[j], s),
        decreases stmts@.len() - i,
    {
        let ghost before = imports@;
        let ghost mods = statement_modules(model[i as int]);
        match &stmts[i] {
            Statement::Import(names) => {
                assert(mods == names_of(names@));
                let mut j: usize = 0;
                while j < names.len()
                    invariant
                        model == stmts@.map_values(|s: Statement| s@),
                        i < stmts@.len(),
                        mods == statement_modules(model[i as int]),
                        mods == names_of(names@),
                        j <= names@.len(),
                        distinct_names(imports@),
                        forall|s: Seq<char>|
                            #[trigger] name_set(imports@).contains(s) <==> (name_set(before).contains(s)
                                || exists|m: int| 0 <= m < j && #[trigger] yields_import(mods[m], s)),
                    decreases names@.len() - j,
                {
                    add_import(&mut imports, names[j].as_str());
                    assert(mods[j as int] == names@[j as int]@);
                    j = j + 1;
                }
            },
            Statement::ImportFrom(Some(module)) => {
                assert(mods[0] == module@);
                add_import(&mut imports, module.as_str());
            },
            _ => {
            },
        }
        assert forall|s: Seq<char>|
            #[trigger] name_set(imports@).contains(s) <==> exists|k: int, j: int|
                0 <= k < i + 1 && 0 <= j < statement_modules(model[k]).len()
                    && #[trigger] yields_import(statement_modules(model[k])[j], s) by {
            if exists|k: int, j: int|
                0 <= k < i + 1 && 0 <= j < statement_modules(model[k]).len()
                    && #[trigger] yields_import(statement_modules(model[k])[j], s) {
                let (k, j) = choose|k: int, j: int|
                    0 <= k < i + 1 && 0 <= j < statement_modules(model[k]).len()
                        && #[trigger] yields_import(statement_modules(model[k])[j], s);
                if k == i {
                    assert(yields_import(mods[j], s));
                }
            }
            if name_set(imports@).contains(s) && !name_set(before).contains(s) {
                let m = choose|m: int| 0 <= m < mods.len() && #[trigger] yields_import(mods[m], s);
                assert(yields_import(statement_modules(model[i as int])[m], s));
            }
        }
        i = i + 1;
    }
    assert(name_set(imports@) =~= module_imports(model));
    imports
}

/// Reads the import statements of one module and returns the third-party
/// top-level modules they name, or the parse failure.
pub fn get_imports_from_python_module(source: &str, source_path: &str) -> (r: Result<
    Vec<String>,
    ScanError,
>)
    ensures
        match r {
            Ok(v) => parsed_module(source@) matches Some(stmts) && name_set(v@) == module_imports(
                stmts,
            ) && distinct_names(v@),
            Err(ScanError::Parse { path, error }) => parsed_module(source@) is None && path@
                == source_path@,
        },
{
    let stmts = match parse_statements(source, source_path) {
        Ok(stmts) => stmts,
        Err(error) => {
            return Err(ScanError::Parse { path: String::from_str(source_path), error });
        },
    };
    Ok(imports_of_statements(&stmts))
}

/// Directories whose contents are never scanned.
pub const EXCLUDED_DIRS: [&'static str; 4] = ["venv", ".pytest_cache", ".ruff_cache", ".venv"];

/// `name` is one of the directories that are never scanned.
pub open spec fn is_excluded_name(name: Seq<char>) -> bool {
    exists|i: int| 0 <= i < EXCLUDED_DIRS@.len() && #[trigger] EXCLUDED_DIRS@[i]@ == name
}

/// Whether a directory of this name is skipped with all it holds.
pub fn is_excluded_dir(name: &str) -> (r: bool)
    ensures
        r == is_excluded_name(name@),
{
    let mut i: usize = 0;
    while i < EXCLUDED_DIRS.len()
        invariant
            i <= EXCLUDED_DIRS@.len(),
            forall|j: int| 0 <= j < i ==> EXCLUDED_DIRS@[j]@ != name@,
        decreases EXCLUDED_DIRS@.len() - i,
    {
        if str_eq(EXCLUDED_DIRS[i], name) {
            return true;
        }
        i = i + 1;
    }
    false
}

/// A file name whose extension is `py`: it ends in `.py` after at least one
/// other character.
pub open spec fn has_python_extension(name: Seq<char>) -> bool {
    name.len() >= 4 && name.subrange(name.len() - 3, name.len() as int) == seq!['.', 'p', 'y']
}

/// Whether a file of this name is a Python source file.
pub fn is_python_file(name: &str) -> (r: bool)
    ensures
        r == has_python_extension(name@),
{
    let n = name.unicode_len();
    if n < 4 {
        return false;
    }
    let r = name.get_char(n - 3) == '.' && name.get_char(n - 2) == 'p' && name.get_char(n - 1)
        == 'y';
    let ghost tail = name@.subrange(n - 3, n as int);
    assert(tail[0] == name@[n - 3] && tail[1] == name@[n - 2] && tail[2] == name@[n - 1]);
    if r {
        assert(tail =~= seq!['.', 'p', 'y']);
    }
    r
}

/// A file of a source tree: the directories that lead to it from the root,
/// its own name, the path it is reported by, and what it holds.
pub struct SourceFile {
    pub path: String,
    pub dirs: Vec<String>,
    pub name: String,
    pub source: String,
}

/// The file lies in no excluded directory and is a Python source file.
pub open spec fn is_scanned(f: SourceFile) -> bool {
    &&& forall|i: int| 0 <= i < f.dirs@.len() ==> !is_excluded_name(#[trigger] f.dirs@[i]@)
    &&& has_python_extension(f.name@)
}

/// The imports of a tree: the union over its scanned files, or `None` where
/// one of them does not parse.
pub open spec fn scan_result(files: Seq<SourceFile>) -> Option<Set<Seq<char>>>
    decreases files.len(),
{
    if files.len() == 0 {
        Some(Set::empty())
    } else {
        match scan_result(files.drop_last()) {
            None => None,
            Some(acc) => {
                let f = files.last();
                if !is_scanned(f) {
                    Some(acc)
                } else {
                    match parsed_module(f.source@) {
                        None => None,
                        Some(stmts) => Some(acc.union(module_imports(stmts))),
                    }
                }
            },
        }
    }
}

/// Whether a file is scanned.
pub fn is_scanned_file(f: &SourceFile) -> (r: bool)
    ensures
        r == is_scanned(*f),
{
    let mut i: usize = 0;
    while i < f.dirs.len()
        invariant
            i <= f.dirs@.len(),
            forall|j: int| 0 <= j < i ==> !is_excluded_name(#[trigger] f.dirs@[j]@),
        decreases f.dirs@.len() - i,
    {
        if is_excluded_dir(f.dirs[i].as_str()) {
            return false;
        }
        i = i + 1;
    }
    is_python_file(f.name.as_str())
}

/// Returns the third-party top-level modules imported by the Python source
/// files of a tree, skipping excluded directories and other files; the first
/// file that does not parse ends the scan with its failure.
pub fn get_imports_from_src(files: &Vec<SourceFile>) -> (r: Result<Vec<String>, ScanError>)
    ensures
        match r {
            Ok(v) => scan_result(files@) == Some(name_set(v@)) && distinct_names(v@),
            Err(ScanError::Parse { path, error }) => scan_result(files@) is None && exists|i: int|
                0 <= i < files@.len() && is_scanned(#[trigger] files@[i]) && parsed_module(
                    files@[i].source@,
                ) is None && files@[i].path@ == path@,
        },
{
    let mut result: Vec<String> = Vec::new();
    let mut i: usize = 0;
    assert(name_set(result@) =~= Set::<Seq<char>>::empty());
    while i < files.len()
        invariant
            i <= files@.len(),
            distinct_names(result@),
            scan_result(files@.subrange(0, i as int)) == Some(name_set(result@)),
        decreases files@.len() - i,
    {
        let ghost prefix = files@.subrange(0, i + 1);
        assert(prefix.drop_last() == files@.subrange(0, i as int));
        assert(prefix.last() == files@[i as int]);
        let f = &files[i];
        if is_scanned_file(f) {
            match get_imports_from_python_module(f.source.as_str(), f.path.as_str()) {
                Ok(found) => {
                    merge_names(&mut result, &found);
                },
                Err(e) => {
                    proof {
                        lemma_scan_failure_stays(files@, i + 1);
                    }
                    return Err(e);
                },
            }
        }
        i = i + 1;
    }
    assert(files@.subrange(0, files@.len() as int) == files@);
    Ok(result)
}

/// Once a prefix of the files fails, the whole tree fails.
proof fn lemma_scan_failure_stays(files: Seq<SourceFile>, k: int)
    requires
        0 <= k <= files.len(),
        scan_result(files.subrange(0, k)) is None,
    ensures
        scan_result(files) is None,
    decreases files.len() - k,
{
    if k < files.len() {
        let prefix = files.subrange(0, k + 1);
        assert(prefix.drop_last() == files.subrange(0, k));
        lemma_scan_failure_stays(files, k + 1);
    } else {
        assert(files.subrange(0, k) == files);
    }
}

} // verus!
