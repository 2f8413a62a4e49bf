//! Names across modules: what an import, a base class or a decorator of one
//! module stands for in another. What is not known of the project is asked for.

use vstd::prelude::*;

use crate::facts::PathMap;
use crate::model::{Module, ModuleRef, ModuleRefView, ModuleView};
use crate::path::FilePath;
use crate::scan::under;
use crate::table::Table;
use crate::text::{self, Separator};

verus! {

broadcast use crate::text::group_deep;

// ---------------------------------------------------------------------------
// What is known of a project
// ---------------------------------------------------------------------------

/// A module of the project, if there is one at its path.
#[derive(Debug)]
pub enum Loaded {
    Nothing,
    Parsed(Module),
}

impl View for Loaded {
    type V = Option<ModuleView>;

    open spec fn view(&self) -> Option<ModuleView> {
        match self {
            Loaded::Nothing => None,
            Loaded::Parsed(m) => Some(m@),
        }
    }
}

/// What is known of a project and the environment that its tests run in.
#[derive(Debug)]
pub struct Knowledge {
    pub rootdir: FilePath,
    /// The import path of the interpreter, where there is one to ask.
    pub sys_paths: Vec<FilePath>,
    /// There is an interpreter that can be asked what it can import.
    pub probing: bool,
    /// Parsed modules by path.
    pub modules: PathMap<Loaded>,
    /// Whether a file stands at a path.
    pub files: PathMap<bool>,
    /// Files that were there at the last run and are gone.
    pub gone: PathMap<bool>,
    /// Whether the interpreter can import a module.
    pub probes: Table<bool>,
    /// Nothing exists, and everything can be imported, of which nothing is
    /// known.
    pub complete: bool,
}

/// What is known of a project.
pub struct KnowledgeView {
    pub rootdir: Seq<Seq<char>>,
    pub sys_paths: Seq<Seq<Seq<char>>>,
    pub probing: bool,
    pub modules: Seq<(Seq<Seq<char>>, Option<ModuleView>)>,
    pub files: Seq<(Seq<Seq<char>>, bool)>,
    pub gone: Seq<(Seq<Seq<char>>, bool)>,
    pub probes: Seq<(Seq<char>, bool)>,
    pub complete: bool,
}

impl View for Knowledge {
    type V = KnowledgeView;

    open spec fn view(&self) -> KnowledgeView {
        KnowledgeView {
            rootdir: self.rootdir@,
            sys_paths: text::deep(self.sys_paths@),
            probing: self.probing,
            modules: self.modules@,
            files: self.files@,
            gone: self.gone@,
            probes: self.probes@,
            complete: self.complete,
        }
    }
}

/// Something that has to be known to go on.
#[derive(Debug)]
pub enum Query {
    /// The module at a path.
    Module(FilePath),
    /// Whether a file stands at a path.
    IsFile(FilePath),
    /// Whether the interpreter can import a module.
    Probe(String),
}

/// Something that has to be known to go on.
pub enum QueryView {
    Module(Seq<Seq<char>>),
    IsFile(Seq<Seq<char>>),
    Probe(Seq<char>),
}

impl View for Query {
    type V = QueryView;

    open spec fn view(&self) -> QueryView {
        match self {
            Query::Module(p) => QueryView::Module(p@),
            Query::IsFile(p) => QueryView::IsFile(p@),
            Query::Probe(n) => QueryView::Probe(n@),
        }
    }
}

/// The view of an answer.
pub open spec fn told<T: View>(r: Result<T, Query>) -> Result<T::V, QueryView> {
    match r {
        Ok(v) => Ok(v@),
        Err(q) => Err(q@),
    }
}

/// The view of an answer that may be that there is none.
pub open spec fn told_opt<T: View>(r: Result<Option<T>, Query>) -> Result<
    Option<T::V>,
    QueryView,
> {
    match r {
        Ok(v) => Ok(text::opt(v)),
        Err(q) => Err(q@),
    }
}

/// The view of an answer that is a list.
pub open spec fn told_all<T: View>(r: Result<Vec<T>, Query>) -> Result<Seq<T::V>, QueryView> {
    match r {
        Ok(v) => Ok(text::deep(v@)),
        Err(q) => Err(q@),
    }
}

/// The module at a path.
pub open spec fn module_at(
    k: KnowledgeView,
    path: Seq<Seq<char>>,
) -> Result<Option<ModuleView>, QueryView> {
    match crate::facts::fact(k.modules, path) {
        Some(m) => Ok(m),
        None => if k.complete {
            Ok(None)
        } else {
            Err(QueryView::Module(path))
        },
    }
}

/// Does a file stand at a path?
pub open spec fn file_at(k: KnowledgeView, path: Seq<Seq<char>>) -> Result<bool, QueryView> {
    match crate::facts::fact(k.files, path) {
        Some(b) => Ok(b),
        None => if k.complete {
            Ok(false)
        } else {
            Err(QueryView::IsFile(path))
        },
    }
}

/// Does a file stand at a path, whether or not it can be parsed? A module that
/// was loaded has one.
pub open spec fn stands_at(k: KnowledgeView, path: Seq<Seq<char>>) -> Result<bool, QueryView> {
    match crate::facts::fact(k.modules, path) {
        Some(Some(_)) => Ok(true),
        _ => file_at(k, path),
    }
}

/// Was there a file at a path at the last run that is gone?
pub open spec fn gone_from(k: KnowledgeView, path: Seq<Seq<char>>) -> bool {
    crate::facts::fact(k.gone, path) == Some(true)
}

/// Can the interpreter import a module? Without an interpreter it is taken to.
pub open spec fn importable(k: KnowledgeView, name: Seq<char>) -> Result<bool, QueryView> {
    if !k.probing {
        Ok(true)
    } else {
        match crate::table::find(k.probes, name) {
            Some(b) => Ok(b),
            None => if k.complete {
                Ok(true)
            } else {
                Err(QueryView::Probe(name))
            },
        }
    }
}

impl Knowledge {
    /// Nothing is known yet of the project in `rootdir`.
    pub fn new(rootdir: &FilePath, sys_paths: Vec<FilePath>, probing: bool) -> (r: Knowledge)
        ensures
            r@ == (KnowledgeView {
                rootdir: rootdir@,
                sys_paths: text::deep(sys_paths@),
                probing,
                modules: Seq::empty(),
                files: Seq::empty(),
                gone: Seq::empty(),
                probes: Seq::empty(),
                complete: false,
            }),
    {
        Knowledge {
            rootdir: rootdir.copy(),
            sys_paths,
            probing,
            modules: PathMap::new(),
            files: PathMap::new(),
            gone: PathMap::new(),
            probes: Table::new(),
            complete: false,
        }
    }

    /// The module at a path.
    pub fn module(&self, path: &FilePath) -> (r: Result<Option<&Module>, Query>)
        ensures
            told_opt(r) == module_at(self@, path@),
    {
        match self.modules.get(path) {
            Some(Loaded::Parsed(m)) => Ok(Some(m)),
            Some(Loaded::Nothing) => Ok(None),
            None => if self.complete {
                Ok(None)
            } else {
                Err(Query::Module(path.copy()))
            },
        }
    }

    /// Does a file stand at a path?
    pub fn is_file(&self, path: &FilePath) -> (r: Result<bool, Query>)
        ensures
            told(r) == file_at(self@, path@),
    {
        match self.files.get(path) {
            Some(b) => Ok(*b),
            None => if self.complete {
                Ok(false)
            } else {
                Err(Query::IsFile(path.copy()))
            },
        }
    }

    /// Does a file stand at a path, whether or not it can be parsed?
    pub fn has_file(&self, path: &FilePath) -> (r: Result<bool, Query>)
        ensures
            told(r) == stands_at(self@, path@),
    {
        match self.modules.get(path) {
            Some(Loaded::Parsed(_)) => Ok(true),
            _ => self.is_file(path),
        }
    }

    /// Was there a file at a path at the last run that is gone?
    pub fn lost_file(&self, path: &FilePath) -> (r: bool)
        ensures
            r == gone_from(self@, path@),
    {
        match self.gone.get(path) {
            Some(b) => *b,
            None => false,
        }
    }

    /// Is `name` importable in the probe interpreter?
    pub fn probe_ok(&self, name: &str) -> (r: Result<bool, Query>)
        ensures
            told(r) == importable(self@, name@),
    {
        if !self.probing {
            return Ok(true);
        }
        match self.probes.get(name) {
            Some(b) => Ok(*b),
            None => if self.complete {
                Ok(true)
            } else {
                Err(Query::Probe(name.to_owned()))
            },
        }
    }
}

// ---------------------------------------------------------------------------
// Files
// ---------------------------------------------------------------------------

/// The `conftest.py` modules of `dir` and the directories above it, nearest
/// first, up to and including the rootdir, behind those in `out`.
pub open spec fn conftests(
    k: KnowledgeView,
    dir: Seq<Seq<char>>,
    out: Seq<ModuleView>,
) -> Result<Seq<ModuleView>, QueryView>
    decreases dir.len(),
{
    match module_at(k, crate::path::child(dir, "conftest.py"@)) {
        Err(q) => Err(q),
        Ok(found) => {
            let next = match found {
                Some(m) => out.push(m),
                None => out,
            };
            if dir == k.rootdir {
                Ok(next)
            } else {
                match crate::path::parent_of(dir) {
                    Some(up) => conftests(k, up, next),
                    None => Ok(next),
                }
            }
        },
    }
}

/// The directory above the topmost package that holds `dir`: an entry of the
/// import path from Python's perspective. `top` is the topmost package below
/// `dir`.
pub open spec fn package_root(
    k: KnowledgeView,
    dir: Seq<Seq<char>>,
    top: Option<Seq<Seq<char>>>,
) -> Result<Option<Seq<Seq<char>>>, QueryView>
    decreases dir.len(),
{
    match file_at(k, crate::path::child(dir, "__init__.py"@)) {
        Err(q) => Err(q),
        Ok(true) => match crate::path::parent_of(dir) {
            Some(up) => package_root(k, up, Some(dir)),
            None => Ok(None),
        },
        Ok(false) => Ok(
            match top {
                Some(t) => crate::path::parent_of(t),
                None => None,
            },
        ),
    }
}

/// The files that a module path may be: the module itself, or a package.
pub open spec fn module_files(base: Seq<Seq<char>>) -> Seq<Seq<Seq<char>>> {
    seq![crate::path::as_python(base), crate::path::child(base, "__init__.py"@)]
}

/// The files that a relative path may be under the roots from position `i` on,
/// behind those in `out`.
pub open spec fn files_under(
    roots: Seq<Seq<Seq<char>>>,
    rel: Seq<Seq<char>>,
    i: int,
    out: Seq<Seq<Seq<char>>>,
) -> Seq<Seq<Seq<char>>>
    decreases roots.len() - i,
{
    if i < 0 || i >= roots.len() {
        out
    } else {
        files_under(
            roots,
            rel,
            i + 1,
            out + module_files(crate::path::joined_path(roots[i], rel)),
        )
    }
}

/// The directories that absolute imports of a module in `dir` start from: the
/// rootdir, its `src`, the directory above the topmost package of the importer,
/// and the interpreter's import path.
pub open spec fn import_roots(
    k: KnowledgeView,
    dir: Seq<Seq<char>>,
) -> Result<Seq<Seq<Seq<char>>>, QueryView> {
    match package_root(k, dir, None) {
        Err(q) => Err(q),
        Ok(found) => {
            let own = seq![k.rootdir, crate::path::child(k.rootdir, "src"@)];
            let with_package = match found {
                Some(p) => own.push(p),
                None => own,
            };
            Ok(with_package + k.sys_paths)
        },
    }
}

/// The files that a module reference may be, in the order in which they are
/// tried.
pub open spec fn candidates(
    k: KnowledgeView,
    mref: ModuleRefView,
    dir: Seq<Seq<char>>,
) -> Result<Seq<Seq<Seq<char>>>, QueryView> {
    match mref {
        ModuleRefView::Relative(base) => Ok(module_files(base)),
        ModuleRefView::Absolute(dotted) => match import_roots(k, dir) {
            Err(q) => Err(q),
            Ok(roots) => Ok(
                files_under(
                    roots,
                    crate::scan::below(
                        Seq::empty(),
                        text::fields(dotted, Separator::Char('.'), true),
                        0,
                    ),
                    0,
                    Seq::empty(),
                ),
            ),
        },
    }
}

/// The first module at the paths from position `i` on.
pub open spec fn first_module(
    k: KnowledgeView,
    paths: Seq<Seq<Seq<char>>>,
    i: int,
) -> Result<Option<ModuleView>, QueryView>
    decreases paths.len() - i,
{
    if i < 0 || i >= paths.len() {
        Ok(None)
    } else {
        match module_at(k, paths[i]) {
            Ok(None) => first_module(k, paths, i + 1),
            other => other,
        }
    }
}

/// The module that a reference in a module of the directory `dir` names.
pub open spec fn referred(
    k: KnowledgeView,
    mref: ModuleRefView,
    dir: Seq<Seq<char>>,
) -> Result<Option<ModuleView>, QueryView> {
    match candidates(k, mref, dir) {
        Err(q) => Err(q),
        Ok(paths) => first_module(k, paths, 0),
    }
}

/// The conftest modules governing `dir`, nearest first: pytest's fixture lookup
/// chain minus plugins.
pub fn conftest_chain<'a>(k: &'a Knowledge, dir: &FilePath) -> (r: Result<Vec<&'a Module>, Query>)
    ensures
        told_all(r) == conftests(k@, dir@, Seq::empty()),
{
    let mut out: Vec<&'a Module> = Vec::new();
    let mut at: FilePath = dir.copy();
    loop
        invariant
            conftests(k@, at@, text::deep(out@)) == conftests(k@, dir@, Seq::empty()),
        decreases at@.len(),
    {
        match k.module(&at.child("conftest.py")) {
            Err(q) => {
                return Err(q);
            },
            Ok(Some(m)) => {
                out.push(m);
            },
            Ok(None) => {},
        }
        if at.equals(&k.rootdir) {
            return Ok(out);
        }
        match at.parent() {
            Some(up) => {
                at = up;
            },
            None => {
                return Ok(out);
            },
        }
    }
}

/// The directory above the topmost package containing `dir`.
pub fn package_root_above(k: &Knowledge, dir: &FilePath) -> (r: Result<Option<FilePath>, Query>)
    ensures
        told_opt(r) == package_root(k@, dir@, None),
{
    let mut top: Option<FilePath> = None;
    let mut at: FilePath = dir.copy();
    loop
        invariant
            package_root(k@, at@, text::opt(top)) == package_root(k@, dir@, None),
        decreases at@.len(),
    {
        match k.is_file(&at.child("__init__.py")) {
            Err(q) => {
                return Err(q);
            },
            Ok(true) => match at.parent() {
                Some(up) => {
                    top = Some(at);
                    at = up;
                },
                None => {
                    return Ok(None);
                },
            },
            Ok(false) => {
                return match top {
                    Some(t) => Ok(t.parent()),
                    None => Ok(None),
                };
            },
        }
    }
}

/// Appends the files that a module path may be.
fn push_files(out: &mut Vec<FilePath>, base: &FilePath)
    ensures
        text::deep(final(out)@) == text::deep(old(out)@) + module_files(base@),
{
    let ghost before = text::deep(out@);
    out.push(base.with_py());
    out.push(base.child("__init__.py"));
    proof {
        assert(text::deep(out@) =~= before + module_files(base@));
    }
}

/// The directories that absolute imports of a module in `dir` start from.
fn roots_of(k: &Knowledge, dir: &FilePath) -> (r: Result<Vec<FilePath>, Query>)
    ensures
        told_all(r) == import_roots(k@, dir@),
{
    let package: Option<FilePath> = match package_root_above(k, dir) {
        Ok(p) => p,
        Err(q) => {
            return Err(q);
        },
    };
    let mut roots: Vec<FilePath> = Vec::new();
    roots.push(k.rootdir.copy());
    roots.push(k.rootdir.child("src"));
    proof {
        assert(text::deep(roots@) =~= seq![
            k@.rootdir,
            crate::path::child(k@.rootdir, "src"@),
        ]);
    }
    match package {
        Some(p) => {
            roots.push(p);
        },
        None => {},
    }
    let ghost own = text::deep(roots@);
    let mut i: usize = 0;
    while i < k.sys_paths.len()
        invariant
            i <= k.sys_paths.len(),
            text::deep(roots@) == own + k@.sys_paths.take(i as int),
        decreases k.sys_paths.len() - i,
    {
        roots.push(k.sys_paths[i].copy());
        i += 1;
        proof {
            assert(k@.sys_paths.take(i as int) =~= k@.sys_paths.take(i - 1).push(
                k@.sys_paths[i - 1],
            ));
            assert(text::deep(roots@) =~= own + k@.sys_paths.take(i as int));
        }
    }
    proof {
        assert(k@.sys_paths.take(i as int) =~= k@.sys_paths);
    }
    Ok(roots)
}

/// The files that a module reference may be, in the order in which they are
/// tried.
pub fn candidate_files(k: &Knowledge, mref: &ModuleRef, dir: &FilePath) -> (r: Result<
    Vec<FilePath>,
    Query,
>)
    ensures
        told_all(r) == candidates(k@, mref@, dir@),
{
    let mut out: Vec<FilePath> = Vec::new();
    match mref {
        ModuleRef::Relative(base) => {
            push_files(&mut out, base);
            proof {
                assert(text::deep(out@) =~= module_files(base@));
            }
            Ok(out)
        },
        ModuleRef::Absolute(dotted) => {
            let roots: Vec<FilePath> = match roots_of(k, dir) {
                Ok(v) => v,
                Err(q) => {
                    return Err(q);
                },
            };
            let ghost rs = text::deep(roots@);
            let rel: FilePath = under(&FilePath::empty(), dotted.as_str());
            let mut i: usize = 0;
            while i < roots.len()
                invariant
                    i <= roots.len(),
                    rs == text::deep(roots@),
                    files_under(rs, rel@, i as int, text::deep(out@)) == files_under(
                        rs,
                        rel@,
                        0,
                        Seq::empty(),
                    ),
                decreases roots.len() - i,
            {
                push_files(&mut out, &roots[i].join(&rel));
                i += 1;
            }
            Ok(out)
        },
    }
}

/// The module that a reference names. `importer_dir` supplies Python's
/// `sys.path` semantics: absolute imports also resolve against the directory
/// above the importer's topmost package.
pub fn resolve_ref<'a>(k: &'a Knowledge, mref: &ModuleRef, importer_dir: &FilePath) -> (r: Result<
    Option<&'a Module>,
    Query,
>)
    ensures
        told_opt(r) == referred(k@, mref@, importer_dir@),
{
    let paths: Vec<FilePath> = match candidate_files(k, mref, importer_dir) {
        Ok(v) => v,
        Err(q) => {
            return Err(q);
        },
    };
    let ghost ps = text::deep(paths@);
    let mut i: usize = 0;
    while i < paths.len()
        invariant
            i <= paths.len(),
            ps == text::deep(paths@),
            candidates(k@, mref@, importer_dir@) == Ok::<_, QueryView>(ps),
            first_module(k@, ps, i as int) == first_module(k@, ps, 0),
        decreases paths.len() - i,
    {
        match k.module(&paths[i]) {
            Err(q) => {
                return Err(q);
            },
            Ok(Some(m)) => {
                return Ok(Some(m));
            },
            Ok(None) => {},
        }
        i += 1;
    }
    Ok(None)
}

// ---------------------------------------------------------------------------
// Laws
// ---------------------------------------------------------------------------

/// Does `more` hold all facts that `k` holds, about the same project?
pub open spec fn extends(k: KnowledgeView, more: KnowledgeView) -> bool {
    &&& !k.complete
    &&& more.rootdir == k.rootdir
    &&& more.sys_paths == k.sys_paths
    &&& more.probing == k.probing
    &&& more.gone == k.gone
    &&& forall|p: Seq<Seq<char>>|
        crate::facts::fact(k.modules, p) is Some ==> #[trigger] crate::facts::fact(more.modules, p)
            == crate::facts::fact(k.modules, p)
    &&& forall|p: Seq<Seq<char>>|
        crate::facts::fact(k.files, p) is Some ==> #[trigger] crate::facts::fact(more.files, p)
            == crate::facts::fact(k.files, p)
    &&& forall|n: Seq<char>|
        crate::table::find(k.probes, n) is Some ==> #[trigger] crate::table::find(more.probes, n)
            == crate::table::find(k.probes, n)
}

/// The module that a reference names does not depend on facts that were not
/// asked for: once it can be told, it stays the same however much is learnt.
pub proof fn law_references_stay(
    k: KnowledgeView,
    more: KnowledgeView,
    mref: ModuleRefView,
    dir: Seq<Seq<char>>,
)
    requires
        extends(k, more),
        referred(k, mref, dir) is Ok,
    ensures
        referred(more, mref, dir) == referred(k, mref, dir),
{
    if let ModuleRefView::Absolute(_) = mref {
        package_root_stays(k, more, dir, None);
    }
    first_module_stays(k, more, candidates(k, mref, dir)->Ok_0, 0);
}

/// Neither do the conftests of a directory.
pub proof fn law_conftests_stay(
    k: KnowledgeView,
    more: KnowledgeView,
    dir: Seq<Seq<char>>,
    out: Seq<ModuleView>,
)
    requires
        extends(k, more),
        conftests(k, dir, out) is Ok,
    ensures
        conftests(more, dir, out) == conftests(k, dir, out),
    decreases dir.len(),
{
    let path = crate::path::child(dir, "conftest.py"@);
    assert(crate::facts::fact(more.modules, path) == crate::facts::fact(k.modules, path));
    let next = match module_at(k, path)->Ok_0 {
        Some(m) => out.push(m),
        None => out,
    };
    if dir != k.rootdir {
        match crate::path::parent_of(dir) {
            Some(up) => law_conftests_stay(k, more, up, next),
            None => {},
        }
    }
}

/// Adding a module that was not known extends what is known.
pub proof fn law_answers_extend(k: KnowledgeView, path: Seq<Seq<char>>, m: Option<ModuleView>)
    requires
        !k.complete,
        crate::facts::ordered(k.modules),
    ensures
        extends(k, KnowledgeView { modules: crate::facts::added(k.modules, path, m), ..k }),
        module_at(KnowledgeView { modules: crate::facts::added(k.modules, path, m), ..k }, path)
            is Ok,
{
    let more = KnowledgeView { modules: crate::facts::added(k.modules, path, m), ..k };
    assert forall|p: Seq<Seq<char>>| crate::facts::fact(k.modules, p) is Some implies
        #[trigger] crate::facts::fact(more.modules, p) == crate::facts::fact(k.modules, p) by {
        crate::facts::law_fact_after_add(k.modules, path, m, p);
    }
    crate::facts::law_fact_after_add(k.modules, path, m, path);
}

proof fn package_root_stays(
    k: KnowledgeView,
    more: KnowledgeView,
    dir: Seq<Seq<char>>,
    top: Option<Seq<Seq<char>>>,
)
    requires
        extends(k, more),
        package_root(k, dir, top) is Ok,
    ensures
        package_root(more, dir, top) == package_root(k, dir, top),
    decreases dir.len(),
{
    let path = crate::path::child(dir, "__init__.py"@);
    assert(crate::facts::fact(more.files, path) == crate::facts::fact(k.files, path));
    if file_at(k, path) == Ok::<bool, QueryView>(true) {
        match crate::path::parent_of(dir) {
            Some(up) => package_root_stays(k, more, up, Some(dir)),
            None => {},
        }
    }
}

proof fn first_module_stays(
    k: KnowledgeView,
    more: KnowledgeView,
    paths: Seq<Seq<Seq<char>>>,
    i: int,
)
    requires
        extends(k, more),
        0 <= i,
        first_module(k, paths, i) is Ok,
    ensures
        first_module(more, paths, i) == first_module(k, paths, i),
    decreases paths.len() - i,
{
    if i < paths.len() {
        assert(crate::facts::fact(more.modules, paths[i]) == crate::facts::fact(
            k.modules,
            paths[i],
        ));
        if module_at(k, paths[i]) == Ok::<Option<ModuleView>, QueryView>(None) {
            first_module_stays(k, more, paths, i + 1);
        }
    }
}

// ---------------------------------------------------------------------------
// Laws of lookup
// ---------------------------------------------------------------------------

/// The conftests of a directory are its own one, if it has one, and behind it
/// those of the directory above. Those of the root directory are its own alone.
pub proof fn law_conftests_come_nearest_first(k: KnowledgeView, dir: Seq<Seq<char>>)
    requires
        conftests(k, dir, Seq::empty()) is Ok,
    ensures
        ({
            let chain = conftests(k, dir, Seq::empty())->Ok_0;
            let own = match module_at(k, crate::path::child(dir, "conftest.py"@))->Ok_0 {
                Some(m) => seq![m],
                None => Seq::<ModuleView>::empty(),
            };
            &&& dir == k.rootdir ==> chain == own
            &&& dir != k.rootdir ==> match crate::path::parent_of(dir) {
                Some(up) => conftests(k, up, Seq::empty()) is Ok && chain == own + conftests(
                    k,
                    up,
                    Seq::empty(),
                )->Ok_0,
                None => chain == own,
            }
        }),
{
    let none = Seq::<ModuleView>::empty();
    if let Some(m) = module_at(k, crate::path::child(dir, "conftest.py"@))->Ok_0 {
        assert(none.push(m) =~= seq![m]);
        if dir != k.rootdir {
            if let Some(up) = crate::path::parent_of(dir) {
                conftests_go_behind(k, up, seq![m]);
            }
        }
    } else if dir != k.rootdir {
        if let Some(up) = crate::path::parent_of(dir) {
            assert(none + conftests(k, up, none)->Ok_0 =~= conftests(k, up, none)->Ok_0);
        }
    }
}

proof fn conftests_go_behind(k: KnowledgeView, dir: Seq<Seq<char>>, out: Seq<ModuleView>)
    ensures
        conftests(k, dir, out) is Ok <==> conftests(k, dir, Seq::empty()) is Ok,
        conftests(k, dir, out) matches Ok(all) ==> all == out + conftests(
            k,
            dir,
            Seq::empty(),
        )->Ok_0,
    decreases dir.len(),
{
    let none = Seq::<ModuleView>::empty();
    assert(out + none =~= out);
    if let Ok(found) = module_at(k, crate::path::child(dir, "conftest.py"@)) {
        let next = match found {
            Some(m) => out.push(m),
            None => out,
        };
        let alone = match found {
            Some(m) => none.push(m),
            None => none,
        };
        assert(next =~= out + alone);
        if dir != k.rootdir {
            if let Some(up) = crate::path::parent_of(dir) {
                conftests_go_behind(k, up, next);
                conftests_go_behind(k, up, alone);
                if let Ok(rest) = conftests(k, up, none) {
                    assert(out + alone + rest =~= out + (alone + rest));
                }
            }
        }
    }
}

/// A reference names the module at the first of the files it may be that holds
/// one, and none where none of them does.
pub proof fn law_first_file_counts(
    k: KnowledgeView,
    mref: ModuleRefView,
    dir: Seq<Seq<char>>,
    at: int,
)
    requires
        candidates(k, mref, dir) is Ok,
        0 <= at <= candidates(k, mref, dir)->Ok_0.len(),
        forall|i: int|
            0 <= i < at ==> module_at(k, #[trigger] candidates(k, mref, dir)->Ok_0[i]) == Ok::<
                Option<ModuleView>,
                QueryView,
            >(None),
    ensures
        ({
            let paths = candidates(k, mref, dir)->Ok_0;
            &&& at == paths.len() ==> referred(k, mref, dir) == Ok::<Option<ModuleView>, QueryView>(
                None,
            )
            &&& at < paths.len() && (module_at(k, paths[at]) matches Ok(Some(_))) ==> referred(
                k,
                mref,
                dir,
            ) == module_at(k, paths[at])
        }),
{
    earlier_files(k, candidates(k, mref, dir)->Ok_0, 0, at);
}

proof fn earlier_files(k: KnowledgeView, paths: Seq<Seq<Seq<char>>>, i: int, at: int)
    requires
        0 <= i <= at <= paths.len(),
        forall|j: int|
            i <= j < at ==> module_at(k, #[trigger] paths[j]) == Ok::<
                Option<ModuleView>,
                QueryView,
            >(None),
    ensures
        first_module(k, paths, i) == first_module(k, paths, at),
    decreases at - i,
{
    if i < at {
        assert(module_at(k, paths[i]) is Ok);
        earlier_files(k, paths, i + 1, at);
    }
}

/// A relative reference is the module file or the package at its path, in this
/// order. An absolute one is looked for under each root, in the order of the
/// roots: as a module file, then as a package.
pub proof fn law_files_of_a_reference(
    k: KnowledgeView,
    base: Seq<Seq<char>>,
    dotted: Seq<char>,
    dir: Seq<Seq<char>>,
    i: int,
)
    ensures
        candidates(k, ModuleRefView::Relative(base), dir) == Ok::<Seq<Seq<Seq<char>>>, QueryView>(
            seq![crate::path::as_python(base), crate::path::child(base, "__init__.py"@)],
        ),
        import_roots(k, dir) matches Ok(roots) ==> {
            let rel = crate::scan::below(
                Seq::empty(),
                text::fields(dotted, Separator::Char('.'), true),
                0,
            );
            let files = candidates(k, ModuleRefView::Absolute(dotted), dir)->Ok_0;
            &&& candidates(k, ModuleRefView::Absolute(dotted), dir) is Ok
            &&& files.len() == 2 * roots.len()
            &&& 0 <= i < roots.len() ==> files[2 * i] == crate::path::as_python(
                crate::path::joined_path(roots[i], rel),
            ) && files[2 * i + 1] == crate::path::child(
                crate::path::joined_path(roots[i], rel),
                "__init__.py"@,
            )
        },
{
    if let Ok(roots) = import_roots(k, dir) {
        let rel = crate::scan::below(
            Seq::empty(),
            text::fields(dotted, Separator::Char('.'), true),
            0,
        );
        files_in_pairs(roots, rel, 0, Seq::empty(), i);
    }
}

proof fn files_in_pairs(
    roots: Seq<Seq<Seq<char>>>,
    rel: Seq<Seq<char>>,
    n: int,
    out: Seq<Seq<Seq<char>>>,
    i: int,
)
    requires
        0 <= n <= roots.len(),
        out.len() == 2 * n,
        0 <= i < n ==> out[2 * i] == crate::path::as_python(
            crate::path::joined_path(roots[i], rel),
        ) && out[2 * i + 1] == crate::path::child(
            crate::path::joined_path(roots[i], rel),
            "__init__.py"@,
        ),
    ensures
        ({
            let files = files_under(roots, rel, n, out);
            &&& files.len() == 2 * roots.len()
            &&& 0 <= i < roots.len() ==> files[2 * i] == crate::path::as_python(
                crate::path::joined_path(roots[i], rel),
            ) && files[2 * i + 1] == crate::path::child(
                crate::path::joined_path(roots[i], rel),
                "__init__.py"@,
            )
        }),
    decreases roots.len() - n,
{
    if n < roots.len() {
        let next = out + module_files(crate::path::joined_path(roots[n], rel));
        files_in_pairs(roots, rel, n + 1, next, i);
    }
}

/// Absolute imports start from the root directory, then its `src`, then the
/// directory above the topmost package of the importer, if that stands in one,
/// and then the interpreter's import path.
pub proof fn law_import_roots(k: KnowledgeView, dir: Seq<Seq<char>>)
    requires
        import_roots(k, dir) is Ok,
    ensures
        ({
            let roots = import_roots(k, dir)->Ok_0;
            let first = seq![k.rootdir, crate::path::child(k.rootdir, "src"@)];
            &&& package_root(k, dir, None) is Ok
            &&& roots == match package_root(k, dir, None)->Ok_0 {
                Some(p) => first + seq![p] + k.sys_paths,
                None => first + k.sys_paths,
            }
        }),
{
    let first = seq![k.rootdir, crate::path::child(k.rootdir, "src"@)];
    if let Some(p) = package_root(k, dir, None)->Ok_0 {
        assert(first.push(p) =~= first + seq![p]);
    }
}

/// Where the directories `dir.take(n)`, for `n` above `top`, are packages and
/// `dir.take(top)` is none, `dir.take(top)` is the directory above the topmost
/// package; a directory that is no package itself stands in none.
pub proof fn law_directory_above_the_packages(k: KnowledgeView, dir: Seq<Seq<char>>, top: int)
    requires
        0 <= top <= dir.len(),
        forall|n: int|
            top < n <= dir.len() ==> file_at(
                k,
                crate::path::child(#[trigger] dir.take(n), "__init__.py"@),
            ) == Ok::<bool, QueryView>(true) && dir[n - 1] != crate::path::root_part(),
        file_at(k, crate::path::child(dir.take(top), "__init__.py"@)) == Ok::<bool, QueryView>(
            false,
        ),
    ensures
        package_root(k, dir, None) == Ok::<Option<Seq<Seq<char>>>, QueryView>(
            if top < dir.len() {
                Some(dir.take(top))
            } else {
                None
            },
        ),
{
    assert(dir.take(dir.len() as int) =~= dir);
    packages_above(k, dir, top, dir.len() as int, None);
}

proof fn packages_above(
    k: KnowledgeView,
    dir: Seq<Seq<char>>,
    top: int,
    n: int,
    found: Option<Seq<Seq<char>>>,
)
    requires
        0 <= top <= n <= dir.len(),
        n < dir.len() ==> found == Some(dir.take(n + 1)),
        n == dir.len() ==> found is None,
        forall|m: int|
            top < m <= dir.len() ==> file_at(
                k,
                crate::path::child(#[trigger] dir.take(m), "__init__.py"@),
            ) == Ok::<bool, QueryView>(true) && dir[m - 1] != crate::path::root_part(),
        file_at(k, crate::path::child(dir.take(top), "__init__.py"@)) == Ok::<bool, QueryView>(
            false,
        ),
    ensures
        package_root(k, dir.take(n), found) == Ok::<Option<Seq<Seq<char>>>, QueryView>(
            if top < dir.len() {
                Some(dir.take(top))
            } else {
                None
            },
        ),
    decreases n - top,
{
    if n > top {
        assert(file_at(k, crate::path::child(dir.take(n), "__init__.py"@)) is Ok);
        assert(dir.take(n).drop_last() =~= dir.take(n - 1));
        assert(dir.take(n).last() == dir[n - 1]);
        packages_above(k, dir, top, n - 1, Some(dir.take(n)));
    } else if n < dir.len() {
        assert(dir.take(n + 1).drop_last() =~= dir.take(n));
        assert(dir.take(n + 1).last() == dir[n + 1 - 1]);
        assert(file_at(k, crate::path::child(dir.take(n + 1), "__init__.py"@)) is Ok);
    }
}

/// What is known is told as it is; what is not known is asked for, unless all
/// there is is known.
pub proof fn law_facts_are_told(k: KnowledgeView, path: Seq<Seq<char>>, name: Seq<char>)
    ensures
        crate::facts::fact(k.modules, path) matches Some(m) ==> module_at(k, path) == Ok::<
            Option<ModuleView>,
            QueryView,
        >(m),
        crate::facts::fact(k.files, path) matches Some(b) ==> file_at(k, path) == Ok::<
            bool,
            QueryView,
        >(b),
        k.probing ==> (crate::table::find(k.probes, name) matches Some(b) ==> importable(k, name)
            == Ok::<bool, QueryView>(b)),
        !k.probing ==> importable(k, name) == Ok::<bool, QueryView>(true),
        k.complete ==> module_at(k, path) is Ok && file_at(k, path) is Ok && importable(
            k,
            name,
        ) is Ok,
        !k.complete && crate::facts::fact(k.modules, path) is None ==> module_at(k, path) == Err::<
            Option<ModuleView>,
            QueryView,
        >(QueryView::Module(path)),
        !k.complete && crate::facts::fact(k.files, path) is None ==> file_at(k, path) == Err::<
            bool,
            QueryView,
        >(QueryView::IsFile(path)),
        !k.complete && k.probing && crate::table::find(k.probes, name) is None ==> importable(
            k,
            name,
        ) == Err::<bool, QueryView>(QueryView::Probe(name)),
{
}

/// A file stands where a module was loaded from, and else where one is known to
/// stand; one is gone where that is known.
pub proof fn law_files_that_stand(k: KnowledgeView, path: Seq<Seq<char>>)
    ensures
        module_at(k, path) matches Ok(Some(_)) ==> stands_at(k, path) == Ok::<bool, QueryView>(
            true,
        ),
        !(module_at(k, path) matches Ok(Some(_))) ==> stands_at(k, path) == file_at(k, path),
        crate::facts::fact(k.gone, path) == Some(true) ==> gone_from(k, path),
        crate::facts::fact(k.gone, path) == Some(false) ==> !gone_from(k, path),
        crate::facts::fact(k.gone, path) is None ==> !gone_from(k, path),
{
}

} // verus!
