//! Which tests a change can reach: a test file is impacted when it, a conftest
//! above it, the configuration file, or any project file that it transitively
//! imports changed. Third-party packages are treated as stable.

use vstd::prelude::*;

use crate::collector::{display_path, FileTests, FileTestsView};
use crate::config::{Config, ConfigView};
use crate::graph::{closure, Graph};
use crate::model::{Module, ModuleView};
use crate::names::add_name;
use crate::path::FilePath;
use crate::resolve::{
    self, candidate_files, Knowledge, KnowledgeView, Loaded, Query, QueryView,
};
use crate::table::Table;
use crate::text::{self, copy_list, Strings};

verus! {

broadcast use crate::text::group_deep;

/// Does a path lie in a directory that packages are installed to?
pub open spec fn installed(rel: Seq<Seq<char>>) -> bool {
    rel.contains("site-packages"@) || rel.contains("dist-packages"@)
}

/// The rootdir-relative path of a file of the project; none for other files.
pub open spec fn project_name(k: KnowledgeView, path: Seq<Seq<char>>) -> Option<Seq<char>> {
    match crate::path::relative_to(path, k.rootdir) {
        Some(rel) => if installed(rel) {
            None
        } else {
            Some(crate::path::shown(rel))
        },
        None => None,
    }
}

/// The names with that of a path, if it is one of the project and a file stands
/// there, or one did that is gone. What stands has to be looked into.
pub open spec fn with_standing(
    k: KnowledgeView,
    path: Seq<Seq<char>>,
    out: Seq<Seq<char>>,
) -> Result<Seq<Seq<char>>, QueryView> {
    match project_name(k, path) {
        None => Ok(out),
        Some(name) => match resolve::stands_at(k, path) {
            Err(q) => Err(q),
            Ok(true) => match resolve::module_at(k, path) {
                Err(q) => Err(q),
                Ok(_) => Ok(crate::names::with_name(out, name)),
            },
            Ok(false) => Ok(
                if resolve::gone_from(k, path) {
                    crate::names::with_name(out, name)
                } else {
                    out
                },
            ),
        },
    }
}

/// The names with those of the paths from position `i` on.
pub open spec fn standing_from(
    k: KnowledgeView,
    paths: Seq<Seq<Seq<char>>>,
    i: int,
    out: Seq<Seq<char>>,
) -> Result<Seq<Seq<char>>, QueryView>
    decreases paths.len() - i,
{
    if i < 0 || i >= paths.len() {
        Ok(out)
    } else {
        match with_standing(k, paths[i], out) {
            Err(q) => Err(q),
            Ok(next) => standing_from(k, paths, i + 1, next),
        }
    }
}

/// The project files that the links of a module from position `i` on may lead
/// to, behind those in `out`, by their rootdir-relative paths. A file counts
/// whether or not it can be parsed.
pub open spec fn links_to(
    k: KnowledgeView,
    m: ModuleView,
    i: int,
    out: Seq<Seq<char>>,
) -> Result<Seq<Seq<char>>, QueryView>
    decreases m.links.len() - i,
{
    if i < 0 || i >= m.links.len() {
        Ok(out)
    } else {
        match resolve::candidates(k, m.links[i], m.dir) {
            Err(q) => Err(q),
            Ok(paths) => match standing_from(k, paths, 0, out) {
                Err(q) => Err(q),
                Ok(next) => links_to(k, m, i + 1, next),
            },
        }
    }
}

/// The import graph of the project with the known modules from position `i` on.
pub open spec fn imports_from(
    k: KnowledgeView,
    i: int,
    out: Seq<(Seq<char>, Seq<Seq<char>>)>,
) -> Result<Seq<(Seq<char>, Seq<Seq<char>>)>, QueryView>
    decreases k.modules.len() - i,
{
    if i < 0 || i >= k.modules.len() {
        Ok(out)
    } else {
        match k.modules[i].1 {
            None => imports_from(k, i + 1, out),
            Some(m) => match project_name(k, k.modules[i].0) {
                None => imports_from(k, i + 1, out),
                Some(name) => match links_to(k, m, 0, Seq::empty()) {
                    Err(q) => Err(q),
                    Ok(names) => imports_from(k, i + 1, crate::table::put(out, name, names)),
                },
            },
        }
    }
}

/// The import graph of the project.
pub open spec fn imports_of(
    k: KnowledgeView,
) -> Result<Seq<(Seq<char>, Seq<Seq<char>>)>, QueryView> {
    imports_from(k, 0, Seq::empty())
}

/// The files that each file imports.
pub open spec fn edges_in(
    t: Seq<(Seq<char>, Seq<Seq<char>>)>,
) -> spec_fn(Seq<char>) -> Seq<Seq<char>> {
    |name: Seq<char>|
        match crate::table::find(t, name) {
            Some(v) => v,
            None => Seq::empty(),
        }
}

/// The files that project files import, by rootdir-relative path.
#[derive(Debug)]
pub struct ImportGraph {
    pub imports: Table<Strings>,
}

/// Everything that is imported, from the entry at position `i` on.
pub open spec fn all_imported(
    t: Seq<(Seq<char>, Seq<Seq<char>>)>,
    i: int,
) -> Seq<Seq<char>>
    decreases t.len() - i,
{
    if i < 0 || i >= t.len() {
        Seq::empty()
    } else {
        t[i].1 + all_imported(t, i + 1)
    }
}

proof fn all_imported_has(
    t: Seq<(Seq<char>, Seq<Seq<char>>)>,
    name: Seq<char>,
    m: Seq<char>,
    i: int,
)
    requires
        0 <= i,
        crate::table::find_from(t, name, i) matches Some(v) && v.contains(m),
    ensures
        all_imported(t, i).contains(m),
    decreases t.len() - i,
{
    if i < t.len() {
        let rest = all_imported(t, i + 1);
        let both = t[i].1 + rest;
        if t[i].0 == name {
            let c = choose|c: int| 0 <= c < t[i].1.len() && t[i].1[c] == m;
            assert(both[c] == m);
        } else {
            all_imported_has(t, name, m, i + 1);
            let c = choose|c: int| 0 <= c < rest.len() && rest[c] == m;
            assert(both[t[i].1.len() + c] == m);
        }
    }
}

impl Graph for ImportGraph {
    open spec fn edges(&self) -> spec_fn(Seq<char>) -> Seq<Seq<char>> {
        edges_in(self.imports@)
    }

    open spec fn targets(&self) -> Seq<Seq<char>> {
        all_imported(self.imports@, 0)
    }

    proof fn edges_lead_to_targets(&self, name: Seq<char>) {
        assert forall|m: Seq<char>| #[trigger]
            (self.edges())(name).contains(m) implies self.targets().contains(m) by {
            if crate::table::find(self.imports@, name) is Some {
                all_imported_has(self.imports@, name, m, 0);
            }
        }
    }

    fn successors(&self, name: &str) -> (r: Vec<String>) {
        match self.imports.get(name) {
            Some(v) => copy_list(&v.items),
            None => Vec::new(),
        }
    }
}

fn is_installed(rel: &FilePath) -> (r: bool)
    ensures
        r == installed(rel@),
{
    text::is_in(&rel.parts, "site-packages") || text::is_in(&rel.parts, "dist-packages")
}

fn name_in_project(k: &Knowledge, path: &FilePath) -> (r: Option<String>)
    ensures
        text::opt(r) == project_name(k@, path@),
{
    match path.strip(&k.rootdir) {
        Some(rel) => if is_installed(&rel) {
            None
        } else {
            Some(rel.display())
        },
        None => None,
    }
}

fn add_standing(k: &Knowledge, path: &FilePath, names: Vec<String>) -> (r: Result<
    Vec<String>,
    Query,
>)
    ensures
        resolve::told_all(r) == with_standing(k@, path@, text::deep(names@)),
{
    let mut out: Vec<String> = names;
    let name: String = match name_in_project(k, path) {
        Some(n) => n,
        None => {
            return Ok(out);
        },
    };
    match k.has_file(path) {
        Err(q) => Err(q),
        Ok(true) => match k.module(path) {
            Err(q) => Err(q),
            Ok(_) => {
                add_name(&mut out, name.as_str());
                Ok(out)
            },
        },
        Ok(false) => {
            if k.lost_file(path) {
                add_name(&mut out, name.as_str());
            }
            Ok(out)
        },
    }
}

fn add_all_standing(k: &Knowledge, paths: &Vec<FilePath>, names: Vec<String>) -> (r: Result<
    Vec<String>,
    Query,
>)
    ensures
        resolve::told_all(r) == standing_from(
            k@,
            text::deep(paths@),
            0,
            text::deep(names@),
        ),
{
    let ghost ps = text::deep(paths@);
    let ghost before = text::deep(names@);
    let mut out: Vec<String> = names;
    let mut i: usize = 0;
    while i < paths.len()
        invariant
            i <= paths.len(),
            ps == text::deep(paths@),
            before == text::deep(names@),
            standing_from(k@, ps, i as int, text::deep(out@)) == standing_from(
                k@,
                ps,
                0,
                before,
            ),
        decreases paths.len() - i,
    {
        out = match add_standing(k, &paths[i], out) {
            Ok(v) => v,
            Err(q) => {
                return Err(q);
            },
        };
        i += 1;
    }
    Ok(out)
}

/// The project files that the links of a module may lead to, by their
/// rootdir-relative paths. What is not known yet is asked for.
pub fn linked_files(k: &Knowledge, m: &Module) -> (r: Result<Vec<String>, Query>)
    ensures
        resolve::told_all(r) == links_to(k@, m@, 0, Seq::empty()),
{
    let mut out: Vec<String> = Vec::new();
    let mut i: usize = 0;
    while i < m.links.len()
        invariant
            i <= m.links.len(),
            links_to(k@, m@, i as int, text::deep(out@)) == links_to(k@, m@, 0, Seq::empty()),
        decreases m.links.len() - i,
    {
        let paths: Vec<FilePath> = match candidate_files(k, &m.links[i], &m.dir) {
            Ok(v) => v,
            Err(q) => {
                return Err(q);
            },
        };
        out = match add_all_standing(k, &paths, out) {
            Ok(v) => v,
            Err(q) => {
                return Err(q);
            },
        };
        i += 1;
    }
    Ok(out)
}

/// The import graph of the project. A module that is not known yet is asked
/// for.
pub fn import_graph(k: &Knowledge) -> (r: Result<ImportGraph, Query>)
    ensures
        match r {
            Ok(g) => imports_of(k@) == Ok::<_, QueryView>(g.imports@),
            Err(q) => imports_of(k@) == Err::<Seq<(Seq<char>, Seq<Seq<char>>)>, _>(q@),
        },
{
    let mut out: Table<Strings> = Table::new();
    let mut i: usize = 0;
    let n: usize = k.modules.len();
    while i < n
        invariant
            i <= n == k@.modules.len(),
            imports_from(k@, i as int, out@) == imports_of(k@),
        decreases n - i,
    {
        match k.modules.at(i) {
            Loaded::Nothing => {},
            Loaded::Parsed(m) => match name_in_project(k, k.modules.path_at(i)) {
                None => {},
                Some(name) => {
                    let names: Vec<String> = match linked_files(k, m) {
                        Ok(v) => v,
                        Err(q) => {
                            return Err(q);
                        },
                    };
                    out.insert(name, Strings { items: names });
                },
            },
        }
        i += 1;
    }
    Ok(ImportGraph { imports: out })
}

// ---------------------------------------------------------------------------
// Closures
// ---------------------------------------------------------------------------

/// The rootdir-relative paths of the conftests of `dir` and the directories
/// above it, up to and including the rootdir, behind those in `out`. A conftest
/// counts whether or not it can be parsed, and one that is gone counts too.
pub open spec fn conftest_names(
    k: KnowledgeView,
    c: ConfigView,
    dir: Seq<Seq<char>>,
    out: Seq<Seq<char>>,
) -> Result<Seq<Seq<char>>, QueryView>
    decreases dir.len(),
{
    let path = crate::path::child(dir, "conftest.py"@);
    match resolve::stands_at(k, path) {
        Err(q) => Err(q),
        Ok(stands) => {
            let next = if stands || resolve::gone_from(k, path) {
                out.push(crate::collector::shown_path(path, c.rootdir))
            } else {
                out
            };
            if dir == k.rootdir {
                Ok(next)
            } else {
                match crate::path::parent_of(dir) {
                    Some(up) => conftest_names(k, c, up, next),
                    None => Ok(next),
                }
            }
        },
    }
}

/// What governs a test file besides its imports: the conftests above it and the
/// configuration file.
pub open spec fn governors(
    k: KnowledgeView,
    c: ConfigView,
    file: Seq<Seq<char>>,
) -> Result<Seq<Seq<char>>, QueryView> {
    match conftest_names(k, c, crate::model::dir_of(file), Seq::empty()) {
        Err(q) => Err(q),
        Ok(names) => Ok(
            match c.source {
                Some(p) => names.push(crate::collector::shown_path(p, c.rootdir)),
                None => names,
            },
        ),
    }
}

/// Can a change of the file `name` reach the tests of `file`? It can if the
/// name is that of the file, of a file that it transitively imports, or of a
/// file that governs it.
pub open spec fn reached_by(
    imports: Seq<(Seq<char>, Seq<Seq<char>>)>,
    governing: Seq<Seq<char>>,
    file: Seq<char>,
    name: Seq<char>,
) -> bool {
    crate::graph::reaches(edges_in(imports), seq![file], name) || governing.contains(name)
}

/// The files that can reach the tests of one file.
#[derive(Debug)]
pub struct Impact {
    pub file: String,
    pub closure: Vec<String>,
}

/// The first thing, from the file at position `i` on, that has to be known: the
/// module of a test file, or what governs it.
pub open spec fn asks_from(
    k: KnowledgeView,
    c: ConfigView,
    files: Seq<FileTestsView>,
    i: int,
) -> Option<QueryView>
    decreases files.len() - i,
{
    if i < 0 || i >= files.len() {
        None
    } else {
        match (resolve::module_at(k, files[i].abs_path), governors(k, c, files[i].abs_path)) {
            (Err(q), _) => Some(q),
            (_, Err(q)) => Some(q),
            _ => asks_from(k, c, files, i + 1),
        }
    }
}

/// What has to be known before the closures can be told.
pub open spec fn asks(
    k: KnowledgeView,
    c: ConfigView,
    files: Seq<FileTestsView>,
) -> Option<QueryView> {
    match imports_of(k) {
        Err(q) => Some(q),
        Ok(_) => asks_from(k, c, files, 0),
    }
}

/// Are these the files that can reach the tests of `f`?
pub open spec fn is_impact(
    k: KnowledgeView,
    c: ConfigView,
    f: FileTestsView,
    impact: Impact,
) -> bool {
    &&& impact.file@ == f.path
    &&& forall|n: Seq<char>| #[trigger]
        text::deep(impact.closure@).contains(n) <==> reached_by(
            imports_of(k)->Ok_0,
            governors(k, c, f.abs_path)->Ok_0,
            f.path,
            n,
        )
}

fn conftest_files(k: &Knowledge, c: &Config, dir: &FilePath) -> (r: Result<Vec<String>, Query>)
    ensures
        resolve::told_all(r) == conftest_names(k@, c@, dir@, Seq::empty()),
{
    let mut out: Vec<String> = Vec::new();
    let mut at: FilePath = dir.copy();
    loop
        invariant
            conftest_names(k@, c@, at@, text::deep(out@)) == conftest_names(
                k@,
                c@,
                dir@,
                Seq::empty(),
            ),
        decreases at@.len(),
    {
        let path: FilePath = at.child("conftest.py");
        let stands: bool = match k.has_file(&path) {
            Ok(b) => b,
            Err(q) => {
                return Err(q);
            },
        };
        if stands || k.lost_file(&path) {
            out.push(display_path(&path, &c.rootdir));
        }
        if at.equals(&k.rootdir) {
            return Ok(out);
        }
        match at.parent() {
            Some(up) => {
                at = up;
            },
            None => {
                return Ok(out);
            },
        }
    }
}

fn governing_files(k: &Knowledge, c: &Config, file: &FilePath) -> (r: Result<
    Vec<String>,
    Query,
>)
    ensures
        resolve::told_all(r) == governors(k@, c@, file@),
{
    let dir: FilePath = match file.parent() {
        Some(d) => d,
        None => FilePath::empty(),
    };
    let mut out: Vec<String> = match conftest_files(k, c, &dir) {
        Ok(v) => v,
        Err(q) => {
            return Err(q);
        },
    };
    match &c.source {
        Some(p) => {
            out.push(display_path(p, &c.rootdir));
        },
        None => {},
    }
    Ok(out)
}

fn impact_of(g: &ImportGraph, governing: &Vec<String>, file: &str) -> (r: Impact)
    ensures
        r.file@ == file@,
        forall|n: Seq<char>| #[trigger]
            text::deep(r.closure@).contains(n) <==> reached_by(
                g.imports@,
                text::deep(governing@),
                file@,
                n,
            ),
{
    let mut start: Vec<String> = Vec::new();
    start.push(file.to_owned());
    proof {
        assert(text::deep(start@) =~= seq![file@]);
    }
    let mut all: Vec<String> = closure(g, &start);
    let ghost reached = text::deep(all@);
    let ghost gs = text::deep(governing@);
    text::extend(&mut all, governing);
    proof {
        let both = text::deep(all@);
        assert(both =~= reached + gs);
        assert forall|n: Seq<char>| #[trigger] both.contains(n) <==> reached.contains(n)
            || gs.contains(n) by {
            if both.contains(n) {
                let c = choose|c: int| 0 <= c < both.len() && both[c] == n;
                if c < reached.len() {
                    assert(reached[c] == n);
                } else {
                    assert(gs[c - reached.len()] == n);
                }
            }
            if reached.contains(n) {
                let c = choose|c: int| 0 <= c < reached.len() && reached[c] == n;
                assert(both[c] == n);
            }
            if gs.contains(n) {
                let c = choose|c: int| 0 <= c < gs.len() && gs[c] == n;
                assert(both[reached.len() + c] == n);
            }
        }
    }
    Impact { file: file.to_owned(), closure: all }
}

/// For each test file, the project files whose change can reach its tests.
#[verifier::loop_isolation(false)]
pub fn impact_closures(k: &Knowledge, c: &Config, files: &Vec<FileTests>) -> (r: Result<
    Vec<Impact>,
    Query,
>)
    ensures
        match r {
            Ok(v) => asks(k@, c@, text::deep(files@)) is None && v@.len() == files@.len()
                && forall|i: int|
                0 <= i < v@.len() ==> is_impact(k@, c@, files@[i]@, #[trigger] v@[i]),
            Err(q) => asks(k@, c@, text::deep(files@)) == Some(q@),
        },
{
    let ghost fs = text::deep(files@);
    let g: ImportGraph = match import_graph(k) {
        Ok(g) => g,
        Err(q) => {
            return Err(q);
        },
    };
    let mut out: Vec<Impact> = Vec::new();
    let mut i: usize = 0;
    while i < files.len()
        invariant
            i <= files.len(),
            out.len() == i,
            asks_from(k@, c@, fs, i as int) == asks_from(k@, c@, fs, 0),
            forall|j: int| 0 <= j < i ==> is_impact(k@, c@, fs[j], #[trigger] out@[j]),
        decreases files.len() - i,
    {
        match k.module(&files[i].abs_path) {
            Err(q) => {
                return Err(q);
            },
            Ok(_) => {},
        }
        let governing: Vec<String> = match governing_files(k, c, &files[i].abs_path) {
            Ok(v) => v,
            Err(q) => {
                return Err(q);
            },
        };
        out.push(impact_of(&g, &governing, files[i].path.as_str()));
        i += 1;
    }
    Ok(out)
}

/// Is one of the changed files among those that reach the tests?
pub open spec fn is_hit(closure: Seq<Seq<char>>, changed: Seq<Seq<char>>) -> bool {
    exists|i: int| 0 <= i < changed.len() && closure.contains(#[trigger] changed[i])
}

/// Is one of the changed files among those that reach the tests?
pub fn is_impacted(closure: &Vec<String>, changed: &Vec<String>) -> (r: bool)
    ensures
        r == is_hit(text::deep(closure@), text::deep(changed@)),
{
    let ghost cs = text::deep(changed@);
    let mut i: usize = 0;
    while i < changed.len()
        invariant
            i <= changed.len(),
            cs == text::deep(changed@),
            forall|j: int| 0 <= j < i ==> !text::deep(closure@).contains(#[trigger] cs[j]),
        decreases changed.len() - i,
    {
        if text::is_in(closure, changed[i].as_str()) {
            proof {
                assert(text::deep(closure@).contains(cs[i as int]));
            }
            return true;
        }
        i += 1;
    }
    false
}

/// The closures of some impacts.
pub open spec fn closures_of(impacts: Seq<Impact>) -> Seq<Seq<Seq<char>>> {
    Seq::new(impacts.len(), |i: int| text::deep(impacts[i].closure@))
}

/// The files from position `i` on that a change reaches, behind those in `out`.
pub open spec fn impacted_from(
    files: Seq<FileTestsView>,
    closures: Seq<Seq<Seq<char>>>,
    changed: Seq<Seq<char>>,
    i: int,
    out: Seq<FileTestsView>,
) -> Seq<FileTestsView>
    decreases files.len() - i,
{
    if i < 0 || i >= files.len() {
        out
    } else {
        impacted_from(
            files,
            closures,
            changed,
            i + 1,
            if is_hit(closures[i], changed) {
                out.push(files[i])
            } else {
                out
            },
        )
    }
}

/// `--changed`: only the files whose tests a change reaches.
pub fn filter_impacted(
    files: &Vec<FileTests>,
    impacts: &Vec<Impact>,
    changed: &Vec<String>,
) -> (r: Vec<FileTests>)
    requires
        impacts@.len() == files@.len(),
    ensures
        text::deep(r@) == impacted_from(
            text::deep(files@),
            closures_of(impacts@),
            text::deep(changed@),
            0,
            Seq::empty(),
        ),
{
    let ghost fs = text::deep(files@);
    let ghost cl = closures_of(impacts@);
    let ghost ch = text::deep(changed@);
    let mut out: Vec<FileTests> = Vec::new();
    let mut i: usize = 0;
    while i < files.len()
        invariant
            i <= files.len(),
            impacts@.len() == files@.len(),
            fs == text::deep(files@),
            cl == closures_of(impacts@),
            ch == text::deep(changed@),
            impacted_from(fs, cl, ch, i as int, text::deep(out@)) == impacted_from(
                fs,
                cl,
                ch,
                0,
                Seq::empty(),
            ),
        decreases files.len() - i,
    {
        if is_impacted(&impacts[i].closure, changed) {
            out.push(files[i].copy());
        }
        i += 1;
    }
    out
}

// ---------------------------------------------------------------------------
// Laws
// ---------------------------------------------------------------------------

/// A change of a test file reaches its own tests.
pub proof fn law_file_reaches_itself(
    imports: Seq<(Seq<char>, Seq<Seq<char>>)>,
    governing: Seq<Seq<char>>,
    file: Seq<char>,
)
    ensures
        reached_by(imports, governing, file, file),
{
    assert(seq![file].contains(file)) by {
        assert(seq![file][0] == file);
    }
    crate::graph::law_start_is_reached(edges_in(imports), seq![file], file);
}

/// Impact is transitive: what a file that the test file reaches by imports
/// imports in turn reaches its tests too.
pub proof fn law_impact_is_transitive(
    imports: Seq<(Seq<char>, Seq<Seq<char>>)>,
    governing: Seq<Seq<char>>,
    file: Seq<char>,
    through: Seq<char>,
    name: Seq<char>,
)
    requires
        crate::graph::reaches(edges_in(imports), seq![file], through),
        crate::table::find(imports, through) matches Some(v) && v.contains(name),
    ensures
        reached_by(imports, governing, file, name),
{
    let e = edges_in(imports);
    assert(e(through).contains(name));
    let path = seq![through, name];
    assert(seq![through].contains(through)) by {
        assert(seq![through][0] == through);
    }
    assert(crate::graph::is_path(e, seq![through], path));
    assert(path.last() == name);
    crate::graph::law_reaching_is_transitive(e, seq![file], through, name);
}

/// Where nothing changed nothing runs.
pub proof fn law_no_change_no_impact(
    files: Seq<FileTestsView>,
    closures: Seq<Seq<Seq<char>>>,
)
    ensures
        impacted_from(files, closures, Seq::empty(), 0, Seq::empty()).len() == 0,
{
    none_impacted(files, closures, 0);
}

proof fn none_impacted(files: Seq<FileTestsView>, closures: Seq<Seq<Seq<char>>>, i: int)
    requires
        0 <= i <= files.len(),
    ensures
        impacted_from(files, closures, Seq::empty(), i, Seq::empty()).len() == 0,
    decreases files.len() - i,
{
    if i < files.len() {
        none_impacted(files, closures, i + 1);
    }
}

/// Where nothing is touched after a run, `--changed` runs nothing.
pub proof fn law_untouched_runs_nothing(
    files: Seq<FileTestsView>,
    closures: Seq<Seq<Seq<char>>>,
    previous: Seq<(Seq<char>, Seq<char>)>,
    current: Seq<(Seq<char>, Seq<char>)>,
    missing: Seq<Seq<char>>,
)
    requires
        crate::table::sorted(current),
    ensures
        impacted_from(
            files,
            closures,
            crate::changes::changes_since(
                crate::changes::recorded_after(previous, current, missing),
                current,
                missing,
            ),
            0,
            Seq::empty(),
        ).len() == 0,
{
    let changed = crate::changes::changes_since(
        crate::changes::recorded_after(previous, current, missing),
        current,
        missing,
    );
    crate::changes::law_untouched_is_unchanged(previous, current, missing);
    assert(changed =~= Seq::empty());
    law_no_change_no_impact(files, closures);
}

/// `--changed` runs the tests that a change reaches, and no others: a file runs
/// exactly where it is one of those with a changed file in their closure.
pub proof fn law_changes_run_what_they_reach(
    files: Seq<FileTestsView>,
    closures: Seq<Seq<Seq<char>>>,
    changed: Seq<Seq<char>>,
    file: FileTestsView,
)
    ensures
        impacted_from(files, closures, changed, 0, Seq::empty()).contains(file) <==> exists|i: int|
            0 <= i < files.len() && files[i] == file && is_hit(#[trigger] closures[i], changed),
{
    impacted_holds(files, closures, changed, 0, Seq::empty(), file);
}

proof fn impacted_holds(
    files: Seq<FileTestsView>,
    closures: Seq<Seq<Seq<char>>>,
    changed: Seq<Seq<char>>,
    i: int,
    out: Seq<FileTestsView>,
    file: FileTestsView,
)
    requires
        0 <= i <= files.len(),
    ensures
        impacted_from(files, closures, changed, i, out).contains(file) <==> out.contains(file)
            || exists|j: int|
            i <= j < files.len() && files[j] == file && is_hit(#[trigger] closures[j], changed),
    decreases files.len() - i,
{
    if i < files.len() {
        let next = if is_hit(closures[i], changed) {
            out.push(files[i])
        } else {
            out
        };
        impacted_holds(files, closures, changed, i + 1, next, file);
        if out.contains(file) {
            assert(next[out.index_of(file)] == file);
        }
        if is_hit(closures[i], changed) {
            assert(next[out.len() as int] == files[i]);
        }
    }
}

/// Is `above` the directory `dir` or one above it, up to and including the
/// rootdir?
pub open spec fn governs(k: KnowledgeView, dir: Seq<Seq<char>>, above: Seq<Seq<char>>) -> bool
    decreases dir.len(),
{
    dir == above || (dir != k.rootdir && match crate::path::parent_of(dir) {
        Some(up) => governs(k, up, above),
        None => false,
    })
}

/// A change of a conftest above a test file reaches its tests, whether or not
/// the conftest can be parsed; so does its removal.
pub proof fn law_conftests_reach(
    k: KnowledgeView,
    c: ConfigView,
    imports: Seq<(Seq<char>, Seq<Seq<char>>)>,
    file: Seq<Seq<char>>,
    shown: Seq<char>,
    dir: Seq<Seq<char>>,
)
    requires
        governors(k, c, file) is Ok,
        governs(k, crate::model::dir_of(file), dir),
        resolve::stands_at(k, crate::path::child(dir, "conftest.py"@)) == Ok::<bool, QueryView>(
            true,
        ) || resolve::gone_from(k, crate::path::child(dir, "conftest.py"@)),
    ensures
        reached_by(
            imports,
            governors(k, c, file)->Ok_0,
            shown,
            crate::collector::shown_path(crate::path::child(dir, "conftest.py"@), c.rootdir),
        ),
{
    let name = crate::collector::shown_path(
        crate::path::child(dir, "conftest.py"@),
        c.rootdir,
    );
    let from = crate::model::dir_of(file);
    conftest_names_have(k, c, from, Seq::empty(), dir, name);
    let names = conftest_names(k, c, from, Seq::empty())->Ok_0;
    let all = governors(k, c, file)->Ok_0;
    assert(all[names.index_of(name)] == name);
}

/// A change of the configuration file reaches the tests of every file.
pub proof fn law_configuration_reaches(
    k: KnowledgeView,
    c: ConfigView,
    imports: Seq<(Seq<char>, Seq<Seq<char>>)>,
    file: Seq<Seq<char>>,
    shown: Seq<char>,
)
    requires
        governors(k, c, file) is Ok,
        c.source is Some,
    ensures
        reached_by(
            imports,
            governors(k, c, file)->Ok_0,
            shown,
            crate::collector::shown_path(c.source->0, c.rootdir),
        ),
{
    let all = governors(k, c, file)->Ok_0;
    assert(all.last() == crate::collector::shown_path(c.source->0, c.rootdir));
}

proof fn conftest_names_have(
    k: KnowledgeView,
    c: ConfigView,
    at: Seq<Seq<char>>,
    out: Seq<Seq<char>>,
    dir: Seq<Seq<char>>,
    name: Seq<char>,
)
    requires
        conftest_names(k, c, at, out) is Ok,
        out.contains(name) || (governs(k, at, dir) && name == crate::collector::shown_path(
            crate::path::child(dir, "conftest.py"@),
            c.rootdir,
        ) && (resolve::stands_at(k, crate::path::child(dir, "conftest.py"@)) == Ok::<
            bool,
            QueryView,
        >(true) || resolve::gone_from(k, crate::path::child(dir, "conftest.py"@)))),
    ensures
        conftest_names(k, c, at, out)->Ok_0.contains(name),
    decreases at.len(),
{
    let path = crate::path::child(at, "conftest.py"@);
    let stands = resolve::stands_at(k, path)->Ok_0;
    let next = if stands || resolve::gone_from(k, path) {
        out.push(crate::collector::shown_path(path, c.rootdir))
    } else {
        out
    };
    if out.contains(name) {
        assert(next[out.index_of(name)] == name);
    } else if at == dir {
        assert(next[out.len() as int] == name);
    }
    if at != k.rootdir {
        match crate::path::parent_of(at) {
            Some(up) => conftest_names_have(k, c, up, next, dir, name),
            None => {},
        }
    }
}

/// Once the closures can be told, the module of every test file is known.
pub proof fn law_test_files_are_known(
    k: KnowledgeView,
    c: ConfigView,
    files: Seq<FileTestsView>,
    i: int,
)
    requires
        asks(k, c, files) is None,
        0 <= i < files.len(),
    ensures
        resolve::module_at(k, files[i].abs_path) is Ok,
        governors(k, c, files[i].abs_path) is Ok,
{
    nothing_asked(k, c, files, 0, i);
}

proof fn nothing_asked(
    k: KnowledgeView,
    c: ConfigView,
    files: Seq<FileTestsView>,
    i: int,
    j: int,
)
    requires
        asks_from(k, c, files, i) is None,
        0 <= i <= j < files.len(),
    ensures
        resolve::module_at(k, files[j].abs_path) is Ok,
        governors(k, c, files[j].abs_path) is Ok,
    decreases j - i,
{
    if i < j {
        nothing_asked(k, c, files, i + 1, j);
    }
}

/// Do the known modules stand in order, under paths whose components are names?
pub open spec fn in_place(k: KnowledgeView) -> bool {
    &&& crate::facts::ordered(k.modules)
    &&& forall|i: int|
        0 <= i < k.modules.len() ==> (crate::path::relative_to(
            (#[trigger] k.modules[i]).0,
            k.rootdir,
        ) matches Some(rel) ==> crate::path::clean(rel))
}

/// What a known module may import is in the import graph: where a file of the
/// project stands at a path that one of its links may mean, whether or not it
/// can be parsed, or one that stood there is gone, its name is among those that
/// the module imports, and what stands there is known too.
pub proof fn law_links_are_imports(
    k: KnowledgeView,
    path: Seq<Seq<char>>,
    m: ModuleView,
    j: int,
    target: Seq<Seq<char>>,
)
    requires
        in_place(k),
        imports_of(k) is Ok,
        crate::facts::fact(k.modules, path) == Some(Some(m)),
        project_name(k, path) is Some,
        0 <= j < m.links.len(),
        resolve::candidates(k, m.links[j], m.dir) matches Ok(paths) && paths.contains(target),
        resolve::stands_at(k, target) == Ok::<bool, QueryView>(true) || resolve::gone_from(
            k,
            target,
        ),
        project_name(k, target) is Some,
    ensures
        crate::table::find(imports_of(k)->Ok_0, project_name(k, path)->0) matches Some(v)
            && v.contains(project_name(k, target)->0),
        resolve::stands_at(k, target) == Ok::<bool, QueryView>(true) ==> resolve::module_at(
            k,
            target,
        ) is Ok,
{
    let p = crate::facts::law_fact_has_a_place(k.modules, path);
    entry_is_kept(k, 0, Seq::empty(), p);
    let paths = resolve::candidates(k, m.links[j], m.dir)->Ok_0;
    let at = paths.index_of(target);
    links_have(k, m, 0, Seq::empty(), j, at);
}

/// A test file is impacted by everything that it transitively imports: a file
/// of the project that a module which the test file reaches by imports may
/// import reaches its tests in turn.
pub proof fn law_impact_follows_links(
    k: KnowledgeView,
    governing: Seq<Seq<char>>,
    file: Seq<char>,
    path: Seq<Seq<char>>,
    m: ModuleView,
    j: int,
    target: Seq<Seq<char>>,
)
    requires
        in_place(k),
        imports_of(k) is Ok,
        crate::facts::fact(k.modules, path) == Some(Some(m)),
        project_name(k, path) is Some,
        crate::graph::reaches(
            edges_in(imports_of(k)->Ok_0),
            seq![file],
            project_name(k, path)->0,
        ),
        0 <= j < m.links.len(),
        resolve::candidates(k, m.links[j], m.dir) matches Ok(paths) && paths.contains(target),
        resolve::stands_at(k, target) == Ok::<bool, QueryView>(true) || resolve::gone_from(
            k,
            target,
        ),
        project_name(k, target) is Some,
    ensures
        reached_by(imports_of(k)->Ok_0, governing, file, project_name(k, target)->0),
{
    law_links_are_imports(k, path, m, j, target);
    law_impact_is_transitive(
        imports_of(k)->Ok_0,
        governing,
        file,
        project_name(k, path)->0,
        project_name(k, target)->0,
    );
}

proof fn entry_is_kept(
    k: KnowledgeView,
    i: int,
    out: Seq<(Seq<char>, Seq<Seq<char>>)>,
    p: int,
)
    requires
        in_place(k),
        0 <= i <= k.modules.len(),
        0 <= p < k.modules.len(),
        imports_from(k, i, out) is Ok,
        k.modules[p].1 is Some,
        project_name(k, k.modules[p].0) is Some,
        p < i ==> links_to(k, k.modules[p].1->0, 0, Seq::empty()) is Ok && crate::table::find(
            out,
            project_name(k, k.modules[p].0)->0,
        ) == Some(links_to(k, k.modules[p].1->0, 0, Seq::empty())->Ok_0),
    ensures
        links_to(k, k.modules[p].1->0, 0, Seq::empty()) is Ok,
        crate::table::find(imports_from(k, i, out)->Ok_0, project_name(k, k.modules[p].0)->0)
            == Some(links_to(k, k.modules[p].1->0, 0, Seq::empty())->Ok_0),
    decreases k.modules.len() - i,
{
    if i < k.modules.len() {
        let name = project_name(k, k.modules[p].0)->0;
        match k.modules[i].1 {
            None => entry_is_kept(k, i + 1, out, p),
            Some(m) => match project_name(k, k.modules[i].0) {
                None => entry_is_kept(k, i + 1, out, p),
                Some(other) => {
                    let names = links_to(k, m, 0, Seq::empty())->Ok_0;
                    crate::table::law_find_after_put(out, other, names, name);
                    if other == name && i != p {
                        names_differ(k, i, p);
                    }
                    entry_is_kept(k, i + 1, crate::table::put(out, other, names), p);
                },
            },
        }
    }
}

proof fn names_differ(k: KnowledgeView, i: int, p: int)
    requires
        in_place(k),
        0 <= i < k.modules.len(),
        0 <= p < k.modules.len(),
        i != p,
        project_name(k, k.modules[i].0) is Some,
        project_name(k, k.modules[p].0) is Some,
    ensures
        project_name(k, k.modules[i].0) != project_name(k, k.modules[p].0),
{
    let a = k.modules[i].0;
    let b = k.modules[p].0;
    if project_name(k, a) == project_name(k, b) {
        let n = k.rootdir.len() as int;
        crate::path::law_shown_tells_apart(a.skip(n), b.skip(n));
        assert(a =~= a.take(n) + a.skip(n));
        assert(b =~= b.take(n) + b.skip(n));
        assert(a.take(n) =~= k.rootdir);
        assert(b.take(n) =~= k.rootdir);
        if i < p {
            assert(crate::path::before(k.modules[i].0, k.modules[p].0));
        } else {
            assert(crate::path::before(k.modules[p].0, k.modules[i].0));
        }
        crate::path::law_paths_are_ordered(a, b);
    }
}

proof fn name_has(out: Seq<Seq<char>>, one: Seq<char>, name: Seq<char>)
    requires
        out.contains(name) || one == name,
    ensures
        crate::names::with_name(out, one).contains(name),
{
    if !out.contains(one) {
        let next = out.push(one);
        if out.contains(name) {
            assert(next[out.index_of(name)] == name);
        } else {
            assert(next[out.len() as int] == name);
        }
    }
}

proof fn standing_has(
    k: KnowledgeView,
    paths: Seq<Seq<Seq<char>>>,
    i: int,
    out: Seq<Seq<char>>,
    at: int,
    name: Seq<char>,
)
    requires
        0 <= i,
        standing_from(k, paths, i, out) is Ok,
        out.contains(name) || (i <= at < paths.len() && project_name(k, paths[at]) == Some(name)
            && (resolve::stands_at(k, paths[at]) == Ok::<bool, QueryView>(true)
            || resolve::gone_from(k, paths[at]))),
    ensures
        standing_from(k, paths, i, out)->Ok_0.contains(name),
        i <= at < paths.len() && project_name(k, paths[at]) is Some && resolve::stands_at(
            k,
            paths[at],
        ) == Ok::<bool, QueryView>(true) ==> resolve::module_at(k, paths[at]) is Ok,
    decreases paths.len() - i,
{
    if i < paths.len() {
        let next = with_standing(k, paths[i], out)->Ok_0;
        match project_name(k, paths[i]) {
            Some(one) => {
                if out.contains(name) || i == at {
                    name_has(out, one, name);
                }
            },
            None => {},
        }
        standing_has(k, paths, i + 1, next, at, name);
    }
}

proof fn links_have(
    k: KnowledgeView,
    m: ModuleView,
    i: int,
    out: Seq<Seq<char>>,
    j: int,
    at: int,
)
    requires
        0 <= i <= j < m.links.len(),
        links_to(k, m, i, out) is Ok,
        resolve::candidates(k, m.links[j], m.dir) matches Ok(paths) && 0 <= at < paths.len()
            && project_name(k, paths[at]) is Some && (resolve::stands_at(k, paths[at]) == Ok::<
            bool,
            QueryView,
        >(true) || resolve::gone_from(k, paths[at])),
    ensures
        ({
            let target = resolve::candidates(k, m.links[j], m.dir)->Ok_0[at];
            &&& links_to(k, m, i, out)->Ok_0.contains(project_name(k, target)->0)
            &&& resolve::stands_at(k, target) == Ok::<bool, QueryView>(true)
                ==> resolve::module_at(k, target) is Ok
        }),
    decreases j - i,
{
    let paths = resolve::candidates(k, m.links[i], m.dir)->Ok_0;
    let next = standing_from(k, paths, 0, out)->Ok_0;
    if i < j {
        links_have(k, m, i + 1, next, j, at);
    } else {
        let name = project_name(k, paths[at])->0;
        standing_has(k, paths, 0, out, at, name);
        links_keep(k, m, i + 1, next, name);
    }
}

proof fn links_keep(
    k: KnowledgeView,
    m: ModuleView,
    i: int,
    out: Seq<Seq<char>>,
    name: Seq<char>,
)
    requires
        0 <= i,
        links_to(k, m, i, out) is Ok,
        out.contains(name),
    ensures
        links_to(k, m, i, out)->Ok_0.contains(name),
    decreases m.links.len() - i,
{
    if i < m.links.len() {
        let paths = resolve::candidates(k, m.links[i], m.dir)->Ok_0;
        standing_has(k, paths, 0, out, -1, name);
        links_keep(k, m, i + 1, standing_from(k, paths, 0, out)->Ok_0, name);
    }
}

/// A file below the root directory is one of the project, by its path from there,
/// unless it lies in a directory that packages are installed to; a file elsewhere
/// is not.
pub proof fn law_files_of_the_project(k: KnowledgeView, rel: Seq<Seq<char>>, path: Seq<Seq<char>>)
    ensures
        ({
            let inside = exists|i: int|
                0 <= i < rel.len() && (#[trigger] rel[i] == "site-packages"@ || rel[i]
                    == "dist-packages"@);
            &&& inside ==> project_name(k, k.rootdir + rel) is None
            &&& !inside ==> project_name(k, k.rootdir + rel) == Some(crate::path::shown(rel))
        }),
        !k.rootdir.is_prefix_of(path) ==> project_name(k, path) is None,
{
    let p = k.rootdir + rel;
    assert(p.subrange(0, k.rootdir.len() as int) =~= k.rootdir);
    assert(p.skip(k.rootdir.len() as int) =~= rel);
    if rel.contains("site-packages"@) {
        assert(rel[rel.index_of("site-packages"@)] == "site-packages"@);
    }
    if rel.contains("dist-packages"@) {
        assert(rel[rel.index_of("dist-packages"@)] == "dist-packages"@);
    }
}

/// Tests are hit exactly where a file that reaches them has changed, wherever it
/// stands in either list.
pub proof fn law_what_is_hit(closure: Seq<Seq<char>>, changed: Seq<Seq<char>>)
    ensures
        is_hit(closure, changed) <==> exists|name: Seq<char>| #[trigger]
            closure.contains(name) && changed.contains(name),
{
    if is_hit(closure, changed) {
        let i = choose|i: int| 0 <= i < changed.len() && closure.contains(#[trigger] changed[i]);
        assert(changed.contains(changed[i]));
    }
    if exists|name: Seq<char>| #[trigger] closure.contains(name) && changed.contains(name) {
        let name = choose|name: Seq<char>| #[trigger]
            closure.contains(name) && changed.contains(name);
        assert(changed[changed.index_of(name)] == name);
    }
}

} // verus!
