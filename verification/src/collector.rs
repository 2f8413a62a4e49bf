//! Collection: the tests of a module, and of all test files.

use vstd::prelude::*;

use crate::config::{Config, ConfigView};
use crate::emit::{self, emit_class, Surroundings, SurroundingsView};
use crate::fixtures::has_autouse_params;
use crate::glob::Pattern;
use crate::keyword::{KExpr, KExprView};
use crate::model::{
    Class, Guard, GuardView, Import, ImportView, Module, ModuleRef, ModuleRefView, ModuleView,
    TopItem, TopItemView,
};
use crate::names::Named;
use crate::path::FilePath;
use crate::python;
use crate::resolve::{
    self, conftest_chain, resolve_ref, Knowledge, KnowledgeView, Query, QueryView,
};
use crate::scan::parse_source;
use crate::symbols::{is_unittest_ref, resolve_symbol_or_function};
use crate::text::{self, concat, copy_list};

verus! {

broadcast use crate::text::group_deep;

// ---------------------------------------------------------------------------
// Contexts
// ---------------------------------------------------------------------------

/// The plugins that the modules from position `i` on declare, behind those in
/// `out`.
pub open spec fn declared_from(
    contexts: Seq<ModuleView>,
    i: int,
    out: Seq<Seq<char>>,
) -> Seq<Seq<char>>
    decreases contexts.len() - i,
{
    if i < 0 || i >= contexts.len() {
        out
    } else {
        declared_from(contexts, i + 1, out + contexts[i].plugin_modules)
    }
}

/// The modules with those of the plugins from position `i` on.
pub open spec fn with_plugins(
    k: KnowledgeView,
    plugins: Seq<Seq<char>>,
    dir: Seq<Seq<char>>,
    i: int,
    out: Seq<ModuleView>,
) -> Result<Seq<ModuleView>, QueryView>
    decreases plugins.len() - i,
{
    if i < 0 || i >= plugins.len() {
        Ok(out)
    } else {
        match resolve::referred(k, ModuleRefView::Absolute(plugins[i]), dir) {
            Err(q) => Err(q),
            Ok(Some(m)) => with_plugins(k, plugins, dir, i + 1, out.push(m)),
            Ok(None) => with_plugins(k, plugins, dir, i + 1, out),
        }
    }
}

/// The modules whose fixtures and hooks apply to the tests of a module: the
/// module itself, its conftest chain, and the plugins that those declare.
pub open spec fn contexts_of(
    k: KnowledgeView,
    m: ModuleView,
) -> Result<Seq<ModuleView>, QueryView> {
    match resolve::conftests(k, m.dir, Seq::empty()) {
        Err(q) => Err(q),
        Ok(chain) => {
            let own = seq![m] + chain;
            with_plugins(k, declared_from(own, 0, Seq::empty()), m.dir, 0, own)
        },
    }
}

fn gather_contexts<'a>(k: &'a Knowledge, m: &'a Module) -> (r: Result<Vec<&'a Module>, Query>)
    ensures
        resolve::told_all(r) == contexts_of(k@, m@),
{
    let chain: Vec<&'a Module> = match conftest_chain(k, &m.dir) {
        Ok(v) => v,
        Err(q) => {
            return Err(q);
        },
    };
    let ghost ch = text::deep(chain@);
    let mut contexts: Vec<&'a Module> = Vec::new();
    contexts.push(m);
    proof {
        assert(text::deep(contexts@) =~= seq![m@] + ch.take(0));
    }
    let mut c: usize = 0;
    while c < chain.len()
        invariant
            c <= chain.len(),
            ch == text::deep(chain@),
            text::deep(contexts@) == seq![m@] + ch.take(c as int),
        decreases chain.len() - c,
    {
        contexts.push(chain[c]);
        c += 1;
        proof {
            assert(ch.take(c as int) =~= ch.take(c - 1).push(ch[c - 1]));
            assert(text::deep(contexts@) =~= seq![m@] + ch.take(c as int));
        }
    }
    proof {
        assert(ch.take(c as int) =~= ch);
    }
    let ghost own = text::deep(contexts@);
    let mut declared: Vec<String> = Vec::new();
    let mut d: usize = 0;
    while d < contexts.len()
        invariant
            d <= contexts.len(),
            own == text::deep(contexts@),
            declared_from(own, d as int, text::deep(declared@)) == declared_from(
                own,
                0,
                Seq::empty(),
            ),
        decreases contexts.len() - d,
    {
        text::extend(&mut declared, &contexts[d].plugin_modules);
        d += 1;
    }
    let ghost ds = text::deep(declared@);
    let mut i: usize = 0;
    while i < declared.len()
        invariant
            i <= declared.len(),
            ds == text::deep(declared@),
            contexts_of(k@, m@) == with_plugins(k@, ds, m@.dir, 0, own),
            with_plugins(k@, ds, m@.dir, i as int, text::deep(contexts@)) == with_plugins(
                k@,
                ds,
                m@.dir,
                0,
                own,
            ),
        decreases declared.len() - i,
    {
        match resolve_ref(k, &ModuleRef::Absolute(declared[i].clone()), &m.dir) {
            Err(q) => {
                return Err(q);
            },
            Ok(Some(target)) => {
                contexts.push(target);
            },
            Ok(None) => {},
        }
        i += 1;
    }
    Ok(contexts)
}

// ---------------------------------------------------------------------------
// Modules that are left out
// ---------------------------------------------------------------------------

/// Does an entry of `collect_ignore` name the module?
pub open spec fn ignored_by_name(conftest: ModuleView, path: Seq<Seq<char>>) -> bool {
    exists|i: int|
        0 <= i < conftest.collect_ignore.len() && crate::path::child(
            conftest.dir,
            #[trigger] conftest.collect_ignore[i],
        ) == path
}

/// Does a pattern of `collect_ignore_glob` match the module's path below the
/// conftest's directory?
pub open spec fn ignored_by_glob(conftest: ModuleView, path: Seq<Seq<char>>) -> bool {
    match crate::path::relative_to(path, conftest.dir) {
        Some(rel) => exists|i: int|
            0 <= i < conftest.collect_ignore_glob.len() && crate::glob::glob_matches(
                #[trigger] conftest.collect_ignore_glob[i],
                crate::path::shown(rel),
            ),
        None => false,
    }
}

/// Does a conftest leave the module out?
pub open spec fn ignored_by(conftest: ModuleView, path: Seq<Seq<char>>) -> bool {
    ignored_by_name(conftest, path) || ignored_by_glob(conftest, path)
}

/// Does a module around the first one leave it out?
pub open spec fn is_ignored(contexts: Seq<ModuleView>, path: Seq<Seq<char>>) -> bool {
    exists|i: int| 1 <= i < contexts.len() && ignored_by(#[trigger] contexts[i], path)
}

fn ignores_by_name(conftest: &Module, path: &FilePath) -> (r: bool)
    ensures
        r == ignored_by_name(conftest@, path@),
{
    let ghost es = conftest@.collect_ignore;
    let mut i: usize = 0;
    while i < conftest.collect_ignore.len()
        invariant
            i <= conftest.collect_ignore.len(),
            es == text::deep(conftest.collect_ignore@),
            es == conftest@.collect_ignore,
            forall|j: int|
                0 <= j < i ==> crate::path::child(conftest@.dir, #[trigger] es[j]) != path@,
        decreases conftest.collect_ignore.len() - i,
    {
        let at: FilePath = conftest.dir.child(conftest.collect_ignore[i].as_str());
        if at.equals(path) {
            proof {
                assert(crate::path::child(conftest@.dir, es[i as int]) == path@);
            }
            return true;
        }
        i += 1;
    }
    false
}

fn ignores_by_glob(conftest: &Module, path: &FilePath) -> (r: bool)
    ensures
        r == ignored_by_glob(conftest@, path@),
{
    let rel: String = match path.strip(&conftest.dir) {
        Some(p) => p.display(),
        None => {
            return false;
        },
    };
    let ghost es = conftest@.collect_ignore_glob;
    let mut i: usize = 0;
    while i < conftest.collect_ignore_glob.len()
        invariant
            i <= conftest.collect_ignore_glob.len(),
            es == text::deep(conftest.collect_ignore_glob@),
            es == conftest@.collect_ignore_glob,
            crate::path::relative_to(path@, conftest@.dir) is Some,
            rel@ == crate::path::shown(crate::path::relative_to(path@, conftest@.dir)->0),
            forall|j: int| 0 <= j < i ==> !crate::glob::glob_matches(#[trigger] es[j], rel@),
        decreases conftest.collect_ignore_glob.len() - i,
    {
        match Pattern::new(conftest.collect_ignore_glob[i].as_str()) {
            Some(p) => {
                proof {
                    crate::glob::law_compiled_matches_the_same(es[i as int], rel@);
                }
                if p.matches(rel.as_str()) {
                    proof {
                        assert(crate::glob::glob_matches(es[i as int], rel@));
                    }
                    return true;
                }
            },
            None => {},
        }
        i += 1;
    }
    false
}

fn ignores<'a>(contexts: &Vec<&'a Module>, path: &FilePath) -> (r: bool)
    ensures
        r == is_ignored(text::deep(contexts@), path@),
{
    let ghost cs = text::deep(contexts@);
    let mut i: usize = 1;
    while i < contexts.len()
        invariant
            1 <= i,
            cs == text::deep(contexts@),
            forall|j: int| 1 <= j < i && j < cs.len() ==> !ignored_by(#[trigger] cs[j], path@),
        decreases contexts.len() - i,
    {
        if ignores_by_name(contexts[i], path) || ignores_by_glob(contexts[i], path) {
            proof {
                assert(ignored_by(cs[i as int], path@));
            }
            return true;
        }
        i += 1;
    }
    false
}

/// Does the function `name` of a module skip the module that calls it?
pub open spec fn skips_when_called(m: ModuleView, name: Seq<char>) -> bool {
    crate::table::find(m.functions, name) matches Some(def) && def.skips_module
}

/// Does a helper that the module calls, from position `i` on, skip it?
pub open spec fn helpers_skip(
    k: KnowledgeView,
    m: ModuleView,
    i: int,
) -> Result<bool, QueryView>
    decreases m.helper_calls.len() - i,
{
    if i < 0 || i >= m.helper_calls.len() {
        Ok(false)
    } else if skips_when_called(m, m.helper_calls[i]) {
        Ok(true)
    } else {
        match crate::symbols::any_symbol(
            k,
            m,
            m.helper_calls[i],
            crate::symbols::HOPS as nat,
        ) {
            Err(q) => Err(q),
            Ok(Some((target, name))) => if skips_when_called(target, name) {
                Ok(true)
            } else {
                helpers_skip(k, m, i + 1)
            },
            Ok(None) => helpers_skip(k, m, i + 1),
        }
    }
}

/// Can the interpreter import all modules that are demanded, from position `i`
/// on?
pub open spec fn all_importable(
    k: KnowledgeView,
    names: Seq<Seq<char>>,
    i: int,
) -> Result<bool, QueryView>
    decreases names.len() - i,
{
    if i < 0 || i >= names.len() {
        Ok(true)
    } else {
        match resolve::importable(k, names[i]) {
            Ok(true) => all_importable(k, names, i + 1),
            other => other,
        }
    }
}

/// The modules that those from position `i` on demand, behind those in `out`.
pub open spec fn demanded_from(
    contexts: Seq<ModuleView>,
    i: int,
    out: Seq<Seq<char>>,
) -> Seq<Seq<char>>
    decreases contexts.len() - i,
{
    if i < 0 || i >= contexts.len() {
        out
    } else {
        demanded_from(contexts, i + 1, out + contexts[i].skip_requires)
    }
}

/// Does one of the modules skip itself?
pub open spec fn any_module_skip(contexts: Seq<ModuleView>) -> bool {
    exists|i: int| 0 <= i < contexts.len() && (#[trigger] contexts[i]).has_module_skip
}

/// Does the module drop out in the environment that can be asked? A
/// module-level skip in scope, a helper that skips, or a demanded module that
/// cannot be imported drops it.
pub open spec fn drops_out(
    k: KnowledgeView,
    m: ModuleView,
    contexts: Seq<ModuleView>,
) -> Result<bool, QueryView> {
    if !k.probing {
        Ok(false)
    } else if any_module_skip(contexts) {
        Ok(true)
    } else {
        match helpers_skip(k, m, 0) {
            Err(q) => Err(q),
            Ok(true) => Ok(true),
            Ok(false) => match all_importable(k, demanded_from(contexts, 0, Seq::empty()), 0) {
                Err(q) => Err(q),
                Ok(b) => Ok(!b),
            },
        }
    }
}

fn skips_module_when_called(m: &Module, name: &str) -> (r: bool)
    ensures
        r == skips_when_called(m@, name@),
{
    match m.functions.get(name) {
        Some(def) => def.skips_module,
        None => false,
    }
}

fn some_helper_skips(k: &Knowledge, m: &Module) -> (r: Result<bool, Query>)
    ensures
        resolve::told(r) == helpers_skip(k@, m@, 0),
{
    let mut i: usize = 0;
    while i < m.helper_calls.len()
        invariant
            i <= m.helper_calls.len(),
            helpers_skip(k@, m@, i as int) == helpers_skip(k@, m@, 0),
        decreases m.helper_calls.len() - i,
    {
        if skips_module_when_called(m, m.helper_calls[i].as_str()) {
            return Ok(true);
        }
        match resolve_symbol_or_function(k, m, m.helper_calls[i].as_str()) {
            Err(q) => {
                return Err(q);
            },
            Ok(Some((target, name))) => {
                if skips_module_when_called(target, name.as_str()) {
                    return Ok(true);
                }
            },
            Ok(None) => {},
        }
        i += 1;
    }
    Ok(false)
}

fn can_import_all(k: &Knowledge, names: &Vec<String>) -> (r: Result<bool, Query>)
    ensures
        resolve::told(r) == all_importable(k@, text::deep(names@), 0),
{
    let ghost ns = text::deep(names@);
    let mut i: usize = 0;
    while i < names.len()
        invariant
            i <= names.len(),
            ns == text::deep(names@),
            all_importable(k@, ns, i as int) == all_importable(k@, ns, 0),
        decreases names.len() - i,
    {
        match k.probe_ok(names[i].as_str()) {
            Err(q) => {
                return Err(q);
            },
            Ok(true) => {},
            Ok(false) => {
                return Ok(false);
            },
        }
        i += 1;
    }
    Ok(true)
}

fn has_dropped_out<'a>(k: &Knowledge, m: &Module, contexts: &Vec<&'a Module>) -> (r: Result<
    bool,
    Query,
>)
    ensures
        resolve::told(r) == drops_out(k@, m@, text::deep(contexts@)),
{
    if !k.probing {
        return Ok(false);
    }
    let ghost cs = text::deep(contexts@);
    let mut demanded: Vec<String> = Vec::new();
    let mut i: usize = 0;
    while i < contexts.len()
        invariant
            i <= contexts.len(),
            k@.probing,
            cs == text::deep(contexts@),
            demanded_from(cs, i as int, text::deep(demanded@)) == demanded_from(
                cs,
                0,
                Seq::empty(),
            ),
            forall|j: int| 0 <= j < i ==> !(#[trigger] cs[j]).has_module_skip,
        decreases contexts.len() - i,
    {
        if contexts[i].has_module_skip {
            proof {
                assert(cs[i as int].has_module_skip);
            }
            return Ok(true);
        }
        text::extend(&mut demanded, &contexts[i].skip_requires);
        i += 1;
    }
    match some_helper_skips(k, m) {
        Err(q) => {
            return Err(q);
        },
        Ok(true) => {
            return Ok(true);
        },
        Ok(false) => {},
    }
    match can_import_all(k, &demanded) {
        Err(q) => Err(q),
        Ok(b) => Ok(!b),
    }
}

// ---------------------------------------------------------------------------
// Dead definitions
// ---------------------------------------------------------------------------

/// The truth of a guard, as far as it can be told: of an imported predicate
/// with a constant result, or of whether the interpreter can import a module.
pub open spec fn guard_truth(
    k: KnowledgeView,
    m: ModuleView,
    g: GuardView,
) -> Result<Option<bool>, QueryView> {
    match g {
        GuardView::Call(name, negated) => match crate::symbols::any_symbol(
            k,
            m,
            name,
            crate::symbols::HOPS as nat,
        ) {
            Err(q) => Err(q),
            Ok(None) => Ok(None),
            Ok(Some((target, resolved))) => Ok(
                match crate::table::find(target.functions, resolved) {
                    Some(def) => match def.returns_const {
                        Some(v) => Some(v != negated),
                        None => None,
                    },
                    None => None,
                },
            ),
        },
        GuardView::Binding(dep, negated) => if k.probing {
            match resolve::importable(k, dep) {
                Err(q) => Err(q),
                Ok(b) => Ok(Some(b != negated)),
            }
        } else {
            Ok(None)
        },
    }
}

/// The names of dead branches, and those of branches that run or may run.
pub struct Branches {
    pub dead: Seq<Seq<char>>,
    pub alive: Seq<Seq<char>>,
}

/// The names of the guarded branches from position `i` on, behind those in `b`.
pub open spec fn branches_from(
    k: KnowledgeView,
    m: ModuleView,
    i: int,
    b: Branches,
) -> Result<Branches, QueryView>
    decreases m.cond_blocks.len() - i,
{
    if i < 0 || i >= m.cond_blocks.len() {
        Ok(b)
    } else {
        match guard_truth(k, m, m.cond_blocks[i].guard) {
            Err(q) => Err(q),
            Ok(Some(false)) => branches_from(
                k,
                m,
                i + 1,
                Branches { dead: b.dead + m.cond_blocks[i].names, ..b },
            ),
            Ok(_) => branches_from(
                k,
                m,
                i + 1,
                Branches { alive: b.alive + m.cond_blocks[i].names, ..b },
            ),
        }
    }
}

/// Is a name defined in dead branches only?
pub open spec fn is_dead(b: Branches, m: ModuleView, name: Seq<char>) -> bool {
    b.dead.contains(name) && !b.alive.contains(name) && !m.certain_names.contains(name)
}

/// The names of dead branches, and those of branches that run or may run.
struct BranchesBuf {
    dead: Vec<String>,
    alive: Vec<String>,
}

impl View for BranchesBuf {
    type V = Branches;

    closed spec fn view(&self) -> Branches {
        Branches { dead: text::deep(self.dead@), alive: text::deep(self.alive@) }
    }
}

fn truth_of_guard(k: &Knowledge, m: &Module, g: &Guard) -> (r: Result<Option<bool>, Query>)
    ensures
        match r {
            Ok(t) => guard_truth(k@, m@, g@) == Ok::<Option<bool>, QueryView>(t),
            Err(q) => guard_truth(k@, m@, g@) == Err::<Option<bool>, QueryView>(q@),
        },
{
    match g {
        Guard::Call(name, negated) => match resolve_symbol_or_function(k, m, name.as_str()) {
            Err(q) => Err(q),
            Ok(None) => Ok(None),
            Ok(Some((target, resolved))) => match target.functions.get(resolved.as_str()) {
                Some(def) => match def.returns_const {
                    Some(v) => Ok(Some(v != *negated)),
                    None => Ok(None),
                },
                None => Ok(None),
            },
        },
        Guard::Binding(dep, negated) => if k.probing {
            match k.probe_ok(dep.as_str()) {
                Err(q) => Err(q),
                Ok(b) => Ok(Some(b != *negated)),
            }
        } else {
            Ok(None)
        },
    }
}

fn sort_branches(k: &Knowledge, m: &Module) -> (r: Result<BranchesBuf, Query>)
    ensures
        resolve::told(r) == branches_from(
            k@,
            m@,
            0,
            Branches { dead: Seq::empty(), alive: Seq::empty() },
        ),
{
    let mut b: BranchesBuf = BranchesBuf { dead: Vec::new(), alive: Vec::new() };
    let ghost start = b@;
    let mut i: usize = 0;
    while i < m.cond_blocks.len()
        invariant
            i <= m.cond_blocks.len(),
            start == (Branches { dead: Seq::empty(), alive: Seq::empty() }),
            branches_from(k@, m@, i as int, b@) == branches_from(k@, m@, 0, start),
        decreases m.cond_blocks.len() - i,
    {
        match truth_of_guard(k, m, &m.cond_blocks[i].guard) {
            Err(q) => {
                return Err(q);
            },
            Ok(Some(false)) => {
                text::extend(&mut b.dead, &m.cond_blocks[i].names);
            },
            Ok(_) => {
                text::extend(&mut b.alive, &m.cond_blocks[i].names);
            },
        }
        i += 1;
    }
    Ok(b)
}

fn dead_name(b: &BranchesBuf, m: &Module, name: &str) -> (r: bool)
    ensures
        r == is_dead(b@, m@, name@),
{
    text::is_in(&b.dead, name) && !text::is_in(&b.alive, name) && !text::is_in(
        &m.certain_names,
        name,
    )
}

// ---------------------------------------------------------------------------
// The tests of a module
// ---------------------------------------------------------------------------

/// The IDs of the tests that a module defines, from the definition at position
/// `i` on, behind those in `out`.
pub open spec fn defined_ids(
    k: KnowledgeView,
    c: ConfigView,
    m: ModuleView,
    b: Branches,
    s: SurroundingsView,
    marker: Option<KExprView>,
    i: int,
    out: Seq<Seq<char>>,
) -> Result<Seq<Seq<char>>, QueryView>
    decreases m.order.len() - i,
{
    if i < 0 || i >= m.order.len() {
        Ok(out)
    } else if is_dead(b, m, TopItem::name_of(m.order[i])) {
        defined_ids(k, c, m, b, s, marker, i + 1, out)
    } else {
        let here = match m.order[i] {
            TopItemView::Func(def) => if crate::config::any_name_hit(c.python_functions, def.name) {
                match emit::function_ids(k, m, def, def.name, s, marker) {
                    Ok(ids) => Ok(out + ids),
                    Err(q) => Err(q),
                }
            } else {
                Ok(out)
            },
            TopItemView::Class(name) => match crate::table::find(m.classes, name) {
                Some(class) => emit::class_ids(
                    k,
                    c,
                    m,
                    class,
                    name,
                    s,
                    marker,
                    Seq::empty(),
                    out,
                ),
                None => Ok(out),
            },
        };
        match here {
            Err(q) => Err(q),
            Ok(next) => defined_ids(k, c, m, b, s, marker, i + 1, next),
        }
    }
}

/// The IDs with those of the synthetic test case classes from position `i` on:
/// a test case whose single test method is `runTest`.
pub open spec fn with_synthetic(
    m: ModuleView,
    b: Branches,
    marker: Option<KExprView>,
    i: int,
    out: Seq<Seq<char>>,
) -> Seq<Seq<char>>
    decreases m.synthetic_testcases.len() - i,
{
    if i < 0 || i >= m.synthetic_testcases.len() {
        out
    } else {
        let name = m.synthetic_testcases[i];
        with_synthetic(
            m,
            b,
            marker,
            i + 1,
            if is_dead(b, m, name) || crate::table::find(m.classes, name) is Some
                || !emit::selected(marker, m.pytestmark) {
                out
            } else {
                out.push(name + "::runTest"@)
            },
        )
    }
}

/// The IDs of the tests that an import brings into a module under the name
/// `local`, behind those in `out`: pytest collects over the module namespace.
/// A local definition shadows the import.
pub open spec fn imported_ids(
    k: KnowledgeView,
    c: ConfigView,
    m: ModuleView,
    s: SurroundingsView,
    marker: Option<KExprView>,
    local: Seq<char>,
    import: ImportView,
    out: Seq<Seq<char>>,
) -> Result<Seq<Seq<char>>, QueryView> {
    let as_class = crate::config::any_name_hit(c.python_classes, local);
    let as_function = crate::config::any_name_hit(c.python_functions, local);
    match import {
        ImportView::Module(_) => Ok(out),
        ImportView::From(mref, orig) => if (!as_class && !as_function) || crate::table::find(
            m.classes,
            local,
        ) is Some || crate::table::find(m.functions, local) is Some
            || crate::symbols::unittest_ref(mref, orig) {
            Ok(out)
        } else {
            match resolve::referred(k, mref, m.dir) {
                Err(q) => Err(q),
                Ok(None) => Ok(out),
                Ok(Some(first)) => match crate::symbols::any_symbol(
                    k,
                    first,
                    orig,
                    crate::symbols::HOPS as nat,
                ) {
                    Err(q) => Err(q),
                    Ok(None) => Ok(out),
                    Ok(Some((target, name))) => match (
                        crate::table::find(target.classes, name),
                        crate::table::find(target.functions, name),
                    ) {
                        (Some(class), _) if as_class => emit::class_ids(
                            k,
                            c,
                            target,
                            class,
                            local,
                            s,
                            marker,
                            Seq::empty(),
                            out,
                        ),
                        (_, Some(def)) if as_function => match emit::function_ids(
                            k,
                            target,
                            def,
                            local,
                            s,
                            marker,
                        ) {
                            Ok(ids) => Ok(out + ids),
                            Err(q) => Err(q),
                        },
                        _ => Ok(out),
                    },
                },
            }
        },
    }
}

/// The IDs of the tests that the imports of a module from position `i` on bring
/// in, behind those in `out`.
pub open spec fn with_imported(
    k: KnowledgeView,
    c: ConfigView,
    m: ModuleView,
    s: SurroundingsView,
    marker: Option<KExprView>,
    i: int,
    out: Seq<Seq<char>>,
) -> Result<Seq<Seq<char>>, QueryView>
    decreases m.imports.len() - i,
{
    if i < 0 || i >= m.imports.len() {
        Ok(out)
    } else {
        match imported_ids(k, c, m, s, marker, m.imports[i].0, m.imports[i].1, out) {
            Err(q) => Err(q),
            Ok(next) => with_imported(k, c, m, s, marker, i + 1, next),
        }
    }
}

/// Can a hook or fixture in scope add parameters that cannot be seen?
pub open spec fn is_poisoned(contexts: Seq<ModuleView>) -> bool {
    exists|i: int|
        0 <= i < contexts.len() && ((#[trigger] contexts[i]).has_generate_tests
            || crate::fixtures::autouse_params(contexts[i].fixtures))
}

/// What governs the tests of a module.
pub open spec fn surroundings_of(m: ModuleView, contexts: Seq<ModuleView>) -> SurroundingsView {
    SurroundingsView { contexts, pytestmark: m.pytestmark, poisoned: is_poisoned(contexts) }
}

/// The IDs of the tests that a module defines and imports, given what governs
/// them.
pub open spec fn ids_in(
    k: KnowledgeView,
    c: ConfigView,
    m: ModuleView,
    s: SurroundingsView,
    marker: Option<KExprView>,
) -> Result<Seq<Seq<char>>, QueryView> {
    match branches_from(k, m, 0, Branches { dead: Seq::empty(), alive: Seq::empty() }) {
        Err(q) => Err(q),
        Ok(b) => match defined_ids(k, c, m, b, s, marker, 0, Seq::empty()) {
            Err(q) => Err(q),
            Ok(ids) => with_imported(
                k,
                c,
                m,
                s,
                marker,
                0,
                with_synthetic(m, b, marker, 0, ids),
            ),
        },
    }
}

/// The node IDs, inside it, of the tests of a module.
pub open spec fn module_ids(
    k: KnowledgeView,
    c: ConfigView,
    m: ModuleView,
    marker: Option<KExprView>,
) -> Result<Seq<Seq<char>>, QueryView> {
    match contexts_of(k, m) {
        Err(q) => Err(q),
        Ok(contexts) => if is_ignored(contexts, m.path) {
            Ok(Seq::empty())
        } else {
            match drops_out(k, m, contexts) {
                Err(q) => Err(q),
                Ok(true) => Ok(Seq::empty()),
                Ok(false) => ids_in(k, c, m, surroundings_of(m, contexts), marker),
            }
        },
    }
}

fn emit_defined<'a>(
    k: &Knowledge,
    c: &Config,
    m: &Module,
    b: &BranchesBuf,
    s: &Surroundings<'a>,
    marker: Option<&KExpr>,
) -> (r: Result<Vec<String>, Query>)
    ensures
        resolve::told_all(r) == defined_ids(
            k@,
            c@,
            m@,
            b@,
            s@,
            text::opt(marker),
            0,
            Seq::empty(),
        ),
{
    let ghost mk = text::opt(marker);
    let none: Vec<String> = Vec::new();
    let mut out: Vec<String> = Vec::new();
    let mut i: usize = 0;
    while i < m.order.len()
        invariant
            i <= m.order.len(),
            mk == text::opt(marker),
            text::deep(none@) == Seq::<Seq<char>>::empty(),
            defined_ids(k@, c@, m@, b@, s@, mk, i as int, text::deep(out@)) == defined_ids(
                k@,
                c@,
                m@,
                b@,
                s@,
                mk,
                0,
                Seq::empty(),
            ),
        decreases m.order.len() - i,
    {
        if !dead_name(b, m, m.order[i].name()) {
            match &m.order[i] {
                TopItem::Func(def) => {
                    if c.function_matches(def.name.as_str()) {
                        match emit::ids_of_function(k, m, def, def.name.as_str(), s, marker) {
                            Err(q) => {
                                return Err(q);
                            },
                            Ok(ids) => {
                                text::extend(&mut out, &ids);
                            },
                        }
                    }
                },
                TopItem::Class(name) => match m.classes.get(name.as_str()) {
                    Some(class) => {
                        out = match emit_class(
                            k,
                            c,
                            m,
                            class,
                            name.as_str(),
                            s,
                            marker,
                            &none,
                            out,
                        ) {
                            Ok(ids) => ids,
                            Err(q) => {
                                return Err(q);
                            },
                        };
                    },
                    None => {},
                },
            }
        }
        i += 1;
    }
    Ok(out)
}

fn emit_synthetic(m: &Module, b: &BranchesBuf, marker: Option<&KExpr>, out: &mut Vec<String>)
    ensures
        text::deep(final(out)@) == with_synthetic(
            m@,
            b@,
            text::opt(marker),
            0,
            text::deep(old(out)@),
        ),
{
    let ghost mk = text::opt(marker);
    let ghost before = text::deep(out@);
    let wanted: bool = emit::is_selected(marker, &m.pytestmark);
    let mut i: usize = 0;
    while i < m.synthetic_testcases.len()
        invariant
            i <= m.synthetic_testcases.len(),
            mk == text::opt(marker),
            wanted == emit::selected(mk, m@.pytestmark),
            with_synthetic(m@, b@, mk, i as int, text::deep(out@)) == with_synthetic(
                m@,
                b@,
                mk,
                0,
                before,
            ),
        decreases m.synthetic_testcases.len() - i,
    {
        let name: &str = m.synthetic_testcases[i].as_str();
        if !dead_name(b, m, name) && !m.classes.has(name) && wanted {
            out.push(concat(name, "::runTest"));
        }
        i += 1;
    }
}

fn emit_imported<'a>(
    k: &Knowledge,
    c: &Config,
    m: &Module,
    s: &Surroundings<'a>,
    marker: Option<&KExpr>,
    local: &str,
    import: &Import,
    out: Vec<String>,
) -> (r: Result<Vec<String>, Query>)
    ensures
        resolve::told_all(r) == imported_ids(
            k@,
            c@,
            m@,
            s@,
            text::opt(marker),
            local@,
            import@,
            text::deep(out@),
        ),
{
    let as_class: bool = c.class_matches(local);
    let as_function: bool = c.function_matches(local);
    match import {
        Import::Module(_) => Ok(out),
        Import::From(mref, orig) => {
            if (!as_class && !as_function) || m.classes.has(local) || m.functions.has(local)
                || is_unittest_ref(mref, orig.as_str()) {
                return Ok(out);
            }
            let first: &Module = match resolve_ref(k, mref, &m.dir) {
                Err(q) => {
                    return Err(q);
                },
                Ok(None) => {
                    return Ok(out);
                },
                Ok(Some(t)) => t,
            };
            let (target, name): (&Module, String) = match resolve_symbol_or_function(
                k,
                first,
                orig.as_str(),
            ) {
                Err(q) => {
                    return Err(q);
                },
                Ok(None) => {
                    return Ok(out);
                },
                Ok(Some(found)) => found,
            };
            if as_class {
                match target.classes.get(name.as_str()) {
                    Some(class) => {
                        let none: Vec<String> = Vec::new();
                        return emit_class(k, c, target, class, local, s, marker, &none, out);
                    },
                    None => {},
                }
            }
            if as_function {
                match target.functions.get(name.as_str()) {
                    Some(def) => {
                        return match emit::ids_of_function(k, target, def, local, s, marker) {
                            Err(q) => Err(q),
                            Ok(ids) => {
                                let mut all: Vec<String> = out;
                                text::extend(&mut all, &ids);
                                Ok(all)
                            },
                        };
                    },
                    None => {},
                }
            }
            Ok(out)
        },
    }
}

fn poisoned<'a>(contexts: &Vec<&'a Module>) -> (r: bool)
    ensures
        r == is_poisoned(text::deep(contexts@)),
{
    let ghost cs = text::deep(contexts@);
    let mut i: usize = 0;
    while i < contexts.len()
        invariant
            i <= contexts.len(),
            cs == text::deep(contexts@),
            forall|j: int|
                0 <= j < i ==> !((#[trigger] cs[j]).has_generate_tests
                    || crate::fixtures::autouse_params(cs[j].fixtures)),
        decreases contexts.len() - i,
    {
        if contexts[i].has_generate_tests || has_autouse_params(&contexts[i].fixtures) {
            proof {
                assert(cs[i as int].has_generate_tests || crate::fixtures::autouse_params(
                    cs[i as int].fixtures,
                ));
            }
            return true;
        }
        i += 1;
    }
    false
}

fn emit_in<'a>(
    k: &Knowledge,
    c: &Config,
    m: &Module,
    s: &Surroundings<'a>,
    marker: Option<&KExpr>,
) -> (r: Result<Vec<String>, Query>)
    ensures
        resolve::told_all(r) == ids_in(k@, c@, m@, s@, text::opt(marker)),
{
    let ghost mk = text::opt(marker);
    let b: BranchesBuf = match sort_branches(k, m) {
        Ok(b) => b,
        Err(q) => {
            return Err(q);
        },
    };
    let mut out: Vec<String> = match emit_defined(k, c, m, &b, s, marker) {
        Ok(ids) => ids,
        Err(q) => {
            return Err(q);
        },
    };
    emit_synthetic(m, &b, marker, &mut out);
    let ghost start = text::deep(out@);
    let mut i: usize = 0;
    while i < m.imports.entries.len()
        invariant
            i <= m.imports.entries.len(),
            mk == text::opt(marker),
            ids_in(k@, c@, m@, s@, mk) == with_imported(k@, c@, m@, s@, mk, 0, start),
            with_imported(k@, c@, m@, s@, mk, i as int, text::deep(out@)) == with_imported(
                k@,
                c@,
                m@,
                s@,
                mk,
                0,
                start,
            ),
        decreases m.imports.entries.len() - i,
    {
        out = match emit_imported(
            k,
            c,
            m,
            s,
            marker,
            m.imports.entries[i].0.as_str(),
            &m.imports.entries[i].1,
            out,
        ) {
            Ok(ids) => ids,
            Err(q) => {
                return Err(q);
            },
        };
        i += 1;
    }
    Ok(out)
}

/// The node IDs, inside it, of the tests of a module.
pub fn emit_module(k: &Knowledge, c: &Config, m: &Module, marker: Option<&KExpr>) -> (r: Result<
    Vec<String>,
    Query,
>)
    ensures
        resolve::told_all(r) == module_ids(k@, c@, m@, text::opt(marker)),
{
    let contexts: Vec<&Module> = match gather_contexts(k, m) {
        Ok(v) => v,
        Err(q) => {
            return Err(q);
        },
    };
    if ignores(&contexts, &m.path) {
        return Ok(Vec::new());
    }
    match has_dropped_out(k, m, &contexts) {
        Err(q) => {
            return Err(q);
        },
        Ok(true) => {
            return Ok(Vec::new());
        },
        Ok(false) => {},
    }
    let poisoned: bool = poisoned(&contexts);
    let s: Surroundings = Surroundings {
        contexts,
        pytestmark: copy_list(&m.pytestmark),
        poisoned,
    };
    emit_in(k, c, m, &s, marker)
}

// ---------------------------------------------------------------------------
// All test files
// ---------------------------------------------------------------------------

/// The tests of a file.
#[derive(Debug)]
pub struct FileTests {
    /// rootdir-relative, forward-slash path: the node ID prefix.
    pub path: String,
    /// Absolute path, used to build node IDs that pytest can run from any cwd.
    pub abs_path: FilePath,
    pub tests: Vec<String>,
}

/// The tests of a file.
pub struct FileTestsView {
    pub path: Seq<char>,
    pub abs_path: Seq<Seq<char>>,
    pub tests: Seq<Seq<char>>,
}

impl View for FileTests {
    type V = FileTestsView;

    open spec fn view(&self) -> FileTestsView {
        FileTestsView {
            path: self.path@,
            abs_path: self.abs_path@,
            tests: text::deep(self.tests@),
        }
    }
}

impl FileTests {
    /// The same once more.
    pub fn copy(&self) -> (r: FileTests)
        ensures
            r@ == self@,
    {
        FileTests {
            path: self.path.clone(),
            abs_path: self.abs_path.copy(),
            tests: copy_list(&self.tests),
        }
    }
}

/// rootdir-relative, forward-slash display path (pytest's node ID prefix).
pub open spec fn shown_path(abs: Seq<Seq<char>>, rootdir: Seq<Seq<char>>) -> Seq<char> {
    crate::path::shown(
        match crate::path::relative_to(abs, rootdir) {
            Some(rel) => rel,
            None => abs,
        },
    )
}

/// rootdir-relative, forward-slash display path (pytest's node ID prefix).
pub fn display_path(abs: &FilePath, rootdir: &FilePath) -> (r: String)
    ensures
        r@ == shown_path(abs@, rootdir@),
{
    match abs.strip(rootdir) {
        Some(rel) => rel.display(),
        None => abs.display(),
    }
}

/// The tests of the file at `path`: none where it could not be parsed.
pub open spec fn file_tests(
    k: KnowledgeView,
    c: ConfigView,
    path: Seq<Seq<char>>,
    marker: Option<KExprView>,
) -> Result<FileTestsView, QueryView> {
    match resolve::module_at(k, path) {
        Err(q) => Err(q),
        Ok(found) => {
            let ids = match found {
                Some(m) => module_ids(k, c, m, marker),
                None => Ok(Seq::empty()),
            };
            match ids {
                Err(q) => Err(q),
                Ok(tests) => Ok(
                    FileTestsView { path: shown_path(path, c.rootdir), abs_path: path, tests },
                ),
            }
        },
    }
}

/// The tests of the files from position `i` on, behind those in `out`.
pub open spec fn collected(
    k: KnowledgeView,
    c: ConfigView,
    files: Seq<Seq<Seq<char>>>,
    marker: Option<KExprView>,
    i: int,
    out: Seq<FileTestsView>,
) -> Result<Seq<FileTestsView>, QueryView>
    decreases files.len() - i,
{
    if i < 0 || i >= files.len() {
        Ok(out)
    } else {
        match file_tests(k, c, files[i], marker) {
            Err(q) => Err(q),
            Ok(f) => collected(k, c, files, marker, i + 1, out.push(f)),
        }
    }
}

fn collect_file(k: &Knowledge, c: &Config, path: &FilePath, marker: Option<&KExpr>) -> (r: Result<
    FileTests,
    Query,
>)
    ensures
        resolve::told(r) == file_tests(k@, c@, path@, text::opt(marker)),
{
    let tests: Vec<String> = match k.module(path) {
        Err(q) => {
            return Err(q);
        },
        Ok(None) => Vec::new(),
        Ok(Some(m)) => match emit_module(k, c, m, marker) {
            Ok(ids) => ids,
            Err(q) => {
                return Err(q);
            },
        },
    };
    Ok(FileTests { path: display_path(path, &c.rootdir), abs_path: path.copy(), tests })
}

/// Collect the tests of all files, honoring the configuration.
pub fn collect(k: &Knowledge, c: &Config, files: &Vec<FilePath>, marker: Option<&KExpr>) -> (r:
    Result<Vec<FileTests>, Query>)
    ensures
        resolve::told_all(r) == collected(
            k@,
            c@,
            text::deep(files@),
            text::opt(marker),
            0,
            Seq::empty(),
        ),
{
    let ghost fs = text::deep(files@);
    let ghost mk = text::opt(marker);
    let mut out: Vec<FileTests> = Vec::new();
    let mut i: usize = 0;
    while i < files.len()
        invariant
            i <= files.len(),
            fs == text::deep(files@),
            mk == text::opt(marker),
            collected(k@, c@, fs, mk, i as int, text::deep(out@)) == collected(
                k@,
                c@,
                fs,
                mk,
                0,
                Seq::empty(),
            ),
        decreases files.len() - i,
    {
        match collect_file(k, c, &files[i], marker) {
            Err(q) => {
                return Err(q);
            },
            Ok(f) => {
                out.push(f);
            },
        }
        i += 1;
    }
    Ok(out)
}

/// Collect from a single source string; same-module inheritance works,
/// cross-module bases resolve against the rootdir. A text that is not Python
/// has no tests.
pub fn collect_source(source: &str, c: &Config, k: &Knowledge, os: &str) -> (r: Result<
    Vec<String>,
    Query,
>)
    requires
        python::parseable(source@),
    ensures
        resolve::told_all(r) == match python::module_source(source@) {
            Ok(stmts) => module_ids(
                k@,
                c@,
                crate::scan::module_of(
                    crate::path::child(c@.rootdir, "__cito_inline__.py"@),
                    stmts,
                    os@,
                ),
                None,
            ),
            Err(_) => Ok(Seq::empty()),
        },
{
    let path: FilePath = c.rootdir.child("__cito_inline__.py");
    match parse_source(&path, source, os) {
        Ok(m) => emit_module(k, c, &m, None),
        Err(_) => Ok(Vec::new()),
    }
}

/// The names with those that the files from position `i` on, or the conftests
/// above them, demand by `importorskip`, each once.
pub open spec fn demanded_by(
    k: KnowledgeView,
    files: Seq<Seq<Seq<char>>>,
    i: int,
    out: Seq<Seq<char>>,
) -> Result<Seq<Seq<char>>, QueryView>
    decreases files.len() - i,
{
    if i < 0 || i >= files.len() {
        Ok(out)
    } else {
        match resolve::module_at(k, files[i]) {
            Err(q) => Err(q),
            Ok(None) => demanded_by(k, files, i + 1, out),
            Ok(Some(m)) => match resolve::conftests(k, m.dir, Seq::empty()) {
                Err(q) => Err(q),
                Ok(chain) => demanded_by(
                    k,
                    files,
                    i + 1,
                    with_new(out, demanded_from(seq![m] + chain, 0, Seq::empty()), 0),
                ),
            },
        }
    }
}

/// The list with the names from position `i` on that are new.
pub open spec fn with_new(
    out: Seq<Seq<char>>,
    names: Seq<Seq<char>>,
    i: int,
) -> Seq<Seq<char>>
    decreases names.len() - i,
{
    if i < 0 || i >= names.len() {
        out
    } else {
        with_new(crate::names::with_name(out, names[i]), names, i + 1)
    }
}

pub fn add_new(out: &mut Vec<String>, names: &Vec<String>)
    ensures
        text::deep(final(out)@) == with_new(text::deep(old(out)@), text::deep(names@), 0),
{
    let ghost ns = text::deep(names@);
    let ghost before = text::deep(out@);
    let mut i: usize = 0;
    while i < names.len()
        invariant
            i <= names.len(),
            ns == text::deep(names@),
            with_new(text::deep(out@), ns, i as int) == with_new(before, ns, 0),
        decreases names.len() - i,
    {
        crate::names::add_name(out, names[i].as_str());
        i += 1;
    }
}

/// The modules that the files or the conftests above them demand by
/// `importorskip`, each once: what one launch of an interpreter can answer.
pub fn demanded_modules(k: &Knowledge, files: &Vec<FilePath>) -> (r: Result<Vec<String>, Query>)
    ensures
        resolve::told_all(r) == demanded_by(k@, text::deep(files@), 0, Seq::empty()),
{
    let ghost fs = text::deep(files@);
    let mut out: Vec<String> = Vec::new();
    let mut i: usize = 0;
    while i < files.len()
        invariant
            i <= files.len(),
            fs == text::deep(files@),
            demanded_by(k@, fs, i as int, text::deep(out@)) == demanded_by(
                k@,
                fs,
                0,
                Seq::empty(),
            ),
        decreases files.len() - i,
    {
        match k.module(&files[i]) {
            Err(q) => {
                return Err(q);
            },
            Ok(None) => {},
            Ok(Some(m)) => {
                let chain: Vec<&Module> = match conftest_chain(k, &m.dir) {
                    Ok(v) => v,
                    Err(q) => {
                        return Err(q);
                    },
                };
                let ghost ch = text::deep(chain@);
                let ghost all = seq![m@] + ch;
                let mut names: Vec<String> = copy_list(&m.skip_requires);
                proof {
                    assert(Seq::<Seq<char>>::empty() + m@.skip_requires =~= m@.skip_requires);
                    assert(all[0] == m@);
                }
                let mut c: usize = 0;
                while c < chain.len()
                    invariant
                        c <= chain.len(),
                        ch == text::deep(chain@),
                        all == seq![m@] + ch,
                        demanded_from(all, c + 1, text::deep(names@)) == demanded_from(
                            all,
                            0,
                            Seq::empty(),
                        ),
                    decreases chain.len() - c,
                {
                    proof {
                        assert(all[c + 1] == ch[c as int]);
                    }
                    text::extend(&mut names, &chain[c].skip_requires);
                    c += 1;
                }
                add_new(&mut out, &names);
            },
        }
        i += 1;
    }
    Ok(out)
}

/// Is a path, or a directory that it lies in, among those to leave out?
pub open spec fn left_out(path: Seq<Seq<char>>, ignore: Seq<Seq<Seq<char>>>) -> bool {
    exists|i: int| 0 <= i < ignore.len() && (#[trigger] ignore[i]).is_prefix_of(path)
}

/// Is a path, or a directory that it lies in, among those that `--ignore`
/// names?
pub fn is_left_out(path: &FilePath, ignore: &Vec<FilePath>) -> (r: bool)
    ensures
        r == left_out(path@, text::deep(ignore@)),
{
    let ghost is = text::deep(ignore@);
    let mut i: usize = 0;
    while i < ignore.len()
        invariant
            i <= ignore.len(),
            is == text::deep(ignore@),
            forall|j: int| 0 <= j < i ==> !(#[trigger] is[j]).is_prefix_of(path@),
        decreases ignore.len() - i,
    {
        if path.starts_with(&ignore[i]) {
            proof {
                assert(is[i as int].is_prefix_of(path@));
            }
            return true;
        }
        i += 1;
    }
    false
}

// ---------------------------------------------------------------------------
// Laws
// ---------------------------------------------------------------------------

proof fn plugins_stay(
    k: KnowledgeView,
    more: KnowledgeView,
    plugins: Seq<Seq<char>>,
    dir: Seq<Seq<char>>,
    i: int,
    out: Seq<ModuleView>,
)
    requires
        resolve::extends(k, more),
        0 <= i,
        with_plugins(k, plugins, dir, i, out) is Ok,
    ensures
        with_plugins(more, plugins, dir, i, out) == with_plugins(k, plugins, dir, i, out),
    decreases plugins.len() - i,
{
    if i < plugins.len() {
        let mref = ModuleRefView::Absolute(plugins[i]);
        resolve::law_references_stay(k, more, mref, dir);
        let next = match resolve::referred(k, mref, dir)->Ok_0 {
            Some(m) => out.push(m),
            None => out,
        };
        plugins_stay(k, more, plugins, dir, i + 1, next);
    }
}

proof fn helpers_stay(k: KnowledgeView, more: KnowledgeView, m: ModuleView, i: int)
    requires
        resolve::extends(k, more),
        0 <= i,
        helpers_skip(k, m, i) is Ok,
    ensures
        helpers_skip(more, m, i) == helpers_skip(k, m, i),
    decreases m.helper_calls.len() - i,
{
    if i < m.helper_calls.len() && !skips_when_called(m, m.helper_calls[i]) {
        let hops = crate::symbols::HOPS as nat;
        crate::symbols::law_symbols_stay(k, more, m, m.helper_calls[i], hops);
        match crate::symbols::any_symbol(k, m, m.helper_calls[i], hops)->Ok_0 {
            Some((target, name)) => {
                if !skips_when_called(target, name) {
                    helpers_stay(k, more, m, i + 1);
                }
            },
            None => {
                helpers_stay(k, more, m, i + 1);
            },
        }
    }
}

proof fn importable_stays(k: KnowledgeView, more: KnowledgeView, name: Seq<char>)
    requires
        resolve::extends(k, more),
        resolve::importable(k, name) is Ok,
    ensures
        resolve::importable(more, name) == resolve::importable(k, name),
{
    if k.probing {
        assert(crate::table::find(more.probes, name) == crate::table::find(k.probes, name));
    }
}

proof fn imports_stay(k: KnowledgeView, more: KnowledgeView, names: Seq<Seq<char>>, i: int)
    requires
        resolve::extends(k, more),
        0 <= i,
        all_importable(k, names, i) is Ok,
    ensures
        all_importable(more, names, i) == all_importable(k, names, i),
    decreases names.len() - i,
{
    if i < names.len() {
        importable_stays(k, more, names[i]);
        if resolve::importable(k, names[i]) == Ok::<bool, QueryView>(true) {
            imports_stay(k, more, names, i + 1);
        }
    }
}

proof fn drop_out_stays(
    k: KnowledgeView,
    more: KnowledgeView,
    m: ModuleView,
    contexts: Seq<ModuleView>,
)
    requires
        resolve::extends(k, more),
        drops_out(k, m, contexts) is Ok,
    ensures
        drops_out(more, m, contexts) == drops_out(k, m, contexts),
{
    if k.probing && !any_module_skip(contexts) {
        helpers_stay(k, more, m, 0);
        if helpers_skip(k, m, 0) == Ok::<bool, QueryView>(false) {
            imports_stay(k, more, demanded_from(contexts, 0, Seq::empty()), 0);
        }
    }
}

proof fn branches_stay(
    k: KnowledgeView,
    more: KnowledgeView,
    m: ModuleView,
    i: int,
    b: Branches,
)
    requires
        resolve::extends(k, more),
        0 <= i,
        branches_from(k, m, i, b) is Ok,
    ensures
        branches_from(more, m, i, b) == branches_from(k, m, i, b),
    decreases m.cond_blocks.len() - i,
{
    if i < m.cond_blocks.len() {
        match m.cond_blocks[i].guard {
            GuardView::Call(name, _) => {
                crate::symbols::law_symbols_stay(
                    k,
                    more,
                    m,
                    name,
                    crate::symbols::HOPS as nat,
                );
            },
            GuardView::Binding(dep, _) => {
                if k.probing {
                    importable_stays(k, more, dep);
                }
            },
        }
        let names = m.cond_blocks[i].names;
        let next = if guard_truth(k, m, m.cond_blocks[i].guard)->Ok_0 == Some(false) {
            Branches { dead: b.dead + names, ..b }
        } else {
            Branches { alive: b.alive + names, ..b }
        };
        branches_stay(k, more, m, i + 1, next);
    }
}

proof fn defined_stay(
    k: KnowledgeView,
    more: KnowledgeView,
    c: ConfigView,
    m: ModuleView,
    b: Branches,
    s: SurroundingsView,
    marker: Option<KExprView>,
    i: int,
    out: Seq<Seq<char>>,
)
    requires
        resolve::extends(k, more),
        0 <= i,
        defined_ids(k, c, m, b, s, marker, i, out) is Ok,
    ensures
        defined_ids(more, c, m, b, s, marker, i, out) == defined_ids(
            k,
            c,
            m,
            b,
            s,
            marker,
            i,
            out,
        ),
    decreases m.order.len() - i,
{
    if i < m.order.len() {
        if is_dead(b, m, TopItem::name_of(m.order[i])) {
            defined_stay(k, more, c, m, b, s, marker, i + 1, out);
        } else {
            match m.order[i] {
                TopItemView::Func(def) => {
                    if crate::config::any_name_hit(c.python_functions, def.name) {
                        emit::law_function_ids_stay(k, more, m, def, def.name, s, marker);
                        let ids = emit::function_ids(k, m, def, def.name, s, marker)->Ok_0;
                        defined_stay(k, more, c, m, b, s, marker, i + 1, out + ids);
                    } else {
                        defined_stay(k, more, c, m, b, s, marker, i + 1, out);
                    }
                },
                TopItemView::Class(name) => match crate::table::find(m.classes, name) {
                    Some(class) => {
                        let stack = Seq::<Seq<char>>::empty();
                        emit::law_class_ids_stay(
                            k,
                            more,
                            c,
                            m,
                            class,
                            name,
                            s,
                            marker,
                            stack,
                            out,
                        );
                        let next = emit::class_ids(
                            k,
                            c,
                            m,
                            class,
                            name,
                            s,
                            marker,
                            stack,
                            out,
                        )->Ok_0;
                        defined_stay(k, more, c, m, b, s, marker, i + 1, next);
                    },
                    None => {
                        defined_stay(k, more, c, m, b, s, marker, i + 1, out);
                    },
                },
            }
        }
    }
}

proof fn imported_stays(
    k: KnowledgeView,
    more: KnowledgeView,
    c: ConfigView,
    m: ModuleView,
    s: SurroundingsView,
    marker: Option<KExprView>,
    local: Seq<char>,
    import: ImportView,
    out: Seq<Seq<char>>,
)
    requires
        resolve::extends(k, more),
        imported_ids(k, c, m, s, marker, local, import, out) is Ok,
    ensures
        imported_ids(more, c, m, s, marker, local, import, out) == imported_ids(
            k,
            c,
            m,
            s,
            marker,
            local,
            import,
            out,
        ),
{
    let as_class = crate::config::any_name_hit(c.python_classes, local);
    let as_function = crate::config::any_name_hit(c.python_functions, local);
    match import {
        ImportView::Module(_) => {},
        ImportView::From(mref, orig) => {
            if (as_class || as_function) && crate::table::find(m.classes, local) is None
                && crate::table::find(m.functions, local) is None
                && !crate::symbols::unittest_ref(mref, orig) {
                resolve::law_references_stay(k, more, mref, m.dir);
                match resolve::referred(k, mref, m.dir)->Ok_0 {
                    None => {},
                    Some(first) => {
                        let hops = crate::symbols::HOPS as nat;
                        crate::symbols::law_symbols_stay(k, more, first, orig, hops);
                        match crate::symbols::any_symbol(k, first, orig, hops)->Ok_0 {
                            None => {},
                            Some((target, name)) => {
                                let class = crate::table::find(target.classes, name);
                                let def = crate::table::find(target.functions, name);
                                if class is Some && as_class {
                                    emit::law_class_ids_stay(
                                        k,
                                        more,
                                        c,
                                        target,
                                        class->0,
                                        local,
                                        s,
                                        marker,
                                        Seq::empty(),
                                        out,
                                    );
                                } else if def is Some && as_function {
                                    emit::law_function_ids_stay(
                                        k,
                                        more,
                                        target,
                                        def->0,
                                        local,
                                        s,
                                        marker,
                                    );
                                }
                            },
                        }
                    },
                }
            }
        },
    }
}

proof fn all_imported_stay(
    k: KnowledgeView,
    more: KnowledgeView,
    c: ConfigView,
    m: ModuleView,
    s: SurroundingsView,
    marker: Option<KExprView>,
    i: int,
    out: Seq<Seq<char>>,
)
    requires
        resolve::extends(k, more),
        0 <= i,
        with_imported(k, c, m, s, marker, i, out) is Ok,
    ensures
        with_imported(more, c, m, s, marker, i, out) == with_imported(k, c, m, s, marker, i, out),
    decreases m.imports.len() - i,
{
    if i < m.imports.len() {
        let (local, import) = m.imports[i];
        imported_stays(k, more, c, m, s, marker, local, import, out);
        let next = imported_ids(k, c, m, s, marker, local, import, out)->Ok_0;
        all_imported_stay(k, more, c, m, s, marker, i + 1, next);
    }
}

/// The tests of a module do not depend on facts that were not asked for: once
/// they can be told, they stay the same however much more is learnt of the
/// project.
pub proof fn law_module_ids_stay(
    k: KnowledgeView,
    more: KnowledgeView,
    c: ConfigView,
    m: ModuleView,
    marker: Option<KExprView>,
)
    requires
        resolve::extends(k, more),
        module_ids(k, c, m, marker) is Ok,
    ensures
        module_ids(more, c, m, marker) == module_ids(k, c, m, marker),
{
    resolve::law_conftests_stay(k, more, m.dir, Seq::empty());
    let own = seq![m] + resolve::conftests(k, m.dir, Seq::empty())->Ok_0;
    plugins_stay(k, more, declared_from(own, 0, Seq::empty()), m.dir, 0, own);
    let contexts = contexts_of(k, m)->Ok_0;
    if !is_ignored(contexts, m.path) {
        drop_out_stays(k, more, m, contexts);
        if drops_out(k, m, contexts) == Ok::<bool, QueryView>(false) {
            let s = surroundings_of(m, contexts);
            let none = Branches { dead: Seq::empty(), alive: Seq::empty() };
            branches_stay(k, more, m, 0, none);
            let b = branches_from(k, m, 0, none)->Ok_0;
            defined_stay(k, more, c, m, b, s, marker, 0, Seq::empty());
            let ids = defined_ids(k, c, m, b, s, marker, 0, Seq::empty())->Ok_0;
            all_imported_stay(k, more, c, m, s, marker, 0, with_synthetic(m, b, marker, 0, ids));
        }
    }
}

/// Neither does what is collected from the files.
pub proof fn law_collection_stays(
    k: KnowledgeView,
    more: KnowledgeView,
    c: ConfigView,
    files: Seq<Seq<Seq<char>>>,
    marker: Option<KExprView>,
    i: int,
    out: Seq<FileTestsView>,
)
    requires
        resolve::extends(k, more),
        0 <= i <= files.len(),
        collected(k, c, files, marker, i, out) is Ok,
    ensures
        collected(more, c, files, marker, i, out) == collected(k, c, files, marker, i, out),
    decreases files.len() - i,
{
    if i < files.len() {
        let path = files[i];
        assert(crate::facts::fact(more.modules, path) == crate::facts::fact(k.modules, path));
        match resolve::module_at(k, path)->Ok_0 {
            Some(m) => {
                law_module_ids_stay(k, more, c, m, marker);
            },
            None => {},
        }
        let f = file_tests(k, c, path, marker)->Ok_0;
        law_collection_stays(k, more, c, files, marker, i + 1, out.push(f));
    }
}

proof fn defined_are_bare(
    k: KnowledgeView,
    c: ConfigView,
    m: ModuleView,
    b: Branches,
    s: SurroundingsView,
    marker: Option<KExprView>,
    i: int,
    out: Seq<Seq<char>>,
)
    requires
        s.poisoned,
        crate::inherit::all_named(k),
        crate::model::is_named(m),
        0 <= i,
        crate::model::all_bare(out),
    ensures
        defined_ids(k, c, m, b, s, marker, i, out) matches Ok(ids) ==> crate::model::all_bare(ids),
    decreases m.order.len() - i,
{
    if i < m.order.len() {
        if is_dead(b, m, TopItem::name_of(m.order[i])) {
            defined_are_bare(k, c, m, b, s, marker, i + 1, out);
        } else {
            match m.order[i] {
                TopItemView::Func(def) => {
                    if crate::config::any_name_hit(c.python_functions, def.name) {
                        emit::law_hidden_parameters_fall_back(k, m, def, def.name, s, marker);
                        match emit::function_ids(k, m, def, def.name, s, marker) {
                            Err(_) => {},
                            Ok(ids) => {
                                defined_are_bare(k, c, m, b, s, marker, i + 1, out + ids);
                            },
                        }
                    } else {
                        defined_are_bare(k, c, m, b, s, marker, i + 1, out);
                    }
                },
                TopItemView::Class(name) => match crate::table::find(m.classes, name) {
                    Some(class) => {
                        let stack = Seq::<Seq<char>>::empty();
                        crate::inherit::found_is_named(m, name);
                        emit::law_poisoned_class_ids_are_bare(
                            k,
                            c,
                            m,
                            class,
                            name,
                            s,
                            marker,
                            stack,
                            out,
                        );
                        match emit::class_ids(k, c, m, class, name, s, marker, stack, out) {
                            Err(_) => {},
                            Ok(next) => {
                                defined_are_bare(k, c, m, b, s, marker, i + 1, next);
                            },
                        }
                    },
                    None => {
                        defined_are_bare(k, c, m, b, s, marker, i + 1, out);
                    },
                },
            }
        }
    }
}

proof fn synthetic_are_bare(
    m: ModuleView,
    b: Branches,
    marker: Option<KExprView>,
    i: int,
    out: Seq<Seq<char>>,
)
    requires
        crate::model::is_named(m),
        0 <= i,
        crate::model::all_bare(out),
    ensures
        crate::model::all_bare(with_synthetic(m, b, marker, i, out)),
    decreases m.synthetic_testcases.len() - i,
{
    if i < m.synthetic_testcases.len() {
        let name = m.synthetic_testcases[i];
        reveal_strlit("::runTest");
        assert(crate::model::bare(name));
        assert(crate::model::bare(name + "::runTest"@));
        synthetic_are_bare(m, b, marker, i + 1, out);
        synthetic_are_bare(m, b, marker, i + 1, out.push(name + "::runTest"@));
    }
}

proof fn imported_are_bare(
    k: KnowledgeView,
    c: ConfigView,
    m: ModuleView,
    s: SurroundingsView,
    marker: Option<KExprView>,
    i: int,
    out: Seq<Seq<char>>,
)
    requires
        s.poisoned,
        crate::inherit::all_named(k),
        crate::model::is_named(m),
        0 <= i,
        crate::model::all_bare(out),
    ensures
        with_imported(k, c, m, s, marker, i, out) matches Ok(ids) ==> crate::model::all_bare(ids),
    decreases m.imports.len() - i,
{
    if i < m.imports.len() {
        let (local, import) = m.imports[i];
        assert(crate::model::bare(m.imports[i].0));
        import_is_bare(k, c, m, s, marker, local, import, out);
        match imported_ids(k, c, m, s, marker, local, import, out) {
            Err(_) => {},
            Ok(next) => {
                imported_are_bare(k, c, m, s, marker, i + 1, next);
            },
        }
    }
}

proof fn import_is_bare(
    k: KnowledgeView,
    c: ConfigView,
    m: ModuleView,
    s: SurroundingsView,
    marker: Option<KExprView>,
    local: Seq<char>,
    import: ImportView,
    out: Seq<Seq<char>>,
)
    requires
        s.poisoned,
        crate::inherit::all_named(k),
        crate::model::is_named(m),
        crate::model::bare(local),
        crate::model::all_bare(out),
    ensures
        imported_ids(k, c, m, s, marker, local, import, out) matches Ok(ids)
            ==> crate::model::all_bare(ids),
{
    match import {
        ImportView::Module(_) => {},
        ImportView::From(mref, orig) => {
            crate::inherit::ref_is_known(k, m, mref, m.dir);
            match resolve::referred(k, mref, m.dir) {
                Ok(Some(first)) => {
                    let hops = crate::symbols::HOPS as nat;
                    crate::inherit::symbol_source_is_known(k, m, first, orig, hops);
                    match crate::symbols::any_symbol(k, first, orig, hops) {
                        Ok(Some((target, name))) => {
                            crate::inherit::known_is_named(k, m, target);
                            let class = crate::table::find(target.classes, name);
                            let def = crate::table::find(target.functions, name);
                            if class is Some {
                                crate::inherit::found_is_named(target, name);
                                emit::law_poisoned_class_ids_are_bare(
                                    k,
                                    c,
                                    target,
                                    class->0,
                                    local,
                                    s,
                                    marker,
                                    Seq::empty(),
                                    out,
                                );
                            }
                            if def is Some {
                                emit::law_hidden_parameters_fall_back(
                                    k,
                                    target,
                                    def->0,
                                    local,
                                    s,
                                    marker,
                                );
                            }
                        },
                        _ => {},
                    }
                },
                _ => {},
            }
        },
    }
}

/// Where a `pytest_generate_tests` hook or a parametrized autouse fixture is in
/// scope of a module, in the module itself, a conftest above it or a declared
/// plugin, no ID of the module's tests has a bracket: all of them are bare
/// names.
pub proof fn law_poisoned_module_ids_are_bare(
    k: KnowledgeView,
    c: ConfigView,
    m: ModuleView,
    marker: Option<KExprView>,
)
    requires
        contexts_of(k, m) matches Ok(contexts) && is_poisoned(contexts),
        crate::inherit::all_named(k),
        crate::model::is_named(m),
    ensures
        module_ids(k, c, m, marker) matches Ok(ids) ==> crate::model::all_bare(ids),
{
    let s = surroundings_of(m, contexts_of(k, m)->Ok_0);
    let none = Branches { dead: Seq::empty(), alive: Seq::empty() };
    match branches_from(k, m, 0, none) {
        Err(_) => {},
        Ok(b) => {
            defined_are_bare(k, c, m, b, s, marker, 0, Seq::empty());
            match defined_ids(k, c, m, b, s, marker, 0, Seq::empty()) {
                Err(_) => {},
                Ok(ids) => {
                    synthetic_are_bare(m, b, marker, 0, ids);
                    let all = with_synthetic(m, b, marker, 0, ids);
                    imported_are_bare(k, c, m, s, marker, 0, all);
                },
            }
        },
    }
}

// ---------------------------------------------------------------------------
// Laws of scope
// ---------------------------------------------------------------------------

/// In the scope of a module's tests are the module first, then its conftests,
/// and with them each plugin that one of these declares and that can be found:
/// all of these, and no other module.
pub proof fn law_scope_of_a_module(k: KnowledgeView, m: ModuleView)
    requires
        contexts_of(k, m) is Ok,
    ensures
        resolve::conftests(k, m.dir, Seq::empty()) is Ok,
        ({
            let own = seq![m] + resolve::conftests(k, m.dir, Seq::empty())->Ok_0;
            let contexts = contexts_of(k, m)->Ok_0;
            &&& own.is_prefix_of(contexts)
            &&& forall|x: ModuleView| #[trigger]
                contexts.contains(x) <==> own.contains(x) || exists|i: int, j: int|
                0 <= i < own.len() && 0 <= j < own[i].plugin_modules.len() && resolve::referred(
                    k,
                    ModuleRefView::Absolute(#[trigger] own[i].plugin_modules[j]),
                    m.dir,
                ) == Ok::<Option<ModuleView>, QueryView>(Some(x))
        }),
{
    let own = seq![m] + resolve::conftests(k, m.dir, Seq::empty())->Ok_0;
    let plugins = declared_from(own, 0, Seq::empty());
    plugins_hold(k, plugins, m.dir, 0, own);
    let contexts = contexts_of(k, m)->Ok_0;
    assert forall|x: ModuleView| #[trigger] contexts.contains(x) <==> own.contains(x) || exists|
        i: int,
        j: int,
    |
        0 <= i < own.len() && 0 <= j < own[i].plugin_modules.len() && resolve::referred(
            k,
            ModuleRefView::Absolute(#[trigger] own[i].plugin_modules[j]),
            m.dir,
        ) == Ok::<Option<ModuleView>, QueryView>(Some(x)) by {
        if contexts.contains(x) && !own.contains(x) {
            let p = choose|p: int|
                0 <= p < plugins.len() && resolve::referred(
                    k,
                    ModuleRefView::Absolute(#[trigger] plugins[p]),
                    m.dir,
                ) == Ok::<Option<ModuleView>, QueryView>(Some(x));
            declared_hold(own, 0, Seq::empty(), plugins[p]);
            assert(plugins.contains(plugins[p]));
            let i = choose|i: int|
                0 <= i < own.len() && (#[trigger] own[i]).plugin_modules.contains(plugins[p]);
            let j = own[i].plugin_modules.index_of(plugins[p]);
            assert(own[i].plugin_modules[j] == plugins[p]);
        }
        if exists|i: int, j: int|
            0 <= i < own.len() && 0 <= j < own[i].plugin_modules.len() && resolve::referred(
                k,
                ModuleRefView::Absolute(#[trigger] own[i].plugin_modules[j]),
                m.dir,
            ) == Ok::<Option<ModuleView>, QueryView>(Some(x)) {
            let (i, j) = choose|i: int, j: int|
                0 <= i < own.len() && 0 <= j < own[i].plugin_modules.len() && resolve::referred(
                    k,
                    ModuleRefView::Absolute(#[trigger] own[i].plugin_modules[j]),
                    m.dir,
                ) == Ok::<Option<ModuleView>, QueryView>(Some(x));
            let name = own[i].plugin_modules[j];
            assert(own[i].plugin_modules.contains(name));
            declared_hold(own, 0, Seq::empty(), name);
            let p = plugins.index_of(name);
            assert(plugins[p] == name);
        }
    }
}

proof fn declared_hold(
    contexts: Seq<ModuleView>,
    i: int,
    out: Seq<Seq<char>>,
    x: Seq<char>,
)
    requires
        0 <= i <= contexts.len(),
    ensures
        declared_from(contexts, i, out).contains(x) <==> out.contains(x) || exists|j: int|
            i <= j < contexts.len() && (#[trigger] contexts[j]).plugin_modules.contains(x),
    decreases contexts.len() - i,
{
    if i < contexts.len() {
        declared_hold(contexts, i + 1, out + contexts[i].plugin_modules, x);
        crate::text::law_both_hold(out, contexts[i].plugin_modules, x);
    }
}

proof fn plugins_hold(
    k: KnowledgeView,
    plugins: Seq<Seq<char>>,
    dir: Seq<Seq<char>>,
    i: int,
    out: Seq<ModuleView>,
)
    requires
        0 <= i <= plugins.len(),
        with_plugins(k, plugins, dir, i, out) is Ok,
    ensures
        ({
            let all = with_plugins(k, plugins, dir, i, out)->Ok_0;
            &&& out.is_prefix_of(all)
            &&& forall|x: ModuleView| #[trigger]
                all.contains(x) <==> out.contains(x) || exists|p: int|
                i <= p < plugins.len() && resolve::referred(
                    k,
                    ModuleRefView::Absolute(#[trigger] plugins[p]),
                    dir,
                ) == Ok::<Option<ModuleView>, QueryView>(Some(x))
        }),
    decreases plugins.len() - i,
{
    if i < plugins.len() {
        let found = resolve::referred(k, ModuleRefView::Absolute(plugins[i]), dir)->Ok_0;
        let next = match found {
            Some(m) => out.push(m),
            None => out,
        };
        plugins_hold(k, plugins, dir, i + 1, next);
        let all = with_plugins(k, plugins, dir, i, out)->Ok_0;
        assert(out =~= all.subrange(0, out.len() as int)) by {
            assert forall|q: int| 0 <= q < out.len() implies out[q] == all[q] by {
                assert(all.subrange(0, next.len() as int)[q] == next[q]);
            }
        }
        assert forall|x: ModuleView| #[trigger] all.contains(x) <==> out.contains(x) || exists|
            p: int,
        |
            i <= p < plugins.len() && resolve::referred(
                k,
                ModuleRefView::Absolute(#[trigger] plugins[p]),
                dir,
            ) == Ok::<Option<ModuleView>, QueryView>(Some(x)) by {
            if out.contains(x) {
                assert(next[out.index_of(x)] == x);
            }
            if found == Some(x) {
                assert(next[out.len() as int] == x);
            }
            if next.contains(x) && !out.contains(x) {
                assert(next.index_of(x) == out.len());
                assert(plugins[i] == plugins[i]);
            }
        }
    } else {
        assert(out.subrange(0, out.len() as int) =~= out);
    }
}

/// A module that a conftest or plugin in its scope names in `collect_ignore` has
/// no tests, nor has one whose path below there a pattern of
/// `collect_ignore_glob` matches.
pub proof fn law_ignored_modules_have_no_tests(
    k: KnowledgeView,
    c: ConfigView,
    m: ModuleView,
    marker: Option<KExprView>,
    i: int,
    e: int,
)
    requires
        contexts_of(k, m) is Ok,
        1 <= i < contexts_of(k, m)->Ok_0.len(),
        ({
            let by = contexts_of(k, m)->Ok_0[i];
            ||| 0 <= e < by.collect_ignore.len() && crate::path::child(
                by.dir,
                by.collect_ignore[e],
            ) == m.path
            ||| 0 <= e < by.collect_ignore_glob.len() && by.dir.is_prefix_of(m.path)
                && crate::glob::glob_matches(
                by.collect_ignore_glob[e],
                crate::path::shown(m.path.skip(by.dir.len() as int)),
            )
        }),
    ensures
        module_ids(k, c, m, marker) == Ok::<Seq<Seq<char>>, QueryView>(Seq::empty()),
{
    let contexts = contexts_of(k, m)->Ok_0;
    let by = contexts[i];
    if 0 <= e < by.collect_ignore.len() && crate::path::child(by.dir, by.collect_ignore[e])
        == m.path {
        assert(ignored_by_name(by, m.path));
    } else {
        assert(crate::path::relative_to(m.path, by.dir) == Some(
            m.path.skip(by.dir.len() as int),
        ));
        assert(ignored_by_glob(by, m.path));
    }
    assert(ignored_by(contexts[i], m.path));
}

/// Does the function that `name` stands for in a module skip whoever calls it?
pub open spec fn helper_skips(k: KnowledgeView, m: ModuleView, name: Seq<char>) -> bool {
    ||| crate::table::find(m.functions, name) matches Some(def) && def.skips_module
    ||| crate::symbols::any_symbol(k, m, name, crate::symbols::HOPS as nat) matches Ok(Some(at))
        && (crate::table::find(at.0.functions, at.1) matches Some(def) && def.skips_module)
}

/// Where an interpreter can be asked, a module has no tests if and only if a
/// module in its scope skips itself, one of the helpers that it calls skips it,
/// or one of the modules that are demanded in its scope cannot be imported. Where
/// none can be asked, no module drops out.
pub proof fn law_what_drops_out(k: KnowledgeView, m: ModuleView, contexts: Seq<ModuleView>)
    requires
        drops_out(k, m, contexts) is Ok,
    ensures
        drops_out(k, m, contexts)->Ok_0 <==> k.probing && ((exists|i: int|
            0 <= i < contexts.len() && (#[trigger] contexts[i]).has_module_skip) || (exists|i: int|
            0 <= i < m.helper_calls.len() && helper_skips(k, m, #[trigger] m.helper_calls[i]))
            || (exists|i: int, j: int|
            0 <= i < contexts.len() && 0 <= j < contexts[i].skip_requires.len()
                && resolve::importable(k, #[trigger] contexts[i].skip_requires[j]) == Ok::<
                bool,
                QueryView,
            >(false))),
{
    if k.probing && !any_module_skip(contexts) {
        helpers_tell(k, m, 0);
        if helpers_skip(k, m, 0) == Ok::<bool, QueryView>(false) {
            let names = demanded_from(contexts, 0, Seq::empty());
            imports_tell(k, names, 0);
            if all_importable(k, names, 0)->Ok_0 {
                assert forall|i: int, j: int|
                    0 <= i < contexts.len() && 0 <= j < contexts[i].skip_requires.len() implies
                    resolve::importable(k, #[trigger] contexts[i].skip_requires[j]) != Ok::<
                    bool,
                    QueryView,
                >(false) by {
                    let name = contexts[i].skip_requires[j];
                    assert(contexts[i].skip_requires.contains(name));
                    demands_hold(contexts, 0, Seq::empty(), name);
                    assert(names[names.index_of(name)] == name);
                }
            } else {
                let p = choose|p: int|
                    0 <= p < names.len() && resolve::importable(k, #[trigger] names[p]) == Ok::<
                        bool,
                        QueryView,
                    >(false);
                assert(names.contains(names[p]));
                demands_hold(contexts, 0, Seq::empty(), names[p]);
                let i = choose|i: int|
                    0 <= i < contexts.len() && (#[trigger] contexts[i]).skip_requires.contains(
                        names[p],
                    );
                let j = contexts[i].skip_requires.index_of(names[p]);
                assert(contexts[i].skip_requires[j] == names[p]);
            }
        }
    }
}

proof fn helpers_tell(k: KnowledgeView, m: ModuleView, i: int)
    requires
        0 <= i <= m.helper_calls.len(),
    ensures
        helpers_skip(k, m, i) matches Ok(b) ==> (b <==> exists|j: int|
            i <= j < m.helper_calls.len() && helper_skips(k, m, #[trigger] m.helper_calls[j])),
    decreases m.helper_calls.len() - i,
{
    if i < m.helper_calls.len() {
        helpers_tell(k, m, i + 1);
        assert(helper_skips(k, m, m.helper_calls[i]) || !helper_skips(k, m, m.helper_calls[i]));
    }
}

proof fn imports_tell(k: KnowledgeView, names: Seq<Seq<char>>, i: int)
    requires
        0 <= i <= names.len(),
    ensures
        all_importable(k, names, i) matches Ok(b) ==> if b {
            forall|p: int|
                i <= p < names.len() ==> resolve::importable(k, #[trigger] names[p]) == Ok::<
                    bool,
                    QueryView,
                >(true)
        } else {
            exists|p: int|
                i <= p < names.len() && resolve::importable(k, #[trigger] names[p]) == Ok::<
                    bool,
                    QueryView,
                >(false)
        },
    decreases names.len() - i,
{
    if i < names.len() {
        imports_tell(k, names, i + 1);
        assert(names[i] == names[i]);
    }
}

proof fn demands_hold(
    contexts: Seq<ModuleView>,
    i: int,
    out: Seq<Seq<char>>,
    x: Seq<char>,
)
    requires
        0 <= i <= contexts.len(),
    ensures
        demanded_from(contexts, i, out).contains(x) <==> out.contains(x) || exists|j: int|
            i <= j < contexts.len() && (#[trigger] contexts[j]).skip_requires.contains(x),
    decreases contexts.len() - i,
{
    if i < contexts.len() {
        demands_hold(contexts, i + 1, out + contexts[i].skip_requires, x);
        crate::text::law_both_hold(out, contexts[i].skip_requires, x);
    }
}

// ---------------------------------------------------------------------------
// Laws of guarded definitions
// ---------------------------------------------------------------------------

/// A guard on an import holds if and only if the interpreter can import the
/// module; a negated guard is true where the plain one is false, and unknown
/// where it is unknown.
pub proof fn law_guards(k: KnowledgeView, m: ModuleView, name: Seq<char>)
    ensures
        k.probing ==> (resolve::importable(k, name) matches Ok(b) ==> guard_truth(
            k,
            m,
            GuardView::Binding(name, false),
        ) == Ok::<Option<bool>, QueryView>(Some(b))),
        !k.probing ==> guard_truth(k, m, GuardView::Binding(name, false)) == Ok::<
            Option<bool>,
            QueryView,
        >(None),
        guard_truth(k, m, GuardView::Binding(name, false)) matches Ok(t) ==> guard_truth(
            k,
            m,
            GuardView::Binding(name, true),
        ) == Ok::<Option<bool>, QueryView>(opposite(t)),
        guard_truth(k, m, GuardView::Call(name, false)) matches Ok(t) ==> guard_truth(
            k,
            m,
            GuardView::Call(name, true),
        ) == Ok::<Option<bool>, QueryView>(opposite(t)),
        crate::symbols::any_symbol(k, m, name, crate::symbols::HOPS as nat) matches Ok(Some(at))
            ==> (crate::table::find(at.0.functions, at.1) matches Some(def) ==> guard_truth(
            k,
            m,
            GuardView::Call(name, false),
        ) == Ok::<Option<bool>, QueryView>(def.returns_const)),
{
}

/// The other truth, where one is known.
pub open spec fn opposite(t: Option<bool>) -> Option<bool> {
    match t {
        Some(b) => Some(!b),
        None => None,
    }
}

/// A name is dead if and only if guarded branches alone define it and the guard
/// of each of them is known to be false.
pub proof fn law_what_is_dead(k: KnowledgeView, m: ModuleView, name: Seq<char>)
    requires
        branches_from(k, m, 0, Branches { dead: Seq::empty(), alive: Seq::empty() }) is Ok,
    ensures
        is_dead(
            branches_from(k, m, 0, Branches { dead: Seq::empty(), alive: Seq::empty() })->Ok_0,
            m,
            name,
        ) <==> !m.certain_names.contains(name) && (exists|i: int|
            0 <= i < m.cond_blocks.len() && (#[trigger] m.cond_blocks[i]).names.contains(name))
            && (forall|i: int|
            0 <= i < m.cond_blocks.len() && (#[trigger] m.cond_blocks[i]).names.contains(name)
                ==> guard_truth(k, m, m.cond_blocks[i].guard) == Ok::<Option<bool>, QueryView>(
                Some(false),
            )),
{
    branches_hold(k, m, 0, Branches { dead: Seq::empty(), alive: Seq::empty() }, name);
}

proof fn branches_hold(k: KnowledgeView, m: ModuleView, i: int, b: Branches, name: Seq<char>)
    requires
        0 <= i <= m.cond_blocks.len(),
        branches_from(k, m, i, b) is Ok,
    ensures
        branches_from(k, m, i, b)->Ok_0.dead.contains(name) <==> b.dead.contains(name)
            || exists|j: int|
            i <= j < m.cond_blocks.len() && (#[trigger] m.cond_blocks[j]).names.contains(name)
                && guard_truth(k, m, m.cond_blocks[j].guard) == Ok::<Option<bool>, QueryView>(
                Some(false),
            ),
        branches_from(k, m, i, b)->Ok_0.alive.contains(name) <==> b.alive.contains(name)
            || exists|j: int|
            i <= j < m.cond_blocks.len() && (#[trigger] m.cond_blocks[j]).names.contains(name)
                && guard_truth(k, m, m.cond_blocks[j].guard) != Ok::<Option<bool>, QueryView>(
                Some(false),
            ),
    decreases m.cond_blocks.len() - i,
{
    if i < m.cond_blocks.len() {
        let names = m.cond_blocks[i].names;
        if guard_truth(k, m, m.cond_blocks[i].guard) == Ok::<Option<bool>, QueryView>(
            Some(false),
        ) {
            branches_hold(k, m, i + 1, Branches { dead: b.dead + names, ..b }, name);
            crate::text::law_both_hold(b.dead, names, name);
        } else {
            branches_hold(k, m, i + 1, Branches { alive: b.alive + names, ..b }, name);
            crate::text::law_both_hold(b.alive, names, name);
        }
    }
}

// ---------------------------------------------------------------------------
// Laws of a module's tests
// ---------------------------------------------------------------------------

/// What a definition at the top of a module gives: the IDs of a function whose
/// name the configuration takes, or of a class.
pub open spec fn gives(
    k: KnowledgeView,
    c: ConfigView,
    m: ModuleView,
    s: SurroundingsView,
    marker: Option<KExprView>,
    item: TopItemView,
    id: Seq<char>,
) -> bool {
    match item {
        TopItemView::Func(def) => crate::config::any_name_hit(c.python_functions, def.name)
            && emit::id_is_in(emit::function_ids(k, m, def, def.name, s, marker), id),
        TopItemView::Class(name) => crate::table::find(m.classes, name) matches Some(class)
            && emit::id_is_in(
            emit::class_ids(k, c, m, class, name, s, marker, Seq::empty(), Seq::empty()),
            id,
        ),
    }
}

/// The tests of a module are those of the definitions at its top that are not
/// dead, the `runTest` of each synthetic test case that is not dead and that no
/// class of that name hides, and those that its imports bring in: all of these
/// and no others.
pub proof fn law_tests_of_a_module(
    k: KnowledgeView,
    c: ConfigView,
    m: ModuleView,
    s: SurroundingsView,
    marker: Option<KExprView>,
    id: Seq<char>,
)
    requires
        ids_in(k, c, m, s, marker) is Ok,
    ensures
        ({
            let b = branches_from(
                k,
                m,
                0,
                Branches { dead: Seq::empty(), alive: Seq::empty() },
            )->Ok_0;
            ids_in(k, c, m, s, marker)->Ok_0.contains(id) <==> (exists|i: int|
                0 <= i < m.order.len() && !is_dead(b, m, TopItem::name_of(m.order[i])) && gives(
                    k,
                    c,
                    m,
                    s,
                    marker,
                    #[trigger] m.order[i],
                    id,
                )) || (exists|i: int|
                0 <= i < m.synthetic_testcases.len() && id == #[trigger] m.synthetic_testcases[i]
                    + "::runTest"@ && !is_dead(b, m, m.synthetic_testcases[i])
                    && crate::table::find(m.classes, m.synthetic_testcases[i]) is None
                    && emit::selected(marker, m.pytestmark)) || (exists|i: int|
                0 <= i < m.imports.len() && emit::id_is_in(
                    imported_ids(
                        k,
                        c,
                        m,
                        s,
                        marker,
                        (#[trigger] m.imports[i]).0,
                        m.imports[i].1,
                        Seq::empty(),
                    ),
                    id,
                ))
        }),
{
    let b = branches_from(k, m, 0, Branches { dead: Seq::empty(), alive: Seq::empty() })->Ok_0;
    let defined = defined_ids(k, c, m, b, s, marker, 0, Seq::empty())->Ok_0;
    defined_hold(k, c, m, b, s, marker, 0, Seq::empty(), id);
    synthetic_hold(m, b, marker, 0, defined, id);
    imports_hold(k, c, m, s, marker, 0, with_synthetic(m, b, marker, 0, defined), id);
}

proof fn defined_hold(
    k: KnowledgeView,
    c: ConfigView,
    m: ModuleView,
    b: Branches,
    s: SurroundingsView,
    marker: Option<KExprView>,
    i: int,
    out: Seq<Seq<char>>,
    id: Seq<char>,
)
    requires
        0 <= i <= m.order.len(),
        defined_ids(k, c, m, b, s, marker, i, out) is Ok,
    ensures
        out.is_prefix_of(defined_ids(k, c, m, b, s, marker, i, out)->Ok_0),
        defined_ids(k, c, m, b, s, marker, i, out)->Ok_0.contains(id) <==> out.contains(id)
            || exists|j: int|
            i <= j < m.order.len() && !is_dead(b, m, TopItem::name_of(m.order[j])) && gives(
                k,
                c,
                m,
                s,
                marker,
                #[trigger] m.order[j],
                id,
            ),
    decreases m.order.len() - i,
{
    if i < m.order.len() {
        if is_dead(b, m, TopItem::name_of(m.order[i])) {
            defined_hold(k, c, m, b, s, marker, i + 1, out, id);
        } else {
            let next = match m.order[i] {
                TopItemView::Func(def) => if crate::config::any_name_hit(
                    c.python_functions,
                    def.name,
                ) {
                    let ids = emit::function_ids(k, m, def, def.name, s, marker)->Ok_0;
                    crate::text::law_both_hold(out, ids, id);
                    out + ids
                } else {
                    out
                },
                TopItemView::Class(name) => match crate::table::find(m.classes, name) {
                    Some(class) => {
                        emit::law_classes_go_behind(
                            k,
                            c,
                            m,
                            class,
                            name,
                            s,
                            marker,
                            Seq::empty(),
                            out,
                        );
                        let ids = emit::class_ids(
                            k,
                            c,
                            m,
                            class,
                            name,
                            s,
                            marker,
                            Seq::empty(),
                            Seq::empty(),
                        )->Ok_0;
                        crate::text::law_both_hold(out, ids, id);
                        out + ids
                    },
                    None => out,
                },
            };
            defined_hold(k, c, m, b, s, marker, i + 1, next, id);
            crate::text::prefixes_chain(
                out,
                next,
                defined_ids(k, c, m, b, s, marker, i, out)->Ok_0,
            );
        }
    } else {
        assert(out.subrange(0, out.len() as int) =~= out);
    }
}

proof fn synthetic_hold(
    m: ModuleView,
    b: Branches,
    marker: Option<KExprView>,
    i: int,
    out: Seq<Seq<char>>,
    id: Seq<char>,
)
    requires
        0 <= i <= m.synthetic_testcases.len(),
    ensures
        out.is_prefix_of(with_synthetic(m, b, marker, i, out)),
        with_synthetic(m, b, marker, i, out).contains(id) <==> out.contains(id) || exists|j: int|
            i <= j < m.synthetic_testcases.len() && id == #[trigger] m.synthetic_testcases[j]
                + "::runTest"@ && !is_dead(b, m, m.synthetic_testcases[j])
                && crate::table::find(m.classes, m.synthetic_testcases[j]) is None
                && emit::selected(marker, m.pytestmark),
    decreases m.synthetic_testcases.len() - i,
{
    if i < m.synthetic_testcases.len() {
        let name = m.synthetic_testcases[i];
        let one = name + "::runTest"@;
        if is_dead(b, m, name) || crate::table::find(m.classes, name) is Some || !emit::selected(
            marker,
            m.pytestmark,
        ) {
            synthetic_hold(m, b, marker, i + 1, out, id);
        } else {
            synthetic_hold(m, b, marker, i + 1, out.push(one), id);
            crate::text::law_both_hold(out, seq![one], id);
            assert(out.push(one) =~= out + seq![one]);
            assert(seq![one].contains(one)) by {
                assert(seq![one][0] == one);
            }
            crate::text::prefixes_chain(
                out,
                out.push(one),
                with_synthetic(m, b, marker, i, out),
            );
        }
    } else {
        assert(out.subrange(0, out.len() as int) =~= out);
    }
}

proof fn import_goes_behind(
    k: KnowledgeView,
    c: ConfigView,
    m: ModuleView,
    s: SurroundingsView,
    marker: Option<KExprView>,
    local: Seq<char>,
    import: ImportView,
    out: Seq<Seq<char>>,
)
    requires
        imported_ids(k, c, m, s, marker, local, import, out) is Ok,
    ensures
        imported_ids(k, c, m, s, marker, local, import, Seq::empty()) is Ok,
        imported_ids(k, c, m, s, marker, local, import, out)->Ok_0 == out + imported_ids(
            k,
            c,
            m,
            s,
            marker,
            local,
            import,
            Seq::empty(),
        )->Ok_0,
{
    let none = Seq::<Seq<char>>::empty();
    assert(out + none =~= out);
    if let ImportView::From(mref, orig) = import {
        if let Ok(Some(first)) = resolve::referred(k, mref, m.dir) {
            if let Ok(Some((target, name))) = crate::symbols::any_symbol(
                k,
                first,
                orig,
                crate::symbols::HOPS as nat,
            ) {
                if let Some(class) = crate::table::find(target.classes, name) {
                    if emit::class_ids(
                        k,
                        c,
                        target,
                        class,
                        local,
                        s,
                        marker,
                        Seq::empty(),
                        out,
                    ) is Ok {
                        emit::law_classes_go_behind(
                            k,
                            c,
                            target,
                            class,
                            local,
                            s,
                            marker,
                            Seq::empty(),
                            out,
                        );
                    }
                }
                if let Some(def) = crate::table::find(target.functions, name) {
                    if let Ok(ids) = emit::function_ids(k, target, def, local, s, marker) {
                        assert(none + ids =~= ids);
                    }
                }
            }
        }
    }
}

proof fn imports_hold(
    k: KnowledgeView,
    c: ConfigView,
    m: ModuleView,
    s: SurroundingsView,
    marker: Option<KExprView>,
    i: int,
    out: Seq<Seq<char>>,
    id: Seq<char>,
)
    requires
        0 <= i <= m.imports.len(),
        with_imported(k, c, m, s, marker, i, out) is Ok,
    ensures
        out.is_prefix_of(with_imported(k, c, m, s, marker, i, out)->Ok_0),
        with_imported(k, c, m, s, marker, i, out)->Ok_0.contains(id) <==> out.contains(id)
            || exists|j: int|
            i <= j < m.imports.len() && emit::id_is_in(
                imported_ids(
                    k,
                    c,
                    m,
                    s,
                    marker,
                    (#[trigger] m.imports[j]).0,
                    m.imports[j].1,
                    Seq::empty(),
                ),
                id,
            ),
    decreases m.imports.len() - i,
{
    if i < m.imports.len() {
        let (local, import) = m.imports[i];
        import_goes_behind(k, c, m, s, marker, local, import, out);
        let next = imported_ids(k, c, m, s, marker, local, import, out)->Ok_0;
        let one = imported_ids(k, c, m, s, marker, local, import, Seq::empty())->Ok_0;
        crate::text::law_both_hold(out, one, id);
        imports_hold(k, c, m, s, marker, i + 1, next, id);
        crate::text::prefixes_chain(
            out,
            next,
            with_imported(k, c, m, s, marker, i, out)->Ok_0,
        );
    } else {
        assert(out.subrange(0, out.len() as int) =~= out);
    }
}

/// The tests of a definition stand before those of a later one: what the first
/// `n` definitions give comes first, then what the others give.
pub proof fn law_tests_keep_their_order(
    k: KnowledgeView,
    c: ConfigView,
    m: ModuleView,
    b: Branches,
    s: SurroundingsView,
    marker: Option<KExprView>,
    n: int,
) -> (parts: (Seq<Seq<char>>, Seq<Seq<char>>))
    requires
        0 <= n <= m.order.len(),
        defined_ids(k, c, m, b, s, marker, 0, Seq::empty()) is Ok,
    ensures
        defined_ids(k, c, m, b, s, marker, 0, Seq::empty())->Ok_0 == parts.0 + parts.1,
        forall|id: Seq<char>| #[trigger]
            parts.0.contains(id) <==> exists|i: int|
                0 <= i < n && !is_dead(b, m, TopItem::name_of(m.order[i])) && gives(
                    k,
                    c,
                    m,
                    s,
                    marker,
                    #[trigger] m.order[i],
                    id,
                ),
        forall|id: Seq<char>| #[trigger]
            parts.1.contains(id) <==> exists|i: int|
                n <= i < m.order.len() && !is_dead(b, m, TopItem::name_of(m.order[i])) && gives(
                    k,
                    c,
                    m,
                    s,
                    marker,
                    #[trigger] m.order[i],
                    id,
                ),
{
    let none = Seq::<Seq<char>>::empty();
    let first = first_definitions(k, c, m, b, s, marker, 0, none, n);
    defined_go_behind(k, c, m, b, s, marker, n, first);
    let rest = defined_ids(k, c, m, b, s, marker, n, none)->Ok_0;
    assert forall|id: Seq<char>| #[trigger] rest.contains(id) <==> exists|i: int|
        n <= i < m.order.len() && !is_dead(b, m, TopItem::name_of(m.order[i])) && gives(
            k,
            c,
            m,
            s,
            marker,
            #[trigger] m.order[i],
            id,
        ) by {
        defined_hold(k, c, m, b, s, marker, n, none, id);
    }
    (first, rest)
}

/// The list with what the definition at position `i` gives behind it.
spec fn with_definition(
    k: KnowledgeView,
    c: ConfigView,
    m: ModuleView,
    s: SurroundingsView,
    marker: Option<KExprView>,
    i: int,
    out: Seq<Seq<char>>,
) -> Result<Seq<Seq<char>>, QueryView> {
    match m.order[i] {
        TopItemView::Func(def) => if crate::config::any_name_hit(c.python_functions, def.name) {
            match emit::function_ids(k, m, def, def.name, s, marker) {
                Ok(ids) => Ok(out + ids),
                Err(q) => Err(q),
            }
        } else {
            Ok(out)
        },
        TopItemView::Class(name) => match crate::table::find(m.classes, name) {
            Some(class) => emit::class_ids(k, c, m, class, name, s, marker, Seq::empty(), out),
            None => Ok(out),
        },
    }
}

proof fn definition_goes_behind(
    k: KnowledgeView,
    c: ConfigView,
    m: ModuleView,
    s: SurroundingsView,
    marker: Option<KExprView>,
    i: int,
    out: Seq<Seq<char>>,
) -> (ids: Seq<Seq<char>>)
    requires
        with_definition(k, c, m, s, marker, i, out) is Ok,
    ensures
        with_definition(k, c, m, s, marker, i, out)->Ok_0 == out + ids,
        with_definition(k, c, m, s, marker, i, Seq::empty()) == Ok::<Seq<Seq<char>>, QueryView>(
            ids,
        ),
        forall|id: Seq<char>| #[trigger]
            ids.contains(id) <==> gives(k, c, m, s, marker, m.order[i], id),
{
    let none = Seq::<Seq<char>>::empty();
    assert(out + none =~= out);
    match m.order[i] {
        TopItemView::Func(def) => if crate::config::any_name_hit(c.python_functions, def.name) {
            let ids = emit::function_ids(k, m, def, def.name, s, marker)->Ok_0;
            assert(none + ids =~= ids);
            ids
        } else {
            none
        },
        TopItemView::Class(name) => match crate::table::find(m.classes, name) {
            Some(class) => {
                emit::law_classes_go_behind(k, c, m, class, name, s, marker, Seq::empty(), out);
                emit::class_ids(k, c, m, class, name, s, marker, Seq::empty(), none)->Ok_0
            },
            None => none,
        },
    }
}

proof fn defined_go_behind(
    k: KnowledgeView,
    c: ConfigView,
    m: ModuleView,
    b: Branches,
    s: SurroundingsView,
    marker: Option<KExprView>,
    i: int,
    out: Seq<Seq<char>>,
)
    requires
        0 <= i <= m.order.len(),
        defined_ids(k, c, m, b, s, marker, i, out) is Ok,
    ensures
        defined_ids(k, c, m, b, s, marker, i, Seq::empty()) is Ok,
        defined_ids(k, c, m, b, s, marker, i, out)->Ok_0 == out + defined_ids(
            k,
            c,
            m,
            b,
            s,
            marker,
            i,
            Seq::empty(),
        )->Ok_0,
    decreases m.order.len() - i,
{
    let none = Seq::<Seq<char>>::empty();
    if i < m.order.len() {
        if is_dead(b, m, TopItem::name_of(m.order[i])) {
            defined_go_behind(k, c, m, b, s, marker, i + 1, out);
        } else {
            let ids = definition_goes_behind(k, c, m, s, marker, i, out);
            defined_go_behind(k, c, m, b, s, marker, i + 1, out + ids);
            defined_are_told(k, c, m, b, s, marker, i + 1, out + ids, ids);
            defined_go_behind(k, c, m, b, s, marker, i + 1, ids);
            let rest = defined_ids(k, c, m, b, s, marker, i + 1, none)->Ok_0;
            assert(out + ids + rest =~= out + (ids + rest));
        }
    } else {
        assert(out + none =~= out);
    }
}

proof fn defined_are_told(
    k: KnowledgeView,
    c: ConfigView,
    m: ModuleView,
    b: Branches,
    s: SurroundingsView,
    marker: Option<KExprView>,
    i: int,
    out: Seq<Seq<char>>,
    other: Seq<Seq<char>>,
)
    requires
        0 <= i <= m.order.len(),
        defined_ids(k, c, m, b, s, marker, i, out) is Ok,
    ensures
        defined_ids(k, c, m, b, s, marker, i, other) is Ok,
    decreases m.order.len() - i,
{
    if i < m.order.len() {
        if is_dead(b, m, TopItem::name_of(m.order[i])) {
            defined_are_told(k, c, m, b, s, marker, i + 1, out, other);
        } else {
            let ids = definition_goes_behind(k, c, m, s, marker, i, out);
            if let TopItemView::Class(name) = m.order[i] {
                if let Some(class) = crate::table::find(m.classes, name) {
                    emit::class_is_told_anywhere(
                        k,
                        c,
                        m,
                        class,
                        name,
                        s,
                        marker,
                        Seq::empty(),
                        other,
                    );
                }
            }
            let next = with_definition(k, c, m, s, marker, i, other)->Ok_0;
            defined_are_told(k, c, m, b, s, marker, i + 1, out + ids, next);
        }
    }
}

proof fn first_definitions(
    k: KnowledgeView,
    c: ConfigView,
    m: ModuleView,
    b: Branches,
    s: SurroundingsView,
    marker: Option<KExprView>,
    i: int,
    out: Seq<Seq<char>>,
    n: int,
) -> (first: Seq<Seq<char>>)
    requires
        0 <= i <= n <= m.order.len(),
        defined_ids(k, c, m, b, s, marker, i, out) is Ok,
    ensures
        defined_ids(k, c, m, b, s, marker, i, out) == defined_ids(k, c, m, b, s, marker, n, first),
        forall|id: Seq<char>| #[trigger]
            first.contains(id) <==> out.contains(id) || exists|j: int|
                i <= j < n && !is_dead(b, m, TopItem::name_of(m.order[j])) && gives(
                    k,
                    c,
                    m,
                    s,
                    marker,
                    #[trigger] m.order[j],
                    id,
                ),
    decreases n - i,
{
    if i == n {
        out
    } else if is_dead(b, m, TopItem::name_of(m.order[i])) {
        first_definitions(k, c, m, b, s, marker, i + 1, out, n)
    } else {
        let ids = definition_goes_behind(k, c, m, s, marker, i, out);
        let first = first_definitions(k, c, m, b, s, marker, i + 1, out + ids, n);
        assert forall|id: Seq<char>| #[trigger] first.contains(id) <==> out.contains(id) || exists|
            j: int,
        |
            i <= j < n && !is_dead(b, m, TopItem::name_of(m.order[j])) && gives(
                k,
                c,
                m,
                s,
                marker,
                #[trigger] m.order[j],
                id,
            ) by {
            crate::text::law_both_hold(out, ids, id);
            assert(ids.contains(id) <==> gives(k, c, m, s, marker, m.order[i], id));
        }
        first
    }
}

/// An import brings in the test that its name stands for, under the name that the
/// import gives it: a class where the configuration takes that name as a class's,
/// a function where it takes it as a function's. What the module defines under
/// that name itself hides the import.
pub proof fn law_imported_tests(
    k: KnowledgeView,
    c: ConfigView,
    m: ModuleView,
    s: SurroundingsView,
    marker: Option<KExprView>,
    local: Seq<char>,
    mref: ModuleRefView,
    orig: Seq<char>,
)
    ensures
        ({
            let brought = imported_ids(
                k,
                c,
                m,
                s,
                marker,
                local,
                ImportView::From(mref, orig),
                Seq::empty(),
            );
            let nothing = Ok::<Seq<Seq<char>>, QueryView>(Seq::empty());
            let as_class = crate::config::any_name_hit(c.python_classes, local);
            let as_function = crate::config::any_name_hit(c.python_functions, local);
            &&& crate::table::find(m.classes, local) is Some ==> brought == nothing
            &&& crate::table::find(m.functions, local) is Some ==> brought == nothing
            &&& !as_class && !as_function ==> brought == nothing
            &&& crate::table::find(m.classes, local) is None && crate::table::find(
                m.functions,
                local,
            ) is None && !crate::symbols::unittest_ref(mref, orig) ==> (resolve::referred(
                k,
                mref,
                m.dir,
            ) matches Ok(Some(first)) ==> (crate::symbols::any_symbol(
                k,
                first,
                orig,
                crate::symbols::HOPS as nat,
            ) matches Ok(Some(at)) ==> {
                &&& as_class ==> (crate::table::find(at.0.classes, at.1) matches Some(class)
                    ==> brought == emit::class_ids(
                    k,
                    c,
                    at.0,
                    class,
                    local,
                    s,
                    marker,
                    Seq::empty(),
                    Seq::empty(),
                ))
                &&& as_function && crate::table::find(at.0.classes, at.1) is None ==> (
                crate::table::find(at.0.functions, at.1) matches Some(def) ==> brought
                    == emit::function_ids(k, at.0, def, local, s, marker))
            }))
        }),
{
    if let Ok(Some(first)) = resolve::referred(k, mref, m.dir) {
        if let Ok(Some((target, name))) = crate::symbols::any_symbol(
            k,
            first,
            orig,
            crate::symbols::HOPS as nat,
        ) {
            if let Some(def) = crate::table::find(target.functions, name) {
                if let Ok(ids) = emit::function_ids(k, target, def, local, s, marker) {
                    assert(Seq::<Seq<char>>::empty() + ids =~= ids);
                }
            }
        }
    }
}

/// What makes all tests of a module uncertain: a hook that generates tests, or
/// an autouse fixture with parameters, in any module in its scope.
pub proof fn law_what_is_uncertain(m: ModuleView, contexts: Seq<ModuleView>)
    ensures
        surroundings_of(m, contexts).poisoned <==> exists|i: int|
            0 <= i < contexts.len() && ((#[trigger] contexts[i]).has_generate_tests || exists|
                f: int,
            |
                0 <= f < contexts[i].fixtures.len() && (#[trigger] contexts[i].fixtures[f]).1.autouse
                    && contexts[i].fixtures[f].1.parametrized),
        surroundings_of(m, contexts).contexts == contexts,
        surroundings_of(m, contexts).pytestmark == m.pytestmark,
{
    if is_poisoned(contexts) {
        let i = choose|i: int|
            0 <= i < contexts.len() && ((#[trigger] contexts[i]).has_generate_tests
                || crate::fixtures::autouse_params(contexts[i].fixtures));
        if !contexts[i].has_generate_tests {
            let f = choose|f: int|
                0 <= f < contexts[i].fixtures.len() && crate::fixtures::multiplies_all(
                    #[trigger] contexts[i].fixtures[f].1,
                );
            assert(contexts[i].fixtures[f].1.autouse);
        }
    }
    if exists|i: int|
        0 <= i < contexts.len() && ((#[trigger] contexts[i]).has_generate_tests || exists|f: int|
            0 <= f < contexts[i].fixtures.len() && (#[trigger] contexts[i].fixtures[f]).1.autouse
                && contexts[i].fixtures[f].1.parametrized) {
        let i = choose|i: int|
            0 <= i < contexts.len() && ((#[trigger] contexts[i]).has_generate_tests || exists|
                f: int,
            |
                0 <= f < contexts[i].fixtures.len() && (#[trigger] contexts[i].fixtures[f]).1.autouse
                    && contexts[i].fixtures[f].1.parametrized);
        if !contexts[i].has_generate_tests {
            let f = choose|f: int|
                0 <= f < contexts[i].fixtures.len() && (#[trigger] contexts[i].fixtures[f]).1.autouse
                    && contexts[i].fixtures[f].1.parametrized;
            assert(crate::fixtures::multiplies_all(contexts[i].fixtures[f].1));
        }
    }
}

/// Collecting gives one entry for each file, in the order of the files, with the
/// file's path, and below the root directory its path from there; the tests are
/// those of the module at the path, none where it could not be read.
pub proof fn law_every_file_is_collected(
    k: KnowledgeView,
    c: ConfigView,
    files: Seq<Seq<Seq<char>>>,
    marker: Option<KExprView>,
)
    requires
        collected(k, c, files, marker, 0, Seq::empty()) is Ok,
    ensures
        ({
            let all = collected(k, c, files, marker, 0, Seq::empty())->Ok_0;
            &&& all.len() == files.len()
            &&& forall|i: int| #![trigger all[i]]
                0 <= i < files.len() ==> {
                    &&& all[i].abs_path == files[i]
                    &&& c.rootdir.is_prefix_of(files[i]) ==> all[i].path == crate::path::shown(
                        files[i].skip(c.rootdir.len() as int),
                    )
                    &&& !c.rootdir.is_prefix_of(files[i]) ==> all[i].path == crate::path::shown(
                        files[i],
                    )
                    &&& resolve::module_at(k, files[i]) matches Ok(Some(m)) ==> module_ids(
                        k,
                        c,
                        m,
                        marker,
                    ) == Ok::<Seq<Seq<char>>, QueryView>(all[i].tests)
                    &&& resolve::module_at(k, files[i]) matches Ok(None) ==> all[i].tests.len()
                        == 0
                }
        }),
{
    collected_one_by_one(k, c, files, marker, 0, Seq::empty());
}

proof fn collected_one_by_one(
    k: KnowledgeView,
    c: ConfigView,
    files: Seq<Seq<Seq<char>>>,
    marker: Option<KExprView>,
    i: int,
    out: Seq<FileTestsView>,
)
    requires
        0 <= i <= files.len(),
        out.len() == i,
        collected(k, c, files, marker, i, out) is Ok,
        forall|j: int|
            0 <= j < i ==> file_tests(k, c, files[j], marker) == Ok::<FileTestsView, QueryView>(
                #[trigger] out[j],
            ),
    ensures
        ({
            let all = collected(k, c, files, marker, i, out)->Ok_0;
            &&& all.len() == files.len()
            &&& forall|j: int|
                0 <= j < files.len() ==> file_tests(k, c, files[j], marker) == Ok::<
                    FileTestsView,
                    QueryView,
                >(#[trigger] all[j])
        }),
    decreases files.len() - i,
{
    if i < files.len() {
        let f = file_tests(k, c, files[i], marker)->Ok_0;
        collected_one_by_one(k, c, files, marker, i + 1, out.push(f));
    }
}

/// The modules to ask an interpreter for are what the files and the conftests
/// above them demand, each once.
pub proof fn law_demands_are_asked_for(
    k: KnowledgeView,
    files: Seq<Seq<Seq<char>>>,
    name: Seq<char>,
)
    requires
        demanded_by(k, files, 0, Seq::empty()) is Ok,
    ensures
        demanded_by(k, files, 0, Seq::empty())->Ok_0.no_duplicates(),
        demanded_by(k, files, 0, Seq::empty())->Ok_0.contains(name) <==> exists|i: int|
            0 <= i < files.len() && demands(k, #[trigger] files[i], name),
{
    demanded_hold(k, files, 0, Seq::empty(), name);
}

/// Does the module at a path, or a conftest above it, demand a module?
pub open spec fn demands(k: KnowledgeView, path: Seq<Seq<char>>, name: Seq<char>) -> bool {
    resolve::module_at(k, path) matches Ok(Some(m)) && (m.skip_requires.contains(name) || (
    resolve::conftests(k, m.dir, Seq::empty()) matches Ok(chain) && exists|j: int|
        0 <= j < chain.len() && (#[trigger] chain[j]).skip_requires.contains(name)))
}

proof fn demanded_hold(
    k: KnowledgeView,
    files: Seq<Seq<Seq<char>>>,
    i: int,
    out: Seq<Seq<char>>,
    name: Seq<char>,
)
    requires
        0 <= i <= files.len(),
        out.no_duplicates(),
        demanded_by(k, files, i, out) is Ok,
    ensures
        demanded_by(k, files, i, out)->Ok_0.no_duplicates(),
        demanded_by(k, files, i, out)->Ok_0.contains(name) <==> out.contains(name) || exists|
            j: int,
        |
            i <= j < files.len() && demands(k, #[trigger] files[j], name),
    decreases files.len() - i,
{
    if i < files.len() {
        match resolve::module_at(k, files[i])->Ok_0 {
            None => {
                demanded_hold(k, files, i + 1, out, name);
            },
            Some(m) => {
                let chain = resolve::conftests(k, m.dir, Seq::empty())->Ok_0;
                let own = seq![m] + chain;
                let names = demanded_from(own, 0, Seq::empty());
                demands_hold(own, 0, Seq::empty(), name);
                new_hold(out, names, 0, name);
                demanded_hold(k, files, i + 1, with_new(out, names, 0), name);
                assert(names.contains(name) <==> demands(k, files[i], name)) by {
                    if m.skip_requires.contains(name) {
                        assert(own[0].skip_requires.contains(name));
                    }
                    assert forall|j: int| 0 <= j < chain.len() implies #[trigger] chain[j] == own[1
                        + j] by {}
                    if exists|j: int|
                        0 <= j < chain.len() && (#[trigger] chain[j]).skip_requires.contains(name) {
                        let j = choose|j: int|
                            0 <= j < chain.len() && (#[trigger] chain[j]).skip_requires.contains(
                                name,
                            );
                        assert(own[1 + j].skip_requires.contains(name));
                    }
                    if names.contains(name) {
                        let j = choose|j: int|
                            0 <= j < own.len() && (#[trigger] own[j]).skip_requires.contains(name);
                        if j > 0 {
                            assert(chain[j - 1].skip_requires.contains(name));
                        }
                    }
                }
            },
        }
    }
}

proof fn new_hold(out: Seq<Seq<char>>, names: Seq<Seq<char>>, i: int, name: Seq<char>)
    requires
        0 <= i <= names.len(),
        out.no_duplicates(),
    ensures
        with_new(out, names, i).no_duplicates(),
        with_new(out, names, i).contains(name) <==> out.contains(name) || exists|j: int|
            i <= j < names.len() && #[trigger] names[j] == name,
    decreases names.len() - i,
{
    if i < names.len() {
        let next = crate::names::with_name(out, names[i]);
        if !out.contains(names[i]) {
            assert(next =~= out + seq![names[i]]);
            crate::text::law_both_hold(out, seq![names[i]], name);
            assert(seq![names[i]].contains(names[i])) by {
                assert(seq![names[i]][0] == names[i]);
            }
        }
        new_hold(next, names, i + 1, name);
    }
}

/// A path is left out where it, or a directory that it lies in, is to be left
/// out, and nowhere else.
pub proof fn law_what_is_left_out(
    path: Seq<Seq<char>>,
    ignore: Seq<Seq<Seq<char>>>,
    i: int,
    rest: Seq<Seq<char>>,
)
    ensures
        0 <= i < ignore.len() && path == ignore[i] + rest ==> left_out(path, ignore),
        left_out(path, ignore) ==> exists|j: int, below: Seq<Seq<char>>|
            0 <= j < ignore.len() && path == #[trigger] (ignore[j] + below),
{
    if 0 <= i < ignore.len() && path == ignore[i] + rest {
        assert(path.subrange(0, ignore[i].len() as int) =~= ignore[i]);
        assert(ignore[i].is_prefix_of(path));
    }
    if left_out(path, ignore) {
        let j = choose|j: int|
            0 <= j < ignore.len() && (#[trigger] ignore[j]).is_prefix_of(path);
        let below = path.skip(ignore[j].len() as int);
        assert(path.subrange(0, ignore[j].len() as int) =~= ignore[j]);
        assert(path =~= ignore[j] + below);
    }
}

} // verus!
