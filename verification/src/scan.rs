//! From the statements of a module to what collection knows of it.

use vstd::prelude::*;

use crate::defs::{build_class, make_fixture, test_def};
use crate::guards::{
    classify_guard, defined_names, eval_condition, handlers_call_skip, import_module_binding,
    importorskip_name, is_module_skip_call,
};
use crate::model::{
    resolve_child, Class, Fixture, FixtureView, Fixtures, Guard, GuardView, Guarded, GuardedView,
    Import, ImportView, Module, ModuleRef, ModuleRefView, ModuleView, TestDef, TopItem,
    TopItemView,
};
use crate::names::{add_name, dedupe_keep_last, drop_named, Named};
use crate::params::{
    elements, fixture_info, mark_name, parametrize_alias, string_values, tail_of, ParamAliases,
};
use crate::path::FilePath;
use crate::python;
use crate::syntax::{
    Alias, AliasView, Block, BlockView, Clause, ClauseView, Expr, ExprView, Stmt, StmtView,
};
use crate::table::Table;
use crate::text::{self, concat3, same, split, Separator};

verus! {

broadcast use crate::text::group_deep;

/// What counts of the statements of a block.
#[derive(Debug, Clone, Copy, PartialEq, Eq, Structural)]
pub enum Reach {
    /// Everything: the block runs, or may run.
    Live,
    /// Definitions and imports: the block of an exception handler.
    Definitions,
    /// Imports only: dead branches and nested blocks.
    Imports,
}

/// A fixture function: the name that it is bound to, the name that its fixture
/// is registered under, and the fixture.
#[derive(Debug)]
pub struct Bound {
    pub name: String,
    pub key: String,
    pub fixture: Fixture,
}

/// A fixture function.
pub struct BoundView {
    pub name: Seq<char>,
    pub key: Seq<char>,
    pub fixture: FixtureView,
}

impl View for Bound {
    type V = BoundView;

    open spec fn view(&self) -> BoundView {
        BoundView { name: self.name@, key: self.key@, fixture: self.fixture@ }
    }
}

impl Named for Bound {
    open spec fn name_of(v: BoundView) -> Seq<char> {
        v.name
    }

    fn name(&self) -> (r: &str) {
        self.name.as_str()
    }
}

/// What a scan has found: the module, the fixture functions in the order of
/// their definitions, and the `parametrize` aliases that decorators may use.
#[derive(Debug)]
pub struct Scan {
    pub module: Module,
    pub bound: Vec<Bound>,
    pub aliases: ParamAliases,
}

/// What a scan has found.
pub struct ScanView {
    pub module: ModuleView,
    pub bound: Seq<BoundView>,
    pub aliases: Seq<(Seq<char>, Option<Seq<Seq<char>>>)>,
}

impl View for Scan {
    type V = ScanView;

    open spec fn view(&self) -> ScanView {
        ScanView {
            module: self.module@,
            bound: text::deep(self.bound@),
            aliases: self.aliases@,
        }
    }
}

// ---------------------------------------------------------------------------
// Definitions
// ---------------------------------------------------------------------------

/// Take up that a name is certainly defined.
pub open spec fn with_certain(m: ModuleView, name: Seq<char>, certain: bool) -> ModuleView {
    if certain {
        ModuleView { certain_names: crate::names::with_name(m.certain_names, name), ..m }
    } else {
        m
    }
}

/// Take up a function. `pytest_generate_tests` is a hook; fixtures are never
/// collected as tests, even test-named ones.
pub open spec fn with_function(
    st: ScanView,
    name: Seq<char>,
    decorators: Seq<ExprView>,
    params: Seq<Seq<char>>,
    body: Seq<StmtView>,
    certain: bool,
    os: Seq<char>,
) -> ScanView {
    let m = with_certain(st.module, name, certain);
    if name == "pytest_generate_tests"@ {
        ScanView { module: ModuleView { has_generate_tests: true, ..m }, ..st }
    } else {
        match crate::params::fixture_from(decorators, 0) {
            Some(flags) => ScanView {
                module: m,
                bound: st.bound.push(
                    BoundView {
                        name,
                        key: crate::defs::fixture_key(flags, name),
                        fixture: crate::defs::fixture_with(flags, params),
                    },
                ),
                ..st
            },
            None => {
                let def = crate::defs::test_of(name, decorators, params, body, st.aliases, os);
                ScanView {
                    module: ModuleView {
                        functions: crate::table::put(m.functions, name, def),
                        order: m.order.push(TopItemView::Func(def)),
                        ..m
                    },
                    ..st
                }
            },
        }
    }
}

fn take_function(
    st: &mut Scan,
    name: &String,
    decorators: &Vec<Expr>,
    params: &Vec<String>,
    body: &Vec<Stmt>,
    certain: bool,
    os: &str,
)
    ensures
        final(st)@ == with_function(
            old(st)@,
            name@,
            text::deep(decorators@),
            text::deep(params@),
            text::deep(body@),
            certain,
            os@,
        ),
{
    if certain {
        add_name(&mut st.module.certain_names, name.as_str());
    }
    if same(name.as_str(), "pytest_generate_tests") {
        st.module.has_generate_tests = true;
        return;
    }
    match fixture_info(decorators) {
        Some(flags) => {
            let (key, fixture): (String, Fixture) = make_fixture(flags, name.as_str(), params);
            st.bound.push(Bound { name: name.clone(), key, fixture });
        },
        None => {
            let def: TestDef = test_def(
                name.as_str(),
                decorators,
                params,
                body,
                &st.aliases,
                os,
            );
            st.module.functions.insert(name.clone(), def.copy());
            st.module.order.push(TopItem::Func(def));
        },
    }
}

/// Take up a class.
pub open spec fn with_class(
    st: ScanView,
    name: Seq<char>,
    decorators: Seq<ExprView>,
    bases: Seq<ExprView>,
    body: Seq<StmtView>,
    certain: bool,
    os: Seq<char>,
) -> ScanView {
    let m = with_certain(st.module, name, certain);
    let class = crate::defs::class_of(decorators, bases, body, st.aliases, os);
    ScanView {
        module: ModuleView {
            classes: crate::table::put(m.classes, name, class),
            order: m.order.push(TopItemView::Class(name)),
            ..m
        },
        ..st
    }
}

fn take_class(
    st: &mut Scan,
    name: &String,
    decorators: &Vec<Expr>,
    bases: &Vec<Expr>,
    body: &Vec<Stmt>,
    certain: bool,
    os: &str,
)
    ensures
        final(st)@ == with_class(
            old(st)@,
            name@,
            text::deep(decorators@),
            text::deep(bases@),
            text::deep(body@),
            certain,
            os@,
        ),
{
    if certain {
        add_name(&mut st.module.certain_names, name.as_str());
    }
    let class: Class = build_class(decorators, bases, body, &st.aliases, os);
    st.module.classes.insert(name.clone(), class);
    st.module.order.push(TopItem::Class(name.clone()));
}

// ---------------------------------------------------------------------------
// Assignments and calls
// ---------------------------------------------------------------------------

/// The names of the marks in a list, from position `i` on, behind those in
/// `out`.
pub open spec fn marks_from(v: Seq<ExprView>, i: int, out: Seq<Seq<char>>) -> Seq<Seq<char>>
    decreases v.len() - i,
{
    if i < 0 || i >= v.len() {
        out
    } else {
        marks_from(
            v,
            i + 1,
            match crate::params::mark_of(v[i]) {
                Some(m) => out.push(m),
                None => out,
            },
        )
    }
}

/// The list with the value behind it, where there is one.
pub open spec fn with_some(list: Seq<Seq<char>>, v: Option<Seq<char>>) -> Seq<Seq<char>> {
    match v {
        Some(s) => list.push(s),
        None => list,
    }
}

fn push_some(list: &mut Vec<String>, v: Option<String>)
    ensures
        text::deep(final(list)@) == with_some(text::deep(old(list)@), text::opt(v)),
{
    match v {
        Some(s) => {
            list.push(s);
        },
        None => {},
    }
}

/// The table with the value under the key, where there is one.
pub open spec fn put_some(
    t: Seq<(Seq<char>, Seq<char>)>,
    k: Seq<char>,
    v: Option<Seq<char>>,
) -> Seq<(Seq<char>, Seq<char>)> {
    match v {
        Some(s) => crate::table::put(t, k, s),
        None => t,
    }
}

fn insert_some(t: &mut Table<String>, k: &String, v: Option<String>)
    ensures
        final(t)@ == put_some(old(t)@, k@, text::opt(v)),
{
    match v {
        Some(s) => {
            t.insert(k.clone(), s);
        },
        None => {},
    }
}

/// The modules that the value of `pytest_plugins` names.
pub open spec fn plugins_in(value: ExprView) -> Seq<Seq<char>> {
    match value {
        ExprView::List(v) => crate::params::strings_in(v),
        ExprView::Tuple(v) => crate::params::strings_in(v),
        ExprView::Str(s) => seq![s],
        _ => Seq::empty(),
    }
}

fn plugin_names(value: &Expr) -> (r: Vec<String>)
    ensures
        text::deep(r@) == plugins_in(value@),
{
    proof {
        crate::syntax::expr_parts(*value);
    }
    match value {
        Expr::List(v) => string_values(v),
        Expr::Tuple(v) => string_values(v),
        Expr::Str(s) => {
            let mut out: Vec<String> = Vec::new();
            out.push(s.clone());
            proof {
                assert(text::deep(out@) =~= seq![s@]);
            }
            out
        },
        _ => Vec::new(),
    }
}

/// The marks that the value of `pytestmark` gives: those of a list, or the one
/// that it is.
pub open spec fn marks_in(value: ExprView) -> Seq<Seq<char>> {
    match value {
        ExprView::List(v) => marks_from(v, 0, Seq::empty()),
        other => with_some(Seq::empty(), crate::params::mark_of(other)),
    }
}

fn mark_names(value: &Expr) -> (r: Vec<String>)
    ensures
        text::deep(r@) == marks_in(value@),
{
    proof {
        crate::syntax::expr_parts(*value);
    }
    let mut out: Vec<String> = Vec::new();
    match value {
        Expr::List(v) => {
            let ghost vs = text::deep(v@);
            let mut i: usize = 0;
            while i < v.len()
                invariant
                    i <= v.len(),
                    vs == text::deep(v@),
                    marks_from(vs, i as int, text::deep(out@)) == marks_from(vs, 0, Seq::empty()),
                decreases v.len() - i,
            {
                push_some(&mut out, mark_name(&v[i]));
                i += 1;
            }
        },
        other => {
            push_some(&mut out, mark_name(other));
        },
    }
    out
}

/// The string literals of a list or tuple.
pub open spec fn literals_in(value: ExprView) -> Seq<Seq<char>> {
    match crate::params::elements_of(value) {
        Some(v) => crate::params::strings_in(v),
        None => Seq::empty(),
    }
}

/// Literal strings from a list or tuple expression.
pub fn string_list(value: &Expr) -> (r: Vec<String>)
    ensures
        text::deep(r@) == literals_in(value@),
{
    match elements(value) {
        Some(v) => string_values(v),
        None => Vec::new(),
    }
}

/// `SomeStateMachine.TestCase`.
pub open spec fn is_testcase(value: ExprView) -> bool {
    match value {
        ExprView::Attribute(_, a) => a == "TestCase"@,
        _ => false,
    }
}

/// Take up `target = value` for a single name.
pub open spec fn with_binding(st: ScanView, target: Seq<char>, value: ExprView) -> ScanView {
    let m = st.module;
    ScanView {
        aliases: match crate::params::alias_of(value) {
            Some(pieces) => crate::table::put(st.aliases, target, pieces),
            None => st.aliases,
        },
        module: ModuleView {
            plugin_modules: if target == "pytest_plugins"@ {
                m.plugin_modules + plugins_in(value)
            } else {
                m.plugin_modules
            },
            pytestmark: if target == "pytestmark"@ {
                m.pytestmark + marks_in(value)
            } else {
                m.pytestmark
            },
            mark_aliases: put_some(m.mark_aliases, target, crate::params::mark_of(value)),
            import_bindings: put_some(
                m.import_bindings,
                target,
                crate::guards::bound_module(value),
            ),
            synthetic_testcases: if is_testcase(value) {
                m.synthetic_testcases.push(target)
            } else {
                m.synthetic_testcases
            },
            collect_ignore: if target == "collect_ignore"@ {
                m.collect_ignore + literals_in(value)
            } else {
                m.collect_ignore
            },
            collect_ignore_glob: if target == "collect_ignore_glob"@ {
                m.collect_ignore_glob + literals_in(value)
            } else {
                m.collect_ignore_glob
            },
            ..m
        },
        ..st
    }
}

/// Take up an assignment.
pub open spec fn with_assign(st: ScanView, targets: Seq<ExprView>, value: ExprView) -> ScanView {
    let bound = if targets.len() == 1 {
        match targets[0] {
            ExprView::Name(target) => with_binding(st, target, value),
            _ => st,
        }
    } else {
        st
    };
    ScanView {
        module: ModuleView {
            skip_requires: with_some(bound.module.skip_requires, crate::guards::demanded(value)),
            ..bound.module
        },
        ..bound
    }
}

fn take_binding(st: &mut Scan, target: &String, value: &Expr)
    ensures
        final(st)@ == with_binding(old(st)@, target@, value@),
{
    proof {
        crate::syntax::expr_parts(*value);
    }
    match parametrize_alias(value) {
        Some(pieces) => {
            st.aliases.insert(target.clone(), pieces);
        },
        None => {},
    }
    if same(target.as_str(), "pytest_plugins") {
        let names: Vec<String> = plugin_names(value);
        text::extend(&mut st.module.plugin_modules, &names);
    }
    if same(target.as_str(), "pytestmark") {
        let names: Vec<String> = mark_names(value);
        text::extend(&mut st.module.pytestmark, &names);
    }
    insert_some(&mut st.module.mark_aliases, target, mark_name(value));
    insert_some(&mut st.module.import_bindings, target, import_module_binding(value));
    match value {
        Expr::Attribute(_, a) => {
            if same(a.as_str(), "TestCase") {
                st.module.synthetic_testcases.push(target.clone());
            }
        },
        _ => {},
    }
    if same(target.as_str(), "collect_ignore") {
        let entries: Vec<String> = string_list(value);
        text::extend(&mut st.module.collect_ignore, &entries);
    }
    if same(target.as_str(), "collect_ignore_glob") {
        let entries: Vec<String> = string_list(value);
        text::extend(&mut st.module.collect_ignore_glob, &entries);
    }
}

fn take_assign(st: &mut Scan, targets: &Vec<Expr>, value: &Expr)
    ensures
        final(st)@ == with_assign(old(st)@, text::deep(targets@), value@),
{
    if targets.len() == 1 {
        proof {
            crate::syntax::expr_parts(targets@[0]);
        }
        match &targets[0] {
            Expr::Name(target) => {
                take_binding(st, target, value);
            },
            _ => {},
        }
    }
    push_some(&mut st.module.skip_requires, importorskip_name(value));
}

/// The last name of the function that an expression calls.
pub open spec fn called(e: ExprView) -> Option<Seq<char>> {
    match e {
        ExprView::Call(f, _, _) => crate::params::tail_name(*f),
        _ => None,
    }
}

/// Take up a bare expression: `pytest.importorskip`, `pytest.skip`, or the call
/// of a helper.
pub open spec fn with_expr(st: ScanView, e: ExprView) -> ScanView {
    let m = st.module;
    ScanView {
        module: ModuleView {
            skip_requires: with_some(m.skip_requires, crate::guards::demanded(e)),
            has_module_skip: m.has_module_skip || crate::guards::skip_call(e),
            helper_calls: if crate::guards::skip_call(e) {
                m.helper_calls
            } else {
                with_some(m.helper_calls, called(e))
            },
            ..m
        },
        ..st
    }
}

fn take_expr(st: &mut Scan, e: &Expr)
    ensures
        final(st)@ == with_expr(old(st)@, e@),
{
    proof {
        crate::syntax::expr_parts(*e);
    }
    push_some(&mut st.module.skip_requires, importorskip_name(e));
    if is_module_skip_call(e) {
        st.module.has_module_skip = true;
    } else {
        match e {
            Expr::Call(f, _, _) => match tail_of(f) {
                Some(name) => {
                    st.module.helper_calls.push(name.to_owned());
                },
                None => {},
            },
            _ => {},
        }
    }
}

/// What is left of a list that belongs to the name `owner` once `name` is
/// deleted.
pub open spec fn unless_deleted(
    list: Seq<Seq<char>>,
    owner: Seq<char>,
    name: Seq<char>,
) -> Seq<Seq<char>> {
    if name == owner {
        Seq::empty()
    } else {
        list
    }
}

/// Take up that what pytest reads of the module under `name` is gone: a
/// fixture function, the `pytest_generate_tests` hook, or one of the variables
/// `pytestmark`, `pytest_plugins`, `collect_ignore` and `collect_ignore_glob`.
pub open spec fn without_settings(st: ScanView, name: Seq<char>) -> ScanView {
    let m = st.module;
    ScanView {
        bound: crate::names::others::<Bound>(st.bound, name),
        module: ModuleView {
            has_generate_tests: m.has_generate_tests && name != "pytest_generate_tests"@,
            pytestmark: unless_deleted(m.pytestmark, "pytestmark"@, name),
            plugin_modules: unless_deleted(m.plugin_modules, "pytest_plugins"@, name),
            collect_ignore: unless_deleted(m.collect_ignore, "collect_ignore"@, name),
            collect_ignore_glob: unless_deleted(
                m.collect_ignore_glob,
                "collect_ignore_glob"@,
                name,
            ),
            ..m
        },
        ..st
    }
}

/// Take up that no test, class, import or alias is bound to `name` any more.
pub open spec fn without_bindings(st: ScanView, name: Seq<char>) -> ScanView {
    let m = st.module;
    ScanView {
        aliases: crate::table::without(st.aliases, name),
        module: ModuleView {
            imports: crate::table::without(m.imports, name),
            classes: crate::table::without(m.classes, name),
            functions: crate::table::without(m.functions, name),
            order: crate::names::others::<TopItem>(m.order, name),
            import_bindings: crate::table::without(m.import_bindings, name),
            synthetic_testcases: crate::names::others::<String>(m.synthetic_testcases, name),
            certain_names: crate::names::others::<String>(m.certain_names, name),
            mark_aliases: crate::table::without(m.mark_aliases, name),
            ..m
        },
        ..st
    }
}

/// Take up `del name`: nothing is bound to the name any more. In a branch that
/// may not run, fixtures, the hook and the variables that pytest reads stay: an
/// exact ID is only made where they are certainly gone.
pub open spec fn with_deleted(st: ScanView, name: Seq<char>, certain: bool) -> ScanView {
    let next = without_bindings(st, name);
    if certain {
        without_settings(next, name)
    } else {
        next
    }
}

/// Take up the targets of `del` from position `i` on.
pub open spec fn with_deletes(
    st: ScanView,
    targets: Seq<ExprView>,
    i: int,
    certain: bool,
) -> ScanView
    decreases targets.len() - i,
{
    if i < 0 || i >= targets.len() {
        st
    } else {
        with_deletes(
            match targets[i] {
                ExprView::Name(n) => with_deleted(st, n, certain),
                _ => st,
            },
            targets,
            i + 1,
            certain,
        )
    }
}

fn drop_settings(st: &mut Scan, name: &str)
    ensures
        final(st)@ == without_settings(old(st)@, name@),
{
    drop_named(&mut st.bound, name);
    if same(name, "pytest_generate_tests") {
        st.module.has_generate_tests = false;
    }
    if same(name, "pytestmark") {
        st.module.pytestmark = Vec::new();
    }
    if same(name, "pytest_plugins") {
        st.module.plugin_modules = Vec::new();
    }
    if same(name, "collect_ignore") {
        st.module.collect_ignore = Vec::new();
    }
    if same(name, "collect_ignore_glob") {
        st.module.collect_ignore_glob = Vec::new();
    }
}

fn take_deleted(st: &mut Scan, name: &str, certain: bool)
    ensures
        final(st)@ == with_deleted(old(st)@, name@, certain),
{
    st.aliases.remove(name);
    st.module.imports.remove(name);
    st.module.classes.remove(name);
    st.module.functions.remove(name);
    drop_named(&mut st.module.order, name);
    st.module.import_bindings.remove(name);
    drop_named(&mut st.module.synthetic_testcases, name);
    drop_named(&mut st.module.certain_names, name);
    st.module.mark_aliases.remove(name);
    if certain {
        drop_settings(st, name);
    }
}

fn take_deletes(st: &mut Scan, targets: &Vec<Expr>, certain: bool)
    ensures
        final(st)@ == with_deletes(old(st)@, text::deep(targets@), 0, certain),
{
    let ghost ts = text::deep(targets@);
    let mut i: usize = 0;
    while i < targets.len()
        invariant
            i <= targets.len(),
            ts == text::deep(targets@),
            with_deletes(st@, ts, i as int, certain) == with_deletes(old(st)@, ts, 0, certain),
        decreases targets.len() - i,
    {
        proof {
            crate::syntax::expr_parts(targets@[i as int]);
        }
        match &targets[i] {
            Expr::Name(n) => {
                take_deleted(st, n.as_str(), certain);
            },
            _ => {},
        }
        i += 1;
    }
}

// ---------------------------------------------------------------------------
// Imports
// ---------------------------------------------------------------------------

/// What `import name [as x]` binds: `import a.b` binds `a`.
pub open spec fn bound_by(alias: AliasView) -> (Seq<char>, Seq<char>) {
    match alias.asname {
        Some(n) => (n, alias.name),
        None => {
            let first = text::fields(alias.name, Separator::Char('.'), true)[0];
            (first, first)
        },
    }
}

/// The imports with those of an `import` statement from position `i` on.
pub open spec fn with_imports(
    t: Seq<(Seq<char>, ImportView)>,
    names: Seq<AliasView>,
    i: int,
) -> Seq<(Seq<char>, ImportView)>
    decreases names.len() - i,
{
    if i < 0 || i >= names.len() {
        t
    } else {
        with_imports(
            crate::table::put(t, bound_by(names[i]).0, ImportView::Module(bound_by(names[i]).1)),
            names,
            i + 1,
        )
    }
}

/// The part of a dotted name in front of its first dot.
fn first_segment(dotted: &str) -> (r: String)
    ensures
        r@ == text::fields(dotted@, Separator::Char('.'), true)[0],
{
    let segments: Vec<String> = split(dotted, Separator::Char('.'), true);
    proof {
        text::fields_nonempty(dotted@, 0, Seq::empty(), Seq::empty(), '.');
        assert(text::deep(segments@).len() == segments@.len());
        assert(text::deep(segments@)[0] == segments@[0]@);
    }
    segments[0].clone()
}

fn take_imports(t: &mut Table<Import>, names: &Vec<Alias>)
    ensures
        final(t)@ == with_imports(old(t)@, text::deep(names@), 0),
{
    let ghost ns = text::deep(names@);
    let mut i: usize = 0;
    while i < names.len()
        invariant
            i <= names.len(),
            ns == text::deep(names@),
            with_imports(t@, ns, i as int) == with_imports(old(t)@, ns, 0),
        decreases names.len() - i,
    {
        match &names[i].asname {
            Some(n) => {
                t.insert(n.clone(), Import::Module(names[i].name.clone()));
            },
            None => {
                let first: String = first_segment(names[i].name.as_str());
                t.insert(first.clone(), Import::Module(first));
            },
        }
        i += 1;
    }
}

/// The directory `n` levels above `dir`.
pub open spec fn above(dir: Seq<Seq<char>>, n: nat) -> Seq<Seq<char>>
    decreases n,
{
    if n == 0 {
        dir
    } else {
        above(crate::model::dir_of(dir), (n - 1) as nat)
    }
}

/// A path with more components behind it, from position `i` on.
pub open spec fn below(p: Seq<Seq<char>>, segments: Seq<Seq<char>>, i: int) -> Seq<Seq<char>>
    decreases segments.len() - i,
{
    if i < 0 || i >= segments.len() {
        p
    } else {
        below(crate::path::child(p, segments[i]), segments, i + 1)
    }
}

/// The module that `from <level dots><module> import ...` names in a file of
/// the directory `dir`.
pub open spec fn imported_from(
    dir: Seq<Seq<char>>,
    level: u32,
    module: Option<Seq<char>>,
) -> Option<ModuleRefView> {
    if level == 0 {
        match module {
            Some(m) => Some(ModuleRefView::Absolute(m)),
            None => None,
        }
    } else {
        let base = above(dir, (level - 1) as nat);
        match module {
            Some(m) => Some(
                ModuleRefView::Relative(
                    below(base, text::fields(m, Separator::Char('.'), true), 0),
                ),
            ),
            None => Some(ModuleRefView::Relative(base)),
        }
    }
}

/// A path with the components of a dotted name behind it.
pub fn under(base: &FilePath, dotted: &str) -> (r: FilePath)
    ensures
        r@ == below(base@, text::fields(dotted@, Separator::Char('.'), true), 0),
{
    let segments: Vec<String> = split(dotted, Separator::Char('.'), true);
    let ghost ss = text::deep(segments@);
    let mut p: FilePath = base.copy();
    let mut i: usize = 0;
    while i < segments.len()
        invariant
            i <= segments.len(),
            ss == text::deep(segments@),
            below(p@, ss, i as int) == below(base@, ss, 0),
        decreases segments.len() - i,
    {
        p = p.child(segments[i].as_str());
        i += 1;
    }
    p
}

/// The directory that the dots of a relative import name.
fn import_base(dir: &FilePath, level: u32) -> (r: FilePath)
    requires
        level > 0,
    ensures
        r@ == above(dir@, (level - 1) as nat),
{
    let mut base: FilePath = dir.copy();
    let mut n: u32 = level - 1;
    while n > 0
        invariant
            level > 0,
            above(base@, n as nat) == above(dir@, (level - 1) as nat),
        decreases n,
    {
        base = match base.parent() {
            Some(p) => p,
            None => FilePath::empty(),
        };
        n -= 1;
    }
    base
}

fn import_source(dir: &FilePath, level: u32, module: &Option<String>) -> (r: Option<ModuleRef>)
    ensures
        text::opt(r) == imported_from(dir@, level, text::opt(*module)),
{
    if level == 0 {
        match module {
            Some(m) => Some(ModuleRef::Absolute(m.clone())),
            None => None,
        }
    } else {
        let base: FilePath = import_base(dir, level);
        match module {
            Some(m) => Some(ModuleRef::Relative(under(&base, m.as_str()))),
            None => Some(ModuleRef::Relative(base)),
        }
    }
}

/// Take up the names of a `from ... import` statement from position `i` on.
pub open spec fn with_from(
    m: ModuleView,
    mref: ModuleRefView,
    names: Seq<AliasView>,
    i: int,
) -> ModuleView
    decreases names.len() - i,
{
    if i < 0 || i >= names.len() {
        m
    } else {
        with_from(
            if names[i].name == "*"@ {
                ModuleView { star_imports: m.star_imports.push(mref), ..m }
            } else {
                ModuleView {
                    imports: crate::table::put(
                        m.imports,
                        match names[i].asname {
                            Some(n) => n,
                            None => names[i].name,
                        },
                        ImportView::From(mref, names[i].name),
                    ),
                    ..m
                }
            },
            mref,
            names,
            i + 1,
        )
    }
}

/// Take up a `from ... import` statement.
pub open spec fn with_import_from(
    m: ModuleView,
    level: u32,
    module: Option<Seq<char>>,
    names: Seq<AliasView>,
) -> ModuleView {
    match imported_from(m.dir, level, module) {
        Some(mref) => with_from(m, mref, names, 0),
        None => m,
    }
}

fn take_import_from(m: &mut Module, level: u32, module: &Option<String>, names: &Vec<Alias>)
    ensures
        final(m)@ == with_import_from(old(m)@, level, text::opt(*module), text::deep(names@)),
{
    match import_source(&m.dir, level, module) {
        Some(mref) => {
            let ghost ns = text::deep(names@);
            let mut i: usize = 0;
            while i < names.len()
                invariant
                    i <= names.len(),
                    ns == text::deep(names@),
                    with_from(m@, mref@, ns, i as int) == with_from(old(m)@, mref@, ns, 0),
                decreases names.len() - i,
            {
                if same(names[i].name.as_str(), "*") {
                    m.star_imports.push(mref.copy());
                } else {
                    let local: String = match &names[i].asname {
                        Some(n) => n.clone(),
                        None => names[i].name.clone(),
                    };
                    m.imports.insert(local, Import::From(mref.copy(), names[i].name.clone()));
                }
                i += 1;
            }
        },
        None => {},
    }
}

/// The links with every package of a dotted name and the module itself, from
/// the segment at position `i` on, where `prefix` stands in front.
pub open spec fn with_packages(
    links: Seq<ModuleRefView>,
    segments: Seq<Seq<char>>,
    i: int,
    prefix: Seq<char>,
) -> Seq<ModuleRefView>
    decreases segments.len() - i,
{
    if i < 0 || i >= segments.len() {
        links
    } else {
        let dotted = if i == 0 {
            segments[i]
        } else {
            prefix + "."@ + segments[i]
        };
        with_packages(links.push(ModuleRefView::Absolute(dotted)), segments, i + 1, dotted)
    }
}

/// The links with those of a dotted name: importing a module loads the packages
/// that it lies in.
pub open spec fn with_dotted(
    links: Seq<ModuleRefView>,
    dotted: Seq<char>,
) -> Seq<ModuleRefView> {
    with_packages(links, text::fields(dotted, Separator::Char('.'), true), 0, Seq::empty())
}

/// The links with the package at `p` and every package and module on the way
/// down from it along the segments from position `i` on.
pub open spec fn with_folders(
    links: Seq<ModuleRefView>,
    p: Seq<Seq<char>>,
    segments: Seq<Seq<char>>,
    i: int,
) -> Seq<ModuleRefView>
    decreases segments.len() - i,
{
    let next = links.push(ModuleRefView::Relative(p));
    if i < 0 || i >= segments.len() {
        next
    } else {
        with_folders(next, crate::path::child(p, segments[i]), segments, i + 1)
    }
}

/// The links with those of an `import` statement from position `i` on.
pub open spec fn with_links(
    links: Seq<ModuleRefView>,
    names: Seq<AliasView>,
    i: int,
) -> Seq<ModuleRefView>
    decreases names.len() - i,
{
    if i < 0 || i >= names.len() {
        links
    } else {
        with_links(with_dotted(links, names[i].name), names, i + 1)
    }
}

/// The links with what the names of a `from` import from position `i` on may
/// be: submodules.
pub open spec fn with_submodules(
    links: Seq<ModuleRefView>,
    mref: ModuleRefView,
    names: Seq<AliasView>,
    i: int,
) -> Seq<ModuleRefView>
    decreases names.len() - i,
{
    if i < 0 || i >= names.len() {
        links
    } else {
        with_submodules(
            if names[i].name == "*"@ {
                links
            } else {
                links.push(crate::model::child_ref(mref, names[i].name))
            },
            mref,
            names,
            i + 1,
        )
    }
}

/// The links with those of a `from ... import` statement.
pub open spec fn with_from_links(
    links: Seq<ModuleRefView>,
    dir: Seq<Seq<char>>,
    level: u32,
    module: Option<Seq<char>>,
    names: Seq<AliasView>,
) -> Seq<ModuleRefView> {
    match imported_from(dir, level, module) {
        Some(mref) => with_submodules(
            match mref {
                ModuleRefView::Absolute(dotted) => with_dotted(links, dotted),
                ModuleRefView::Relative(_) => with_folders(
                    links,
                    above(dir, (level - 1) as nat),
                    match module {
                        Some(m) => text::fields(m, Separator::Char('.'), true),
                        None => Seq::empty(),
                    },
                    0,
                ),
            },
            mref,
            names,
            0,
        ),
        None => links,
    }
}

fn push_packages(links: &mut Vec<ModuleRef>, dotted: &str)
    ensures
        text::deep(final(links)@) == with_dotted(text::deep(old(links)@), dotted@),
{
    let segments: Vec<String> = split(dotted, Separator::Char('.'), true);
    let ghost ss = text::deep(segments@);
    let ghost before = text::deep(links@);
    let mut prefix: String = String::new();
    let mut i: usize = 0;
    while i < segments.len()
        invariant
            i <= segments.len(),
            ss == text::deep(segments@),
            with_packages(text::deep(links@), ss, i as int, prefix@) == with_packages(
                before,
                ss,
                0,
                Seq::empty(),
            ),
        decreases segments.len() - i,
    {
        prefix = if i == 0 {
            segments[i].clone()
        } else {
            concat3(prefix.as_str(), ".", segments[i].as_str())
        };
        links.push(ModuleRef::Absolute(prefix.clone()));
        i += 1;
    }
}

fn push_folders(links: &mut Vec<ModuleRef>, base: FilePath, module: &Option<String>)
    ensures
        text::deep(final(links)@) == with_folders(
            text::deep(old(links)@),
            base@,
            match text::opt(*module) {
                Some(m) => text::fields(m, Separator::Char('.'), true),
                None => Seq::empty(),
            },
            0,
        ),
{
    let segments: Vec<String> = match module {
        Some(m) => split(m.as_str(), Separator::Char('.'), true),
        None => Vec::new(),
    };
    let ghost ss = text::deep(segments@);
    let ghost before = text::deep(links@);
    let ghost start = base@;
    proof {
        if module is None {
            assert(ss =~= Seq::empty());
        }
    }
    let mut p: FilePath = base;
    let mut i: usize = 0;
    while i < segments.len()
        invariant
            i <= segments.len(),
            ss == text::deep(segments@),
            with_folders(text::deep(links@), p@, ss, i as int) == with_folders(
                before,
                start,
                ss,
                0,
            ),
        decreases segments.len() - i,
    {
        let next: FilePath = p.child(segments[i].as_str());
        links.push(ModuleRef::Relative(p));
        p = next;
        i += 1;
    }
    links.push(ModuleRef::Relative(p));
}

fn take_links(links: &mut Vec<ModuleRef>, names: &Vec<Alias>)
    ensures
        text::deep(final(links)@) == with_links(
            text::deep(old(links)@),
            text::deep(names@),
            0,
        ),
{
    let ghost ns = text::deep(names@);
    let ghost before = text::deep(links@);
    let mut i: usize = 0;
    while i < names.len()
        invariant
            i <= names.len(),
            ns == text::deep(names@),
            with_links(text::deep(links@), ns, i as int) == with_links(before, ns, 0),
        decreases names.len() - i,
    {
        push_packages(links, names[i].name.as_str());
        i += 1;
    }
}

fn take_from_links(
    links: &mut Vec<ModuleRef>,
    dir: &FilePath,
    level: u32,
    module: &Option<String>,
    names: &Vec<Alias>,
)
    ensures
        text::deep(final(links)@) == with_from_links(
            text::deep(old(links)@),
            dir@,
            level,
            text::opt(*module),
            text::deep(names@),
        ),
{
    match import_source(dir, level, module) {
        Some(mref) => {
            match &mref {
                ModuleRef::Absolute(dotted) => {
                    push_packages(links, dotted.as_str());
                },
                ModuleRef::Relative(_) => {
                    push_folders(links, import_base(dir, level), module);
                },
            }
            let ghost ns = text::deep(names@);
            let ghost before = text::deep(links@);
            let mut i: usize = 0;
            while i < names.len()
                invariant
                    i <= names.len(),
                    ns == text::deep(names@),
                    with_submodules(text::deep(links@), mref@, ns, i as int)
                        == with_submodules(before, mref@, ns, 0),
                decreases names.len() - i,
            {
                if !same(names[i].name.as_str(), "*") {
                    links.push(resolve_child(&mref, names[i].name.as_str()));
                }
                i += 1;
            }
        },
        None => {},
    }
}

/// The links with those of a statement. Imports anywhere in a module load what
/// they name once they run, so every block counts, the bodies of functions and
/// classes among them.
pub open spec fn linked(
    s: StmtView,
    dir: Seq<Seq<char>>,
    links: Seq<ModuleRefView>,
) -> Seq<ModuleRefView>
    decreases s, 0int,
{
    match s {
        StmtView::Function { body, .. } => linked_all(body, 0, dir, links),
        StmtView::Class { body, .. } => linked_all(body, 0, dir, links),
        StmtView::Import(names) => with_links(links, names, 0),
        StmtView::ImportFrom { level, module, names } => with_from_links(
            links,
            dir,
            level,
            module,
            names,
        ),
        StmtView::If { body, clauses, .. } => linked_clauses(
            clauses,
            0,
            dir,
            linked_all(body, 0, dir, links),
        ),
        StmtView::Try { body, handlers, orelse, finalbody } => linked_all(
            finalbody,
            0,
            dir,
            linked_all(
                orelse,
                0,
                dir,
                linked_blocks(handlers, 0, dir, linked_all(body, 0, dir, links)),
            ),
        ),
        StmtView::With { body } => linked_all(body, 0, dir, links),
        StmtView::Nested(blocks) => linked_blocks(blocks, 0, dir, links),
        _ => links,
    }
}

/// The links with those of the statements from position `i` on.
pub open spec fn linked_all(
    stmts: Seq<StmtView>,
    i: int,
    dir: Seq<Seq<char>>,
    links: Seq<ModuleRefView>,
) -> Seq<ModuleRefView>
    decreases stmts, stmts.len() - i,
{
    if i < 0 || i >= stmts.len() {
        links
    } else {
        linked_all(stmts, i + 1, dir, linked(stmts[i], dir, links))
    }
}

/// The links with those of the clauses from position `i` on.
pub open spec fn linked_clauses(
    clauses: Seq<ClauseView>,
    i: int,
    dir: Seq<Seq<char>>,
    links: Seq<ModuleRefView>,
) -> Seq<ModuleRefView>
    decreases clauses, clauses.len() - i,
{
    if i < 0 || i >= clauses.len() {
        links
    } else {
        linked_clauses(clauses, i + 1, dir, linked_all(clauses[i].body, 0, dir, links))
    }
}

/// The links with those of the blocks from position `i` on.
pub open spec fn linked_blocks(
    blocks: Seq<BlockView>,
    i: int,
    dir: Seq<Seq<char>>,
    links: Seq<ModuleRefView>,
) -> Seq<ModuleRefView>
    decreases blocks, blocks.len() - i,
{
    if i < 0 || i >= blocks.len() {
        links
    } else {
        linked_blocks(blocks, i + 1, dir, linked_all(blocks[i].body, 0, dir, links))
    }
}

/// Takes up what the imports of some statements refer to.
fn link(stmts: &Vec<Stmt>, dir: &FilePath, links: &mut Vec<ModuleRef>)
    ensures
        text::deep(final(links)@) == linked_all(
            text::deep(stmts@),
            0,
            dir@,
            text::deep(old(links)@),
        ),
    decreases stmts, 1int,
{
    let ghost ss = text::deep(stmts@);
    let mut i: usize = 0;
    while i < stmts.len()
        invariant
            i <= stmts.len(),
            ss == text::deep(stmts@),
            linked_all(ss, i as int, dir@, text::deep(links@)) == linked_all(
                ss,
                0,
                dir@,
                text::deep(old(links)@),
            ),
        decreases stmts.len() - i,
    {
        proof {
            assert(decreases_to!(stmts => stmts@[i as int]));
        }
        link_stmt(&stmts[i], dir, links);
        i += 1;
    }
}

fn link_stmt(s: &Stmt, dir: &FilePath, links: &mut Vec<ModuleRef>)
    ensures
        text::deep(final(links)@) == linked(s@, dir@, text::deep(old(links)@)),
    decreases s, 0int,
{
    proof {
        crate::syntax::stmt_parts(*s);
    }
    match s {
        Stmt::Function { name, decorators, params, body } => {
            link(body, dir, links);
        },
        Stmt::Class { name, decorators, bases, body } => {
            link(body, dir, links);
        },
        Stmt::Import(names) => {
            take_links(links, names);
        },
        Stmt::ImportFrom { level, module, names } => {
            take_from_links(links, dir, *level, module, names);
        },
        Stmt::If { test, body, clauses } => {
            link(body, dir, links);
            link_clauses(clauses, dir, links);
        },
        Stmt::Try { body, handlers, orelse, finalbody } => {
            link(body, dir, links);
            link_blocks(handlers, dir, links);
            link(orelse, dir, links);
            link(finalbody, dir, links);
        },
        Stmt::With { body } => {
            link(body, dir, links);
        },
        Stmt::Nested(blocks) => {
            link_blocks(blocks, dir, links);
        },
        _ => {},
    }
}

fn link_clauses(clauses: &Vec<Clause>, dir: &FilePath, links: &mut Vec<ModuleRef>)
    ensures
        text::deep(final(links)@) == linked_clauses(
            text::deep(clauses@),
            0,
            dir@,
            text::deep(old(links)@),
        ),
    decreases clauses, 2int,
{
    let ghost cs = text::deep(clauses@);
    let mut i: usize = 0;
    while i < clauses.len()
        invariant
            i <= clauses.len(),
            cs == text::deep(clauses@),
            linked_clauses(cs, i as int, dir@, text::deep(links@)) == linked_clauses(
                cs,
                0,
                dir@,
                text::deep(old(links)@),
            ),
        decreases clauses.len() - i,
    {
        proof {
            crate::syntax::clause_parts(clauses@[i as int]);
            assert(decreases_to!(clauses => clauses@[i as int]));
        }
        link(&clauses[i].body, dir, links);
        i += 1;
    }
}

fn link_blocks(blocks: &Vec<Block>, dir: &FilePath, links: &mut Vec<ModuleRef>)
    ensures
        text::deep(final(links)@) == linked_blocks(
            text::deep(blocks@),
            0,
            dir@,
            text::deep(old(links)@),
        ),
    decreases blocks, 2int,
{
    let ghost bs = text::deep(blocks@);
    let mut i: usize = 0;
    while i < blocks.len()
        invariant
            i <= blocks.len(),
            bs == text::deep(blocks@),
            linked_blocks(bs, i as int, dir@, text::deep(links@)) == linked_blocks(
                bs,
                0,
                dir@,
                text::deep(old(links)@),
            ),
        decreases blocks.len() - i,
    {
        proof {
            crate::syntax::block_parts(blocks@[i as int]);
            assert(decreases_to!(blocks => blocks@[i as int]));
        }
        link(&blocks[i].body, dir, links);
        i += 1;
    }
}

// ---------------------------------------------------------------------------
// Guards
// ---------------------------------------------------------------------------

/// The guarded branches with one more, unless it defines nothing.
pub open spec fn with_block(
    blocks: Seq<GuardedView>,
    guard: GuardView,
    names: Seq<Seq<char>>,
) -> Seq<GuardedView> {
    if names.len() == 0 {
        blocks
    } else {
        blocks.push(GuardedView { guard, names })
    }
}

/// The guarded branches with the plain `else` clauses from position `i` on,
/// which carry the inverted guard.
pub open spec fn with_else_blocks(
    blocks: Seq<GuardedView>,
    guard: GuardView,
    clauses: Seq<ClauseView>,
    i: int,
) -> Seq<GuardedView>
    decreases clauses.len() - i,
{
    if i < 0 || i >= clauses.len() {
        blocks
    } else {
        with_else_blocks(
            if clauses[i].test is None {
                with_block(
                    blocks,
                    crate::model::inverted(guard),
                    crate::guards::defined_from(clauses[i].body, 0, Seq::empty()),
                )
            } else {
                blocks
            },
            guard,
            clauses,
            i + 1,
        )
    }
}

/// The guarded branches with those of an `if` statement whose condition is not
/// constant.
pub open spec fn with_guard(
    m: ModuleView,
    test: ExprView,
    body: Seq<StmtView>,
    clauses: Seq<ClauseView>,
    os: Seq<char>,
) -> ModuleView {
    match (crate::guards::truth(test, os), crate::guards::guard_of(test, m.import_bindings)) {
        (None, Some(guard)) => ModuleView {
            cond_blocks: with_else_blocks(
                with_block(
                    m.cond_blocks,
                    guard,
                    crate::guards::defined_from(body, 0, Seq::empty()),
                ),
                guard,
                clauses,
                0,
            ),
            ..m
        },
        _ => m,
    }
}

fn push_block(blocks: &mut Vec<Guarded>, guard: Guard, names: Vec<String>)
    ensures
        text::deep(final(blocks)@) == with_block(
            text::deep(old(blocks)@),
            guard@,
            text::deep(names@),
        ),
{
    proof {
        assert(text::deep(names@).len() == names@.len());
    }
    if names.len() > 0 {
        blocks.push(Guarded { guard, names });
    }
}

fn take_guard(m: &mut Module, test: &Expr, body: &Vec<Stmt>, clauses: &Vec<Clause>, os: &str)
    ensures
        final(m)@ == with_guard(
            old(m)@,
            test@,
            text::deep(body@),
            text::deep(clauses@),
            os@,
        ),
{
    if eval_condition(test, os).is_some() {
        return;
    }
    match classify_guard(test, &m.import_bindings) {
        Some(guard) => {
            push_block(&mut m.cond_blocks, guard.copy(), defined_names(body));
            let ghost first = text::deep(m.cond_blocks@);
            let ghost start = m@;
            let ghost cs = text::deep(clauses@);
            let mut i: usize = 0;
            while i < clauses.len()
                invariant
                    i <= clauses.len(),
                    cs == text::deep(clauses@),
                    m@ == (ModuleView { cond_blocks: text::deep(m.cond_blocks@), ..start }),
                    with_else_blocks(text::deep(m.cond_blocks@), guard@, cs, i as int)
                        == with_else_blocks(first, guard@, cs, 0),
                decreases clauses.len() - i,
            {
                proof {
                    crate::syntax::clause_parts(clauses@[i as int]);
                }
                if clauses[i].test.is_none() {
                    push_block(
                        &mut m.cond_blocks,
                        guard.invert(),
                        defined_names(&clauses[i].body),
                    );
                }
                i += 1;
            }
        },
        None => {},
    }
}

// ---------------------------------------------------------------------------
// Guarded imports
// ---------------------------------------------------------------------------

/// The names of an import, from position `i` on, behind those in `out`.
pub open spec fn alias_names(
    names: Seq<AliasView>,
    i: int,
    out: Seq<Seq<char>>,
) -> Seq<Seq<char>>
    decreases names.len() - i,
{
    if i < 0 || i >= names.len() {
        out
    } else {
        alias_names(names, i + 1, out.push(names[i].name))
    }
}

/// The modules that a statement imports by an absolute name.
pub open spec fn imported_by(s: StmtView) -> Seq<Seq<char>> {
    match s {
        StmtView::Import(names) => alias_names(names, 0, Seq::empty()),
        StmtView::ImportFrom { level, module, names } => if level == 0 {
            with_some(Seq::empty(), module)
        } else {
            Seq::empty()
        },
        _ => Seq::empty(),
    }
}

/// The modules that the statements from position `i` on import by an absolute
/// name, behind those in `out`.
pub open spec fn imported_in(
    stmts: Seq<StmtView>,
    i: int,
    out: Seq<Seq<char>>,
) -> Seq<Seq<char>>
    decreases stmts.len() - i,
{
    if i < 0 || i >= stmts.len() {
        out
    } else {
        imported_in(stmts, i + 1, out + imported_by(stmts[i]))
    }
}

fn import_names(s: &Stmt) -> (r: Vec<String>)
    ensures
        text::deep(r@) == imported_by(s@),
{
    proof {
        crate::syntax::stmt_parts(*s);
    }
    let mut out: Vec<String> = Vec::new();
    match s {
        Stmt::Import(names) => {
            let ghost ns = text::deep(names@);
            let mut i: usize = 0;
            while i < names.len()
                invariant
                    i <= names.len(),
                    ns == text::deep(names@),
                    alias_names(ns, i as int, text::deep(out@)) == alias_names(
                        ns,
                        0,
                        Seq::empty(),
                    ),
                decreases names.len() - i,
            {
                out.push(names[i].name.clone());
                i += 1;
            }
        },
        Stmt::ImportFrom { level, module, names } => {
            if *level == 0 {
                match module {
                    Some(m) => {
                        out.push(m.clone());
                    },
                    None => {},
                }
            }
        },
        _ => {},
    }
    out
}

/// The modules that some statements import by an absolute name.
fn imports_of(stmts: &Vec<Stmt>) -> (r: Vec<String>)
    ensures
        text::deep(r@) == imported_in(text::deep(stmts@), 0, Seq::empty()),
{
    let ghost ss = text::deep(stmts@);
    let mut out: Vec<String> = Vec::new();
    let mut i: usize = 0;
    while i < stmts.len()
        invariant
            i <= stmts.len(),
            ss == text::deep(stmts@),
            imported_in(ss, i as int, text::deep(out@)) == imported_in(ss, 0, Seq::empty()),
        decreases stmts.len() - i,
    {
        let names: Vec<String> = import_names(&stmts[i]);
        text::extend(&mut out, &names);
        i += 1;
    }
    out
}

/// The name that a statement `name = True` or `name = False` sets.
pub open spec fn flag_set(s: StmtView, value: bool) -> Option<Seq<char>> {
    match s {
        StmtView::Assign { targets, value: v } => if targets.len() == 1 {
            match (targets[0], v) {
                (ExprView::Name(n), ExprView::Bool(b)) => if b == value {
                    Some(n)
                } else {
                    None
                },
                _ => None,
            }
        } else {
            None
        },
        _ => None,
    }
}

/// The names that the statements from position `i` on set to `value`, behind
/// those in `out`.
pub open spec fn flags_in(
    stmts: Seq<StmtView>,
    value: bool,
    i: int,
    out: Seq<Seq<char>>,
) -> Seq<Seq<char>>
    decreases stmts.len() - i,
{
    if i < 0 || i >= stmts.len() {
        out
    } else {
        flags_in(stmts, value, i + 1, with_some(out, flag_set(stmts[i], value)))
    }
}

/// The names that the handlers from position `i` on set to `False`, behind
/// those in `out`.
pub open spec fn flags_cleared(
    handlers: Seq<BlockView>,
    i: int,
    out: Seq<Seq<char>>,
) -> Seq<Seq<char>>
    decreases handlers.len() - i,
{
    if i < 0 || i >= handlers.len() {
        out
    } else {
        flags_cleared(handlers, i + 1, flags_in(handlers[i].body, false, 0, out))
    }
}

/// The availability bindings with those of the names `set`, from position `i`
/// on, that are also in `cleared`.
pub open spec fn with_flags(
    t: Seq<(Seq<char>, Seq<char>)>,
    set: Seq<Seq<char>>,
    cleared: Seq<Seq<char>>,
    dep: Seq<char>,
    i: int,
) -> Seq<(Seq<char>, Seq<char>)>
    decreases set.len() - i,
{
    if i < 0 || i >= set.len() {
        t
    } else {
        with_flags(
            if cleared.contains(set[i]) {
                crate::table::put(t, set[i], dep)
            } else {
                t
            },
            set,
            cleared,
            dep,
            i + 1,
        )
    }
}

/// Take up what a `try` statement says of the modules that its body imports.
/// Handlers that skip make them demanded. A flag that is set to `True` behind
/// the import and to `False` in a handler says whether the first of them can be
/// imported.
pub open spec fn with_try(
    m: ModuleView,
    body: Seq<StmtView>,
    handlers: Seq<BlockView>,
    orelse: Seq<StmtView>,
) -> ModuleView {
    let deps = imported_in(body, 0, Seq::empty());
    ModuleView {
        skip_requires: if crate::guards::blocks_skip(handlers, 0) {
            m.skip_requires + deps
        } else {
            m.skip_requires
        },
        import_bindings: if deps.len() > 0 {
            with_flags(
                m.import_bindings,
                flags_in(orelse, true, 0, flags_in(body, true, 0, Seq::empty())),
                flags_cleared(handlers, 0, Seq::empty()),
                deps[0],
                0,
            )
        } else {
            m.import_bindings
        },
        ..m
    }
}

fn flag_of(s: &Stmt, value: bool) -> (r: Option<String>)
    ensures
        text::opt(r) == flag_set(s@, value),
{
    proof {
        crate::syntax::stmt_parts(*s);
    }
    match s {
        Stmt::Assign { targets, value: v } => if targets.len() == 1 {
            proof {
                crate::syntax::expr_parts(targets@[0]);
                crate::syntax::expr_parts(*v);
            }
            match (&targets[0], v) {
                (Expr::Name(n), Expr::Bool(b)) => if *b == value {
                    Some(n.clone())
                } else {
                    None
                },
                _ => None,
            }
        } else {
            None
        },
        _ => None,
    }
}

fn push_flags(out: &mut Vec<String>, stmts: &Vec<Stmt>, value: bool)
    ensures
        text::deep(final(out)@) == flags_in(
            text::deep(stmts@),
            value,
            0,
            text::deep(old(out)@),
        ),
{
    let ghost ss = text::deep(stmts@);
    let mut i: usize = 0;
    while i < stmts.len()
        invariant
            i <= stmts.len(),
            ss == text::deep(stmts@),
            flags_in(ss, value, i as int, text::deep(out@)) == flags_in(
                ss,
                value,
                0,
                text::deep(old(out)@),
            ),
        decreases stmts.len() - i,
    {
        push_some(out, flag_of(&stmts[i], value));
        i += 1;
    }
}

fn take_try(m: &mut Module, body: &Vec<Stmt>, handlers: &Vec<Block>, orelse: &Vec<Stmt>)
    ensures
        final(m)@ == with_try(
            old(m)@,
            text::deep(body@),
            text::deep(handlers@),
            text::deep(orelse@),
        ),
{
    let deps: Vec<String> = imports_of(body);
    if handlers_call_skip(handlers) {
        text::extend(&mut m.skip_requires, &deps);
    }
    proof {
        assert(text::deep(deps@).len() == deps@.len());
    }
    if deps.len() > 0 {
        let mut set: Vec<String> = Vec::new();
        push_flags(&mut set, body, true);
        push_flags(&mut set, orelse, true);
        let mut cleared: Vec<String> = Vec::new();
        let ghost hs = text::deep(handlers@);
        let mut k: usize = 0;
        while k < handlers.len()
            invariant
                k <= handlers.len(),
                hs == text::deep(handlers@),
                flags_cleared(hs, k as int, text::deep(cleared@)) == flags_cleared(
                    hs,
                    0,
                    Seq::empty(),
                ),
            decreases handlers.len() - k,
        {
            proof {
                crate::syntax::block_parts(handlers@[k as int]);
            }
            push_flags(&mut cleared, &handlers[k].body, false);
            k += 1;
        }
        let ghost ss = text::deep(set@);
        let ghost cs = text::deep(cleared@);
        let ghost dep = deps@[0]@;
        let ghost start = m@;
        let ghost first = m.import_bindings@;
        let mut i: usize = 0;
        while i < set.len()
            invariant
                i <= set.len(),
                deps@.len() > 0,
                dep == deps@[0]@,
                ss == text::deep(set@),
                cs == text::deep(cleared@),
                m@ == (ModuleView { import_bindings: m.import_bindings@, ..start }),
                with_flags(m.import_bindings@, ss, cs, dep, i as int) == with_flags(
                    first,
                    ss,
                    cs,
                    dep,
                    0,
                ),
            decreases set.len() - i,
        {
            if text::is_in(&cleared, set[i].as_str()) {
                m.import_bindings.insert(set[i].clone(), deps[0].clone());
            }
            i += 1;
        }
    }
}

// ---------------------------------------------------------------------------
// The walk
// ---------------------------------------------------------------------------

/// What counts of a branch: what counts of the block around it, or the imports
/// only where the branch is dead.
pub open spec fn branch(reach: Reach, live: bool) -> Reach {
    if live {
        reach
    } else {
        Reach::Imports
    }
}

/// What counts of the handlers of a `try` statement.
pub open spec fn handler(reach: Reach) -> Reach {
    if reach == Reach::Imports {
        Reach::Imports
    } else {
        Reach::Definitions
    }
}

/// Is the condition of a clause certainly true? A plain `else` has none.
pub open spec fn clause_holds(test: Option<ExprView>, os: Seq<char>) -> bool {
    match test {
        Some(t) => crate::guards::truth(t, os) == Some(true),
        None => true,
    }
}

/// Is the condition of a clause certainly false?
pub open spec fn clause_fails(test: Option<ExprView>, os: Seq<char>) -> bool {
    match test {
        Some(t) => crate::guards::truth(t, os) == Some(false),
        None => false,
    }
}

/// What is found up to and with a statement. Definitions inside top-level
/// `if`/`else` and `try`/`except` are real module members for whichever branch
/// runs; branches that are decidably dead contribute imports only. `certain`
/// says that the block runs in any case.
pub open spec fn scanned(
    s: StmtView,
    st: ScanView,
    reach: Reach,
    certain: bool,
    os: Seq<char>,
) -> ScanView
    decreases s, 0int,
{
    match s {
        StmtView::Function { name, decorators, params, body } => if reach == Reach::Imports {
            st
        } else {
            with_function(st, name, decorators, params, body, certain, os)
        },
        StmtView::Class { name, decorators, bases, body } => if reach == Reach::Imports {
            st
        } else {
            with_class(st, name, decorators, bases, body, certain, os)
        },
        StmtView::Assign { targets, value } => if reach == Reach::Live {
            with_assign(st, targets, value)
        } else {
            st
        },
        StmtView::Expr(e) => if reach == Reach::Live {
            with_expr(st, e)
        } else {
            st
        },
        StmtView::Delete(targets) => if reach == Reach::Live {
            with_deletes(st, targets, 0, certain)
        } else {
            st
        },
        StmtView::Import(names) => ScanView {
            module: ModuleView {
                imports: with_imports(st.module.imports, names, 0),
                ..st.module
            },
            ..st
        },
        StmtView::ImportFrom { level, module, names } => ScanView {
            module: with_import_from(st.module, level, module, names),
            ..st
        },
        StmtView::If { test, body, clauses } => {
            let cond = crate::guards::truth(test, os);
            let guarded = if reach == Reach::Imports {
                st
            } else {
                ScanView { module: with_guard(st.module, test, body, clauses, os), ..st }
            };
            scanned_clauses(
                clauses,
                0,
                scanned_all(
                    body,
                    0,
                    guarded,
                    branch(reach, cond != Some(false)),
                    certain && cond == Some(true),
                    os,
                ),
                branch(reach, cond != Some(true)),
                certain && cond == Some(false),
                os,
            )
        },
        StmtView::Try { body, handlers, orelse, finalbody } => {
            let started = if reach == Reach::Live {
                ScanView { module: with_try(st.module, body, handlers, orelse), ..st }
            } else {
                st
            };
            scanned_all(
                finalbody,
                0,
                scanned_all(
                    orelse,
                    0,
                    scanned_blocks(
                        handlers,
                        0,
                        scanned_all(body, 0, started, reach, certain, os),
                        handler(reach),
                        os,
                    ),
                    reach,
                    false,
                    os,
                ),
                reach,
                certain,
                os,
            )
        },
        StmtView::With { body } => scanned_all(body, 0, st, Reach::Imports, false, os),
        _ => st,
    }
}

/// What is found up to and with the statements from position `i` on.
pub open spec fn scanned_all(
    stmts: Seq<StmtView>,
    i: int,
    st: ScanView,
    reach: Reach,
    certain: bool,
    os: Seq<char>,
) -> ScanView
    decreases stmts, stmts.len() - i,
{
    if i < 0 || i >= stmts.len() {
        st
    } else {
        scanned_all(stmts, i + 1, scanned(stmts[i], st, reach, certain, os), reach, certain, os)
    }
}

/// What is found up to and with the clauses of an `if` statement from position
/// `i` on, which run where the condition of the statement does not hold.
pub open spec fn scanned_clauses(
    clauses: Seq<ClauseView>,
    i: int,
    st: ScanView,
    reach: Reach,
    certain: bool,
    os: Seq<char>,
) -> ScanView
    decreases clauses, clauses.len() - i,
{
    if i < 0 || i >= clauses.len() {
        st
    } else {
        scanned_clauses(
            clauses,
            i + 1,
            scanned_all(
                clauses[i].body,
                0,
                st,
                branch(reach, !clause_fails(clauses[i].test, os)),
                certain && clause_holds(clauses[i].test, os),
                os,
            ),
            reach,
            certain,
            os,
        )
    }
}

/// What is found up to and with the exception handlers from position `i` on.
pub open spec fn scanned_blocks(
    blocks: Seq<BlockView>,
    i: int,
    st: ScanView,
    reach: Reach,
    os: Seq<char>,
) -> ScanView
    decreases blocks, blocks.len() - i,
{
    if i < 0 || i >= blocks.len() {
        st
    } else {
        scanned_blocks(
            blocks,
            i + 1,
            scanned_all(blocks[i].body, 0, st, reach, false, os),
            reach,
            os,
        )
    }
}

fn branch_of(reach: Reach, live: bool) -> (r: Reach)
    ensures
        r == branch(reach, live),
{
    if live {
        reach
    } else {
        Reach::Imports
    }
}

/// Walk statements. What they import is bound in the module wherever in its
/// branches and `with` blocks they stand: over-approximating imports is safe.
pub fn scan(stmts: &Vec<Stmt>, st: &mut Scan, reach: Reach, certain: bool, os: &str)
    ensures
        final(st)@ == scanned_all(text::deep(stmts@), 0, old(st)@, reach, certain, os@),
    decreases stmts, 1int,
{
    let ghost ss = text::deep(stmts@);
    let mut i: usize = 0;
    while i < stmts.len()
        invariant
            i <= stmts.len(),
            ss == text::deep(stmts@),
            scanned_all(ss, i as int, st@, reach, certain, os@) == scanned_all(
                ss,
                0,
                old(st)@,
                reach,
                certain,
                os@,
            ),
        decreases stmts.len() - i,
    {
        proof {
            assert(decreases_to!(stmts => stmts@[i as int]));
        }
        scan_stmt(&stmts[i], st, reach, certain, os);
        i += 1;
    }
}

fn scan_stmt(s: &Stmt, st: &mut Scan, reach: Reach, certain: bool, os: &str)
    ensures
        final(st)@ == scanned(s@, old(st)@, reach, certain, os@),
    decreases s, 0int,
{
    proof {
        crate::syntax::stmt_parts(*s);
    }
    match s {
        Stmt::Function { name, decorators, params, body } => {
            if reach != Reach::Imports {
                take_function(st, name, decorators, params, body, certain, os);
            }
        },
        Stmt::Class { name, decorators, bases, body } => {
            if reach != Reach::Imports {
                take_class(st, name, decorators, bases, body, certain, os);
            }
        },
        Stmt::Assign { targets, value } => {
            if reach == Reach::Live {
                take_assign(st, targets, value);
            }
        },
        Stmt::Expr(e) => {
            if reach == Reach::Live {
                take_expr(st, e);
            }
        },
        Stmt::Delete(targets) => {
            if reach == Reach::Live {
                take_deletes(st, targets, certain);
            }
        },
        Stmt::Import(names) => {
            take_imports(&mut st.module.imports, names);
        },
        Stmt::ImportFrom { level, module, names } => {
            take_import_from(&mut st.module, *level, module, names);
        },
        Stmt::If { test, body, clauses } => {
            let cond: Option<bool> = eval_condition(test, os);
            if reach != Reach::Imports {
                take_guard(&mut st.module, test, body, clauses, os);
            }
            let runs: bool = match cond {
                Some(b) => b,
                None => true,
            };
            let surely: bool = match cond {
                Some(b) => b,
                None => false,
            };
            scan(body, st, branch_of(reach, runs), certain && surely, os);
            scan_clauses(
                clauses,
                st,
                branch_of(reach, !surely),
                certain && !runs,
                os,
            );
        },
        Stmt::Try { body, handlers, orelse, finalbody } => {
            if reach == Reach::Live {
                take_try(&mut st.module, body, handlers, orelse);
            }
            scan(body, st, reach, certain, os);
            let inner: Reach = if reach == Reach::Imports {
                Reach::Imports
            } else {
                Reach::Definitions
            };
            scan_handlers(handlers, st, inner, os);
            scan(orelse, st, reach, false, os);
            scan(finalbody, st, reach, certain, os);
        },
        Stmt::With { body } => {
            scan(body, st, Reach::Imports, false, os);
        },
        _ => {},
    }
}

fn scan_clauses(clauses: &Vec<Clause>, st: &mut Scan, reach: Reach, certain: bool, os: &str)
    ensures
        final(st)@ == scanned_clauses(text::deep(clauses@), 0, old(st)@, reach, certain, os@),
    decreases clauses, 2int,
{
    let ghost cs = text::deep(clauses@);
    let mut i: usize = 0;
    while i < clauses.len()
        invariant
            i <= clauses.len(),
            cs == text::deep(clauses@),
            scanned_clauses(cs, i as int, st@, reach, certain, os@) == scanned_clauses(
                cs,
                0,
                old(st)@,
                reach,
                certain,
                os@,
            ),
        decreases clauses.len() - i,
    {
        proof {
            crate::syntax::clause_parts(clauses@[i as int]);
            assert(decreases_to!(clauses => clauses@[i as int]));
        }
        let (fails, holds): (bool, bool) = match &clauses[i].test {
            Some(t) => match eval_condition(t, os) {
                Some(b) => (!b, b),
                None => (false, false),
            },
            None => (false, true),
        };
        scan(&clauses[i].body, st, branch_of(reach, !fails), certain && holds, os);
        i += 1;
    }
}

fn scan_handlers(handlers: &Vec<Block>, st: &mut Scan, reach: Reach, os: &str)
    ensures
        final(st)@ == scanned_blocks(text::deep(handlers@), 0, old(st)@, reach, os@),
    decreases handlers, 2int,
{
    let ghost hs = text::deep(handlers@);
    let mut i: usize = 0;
    while i < handlers.len()
        invariant
            i <= handlers.len(),
            hs == text::deep(handlers@),
            scanned_blocks(hs, i as int, st@, reach, os@) == scanned_blocks(
                hs,
                0,
                old(st)@,
                reach,
                os@,
            ),
        decreases handlers.len() - i,
    {
        proof {
            crate::syntax::block_parts(handlers@[i as int]);
            assert(decreases_to!(handlers => handlers@[i as int]));
        }
        scan(&handlers[i].body, st, reach, false, os);
        i += 1;
    }
}

/// The table of the fixtures from position `i` on, put over those in `out`.
pub open spec fn registered(
    bound: Seq<BoundView>,
    i: int,
    out: Seq<(Seq<char>, FixtureView)>,
) -> Seq<(Seq<char>, FixtureView)>
    decreases bound.len() - i,
{
    if i < 0 || i >= bound.len() {
        out
    } else {
        registered(bound, i + 1, crate::table::put(out, bound[i].key, bound[i].fixture))
    }
}

fn register(bound: &Vec<Bound>) -> (r: Fixtures)
    ensures
        r@ == registered(text::deep(bound@), 0, Seq::empty()),
{
    let ghost bs = text::deep(bound@);
    let mut out: Fixtures = Table::new();
    let mut i: usize = 0;
    while i < bound.len()
        invariant
            i <= bound.len(),
            bs == text::deep(bound@),
            registered(bs, i as int, out@) == registered(bs, 0, Seq::empty()),
        decreases bound.len() - i,
    {
        out.insert(bound[i].key.clone(), bound[i].fixture.copy());
        i += 1;
    }
    out
}

/// The directory whose package is loaded before the module at `path`: its own,
/// or the one above it where the module is itself a package.
pub open spec fn home_of(path: Seq<Seq<char>>) -> Seq<Seq<char>> {
    let dir = crate::model::dir_of(path);
    if crate::path::name_of(path) == Some("__init__.py"@) {
        crate::model::dir_of(dir)
    } else {
        dir
    }
}

fn home(path: &FilePath) -> (r: FilePath)
    ensures
        r@ == home_of(path@),
{
    let dir: FilePath = match path.parent() {
        Some(d) => d,
        None => FilePath::empty(),
    };
    let package: bool = match path.file_name() {
        Some(n) => same(n, "__init__.py"),
        None => false,
    };
    if package {
        match dir.parent() {
            Some(d) => d,
            None => FilePath::empty(),
        }
    } else {
        dir
    }
}

/// What a module with the given statements holds.
pub open spec fn module_of(
    path: Seq<Seq<char>>,
    stmts: Seq<StmtView>,
    os: Seq<char>,
) -> ModuleView {
    let found = scanned_all(
        stmts,
        0,
        ScanView {
            module: crate::model::blank(path),
            bound: Seq::empty(),
            aliases: Seq::empty(),
        },
        Reach::Live,
        true,
        os,
    );
    ModuleView {
        order: crate::names::keep_last::<TopItem>(found.module.order),
        fixtures: registered(found.bound, 0, Seq::empty()),
        links: linked_all(
            stmts,
            0,
            crate::model::dir_of(path),
            seq![ModuleRefView::Relative(home_of(path))],
        ),
        ..found.module
    }
}

/// What collection knows of a module with the given statements, in the file
/// `path`, on the operating system `os`.
pub fn build_module(path: &FilePath, stmts: &Vec<Stmt>, os: &str) -> (r: Module)
    ensures
        r@ == module_of(path@, text::deep(stmts@), os@),
{
    let mut st: Scan = Scan {
        module: Module::blank(path),
        bound: Vec::new(),
        aliases: Table::new(),
    };
    let mut links: Vec<ModuleRef> = Vec::new();
    links.push(ModuleRef::Relative(home(path)));
    proof {
        assert(text::deep(links@) =~= seq![ModuleRefView::Relative(home_of(path@))]);
    }
    link(stmts, &st.module.dir, &mut links);
    scan(stmts, &mut st, Reach::Live, true, os);
    let mut module: Module = st.module;
    let mut order: Vec<TopItem> = Vec::new();
    std::mem::swap(&mut order, &mut module.order);
    module.order = dedupe_keep_last(order);
    module.fixtures = register(&st.bound);
    module.links = links;
    module
}

/// Parse a source text into what collection knows of its module; an error
/// where it is not Python.
pub fn parse_source(path: &FilePath, source: &str, os: &str) -> (r: Result<Module, String>)
    requires
        python::parseable(source@),
    ensures
        match (r, python::module_source(source@)) {
            (Ok(m), Ok(stmts)) => m@ == module_of(path@, stmts, os@),
            (Err(message), Err(shown)) => message@ == shown,
            _ => false,
        },
{
    match python::parse(source) {
        Ok(stmts) => Ok(build_module(path, &stmts, os)),
        Err(message) => Err(message),
    }
}

// ---------------------------------------------------------------------------
// Laws
// ---------------------------------------------------------------------------

/// After a `del` that certainly runs nothing is bound to the name: no import,
/// class, function, alias or fixture, and none of the names that pytest reads
/// has a value.
pub proof fn law_deleted_leaves_nothing(st: ScanView, name: Seq<char>)
    ensures
        ({
            let after = with_deleted(st, name, true);
            let m = after.module;
            &&& crate::table::find(m.imports, name) is None
            &&& crate::table::find(m.classes, name) is None
            &&& crate::table::find(m.functions, name) is None
            &&& crate::table::find(m.import_bindings, name) is None
            &&& crate::table::find(m.mark_aliases, name) is None
            &&& crate::table::find(after.aliases, name) is None
            &&& forall|i: int|
                0 <= i < m.order.len() ==> TopItem::name_of(#[trigger] m.order[i]) != name
            &&& forall|i: int|
                0 <= i < m.synthetic_testcases.len() ==> #[trigger] m.synthetic_testcases[i]
                    != name
            &&& forall|i: int|
                0 <= i < after.bound.len() ==> (#[trigger] after.bound[i]).name != name
            &&& name == "pytest_generate_tests"@ ==> !m.has_generate_tests
            &&& name == "pytestmark"@ ==> m.pytestmark.len() == 0
            &&& name == "pytest_plugins"@ ==> m.plugin_modules.len() == 0
            &&& name == "collect_ignore"@ ==> m.collect_ignore.len() == 0
            &&& name == "collect_ignore_glob"@ ==> m.collect_ignore_glob.len() == 0
        }),
{
    let before = st.module;
    let after = with_deleted(st, name, true);
    let m = after.module;
    crate::table::law_find_after_remove(before.imports, name, name);
    crate::table::law_find_after_remove(before.classes, name, name);
    crate::table::law_find_after_remove(before.functions, name, name);
    crate::table::law_find_after_remove(before.import_bindings, name, name);
    crate::table::law_find_after_remove(before.mark_aliases, name, name);
    crate::table::law_find_after_remove(st.aliases, name, name);
    assert forall|i: int| 0 <= i < m.order.len() implies TopItem::name_of(#[trigger] m.order[i])
        != name by {
        crate::names::law_deleted_name_is_gone::<TopItem>(before.order, name, i);
    }
    assert forall|i: int| 0 <= i < m.synthetic_testcases.len() implies
        #[trigger] m.synthetic_testcases[i] != name by {
        crate::names::law_deleted_name_is_gone::<String>(before.synthetic_testcases, name, i);
    }
    assert forall|i: int| 0 <= i < after.bound.len() implies (#[trigger] after.bound[i]).name
        != name by {
        crate::names::law_deleted_name_is_gone::<Bound>(st.bound, name, i);
    }
}

/// Does a statement stand anywhere in `s`: is it `s`, or does it stand in one
/// of its blocks?
pub open spec fn within(target: StmtView, s: StmtView) -> bool
    decreases s, 0int,
{
    s == target || match s {
        StmtView::Function { body, .. } => within_any(target, body, 0),
        StmtView::Class { body, .. } => within_any(target, body, 0),
        StmtView::If { body, clauses, .. } => within_any(target, body, 0) || within_clauses(
            target,
            clauses,
            0,
        ),
        StmtView::Try { body, handlers, orelse, finalbody } => within_any(target, body, 0)
            || within_blocks(target, handlers, 0) || within_any(target, orelse, 0) || within_any(
            target,
            finalbody,
            0,
        ),
        StmtView::With { body } => within_any(target, body, 0),
        StmtView::Nested(blocks) => within_blocks(target, blocks, 0),
        _ => false,
    }
}

/// Does a statement stand anywhere in the statements from position `i` on?
pub open spec fn within_any(target: StmtView, stmts: Seq<StmtView>, i: int) -> bool
    decreases stmts, stmts.len() - i,
{
    if i < 0 || i >= stmts.len() {
        false
    } else {
        within(target, stmts[i]) || within_any(target, stmts, i + 1)
    }
}

/// Does a statement stand anywhere in the clauses from position `i` on?
pub open spec fn within_clauses(target: StmtView, clauses: Seq<ClauseView>, i: int) -> bool
    decreases clauses, clauses.len() - i,
{
    if i < 0 || i >= clauses.len() {
        false
    } else {
        within_any(target, clauses[i].body, 0) || within_clauses(target, clauses, i + 1)
    }
}

/// Does a statement stand anywhere in the blocks from position `i` on?
pub open spec fn within_blocks(target: StmtView, blocks: Seq<BlockView>, i: int) -> bool
    decreases blocks, blocks.len() - i,
{
    if i < 0 || i >= blocks.len() {
        false
    } else {
        within_any(target, blocks[i].body, 0) || within_blocks(target, blocks, i + 1)
    }
}

/// Is it a dotted name or a package that it lies in?
pub open spec fn on_dotted_way(dotted: Seq<char>, r: ModuleRefView) -> bool {
    let segments = text::fields(dotted, Separator::Char('.'), true);
    exists|n: int|
        0 < n <= segments.len() && r == ModuleRefView::Absolute(
            text::joined(#[trigger] segments.take(n), "."@),
        )
}

/// Is it the directory `base` or a path on the way down from it along the
/// segments?
pub open spec fn on_way_down(
    base: Seq<Seq<char>>,
    segments: Seq<Seq<char>>,
    r: ModuleRefView,
) -> bool {
    exists|n: int|
        0 <= n <= segments.len() && r == ModuleRefView::Relative(
            below(base, #[trigger] segments.take(n), 0),
        )
}

/// Can a statement in a file of the directory `dir` load a module? An import
/// loads the module that it names and the packages on the way to it, and what
/// is imported from a package may be a module of it.
pub open spec fn may_load(s: StmtView, dir: Seq<Seq<char>>, r: ModuleRefView) -> bool {
    match s {
        StmtView::Import(names) => exists|k: int|
            0 <= k < names.len() && on_dotted_way((#[trigger] names[k]).name, r),
        StmtView::ImportFrom { level, module, names } => match imported_from(dir, level, module) {
            Some(mref) => {
                ||| match mref {
                    ModuleRefView::Absolute(dotted) => on_dotted_way(dotted, r),
                    ModuleRefView::Relative(_) => on_way_down(
                        above(dir, (level - 1) as nat),
                        match module {
                            Some(m) => text::fields(m, Separator::Char('.'), true),
                            None => Seq::empty(),
                        },
                        r,
                    ),
                }
                ||| exists|k: int|
                    0 <= k < names.len() && (#[trigger] names[k]).name != "*"@ && r
                        == crate::model::child_ref(mref, names[k].name)
            },
            None => false,
        },
        _ => false,
    }
}

/// What an import statement can load is linked, wherever in the module it
/// stands, the bodies of functions, classes and loops among them.
pub proof fn law_imports_are_linked(
    path: Seq<Seq<char>>,
    stmts: Seq<StmtView>,
    os: Seq<char>,
    s: StmtView,
    r: ModuleRefView,
)
    requires
        within_any(s, stmts, 0),
        may_load(s, crate::model::dir_of(path), r),
    ensures
        module_of(path, stmts, os).links.contains(r),
{
    let own = seq![ModuleRefView::Relative(home_of(path))];
    linked_all_has(stmts, 0, crate::model::dir_of(path), own, s, r);
}

/// The package that a module lies in is linked: it is loaded before the module.
pub proof fn law_own_package_is_linked(
    path: Seq<Seq<char>>,
    stmts: Seq<StmtView>,
    os: Seq<char>,
)
    ensures
        module_of(path, stmts, os).links.contains(ModuleRefView::Relative(home_of(path))),
{
    let r = ModuleRefView::Relative(home_of(path));
    let own = seq![r];
    assert(own[0] == r);
    linked_all_has(stmts, 0, crate::model::dir_of(path), own, StmtView::Other, r);
}

proof fn linked_has(
    s: StmtView,
    dir: Seq<Seq<char>>,
    links: Seq<ModuleRefView>,
    target: StmtView,
    r: ModuleRefView,
)
    requires
        links.contains(r) || (within(target, s) && may_load(target, dir, r)),
    ensures
        linked(s, dir, links).contains(r),
    decreases s, 0int,
{
    match s {
        StmtView::Function { body, .. } => linked_all_has(body, 0, dir, links, target, r),
        StmtView::Class { body, .. } => linked_all_has(body, 0, dir, links, target, r),
        StmtView::Import(names) => {
            if links.contains(r) {
                links_keep(links, names, 0, r);
            } else {
                let k = choose|k: int|
                    0 <= k < names.len() && on_dotted_way((#[trigger] names[k]).name, r);
                links_have(links, names, 0, k, r);
            }
        },
        StmtView::ImportFrom { level, module, names } => {
            from_links_have(links, dir, level, module, names, r);
        },
        StmtView::If { body, clauses, .. } => {
            let first = linked_all(body, 0, dir, links);
            if links.contains(r) || within_any(target, body, 0) {
                linked_all_has(body, 0, dir, links, target, r);
            }
            linked_clauses_has(clauses, 0, dir, first, target, r);
        },
        StmtView::Try { body, handlers, orelse, finalbody } => {
            let first = linked_all(body, 0, dir, links);
            let second = linked_blocks(handlers, 0, dir, first);
            let third = linked_all(orelse, 0, dir, second);
            if links.contains(r) || within_any(target, body, 0) {
                linked_all_has(body, 0, dir, links, target, r);
            }
            if first.contains(r) || within_blocks(target, handlers, 0) {
                linked_blocks_has(handlers, 0, dir, first, target, r);
            }
            if second.contains(r) || within_any(target, orelse, 0) {
                linked_all_has(orelse, 0, dir, second, target, r);
            }
            linked_all_has(finalbody, 0, dir, third, target, r);
        },
        StmtView::With { body } => linked_all_has(body, 0, dir, links, target, r),
        StmtView::Nested(blocks) => linked_blocks_has(blocks, 0, dir, links, target, r),
        _ => {},
    }
}

proof fn linked_all_has(
    stmts: Seq<StmtView>,
    i: int,
    dir: Seq<Seq<char>>,
    links: Seq<ModuleRefView>,
    target: StmtView,
    r: ModuleRefView,
)
    requires
        0 <= i,
        links.contains(r) || (within_any(target, stmts, i) && may_load(target, dir, r)),
    ensures
        linked_all(stmts, i, dir, links).contains(r),
    decreases stmts, stmts.len() - i,
{
    if i < stmts.len() {
        if links.contains(r) || within(target, stmts[i]) {
            linked_has(stmts[i], dir, links, target, r);
        }
        linked_all_has(stmts, i + 1, dir, linked(stmts[i], dir, links), target, r);
    }
}

proof fn linked_clauses_has(
    clauses: Seq<ClauseView>,
    i: int,
    dir: Seq<Seq<char>>,
    links: Seq<ModuleRefView>,
    target: StmtView,
    r: ModuleRefView,
)
    requires
        0 <= i,
        links.contains(r) || (within_clauses(target, clauses, i) && may_load(target, dir, r)),
    ensures
        linked_clauses(clauses, i, dir, links).contains(r),
    decreases clauses, clauses.len() - i,
{
    if i < clauses.len() {
        let body = clauses[i].body;
        if links.contains(r) || within_any(target, body, 0) {
            linked_all_has(body, 0, dir, links, target, r);
        }
        linked_clauses_has(clauses, i + 1, dir, linked_all(body, 0, dir, links), target, r);
    }
}

proof fn linked_blocks_has(
    blocks: Seq<BlockView>,
    i: int,
    dir: Seq<Seq<char>>,
    links: Seq<ModuleRefView>,
    target: StmtView,
    r: ModuleRefView,
)
    requires
        0 <= i,
        links.contains(r) || (within_blocks(target, blocks, i) && may_load(target, dir, r)),
    ensures
        linked_blocks(blocks, i, dir, links).contains(r),
    decreases blocks, blocks.len() - i,
{
    if i < blocks.len() {
        let body = blocks[i].body;
        if links.contains(r) || within_any(target, body, 0) {
            linked_all_has(body, 0, dir, links, target, r);
        }
        linked_blocks_has(blocks, i + 1, dir, linked_all(body, 0, dir, links), target, r);
    }
}

proof fn push_has(links: Seq<ModuleRefView>, one: ModuleRefView, r: ModuleRefView)
    requires
        links.contains(r) || r == one,
    ensures
        links.push(one).contains(r),
{
    let next = links.push(one);
    if links.contains(r) {
        assert(next[links.index_of(r)] == r);
    } else {
        assert(next[links.len() as int] == r);
    }
}

proof fn packages_have(
    links: Seq<ModuleRefView>,
    segments: Seq<Seq<char>>,
    i: int,
    n: int,
    r: ModuleRefView,
)
    requires
        0 <= i <= segments.len(),
        links.contains(r) || (i < n <= segments.len() && r == ModuleRefView::Absolute(
            text::joined(segments.take(n), "."@),
        )),
    ensures
        with_packages(links, segments, i, text::joined(segments.take(i), "."@)).contains(r),
    decreases segments.len() - i,
{
    if i < segments.len() {
        let more = segments.take(i + 1);
        assert(more.drop_last() =~= segments.take(i));
        assert(more.last() == segments[i]);
        let dotted = text::joined(more, "."@);
        let one = ModuleRefView::Absolute(dotted);
        if links.contains(r) || n == i + 1 {
            push_has(links, one, r);
        }
        packages_have(links.push(one), segments, i + 1, n, r);
    }
}

proof fn dotted_has(links: Seq<ModuleRefView>, dotted: Seq<char>, r: ModuleRefView)
    requires
        links.contains(r) || on_dotted_way(dotted, r),
    ensures
        with_dotted(links, dotted).contains(r),
{
    let segments = text::fields(dotted, Separator::Char('.'), true);
    assert(text::joined(segments.take(0), "."@) =~= Seq::empty());
    if links.contains(r) {
        packages_have(links, segments, 0, 0, r);
    } else {
        let n = choose|n: int|
            0 < n <= segments.len() && r == ModuleRefView::Absolute(
                text::joined(#[trigger] segments.take(n), "."@),
            );
        packages_have(links, segments, 0, n, r);
    }
}

proof fn folders_have(
    links: Seq<ModuleRefView>,
    base: Seq<Seq<char>>,
    segments: Seq<Seq<char>>,
    i: int,
    n: int,
    r: ModuleRefView,
)
    requires
        0 <= i <= segments.len(),
        links.contains(r) || (i <= n <= segments.len() && r == ModuleRefView::Relative(
            below(base, segments.take(n), 0),
        )),
    ensures
        with_folders(links, below(base, segments.take(i), 0), segments, i).contains(r),
    decreases segments.len() - i,
{
    let p = below(base, segments.take(i), 0);
    let one = ModuleRefView::Relative(p);
    if links.contains(r) || n == i {
        push_has(links, one, r);
    }
    if i < segments.len() {
        below_steps(base, segments, 0, i);
        folders_have(links.push(one), base, segments, i + 1, n, r);
    }
}

proof fn below_steps(p: Seq<Seq<char>>, segments: Seq<Seq<char>>, i: int, n: int)
    requires
        0 <= i <= n < segments.len(),
    ensures
        below(p, segments.take(n + 1), i) == crate::path::child(
            below(p, segments.take(n), i),
            segments[n],
        ),
    decreases n - i,
{
    let next = crate::path::child(p, segments[i]);
    if i < n {
        below_steps(next, segments, i + 1, n);
    } else {
        assert(below(next, segments.take(n + 1), i + 1) == next);
    }
}

proof fn links_keep(links: Seq<ModuleRefView>, names: Seq<AliasView>, i: int, r: ModuleRefView)
    requires
        0 <= i,
        links.contains(r),
    ensures
        with_links(links, names, i).contains(r),
    decreases names.len() - i,
{
    if i < names.len() {
        dotted_has(links, names[i].name, r);
        links_keep(with_dotted(links, names[i].name), names, i + 1, r);
    }
}

proof fn links_have(
    links: Seq<ModuleRefView>,
    names: Seq<AliasView>,
    i: int,
    k: int,
    r: ModuleRefView,
)
    requires
        0 <= i <= k < names.len(),
        on_dotted_way(names[k].name, r),
    ensures
        with_links(links, names, i).contains(r),
    decreases names.len() - i,
{
    let next = with_dotted(links, names[i].name);
    if i == k {
        dotted_has(links, names[i].name, r);
        links_keep(next, names, i + 1, r);
    } else {
        links_have(next, names, i + 1, k, r);
    }
}

proof fn submodules_have(
    links: Seq<ModuleRefView>,
    mref: ModuleRefView,
    names: Seq<AliasView>,
    i: int,
    k: int,
    r: ModuleRefView,
)
    requires
        0 <= i,
        links.contains(r) || (i <= k < names.len() && names[k].name != "*"@ && r
            == crate::model::child_ref(mref, names[k].name)),
    ensures
        with_submodules(links, mref, names, i).contains(r),
    decreases names.len() - i,
{
    if i < names.len() {
        let one = crate::model::child_ref(mref, names[i].name);
        let next = if names[i].name == "*"@ {
            links
        } else {
            links.push(one)
        };
        if names[i].name != "*"@ && (links.contains(r) || k == i) {
            push_has(links, one, r);
        }
        submodules_have(next, mref, names, i + 1, k, r);
    }
}

proof fn from_links_have(
    links: Seq<ModuleRefView>,
    dir: Seq<Seq<char>>,
    level: u32,
    module: Option<Seq<char>>,
    names: Seq<AliasView>,
    r: ModuleRefView,
)
    requires
        links.contains(r) || may_load(StmtView::ImportFrom { level, module, names }, dir, r),
    ensures
        with_from_links(links, dir, level, module, names).contains(r),
{
    match imported_from(dir, level, module) {
        Some(mref) => {
            let base = above(dir, (level - 1) as nat);
            let segments = match module {
                Some(m) => text::fields(m, Separator::Char('.'), true),
                None => Seq::empty(),
            };
            let first = match mref {
                ModuleRefView::Absolute(dotted) => with_dotted(links, dotted),
                ModuleRefView::Relative(_) => with_folders(links, base, segments, 0),
            };
            assert(segments.take(0) =~= Seq::empty());
            match mref {
                ModuleRefView::Absolute(dotted) => {
                    if links.contains(r) || on_dotted_way(dotted, r) {
                        dotted_has(links, dotted, r);
                    }
                },
                ModuleRefView::Relative(_) => {
                    if links.contains(r) {
                        folders_have(links, base, segments, 0, -1, r);
                    } else if on_way_down(base, segments, r) {
                        let n = choose|n: int|
                            0 <= n <= segments.len() && r == ModuleRefView::Relative(
                                below(base, #[trigger] segments.take(n), 0),
                            );
                        folders_have(links, base, segments, 0, n, r);
                    }
                },
            }
            if first.contains(r) {
                submodules_have(first, mref, names, 0, 0, r);
            } else {
                let k = choose|k: int|
                    0 <= k < names.len() && (#[trigger] names[k]).name != "*"@ && r
                        == crate::model::child_ref(mref, names[k].name);
                submodules_have(first, mref, names, 0, k, r);
            }
        },
        None => {},
    }
}

// ---------------------------------------------------------------------------
// Laws of the walk
// ---------------------------------------------------------------------------

/// What stands behind other statements is found on top of what these gave.
pub proof fn law_statements_are_walked_in_order(
    a: Seq<StmtView>,
    b: Seq<StmtView>,
    st: ScanView,
    reach: Reach,
    certain: bool,
    os: Seq<char>,
)
    ensures
        scanned_all(a + b, 0, st, reach, certain, os) == scanned_all(
            b,
            0,
            scanned_all(a, 0, st, reach, certain, os),
            reach,
            certain,
            os,
        ),
{
    walk_in_front(a, b, 0, st, reach, certain, os);
}

proof fn walk_in_front(
    a: Seq<StmtView>,
    b: Seq<StmtView>,
    i: int,
    st: ScanView,
    reach: Reach,
    certain: bool,
    os: Seq<char>,
)
    requires
        0 <= i <= a.len(),
    ensures
        scanned_all(a + b, i, st, reach, certain, os) == scanned_all(
            b,
            0,
            scanned_all(a, i, st, reach, certain, os),
            reach,
            certain,
            os,
        ),
    decreases a.len() - i,
{
    if i < a.len() {
        assert((a + b)[i] == a[i]);
        walk_in_front(a, b, i + 1, scanned(a[i], st, reach, certain, os), reach, certain, os);
    } else {
        walk_behind(a, b, 0, st, reach, certain, os);
    }
}

proof fn walk_behind(
    a: Seq<StmtView>,
    b: Seq<StmtView>,
    i: int,
    st: ScanView,
    reach: Reach,
    certain: bool,
    os: Seq<char>,
)
    requires
        0 <= i <= b.len(),
    ensures
        scanned_all(a + b, a.len() as int + i, st, reach, certain, os) == scanned_all(
            b,
            i,
            st,
            reach,
            certain,
            os,
        ),
    decreases b.len() - i,
{
    if i < b.len() {
        assert((a + b)[a.len() as int + i] == b[i]);
        walk_behind(a, b, i + 1, scanned(b[i], st, reach, certain, os), reach, certain, os);
    }
}

/// A function that is no fixture is taken up as a test under its name, and its
/// place is behind what was defined before. A fixture is registered under its
/// key and never as a test. `pytest_generate_tests` is a hook. Nothing else
/// under another name changes.
pub proof fn law_functions_are_taken_up(
    st: ScanView,
    name: Seq<char>,
    decorators: Seq<ExprView>,
    params: Seq<Seq<char>>,
    body: Seq<StmtView>,
    certain: bool,
    os: Seq<char>,
    other: Seq<char>,
)
    ensures
        ({
            let f = StmtView::Function { name, decorators, params, body };
            let after = scanned(f, st, Reach::Live, certain, os);
            let flags = crate::params::fixture_from(decorators, 0);
            let def = crate::defs::test_of(name, decorators, params, body, st.aliases, os);
            &&& after == scanned(f, st, Reach::Definitions, certain, os)
            &&& after.module.classes == st.module.classes
            &&& after.module.imports == st.module.imports
            &&& after.module.pytestmark == st.module.pytestmark
            &&& name == "pytest_generate_tests"@ ==> after.module.has_generate_tests
                && after.module.order == st.module.order
            &&& name != "pytest_generate_tests"@ ==> {
                &&& after.module.has_generate_tests == st.module.has_generate_tests
                &&& flags is None ==> {
                    &&& crate::table::find(after.module.functions, name) == Some(def)
                    &&& other != name ==> crate::table::find(after.module.functions, other)
                        == crate::table::find(st.module.functions, other)
                    &&& after.module.order == st.module.order.push(TopItemView::Func(def))
                    &&& after.bound == st.bound
                }
                &&& flags matches Some(fl) ==> {
                    &&& after.module.functions == st.module.functions
                    &&& after.module.order == st.module.order
                    &&& after.bound == st.bound.push(
                        BoundView {
                            name,
                            key: crate::defs::fixture_key(fl, name),
                            fixture: crate::defs::fixture_with(fl, params),
                        },
                    )
                }
            }
            &&& certain ==> after.module.certain_names.contains(name)
            &&& !certain ==> after.module.certain_names == st.module.certain_names
        }),
{
    let def = crate::defs::test_of(name, decorators, params, body, st.aliases, os);
    crate::table::law_find_after_put(st.module.functions, name, def, name);
    crate::table::law_find_after_put(st.module.functions, name, def, other);
    certain_is_noted(st.module, name);
}

proof fn certain_is_noted(m: ModuleView, name: Seq<char>)
    ensures
        with_certain(m, name, true).certain_names.contains(name),
{
    if !m.certain_names.contains(name) {
        let more = m.certain_names.push(name);
        assert(more[m.certain_names.len() as int] == name);
    }
}

/// A class is taken up under its name, and its place is behind what was defined
/// before. Nothing under another name changes.
pub proof fn law_classes_are_taken_up(
    st: ScanView,
    name: Seq<char>,
    decorators: Seq<ExprView>,
    bases: Seq<ExprView>,
    body: Seq<StmtView>,
    certain: bool,
    os: Seq<char>,
    other: Seq<char>,
)
    ensures
        ({
            let c = StmtView::Class { name, decorators, bases, body };
            let after = scanned(c, st, Reach::Live, certain, os);
            &&& after == scanned(c, st, Reach::Definitions, certain, os)
            &&& crate::table::find(after.module.classes, name) == Some(
                crate::defs::class_of(decorators, bases, body, st.aliases, os),
            )
            &&& other != name ==> crate::table::find(after.module.classes, other)
                == crate::table::find(st.module.classes, other)
            &&& after.module.order == st.module.order.push(TopItemView::Class(name))
            &&& after.module.functions == st.module.functions
            &&& after.bound == st.bound
            &&& certain ==> after.module.certain_names.contains(name)
            &&& !certain ==> after.module.certain_names == st.module.certain_names
        }),
{
    let class = crate::defs::class_of(decorators, bases, body, st.aliases, os);
    crate::table::law_find_after_put(st.module.classes, name, class, name);
    crate::table::law_find_after_put(st.module.classes, name, class, other);
    certain_is_noted(st.module, name);
}

/// Are two states alike but for what is imported?
pub open spec fn alike_but_imports(a: ScanView, b: ScanView) -> bool {
    &&& a.bound == b.bound
    &&& a.aliases == b.aliases
    &&& b.module == (ModuleView {
        imports: b.module.imports,
        star_imports: b.module.star_imports,
        ..a.module
    })
}

/// Statements that cannot run give imports only.
pub proof fn law_dead_statements_only_import(
    stmts: Seq<StmtView>,
    i: int,
    st: ScanView,
    certain: bool,
    os: Seq<char>,
)
    requires
        0 <= i <= stmts.len(),
    ensures
        alike_but_imports(st, scanned_all(stmts, i, st, Reach::Imports, certain, os)),
    decreases stmts, stmts.len() - i,
{
    if i < stmts.len() {
        dead_statement(stmts[i], st, certain, os);
        law_dead_statements_only_import(
            stmts,
            i + 1,
            scanned(stmts[i], st, Reach::Imports, certain, os),
            certain,
            os,
        );
    }
}

proof fn dead_statement(s: StmtView, st: ScanView, certain: bool, os: Seq<char>)
    ensures
        alike_but_imports(st, scanned(s, st, Reach::Imports, certain, os)),
    decreases s, 0int,
{
    match s {
        StmtView::ImportFrom { level, module, names } => {
            if let Some(mref) = imported_from(st.module.dir, level, module) {
                from_only_imports(st.module, mref, names, 0);
            }
        },
        StmtView::If { test, body, clauses } => {
            let cond = crate::guards::truth(test, os);
            law_dead_statements_only_import(body, 0, st, certain && cond == Some(true), os);
            dead_clauses(
                clauses,
                0,
                scanned_all(body, 0, st, Reach::Imports, certain && cond == Some(true), os),
                certain && cond == Some(false),
                os,
            );
        },
        StmtView::Try { body, handlers, orelse, finalbody } => {
            law_dead_statements_only_import(body, 0, st, certain, os);
            let one = scanned_all(body, 0, st, Reach::Imports, certain, os);
            dead_blocks(handlers, 0, one, os);
            let two = scanned_blocks(handlers, 0, one, Reach::Imports, os);
            law_dead_statements_only_import(orelse, 0, two, false, os);
            let three = scanned_all(orelse, 0, two, Reach::Imports, false, os);
            law_dead_statements_only_import(finalbody, 0, three, certain, os);
        },
        StmtView::With { body } => {
            law_dead_statements_only_import(body, 0, st, false, os);
        },
        _ => {},
    }
}

proof fn dead_clauses(
    clauses: Seq<ClauseView>,
    i: int,
    st: ScanView,
    certain: bool,
    os: Seq<char>,
)
    requires
        0 <= i <= clauses.len(),
    ensures
        alike_but_imports(st, scanned_clauses(clauses, i, st, Reach::Imports, certain, os)),
    decreases clauses, clauses.len() - i,
{
    if i < clauses.len() {
        let sure = certain && clause_holds(clauses[i].test, os);
        law_dead_statements_only_import(clauses[i].body, 0, st, sure, os);
        dead_clauses(
            clauses,
            i + 1,
            scanned_all(clauses[i].body, 0, st, Reach::Imports, sure, os),
            certain,
            os,
        );
    }
}

proof fn dead_blocks(blocks: Seq<BlockView>, i: int, st: ScanView, os: Seq<char>)
    requires
        0 <= i <= blocks.len(),
    ensures
        alike_but_imports(st, scanned_blocks(blocks, i, st, Reach::Imports, os)),
    decreases blocks, blocks.len() - i,
{
    if i < blocks.len() {
        law_dead_statements_only_import(blocks[i].body, 0, st, false, os);
        dead_blocks(
            blocks,
            i + 1,
            scanned_all(blocks[i].body, 0, st, Reach::Imports, false, os),
            os,
        );
    }
}

proof fn from_only_imports(m: ModuleView, mref: ModuleRefView, names: Seq<AliasView>, i: int)
    requires
        0 <= i <= names.len(),
    ensures
        with_from(m, mref, names, i) == (ModuleView {
            imports: with_from(m, mref, names, i).imports,
            star_imports: with_from(m, mref, names, i).star_imports,
            ..m
        }),
    decreases names.len() - i,
{
    if i < names.len() {
        let next = if names[i].name == "*"@ {
            ModuleView { star_imports: m.star_imports.push(mref), ..m }
        } else {
            ModuleView {
                imports: crate::table::put(
                    m.imports,
                    match names[i].asname {
                        Some(n) => n,
                        None => names[i].name,
                    },
                    ImportView::From(mref, names[i].name),
                ),
                ..m
            }
        };
        from_only_imports(next, mref, names, i + 1);
    }
}

/// An `if` whose condition is known to hold is its body, as though that stood
/// there alone; one whose condition is known not to hold gives, besides imports,
/// nothing but its plain `else`. A `with` block gives imports only.
pub proof fn law_known_conditions(
    test: ExprView,
    body: Seq<StmtView>,
    otherwise: Seq<StmtView>,
    st: ScanView,
    certain: bool,
    os: Seq<char>,
)
    ensures
        crate::guards::truth(test, os) == Some(true) ==> {
            &&& scanned(
                StmtView::If { test, body, clauses: Seq::empty() },
                st,
                Reach::Live,
                certain,
                os,
            ) == scanned_all(body, 0, st, Reach::Live, certain, os)
            &&& alike_but_imports(
                scanned_all(body, 0, st, Reach::Live, certain, os),
                scanned(
                    StmtView::If {
                        test,
                        body,
                        clauses: seq![ClauseView { test: None, body: otherwise }],
                    },
                    st,
                    Reach::Live,
                    certain,
                    os,
                ),
            )
        },
        crate::guards::truth(test, os) == Some(false) ==> {
            &&& alike_but_imports(
                st,
                scanned(
                    StmtView::If { test, body, clauses: Seq::empty() },
                    st,
                    Reach::Live,
                    certain,
                    os,
                ),
            )
            &&& scanned(
                StmtView::If {
                    test,
                    body: Seq::empty(),
                    clauses: seq![ClauseView { test: None, body: otherwise }],
                },
                st,
                Reach::Live,
                certain,
                os,
            ) == scanned_all(otherwise, 0, st, Reach::Live, certain, os)
        },
        alike_but_imports(st, scanned(StmtView::With { body }, st, Reach::Live, certain, os)),
{
    let none = Seq::<StmtView>::empty();
    let t = crate::guards::truth(test, os);
    law_dead_statements_only_import(body, 0, st, false, os);
    if t == Some(true) {
        let done = scanned_all(body, 0, st, Reach::Live, certain, os);
        plain_else(otherwise, done, Reach::Imports, false, os);
        assert(scanned_clauses(Seq::empty(), 0, done, Reach::Imports, false, os) == done);
        law_dead_statements_only_import(
            otherwise,
            0,
            scanned_all(body, 0, st, Reach::Live, certain, os),
            false,
            os,
        );
    }
    if t == Some(false) {
        let done = scanned_all(body, 0, st, Reach::Imports, false, os);
        plain_else(otherwise, st, Reach::Live, certain, os);
        assert(scanned_clauses(Seq::empty(), 0, done, Reach::Live, certain, os) == done);
        assert(scanned_all(none, 0, st, Reach::Imports, false, os) == st);
    }
}

proof fn plain_else(
    otherwise: Seq<StmtView>,
    st: ScanView,
    reach: Reach,
    certain: bool,
    os: Seq<char>,
)
    ensures
        scanned_clauses(
            seq![ClauseView { test: None, body: otherwise }],
            0,
            st,
            reach,
            certain,
            os,
        ) == scanned_all(otherwise, 0, st, reach, certain, os),
{
    let plain = seq![ClauseView { test: None, body: otherwise }];
    let one = scanned_all(otherwise, 0, st, reach, certain, os);
    assert(plain[0].body == otherwise && plain[0].test is None);
    assert(branch(reach, !clause_fails(plain[0].test, os)) == reach);
    assert((certain && clause_holds(plain[0].test, os)) == certain);
    assert(scanned_clauses(plain, 0, st, reach, certain, os) == scanned_clauses(
        plain,
        1,
        one,
        reach,
        certain,
        os,
    ));
    assert(scanned_clauses(plain, 1, one, reach, certain, os) == one);
}

/// Where a condition is not known, both the body and the plain `else` count, but
/// neither certainly; what either defines is noted under the guard, and under the
/// opposite one.
pub proof fn law_unknown_conditions(
    test: ExprView,
    body: Seq<StmtView>,
    otherwise: Seq<StmtView>,
    st: ScanView,
    certain: bool,
    os: Seq<char>,
    guard: GuardView,
    x: Seq<char>,
)
    requires
        crate::guards::truth(test, os) is None,
        crate::guards::guard_of(test, st.module.import_bindings) == Some(guard),
    ensures
        ({
            let clauses = seq![ClauseView { test: None, body: otherwise }];
            let noted = with_guard(st.module, test, body, clauses, os);
            &&& scanned(
                StmtView::If { test, body, clauses },
                st,
                Reach::Live,
                certain,
                os,
            ) == scanned_all(
                otherwise,
                0,
                scanned_all(
                    body,
                    0,
                    ScanView { module: noted, ..st },
                    Reach::Live,
                    false,
                    os,
                ),
                Reach::Live,
                false,
                os,
            )
            &&& st.module.cond_blocks.is_prefix_of(noted.cond_blocks)
            &&& (exists|i: int|
                0 <= i < body.len() && crate::guards::defines(#[trigger] body[i], x)) ==> exists|
                b: int,
            |
                0 <= b < noted.cond_blocks.len() && (#[trigger] noted.cond_blocks[b]).guard == guard
                    && noted.cond_blocks[b].names.contains(x)
            &&& (exists|i: int|
                0 <= i < otherwise.len() && crate::guards::defines(#[trigger] otherwise[i], x))
                ==> exists|b: int|
                0 <= b < noted.cond_blocks.len() && (#[trigger] noted.cond_blocks[b]).guard
                    == crate::model::inverted(guard) && noted.cond_blocks[b].names.contains(x)
        }),
{
    let clauses = seq![ClauseView { test: None, body: otherwise }];
    let old_blocks = st.module.cond_blocks;
    let noted = with_guard(st.module, test, body, clauses, os).cond_blocks;
    let names = crate::guards::defined_from(body, 0, Seq::empty());
    let others = crate::guards::defined_from(otherwise, 0, Seq::empty());
    let guarded = ScanView { module: with_guard(st.module, test, body, clauses, os), ..st };
    plain_else(
        otherwise,
        scanned_all(body, 0, guarded, Reach::Live, false, os),
        Reach::Live,
        false,
        os,
    );
    reveal_with_fuel(with_else_blocks, 2);
    assert(clauses[0] == (ClauseView { test: None, body: otherwise }));
    let first = with_block(old_blocks, guard, names);
    assert(noted == with_block(first, crate::model::inverted(guard), others));
    assert(old_blocks =~= noted.subrange(0, old_blocks.len() as int));
    if exists|i: int| 0 <= i < body.len() && crate::guards::defines(#[trigger] body[i], x) {
        crate::guards::law_branches_define(body, x);
        assert(names.len() > 0);
        let b = old_blocks.len() as int;
        assert(noted[b].guard == guard && noted[b].names == names);
    }
    if exists|i: int|
        0 <= i < otherwise.len() && crate::guards::defines(#[trigger] otherwise[i], x) {
        crate::guards::law_branches_define(otherwise, x);
        assert(others.len() > 0);
        let b = first.len() as int;
        assert(noted[b].names == others);
    }
}

/// `import a.b` binds `a`, `import a.b as n` binds `n` to `a.b`, and
/// `from m import x` binds `x`, or the name behind `as`, to `x` of `m`.
/// `from m import *` is noted as such.
pub proof fn law_imports_are_bound(
    st: ScanView,
    alias: AliasView,
    level: u32,
    module: Option<Seq<char>>,
    mref: ModuleRefView,
    reach: Reach,
    certain: bool,
    os: Seq<char>,
)
    requires
        imported_from(st.module.dir, level, module) == Some(mref),
    ensures
        ({
            let after = scanned(StmtView::Import(seq![alias]), st, reach, certain, os).module;
            let from = scanned(
                StmtView::ImportFrom { level, module, names: seq![alias] },
                st,
                reach,
                certain,
                os,
            ).module;
            &&& alias.asname matches Some(n) ==> crate::table::find(after.imports, n) == Some(
                ImportView::Module(alias.name),
            )
            &&& alias.asname is None && !alias.name.contains('.') ==> crate::table::find(
                after.imports,
                alias.name,
            ) == Some(ImportView::Module(alias.name))
            &&& alias.name != "*"@ ==> {
                &&& alias.asname matches Some(n) ==> crate::table::find(from.imports, n) == Some(
                    ImportView::From(mref, alias.name),
                )
                &&& alias.asname is None ==> crate::table::find(from.imports, alias.name) == Some(
                    ImportView::From(mref, alias.name),
                )
                &&& from.star_imports == st.module.star_imports
            }
            &&& alias.name == "*"@ ==> from.star_imports == st.module.star_imports.push(mref)
                && from.imports == st.module.imports
        }),
{
    let t = st.module.imports;
    assert(seq![alias][0] == alias);
    reveal_with_fuel(with_imports, 2);
    reveal_with_fuel(with_from, 2);
    if let Some(n) = alias.asname {
        crate::table::law_find_after_put(t, n, ImportView::Module(alias.name), n);
        crate::table::law_find_after_put(t, n, ImportView::From(mref, alias.name), n);
    } else {
        crate::table::law_find_after_put(
            t,
            alias.name,
            ImportView::From(mref, alias.name),
            alias.name,
        );
        if !alias.name.contains('.') {
            text::law_field_is_one(alias.name, '.');
            crate::table::law_find_after_put(
                t,
                alias.name,
                ImportView::Module(alias.name),
                alias.name,
            );
        }
    }
}

/// An absolute import names the module as it is written. A relative one starts in
/// the directory of the importer, one level higher for each further dot.
pub proof fn law_relative_imports(dir: Seq<Seq<char>>, level: u32, m: Seq<char>)
    ensures
        imported_from(dir, 0, Some(m)) == Some(ModuleRefView::Absolute(m)),
        imported_from(dir, 1, None) == Some(ModuleRefView::Relative(dir)),
        !m.contains('.') ==> imported_from(dir, 1, Some(m)) == Some(
            ModuleRefView::Relative(crate::path::child(dir, m)),
        ),
        1 <= level < u32::MAX ==> imported_from(dir, (level + 1) as u32, Some(m)) == imported_from(
            crate::model::dir_of(dir),
            level,
            Some(m),
        ) && imported_from(dir, (level + 1) as u32, None) == imported_from(
            crate::model::dir_of(dir),
            level,
            None,
        ),
{
    if !m.contains('.') {
        text::law_field_is_one(m, '.');
        assert(seq![m][0] == m);
        reveal_with_fuel(below, 2);
    }
}

/// Of several fixtures that are registered under one key the last one counts, and
/// a key that none is registered under has none.
pub proof fn law_last_fixture_counts(bound: Seq<BoundView>, key: Seq<char>, at: int)
    requires
        0 <= at <= bound.len(),
        at < bound.len() ==> bound[at].key == key,
        at == bound.len() ==> forall|j: int|
            0 <= j < bound.len() ==> (#[trigger] bound[j]).key != key,
        forall|j: int| at < j < bound.len() ==> (#[trigger] bound[j]).key != key,
    ensures
        at < bound.len() ==> crate::table::find(registered(bound, 0, Seq::empty()), key) == Some(
            bound[at].fixture,
        ),
        at == bound.len() ==> crate::table::find(registered(bound, 0, Seq::empty()), key) is None,
{
    registered_hold(bound, 0, Seq::empty(), key, at);
}

proof fn registered_hold(
    bound: Seq<BoundView>,
    i: int,
    out: Seq<(Seq<char>, FixtureView)>,
    key: Seq<char>,
    at: int,
)
    requires
        0 <= i <= bound.len(),
        0 <= at <= bound.len(),
        at < bound.len() ==> bound[at].key == key,
        at == bound.len() ==> forall|j: int|
            i <= j < bound.len() ==> (#[trigger] bound[j]).key != key,
        forall|j: int| at < j < bound.len() ==> (#[trigger] bound[j]).key != key,
    ensures
        i <= at < bound.len() ==> crate::table::find(registered(bound, i, out), key) == Some(
            bound[at].fixture,
        ),
        at < i || at == bound.len() ==> crate::table::find(registered(bound, i, out), key)
            == crate::table::find(out, key),
    decreases bound.len() - i,
{
    if i < bound.len() {
        crate::table::law_find_after_put(out, bound[i].key, bound[i].fixture, key);
        registered_hold(
            bound,
            i + 1,
            crate::table::put(out, bound[i].key, bound[i].fixture),
            key,
            at,
        );
    }
}

/// What an assignment to one name says: the marks of `pytestmark`, the plugins of
/// `pytest_plugins` and what `collect_ignore` and `collect_ignore_glob` list are
/// added; a name that is bound to a mark stands for it, one that is bound to an
/// import says whether that module is there, and one that is bound to a
/// `TestCase` is a test case.
pub proof fn law_assignments_are_taken_up(
    st: ScanView,
    target: Seq<char>,
    value: ExprView,
    certain: bool,
    os: Seq<char>,
)
    ensures
        ({
            let after = scanned(
                StmtView::Assign { targets: seq![ExprView::Name(target)], value },
                st,
                Reach::Live,
                certain,
                os,
            ).module;
            let m = st.module;
            &&& after.pytestmark == if target == "pytestmark"@ {
                m.pytestmark + marks_in(value)
            } else {
                m.pytestmark
            }
            &&& after.plugin_modules == if target == "pytest_plugins"@ {
                m.plugin_modules + plugins_in(value)
            } else {
                m.plugin_modules
            }
            &&& after.collect_ignore == if target == "collect_ignore"@ {
                m.collect_ignore + literals_in(value)
            } else {
                m.collect_ignore
            }
            &&& after.collect_ignore_glob == if target == "collect_ignore_glob"@ {
                m.collect_ignore_glob + literals_in(value)
            } else {
                m.collect_ignore_glob
            }
            &&& crate::params::mark_of(value) matches Some(mark) ==> crate::table::find(
                after.mark_aliases,
                target,
            ) == Some(mark)
            &&& crate::guards::bound_module(value) matches Some(name) ==> crate::table::find(
                after.import_bindings,
                target,
            ) == Some(name)
            &&& is_testcase(value) ==> after.synthetic_testcases == m.synthetic_testcases.push(
                target,
            )
            &&& crate::guards::demanded(value) matches Some(name) ==> after.skip_requires
                == m.skip_requires.push(name)
            &&& crate::guards::demanded(value) is None ==> after.skip_requires == m.skip_requires
            &&& after.order == m.order && after.functions == m.functions && after.classes
                == m.classes
        }),
{
    assert(seq![ExprView::Name(target)][0] == ExprView::Name(target));
    if let Some(mark) = crate::params::mark_of(value) {
        crate::table::law_find_after_put(st.module.mark_aliases, target, mark, target);
    }
    if let Some(name) = crate::guards::bound_module(value) {
        crate::table::law_find_after_put(st.module.import_bindings, target, name, target);
    }
}

/// The marks of `pytestmark` are those of each element of a list, or the one mark
/// that it is.
pub proof fn law_module_marks(v: Seq<ExprView>, e: ExprView, x: Seq<char>)
    requires
        !(e is List),
    ensures
        marks_in(ExprView::List(v)).contains(x) <==> exists|i: int|
            0 <= i < v.len() && crate::params::mark_of(#[trigger] v[i]) == Some(x),
        crate::params::mark_of(e) matches Some(m) ==> marks_in(e) == seq![m],
        crate::params::mark_of(e) is None ==> marks_in(e).len() == 0,
{
    marks_hold(v, 0, Seq::empty(), x);
    if let Some(m) = crate::params::mark_of(e) {
        assert(Seq::<Seq<char>>::empty().push(m) =~= seq![m]);
    }
}

proof fn marks_hold(v: Seq<ExprView>, i: int, out: Seq<Seq<char>>, x: Seq<char>)
    requires
        0 <= i <= v.len(),
    ensures
        marks_from(v, i, out).contains(x) <==> out.contains(x) || exists|j: int|
            i <= j < v.len() && crate::params::mark_of(#[trigger] v[j]) == Some(x),
    decreases v.len() - i,
{
    if i < v.len() {
        match crate::params::mark_of(v[i]) {
            Some(m) => {
                marks_hold(v, i + 1, out.push(m), x);
                assert(out.push(m) =~= out + seq![m]);
                text::law_both_hold(out, seq![m], x);
                assert(seq![m].contains(m)) by {
                    assert(seq![m][0] == m);
                }
            },
            None => {
                marks_hold(v, i + 1, out, x);
            },
        }
    }
}

/// A bare `pytest.skip(...)` skips the module, `pytest.importorskip(...)` demands
/// a module, and any other call is noted as one of a helper.
pub proof fn law_bare_calls(st: ScanView, e: ExprView, certain: bool, os: Seq<char>)
    ensures
        ({
            let after = scanned(StmtView::Expr(e), st, Reach::Live, certain, os).module;
            let m = st.module;
            &&& crate::guards::skip_call(e) ==> after.has_module_skip && after.helper_calls
                == m.helper_calls
            &&& !crate::guards::skip_call(e) ==> after.has_module_skip == m.has_module_skip
            &&& crate::guards::demanded(e) matches Some(name) ==> after.skip_requires
                == m.skip_requires.push(name)
            &&& crate::guards::demanded(e) is None ==> after.skip_requires == m.skip_requires
            &&& !crate::guards::skip_call(e) ==> (called(e) matches Some(f) ==> after.helper_calls
                == m.helper_calls.push(f))
            &&& after.order == m.order && after.functions == m.functions && after.classes
                == m.classes
        }),
{
}

/// A `try` whose handlers skip demands what its body imports. A flag that is set
/// behind the import and cleared in a handler says whether the first module that
/// the body imports is there.
pub proof fn law_guarded_imports(
    m: ModuleView,
    body: Seq<StmtView>,
    handlers: Seq<BlockView>,
    orelse: Seq<StmtView>,
    flag: Seq<char>,
)
    ensures
        ({
            let after = with_try(m, body, handlers, orelse);
            let deps = imported_in(body, 0, Seq::empty());
            let set = flags_in(orelse, true, 0, flags_in(body, true, 0, Seq::empty()));
            let cleared = flags_cleared(handlers, 0, Seq::empty());
            &&& after.skip_requires == if crate::guards::blocks_skip(handlers, 0) {
                m.skip_requires + deps
            } else {
                m.skip_requires
            }
            &&& deps.len() > 0 && set.contains(flag) && cleared.contains(flag)
                ==> crate::table::find(after.import_bindings, flag) == Some(deps[0])
            &&& !(set.contains(flag) && cleared.contains(flag)) ==> crate::table::find(
                after.import_bindings,
                flag,
            ) == crate::table::find(m.import_bindings, flag)
            &&& set.contains(flag) <==> (exists|i: int|
                0 <= i < body.len() && flag_set(#[trigger] body[i], true) == Some(flag)) || (
            exists|i: int|
                0 <= i < orelse.len() && flag_set(#[trigger] orelse[i], true) == Some(flag))
            &&& cleared.contains(flag) <==> exists|h: int, i: int|
                0 <= h < handlers.len() && 0 <= i < handlers[h].body.len() && flag_set(
                    #[trigger] handlers[h].body[i],
                    false,
                ) == Some(flag)
        }),
{
    let deps = imported_in(body, 0, Seq::empty());
    let first = flags_in(body, true, 0, Seq::empty());
    let set = flags_in(orelse, true, 0, first);
    let cleared = flags_cleared(handlers, 0, Seq::empty());
    flags_hold(body, true, 0, Seq::empty(), flag);
    flags_hold(orelse, true, 0, first, flag);
    cleared_hold(handlers, 0, Seq::empty(), flag);
    if deps.len() > 0 {
        with_flags_hold(m.import_bindings, set, cleared, deps[0], 0, flag);
        if set.contains(flag) {
            assert(set[set.index_of(flag)] == flag);
        }
    }
    if cleared.contains(flag) {
        let h = choose|h: int|
            0 <= h < handlers.len() && clears(#[trigger] handlers[h], flag);
        let i = choose|i: int|
            0 <= i < handlers[h].body.len() && flag_set(#[trigger] handlers[h].body[i], false)
                == Some(flag);
        assert(flag_set(handlers[h].body[i], false) == Some(flag));
    }
    if exists|h: int, i: int|
        0 <= h < handlers.len() && 0 <= i < handlers[h].body.len() && flag_set(
            #[trigger] handlers[h].body[i],
            false,
        ) == Some(flag) {
        let (h, i) = choose|h: int, i: int|
            0 <= h < handlers.len() && 0 <= i < handlers[h].body.len() && flag_set(
                #[trigger] handlers[h].body[i],
                false,
            ) == Some(flag);
        assert(clears(handlers[h], flag));
    }
}

/// Does a statement of a handler set the name to `False`?
spec fn clears(h: BlockView, flag: Seq<char>) -> bool {
    exists|i: int| 0 <= i < h.body.len() && flag_set(#[trigger] h.body[i], false) == Some(flag)
}

proof fn flags_hold(
    stmts: Seq<StmtView>,
    value: bool,
    i: int,
    out: Seq<Seq<char>>,
    x: Seq<char>,
)
    requires
        0 <= i <= stmts.len(),
    ensures
        flags_in(stmts, value, i, out).contains(x) <==> out.contains(x) || exists|j: int|
            i <= j < stmts.len() && flag_set(#[trigger] stmts[j], value) == Some(x),
    decreases stmts.len() - i,
{
    if i < stmts.len() {
        match flag_set(stmts[i], value) {
            Some(n) => {
                flags_hold(stmts, value, i + 1, out.push(n), x);
                assert(out.push(n) =~= out + seq![n]);
                text::law_both_hold(out, seq![n], x);
                assert(seq![n].contains(n)) by {
                    assert(seq![n][0] == n);
                }
            },
            None => {
                flags_hold(stmts, value, i + 1, out, x);
            },
        }
    }
}

proof fn cleared_hold(handlers: Seq<BlockView>, i: int, out: Seq<Seq<char>>, x: Seq<char>)
    requires
        0 <= i <= handlers.len(),
    ensures
        flags_cleared(handlers, i, out).contains(x) <==> out.contains(x) || exists|h: int|
            i <= h < handlers.len() && clears(#[trigger] handlers[h], x),
    decreases handlers.len() - i,
{
    if i < handlers.len() {
        flags_hold(handlers[i].body, false, 0, out, x);
        cleared_hold(handlers, i + 1, flags_in(handlers[i].body, false, 0, out), x);
    }
}

proof fn with_flags_hold(
    t: Seq<(Seq<char>, Seq<char>)>,
    set: Seq<Seq<char>>,
    cleared: Seq<Seq<char>>,
    dep: Seq<char>,
    i: int,
    x: Seq<char>,
)
    requires
        0 <= i <= set.len(),
    ensures
        crate::table::find(with_flags(t, set, cleared, dep, i), x) == if cleared.contains(x)
            && exists|j: int| i <= j < set.len() && #[trigger] set[j] == x {
            Some(dep)
        } else {
            crate::table::find(t, x)
        },
    decreases set.len() - i,
{
    if i < set.len() {
        let next = if cleared.contains(set[i]) {
            crate::table::put(t, set[i], dep)
        } else {
            t
        };
        crate::table::law_find_after_put(t, set[i], dep, x);
        with_flags_hold(next, set, cleared, dep, i + 1, x);
    }
}

/// Is a statement one of those that stand at the top of a module and take no name
/// away?
pub open spec fn is_simple(s: StmtView) -> bool {
    s is Function || s is Class || s is Assign || s is Expr || s is Import || s is ImportFrom
}

/// A test function at the top of a module is found as a test of it, in its last
/// definition, whatever simple statements stand around it; so is a class.
pub proof fn law_top_level_definitions_are_found(
    path: Seq<Seq<char>>,
    stmts: Seq<StmtView>,
    os: Seq<char>,
    i: int,
    name: Seq<char>,
)
    requires
        0 <= i < stmts.len(),
        forall|j: int| 0 <= j < stmts.len() ==> is_simple(#[trigger] stmts[j]),
        match stmts[i] {
            StmtView::Function { name: n, decorators, .. } => n == name && name
                != "pytest_generate_tests"@ && crate::params::fixture_from(decorators, 0) is None,
            StmtView::Class { name: n, .. } => n == name,
            _ => false,
        },
    ensures
        exists|k: int|
            0 <= k < module_of(path, stmts, os).order.len() && TopItem::name_of(
                #[trigger] module_of(path, stmts, os).order[k],
            ) == name,
{
    let start = ScanView {
        module: crate::model::blank(path),
        bound: Seq::empty(),
        aliases: Seq::empty(),
    };
    let found = scanned_all(stmts, 0, start, Reach::Live, true, os);
    order_has(stmts, 0, start, os, i, name);
    let order = found.module.order;
    let k = choose|k: int| 0 <= k < order.len() && TopItem::name_of(#[trigger] order[k]) == name;
    let last = last_item(order, k);
    crate::names::law_last_definition_survives::<TopItem>(order);
    let kept = module_of(path, stmts, os).order;
    assert(kept.contains(order[last])) by {
        assert(order[last] == order[last]);
    }
    let q = choose|q: int| 0 <= q < kept.len() && kept[q] == order[last];
    assert(TopItem::name_of(kept[q]) == name);
}

proof fn last_item(s: Seq<TopItemView>, k: int) -> (last: int)
    requires
        0 <= k < s.len(),
    ensures
        k <= last < s.len(),
        TopItem::name_of(s[last]) == TopItem::name_of(s[k]),
        !crate::names::shadowed::<TopItem>(s, last),
    decreases s.len() - k,
{
    if crate::names::shadowed::<TopItem>(s, k) {
        let j = choose|j: int|
            k < j < s.len() && TopItem::name_of(#[trigger] s[j]) == TopItem::name_of(s[k]);
        last_item(s, j)
    } else {
        k
    }
}

/// Is there a definition of this name?
spec fn has_item(order: Seq<TopItemView>, name: Seq<char>) -> bool {
    exists|k: int| 0 <= k < order.len() && TopItem::name_of(#[trigger] order[k]) == name
}

proof fn order_has(
    stmts: Seq<StmtView>,
    j: int,
    st: ScanView,
    os: Seq<char>,
    i: int,
    name: Seq<char>,
)
    requires
        0 <= j <= stmts.len(),
        0 <= i < stmts.len(),
        forall|j: int| 0 <= j < stmts.len() ==> is_simple(#[trigger] stmts[j]),
        match stmts[i] {
            StmtView::Function { name: n, decorators, .. } => n == name && name
                != "pytest_generate_tests"@ && crate::params::fixture_from(decorators, 0) is None,
            StmtView::Class { name: n, .. } => n == name,
            _ => false,
        },
        i < j ==> has_item(st.module.order, name),
    ensures
        has_item(scanned_all(stmts, j, st, Reach::Live, true, os).module.order, name),
    decreases stmts.len() - j,
{
    if j < stmts.len() {
        let next = scanned(stmts[j], st, Reach::Live, true, os);
        let before = st.module.order;
        assert(is_simple(stmts[j]));
        assert(before.is_prefix_of(next.module.order)) by {
            assert(before.subrange(0, before.len() as int) =~= before);
            match stmts[j] {
                StmtView::ImportFrom { level, module, names } => {
                    if let Some(mref) = imported_from(st.module.dir, level, module) {
                        from_only_imports(st.module, mref, names, 0);
                    }
                },
                _ => {
                    if next.module.order.len() > before.len() {
                        assert(next.module.order.subrange(0, before.len() as int) =~= before);
                    }
                },
            }
        }
        if i < j {
            let k = choose|k: int|
                0 <= k < before.len() && TopItem::name_of(#[trigger] before[k]) == name;
            assert(next.module.order.subrange(0, before.len() as int)[k] == next.module.order[k]);
            assert(TopItem::name_of(next.module.order[k]) == name);
        }
        if i == j {
            assert(TopItem::name_of(next.module.order[before.len() as int]) == name);
        }
        order_has(stmts, j + 1, next, os, i, name);
    }
}

/// `pytest_plugins` names the strings of a list or tuple, or the one that it is;
/// `collect_ignore` and its like name those of a list or tuple.
pub proof fn law_listed_names(v: Seq<ExprView>, s: Seq<char>, x: Seq<char>)
    ensures
        plugins_in(ExprView::Str(s)) == seq![s],
        plugins_in(ExprView::List(v)).contains(x) <==> exists|i: int|
            0 <= i < v.len() && crate::params::string_of(#[trigger] v[i]) == Some(x),
        plugins_in(ExprView::Tuple(v)).contains(x) <==> exists|i: int|
            0 <= i < v.len() && crate::params::string_of(#[trigger] v[i]) == Some(x),
        literals_in(ExprView::List(v)).contains(x) <==> exists|i: int|
            0 <= i < v.len() && crate::params::string_of(#[trigger] v[i]) == Some(x),
        literals_in(ExprView::Tuple(v)).contains(x) <==> exists|i: int|
            0 <= i < v.len() && crate::params::string_of(#[trigger] v[i]) == Some(x),
{
    crate::params::law_strings_are_kept(v, x);
}

/// `X.TestCase` is a test case, and nothing else is.
pub proof fn law_synthetic_test_cases(base: Box<ExprView>, a: Seq<char>, n: Seq<char>)
    ensures
        is_testcase(ExprView::Attribute(base, a)) <==> a == seq![
            'T',
            'e',
            's',
            't',
            'C',
            'a',
            's',
            'e',
        ],
        !is_testcase(ExprView::Name(n)),
{
    reveal_strlit("TestCase");
    assert("TestCase"@ =~= seq!['T', 'e', 's', 't', 'C', 'a', 's', 'e']);
}

/// The block of an exception handler gives the definitions and imports in it, not
/// certainly, and nothing else; the body of the `try` and what follows it count
/// as the statement does.
pub proof fn law_handlers_only_define(
    body: Seq<StmtView>,
    h: BlockView,
    finalbody: Seq<StmtView>,
    st: ScanView,
    certain: bool,
    os: Seq<char>,
    targets: Seq<ExprView>,
    e: ExprView,
)
    ensures
        ({
            let none = Seq::<StmtView>::empty();
            let noted = ScanView { module: with_try(st.module, body, seq![h], none), ..st };
            &&& scanned(
                StmtView::Try { body, handlers: seq![h], orelse: none, finalbody },
                st,
                Reach::Live,
                certain,
                os,
            ) == scanned_all(
                finalbody,
                0,
                scanned_all(
                    h.body,
                    0,
                    scanned_all(body, 0, noted, Reach::Live, certain, os),
                    Reach::Definitions,
                    false,
                    os,
                ),
                Reach::Live,
                certain,
                os,
            )
        }),
        scanned(
            StmtView::Assign { targets, value: e },
            st,
            Reach::Definitions,
            certain,
            os,
        ) == st,
        scanned(StmtView::Expr(e), st, Reach::Definitions, certain, os) == st,
        scanned(StmtView::Delete(targets), st, Reach::Definitions, certain, os) == st,
{
    let none = Seq::<StmtView>::empty();
    let noted = ScanView { module: with_try(st.module, body, seq![h], none), ..st };
    let one = scanned_all(body, 0, noted, Reach::Live, certain, os);
    let two = scanned_all(h.body, 0, one, Reach::Definitions, false, os);
    assert(seq![h][0] == h);
    assert(scanned_blocks(seq![h], 0, one, Reach::Definitions, os) == scanned_blocks(
        seq![h],
        1,
        two,
        Reach::Definitions,
        os,
    ));
    assert(scanned_blocks(seq![h], 1, two, Reach::Definitions, os) == two);
    assert(scanned_all(none, 0, two, Reach::Live, false, os) == two);
}

/// The modules that a body imports by an absolute name are those of each of its
/// `import` statements, and those that its `from` statements import from.
pub proof fn law_imports_of_a_body(stmts: Seq<StmtView>, x: Seq<char>)
    ensures
        imported_in(stmts, 0, Seq::empty()).contains(x) <==> exists|i: int|
            0 <= i < stmts.len() && imports_module(#[trigger] stmts[i], x),
{
    imports_hold(stmts, 0, Seq::empty(), x);
}

/// Does a statement import a module by this absolute name?
pub open spec fn imports_module(s: StmtView, x: Seq<char>) -> bool {
    match s {
        StmtView::Import(names) => exists|i: int|
            0 <= i < names.len() && (#[trigger] names[i]).name == x,
        StmtView::ImportFrom { level, module, .. } => level == 0 && module == Some(x),
        _ => false,
    }
}

proof fn imports_hold(stmts: Seq<StmtView>, i: int, out: Seq<Seq<char>>, x: Seq<char>)
    requires
        0 <= i <= stmts.len(),
    ensures
        imported_in(stmts, i, out).contains(x) <==> out.contains(x) || exists|j: int|
            i <= j < stmts.len() && imports_module(#[trigger] stmts[j], x),
    decreases stmts.len() - i,
{
    if i < stmts.len() {
        let here = imported_by(stmts[i]);
        imports_hold(stmts, i + 1, out + here, x);
        text::law_both_hold(out, here, x);
        assert(here.contains(x) <==> imports_module(stmts[i], x)) by {
            match stmts[i] {
                StmtView::Import(names) => {
                    aliases_hold(names, 0, Seq::empty(), x);
                },
                StmtView::ImportFrom { level, module, names } => {
                    if let Some(m) = module {
                        assert(Seq::<Seq<char>>::empty().push(m) =~= seq![m]);
                        assert(seq![m][0] == m);
                        assert(seq![m].contains(m));
                    }
                },
                _ => {},
            }
        }
    }
}

proof fn aliases_hold(names: Seq<AliasView>, i: int, out: Seq<Seq<char>>, x: Seq<char>)
    requires
        0 <= i <= names.len(),
    ensures
        alias_names(names, i, out).contains(x) <==> out.contains(x) || exists|j: int|
            i <= j < names.len() && (#[trigger] names[j]).name == x,
    decreases names.len() - i,
{
    if i < names.len() {
        let one = names[i].name;
        aliases_hold(names, i + 1, out.push(one), x);
        assert(out.push(one) =~= out + seq![one]);
        text::law_both_hold(out, seq![one], x);
        assert(seq![one].contains(one)) by {
            assert(seq![one][0] == one);
        }
    }
}

/// `del a, b` deletes the first name and then the others.
pub proof fn law_all_targets_are_deleted(
    st: ScanView,
    n: Seq<char>,
    rest: Seq<ExprView>,
    certain: bool,
    os: Seq<char>,
)
    ensures
        scanned(
            StmtView::Delete(seq![ExprView::Name(n)] + rest),
            st,
            Reach::Live,
            certain,
            os,
        ) == scanned(
            StmtView::Delete(rest),
            with_deleted(st, n, certain),
            Reach::Live,
            certain,
            os,
        ),
{
    let all = seq![ExprView::Name(n)] + rest;
    assert(all[0] == ExprView::Name(n));
    deletes_shift(all, rest, with_deleted(st, n, certain), 0, certain);
}

proof fn deletes_shift(
    all: Seq<ExprView>,
    rest: Seq<ExprView>,
    st: ScanView,
    i: int,
    certain: bool,
)
    requires
        0 <= i <= rest.len(),
        all.len() == rest.len() + 1,
        forall|j: int| 0 <= j < rest.len() ==> all[j + 1] == #[trigger] rest[j],
    ensures
        with_deletes(st, all, i + 1, certain) == with_deletes(st, rest, i, certain),
    decreases rest.len() - i,
{
    if i < rest.len() {
        assert(all[i + 1] == rest[i]);
        let next = match rest[i] {
            ExprView::Name(n) => with_deleted(st, n, certain),
            _ => st,
        };
        deletes_shift(all, rest, next, i + 1, certain);
    }
}

/// In a branch that may not run, `del` takes away what the name is bound to, but
/// not what pytest reads under it; and a `del` of one name leaves other names as
/// they are.
pub proof fn law_deleting_one_name(st: ScanView, name: Seq<char>, certain: bool, other: Seq<char>)
    requires
        other != name,
    ensures
        ({
            let after = with_deleted(st, name, certain);
            let m = st.module;
            &&& crate::table::find(after.module.imports, other) == crate::table::find(
                m.imports,
                other,
            )
            &&& crate::table::find(after.module.classes, other) == crate::table::find(
                m.classes,
                other,
            )
            &&& crate::table::find(after.module.functions, other) == crate::table::find(
                m.functions,
                other,
            )
            &&& !certain ==> after.bound == st.bound && after.module.has_generate_tests
                == m.has_generate_tests && after.module.pytestmark == m.pytestmark
                && after.module.plugin_modules == m.plugin_modules && after.module.collect_ignore
                == m.collect_ignore && after.module.collect_ignore_glob == m.collect_ignore_glob
            &&& crate::table::find(after.module.classes, name) is None
            &&& crate::table::find(after.module.functions, name) is None
        }),
        forall|x: TopItemView|
            with_deleted(st, name, certain).module.order.contains(x) <==> #[trigger]
            st.module.order.contains(x) && TopItem::name_of(x) != name,
{
    let m = st.module;
    crate::table::law_find_after_remove(m.imports, name, other);
    crate::table::law_find_after_remove(m.classes, name, other);
    crate::table::law_find_after_remove(m.functions, name, other);
    crate::table::law_find_after_remove(m.classes, name, name);
    crate::table::law_find_after_remove(m.functions, name, name);
    assert forall|x: TopItemView|
        with_deleted(st, name, certain).module.order.contains(x) <==> #[trigger]
        st.module.order.contains(x) && TopItem::name_of(x) != name by {
        crate::names::law_others_stay::<TopItem>(m.order, name, x);
    }
}

/// The package of a module is its directory; that of a package itself is the
/// directory above.
pub proof fn law_home_of_a_module(dir: Seq<Seq<char>>, name: Seq<char>, up: Seq<char>)
    requires
        !dir.push(up).push(name).contains(crate::path::root_part()),
        !dir.push(up).push(name).contains("."@),
        !dir.push(up).push(name).contains(".."@),
    ensures
        name != "__init__.py"@ ==> home_of(dir.push(up).push(name)) == dir.push(up),
        name == "__init__.py"@ ==> home_of(dir.push(up).push(name)) == dir,
{
    let p = dir.push(up).push(name);
    let n = p.len() as int;
    assert(p.contains(p[n - 1]));
    assert(p.contains(p[n - 2]));
    assert(p.drop_last() =~= dir.push(up));
    assert(dir.push(up).drop_last() =~= dir);
}

} // verus!
