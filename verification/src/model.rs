//! What collection knows of a parsed test module.

use vstd::prelude::*;

use crate::params::{Expansion, ExpansionView};
use crate::path::FilePath;
use crate::table::Table;
use crate::text::{self, concat3, copy_list};

verus! {

broadcast use crate::text::group_deep;

/// The module that an import statement names.
#[derive(Debug)]
pub enum ModuleRef {
    /// A dotted module path.
    Absolute(String),
    /// A path without extension, from a relative import.
    Relative(FilePath),
}

/// What a module reference holds.
pub enum ModuleRefView {
    Absolute(Seq<char>),
    Relative(Seq<Seq<char>>),
}

impl View for ModuleRef {
    type V = ModuleRefView;

    open spec fn view(&self) -> ModuleRefView {
        match self {
            ModuleRef::Absolute(d) => ModuleRefView::Absolute(d@),
            ModuleRef::Relative(p) => ModuleRefView::Relative(p@),
        }
    }
}

impl ModuleRef {
    /// The same reference once more.
    pub fn copy(&self) -> (r: ModuleRef)
        ensures
            r@ == self@,
    {
        match self {
            ModuleRef::Absolute(d) => ModuleRef::Absolute(d.clone()),
            ModuleRef::Relative(p) => ModuleRef::Relative(p.copy()),
        }
    }
}

/// A submodule reference: `mref` and one more dotted segment.
pub open spec fn child_ref(mref: ModuleRefView, child: Seq<char>) -> ModuleRefView {
    match mref {
        ModuleRefView::Absolute(d) => ModuleRefView::Absolute(d + "."@ + child),
        ModuleRefView::Relative(p) => ModuleRefView::Relative(crate::path::child(p, child)),
    }
}

/// A submodule reference: `mref` and one more dotted segment.
pub fn resolve_child(mref: &ModuleRef, child: &str) -> (r: ModuleRef)
    ensures
        r@ == child_ref(mref@, child@),
{
    match mref {
        ModuleRef::Absolute(d) => ModuleRef::Absolute(concat3(d.as_str(), ".", child)),
        ModuleRef::Relative(p) => ModuleRef::Relative(p.child(child)),
    }
}

/// What an imported name is bound to.
#[derive(Debug)]
pub enum Import {
    /// `import a.b [as x]`: the binding maps to a dotted module.
    Module(String),
    /// `from M import name [as x]`: the name may be a class or a submodule.
    From(ModuleRef, String),
}

/// What an import holds.
pub enum ImportView {
    Module(Seq<char>),
    From(ModuleRefView, Seq<char>),
}

impl View for Import {
    type V = ImportView;

    open spec fn view(&self) -> ImportView {
        match self {
            Import::Module(d) => ImportView::Module(d@),
            Import::From(m, n) => ImportView::From(m@, n@),
        }
    }
}

/// One test function or method: its expansion, the parameter names it requests
/// (fixtures), and the names claimed by `parametrize`.
#[derive(Debug)]
pub struct TestDef {
    pub name: String,
    pub expansion: Expansion,
    pub args: Vec<String>,
    pub claimed: Vec<String>,
    pub marks: Vec<String>,
    pub maybe_marks: Vec<String>,
    /// The function body contains a `pytest.skip(...)` call: calling it at
    /// module level skips the whole module.
    pub skips_module: bool,
    /// The body is exactly `return <expr>` with a constant expression: usable
    /// as a platform predicate (`if is_win32():`).
    pub returns_const: Option<bool>,
}

/// What a test holds.
pub struct TestDefView {
    pub name: Seq<char>,
    pub expansion: ExpansionView,
    pub args: Seq<Seq<char>>,
    pub claimed: Seq<Seq<char>>,
    pub marks: Seq<Seq<char>>,
    pub maybe_marks: Seq<Seq<char>>,
    pub skips_module: bool,
    pub returns_const: Option<bool>,
}

impl View for TestDef {
    type V = TestDefView;

    open spec fn view(&self) -> TestDefView {
        TestDefView {
            name: self.name@,
            expansion: self.expansion@,
            args: text::deep(self.args@),
            claimed: text::deep(self.claimed@),
            marks: text::deep(self.marks@),
            maybe_marks: text::deep(self.maybe_marks@),
            skips_module: self.skips_module,
            returns_const: self.returns_const,
        }
    }
}

impl TestDef {
    /// The same test once more.
    pub fn copy(&self) -> (r: TestDef)
        ensures
            r@ == self@,
    {
        TestDef {
            name: self.name.clone(),
            expansion: self.expansion.copy(),
            args: copy_list(&self.args),
            claimed: copy_list(&self.claimed),
            marks: copy_list(&self.marks),
            maybe_marks: copy_list(&self.maybe_marks),
            skips_module: self.skips_module,
            returns_const: self.returns_const,
        }
    }
}

/// A fixture: whether it multiplies tests, whether it applies to every test in
/// scope, and the fixtures it requests itself.
#[derive(Debug)]
pub struct Fixture {
    pub parametrized: bool,
    pub autouse: bool,
    pub deps: Vec<String>,
}

/// What a fixture holds.
pub struct FixtureView {
    pub parametrized: bool,
    pub autouse: bool,
    pub deps: Seq<Seq<char>>,
}

impl View for Fixture {
    type V = FixtureView;

    open spec fn view(&self) -> FixtureView {
        FixtureView {
            parametrized: self.parametrized,
            autouse: self.autouse,
            deps: text::deep(self.deps@),
        }
    }
}

impl Fixture {
    /// The same fixture once more.
    pub fn copy(&self) -> (r: Fixture)
        ensures
            r@ == self@,
    {
        Fixture {
            parametrized: self.parametrized,
            autouse: self.autouse,
            deps: copy_list(&self.deps),
        }
    }
}

/// Fixtures by name.
pub type Fixtures = Table<Fixture>;

/// A table of fixtures once more.
pub fn copy_fixtures(t: &Fixtures) -> (r: Fixtures)
    ensures
        r@ == t@,
{
    let mut out: Vec<(String, Fixture)> = Vec::new();
    let mut i: usize = 0;
    while i < t.entries.len()
        invariant
            i <= t.entries.len(),
            out.len() == i,
            forall|j: int| 0 <= j < i ==> (#[trigger] out@[j])@ == t.entries@[j]@,
        decreases t.entries.len() - i,
    {
        out.push((t.entries[i].0.clone(), t.entries[i].1.copy()));
        i += 1;
    }
    let r: Fixtures = Table { entries: out };
    proof {
        assert(r@ =~= t@);
    }
    r
}

/// A member of a class.
#[derive(Debug)]
pub enum ClassItem {
    Method(TestDef),
    Nested(String, Class),
}

/// A class: its bases as dotted text, its members in order of definition, and
/// what its decorators and fixtures say.
#[derive(Debug)]
pub struct Class {
    pub bases: Vec<String>,
    pub items: Vec<ClassItem>,
    pub fixtures: Fixtures,
    pub usefixtures: Vec<String>,
    pub marks: Vec<String>,
    pub expansion: Expansion,
    pub has_ctor: bool,
}

/// What a member of a class holds.
pub enum ClassItemView {
    Method(TestDefView),
    Nested(Seq<char>, ClassView),
}

/// What a class holds.
pub struct ClassView {
    pub bases: Seq<Seq<char>>,
    pub items: Seq<ClassItemView>,
    pub fixtures: Seq<(Seq<char>, FixtureView)>,
    pub usefixtures: Seq<Seq<char>>,
    pub marks: Seq<Seq<char>>,
    pub expansion: ExpansionView,
    pub has_ctor: bool,
}

pub open spec fn class_view(c: Class) -> ClassView
    decreases c,
{
    ClassView {
        bases: text::deep(c.bases@),
        items: Seq::new(
            c.items@.len(),
            |i: int|
                if 0 <= i < c.items@.len() {
                    item_view(c.items@[i])
                } else {
                    arbitrary()
                },
        ),
        fixtures: c.fixtures@,
        usefixtures: text::deep(c.usefixtures@),
        marks: text::deep(c.marks@),
        expansion: c.expansion@,
        has_ctor: c.has_ctor,
    }
}

pub open spec fn item_view(item: ClassItem) -> ClassItemView
    decreases item,
{
    match item {
        ClassItem::Method(d) => ClassItemView::Method(d@),
        ClassItem::Nested(n, c) => ClassItemView::Nested(n@, class_view(c)),
    }
}

impl View for Class {
    type V = ClassView;

    open spec fn view(&self) -> ClassView {
        class_view(*self)
    }
}

impl View for ClassItem {
    type V = ClassItemView;

    open spec fn view(&self) -> ClassItemView {
        item_view(*self)
    }
}

/// What a class holds, in terms of the views of its parts.
pub proof fn class_parts(c: Class)
    ensures
        c@ == (ClassView {
            bases: text::deep(c.bases@),
            items: text::deep(c.items@),
            fixtures: c.fixtures@,
            usefixtures: text::deep(c.usefixtures@),
            marks: text::deep(c.marks@),
            expansion: c.expansion@,
            has_ctor: c.has_ctor,
        }),
{
    assert(c@.items =~= text::deep(c.items@));
}

/// A top-level definition of a module.
#[derive(Debug)]
pub enum TopItem {
    Func(TestDef),
    Class(String),
}

/// What a top-level definition holds.
pub enum TopItemView {
    Func(TestDefView),
    Class(Seq<char>),
}

impl View for TopItem {
    type V = TopItemView;

    open spec fn view(&self) -> TopItemView {
        match self {
            TopItem::Func(d) => TopItemView::Func(d@),
            TopItem::Class(n) => TopItemView::Class(n@),
        }
    }
}

/// A branch guard that only other modules or the environment can decide.
#[derive(Debug)]
pub enum Guard {
    /// `if predicate():` where the predicate is a (possibly imported) function.
    Call(String, bool),
    /// `if binding:` where the binding says whether a module can be imported.
    Binding(String, bool),
}

/// What a guard holds. The flag says that the guard is negated.
pub enum GuardView {
    Call(Seq<char>, bool),
    Binding(Seq<char>, bool),
}

impl View for Guard {
    type V = GuardView;

    open spec fn view(&self) -> GuardView {
        match self {
            Guard::Call(n, b) => GuardView::Call(n@, *b),
            Guard::Binding(n, b) => GuardView::Binding(n@, *b),
        }
    }
}

/// The opposite guard.
pub open spec fn inverted(g: GuardView) -> GuardView {
    match g {
        GuardView::Call(n, b) => GuardView::Call(n, !b),
        GuardView::Binding(n, b) => GuardView::Binding(n, !b),
    }
}

impl Guard {
    /// The same guard once more.
    pub fn copy(&self) -> (r: Guard)
        ensures
            r@ == self@,
    {
        match self {
            Guard::Call(n, b) => Guard::Call(n.clone(), *b),
            Guard::Binding(n, b) => Guard::Binding(n.clone(), *b),
        }
    }

    /// The opposite guard.
    pub fn invert(&self) -> (r: Guard)
        ensures
            r@ == inverted(self@),
    {
        match self {
            Guard::Call(n, b) => Guard::Call(n.clone(), !*b),
            Guard::Binding(n, b) => Guard::Binding(n.clone(), !*b),
        }
    }
}

/// The names that a guarded branch defines.
#[derive(Debug)]
pub struct Guarded {
    pub guard: Guard,
    pub names: Vec<String>,
}

/// What a guarded branch holds.
pub struct GuardedView {
    pub guard: GuardView,
    pub names: Seq<Seq<char>>,
}

impl View for Guarded {
    type V = GuardedView;

    open spec fn view(&self) -> GuardedView {
        GuardedView { guard: self.guard@, names: text::deep(self.names@) }
    }
}

/// A parsed module.
#[derive(Debug)]
pub struct Module {
    pub path: FilePath,
    pub dir: FilePath,
    pub imports: Table<Import>,
    pub star_imports: Vec<ModuleRef>,
    /// Every module that an import statement may load, wherever in the file it
    /// stands, and the package that the module lies in.
    pub links: Vec<ModuleRef>,
    pub classes: Table<Class>,
    pub functions: Table<TestDef>,
    pub fixtures: Fixtures,
    pub order: Vec<TopItem>,
    /// Module names demanded via module-level `pytest.importorskip(...)`.
    pub skip_requires: Vec<String>,
    /// A module-level `pytest.skip(...)` call (possibly behind an `if`): under
    /// a default invocation the module opts out of collection.
    pub has_module_skip: bool,
    /// Bare helper calls at module level: possibly imported skip wrappers.
    pub helper_calls: Vec<String>,
    /// Names that say whether a module can be imported.
    pub import_bindings: Table<String>,
    /// `X = Machine.TestCase` synthetic unittest classes.
    pub synthetic_testcases: Vec<String>,
    /// Top-level definitions guarded by a condition that is decided only at
    /// emission (imported predicates, import-availability bindings).
    pub cond_blocks: Vec<Guarded>,
    /// Names defined on unconditional top-level paths (never dead).
    pub certain_names: Vec<String>,
    /// Module-level `pytestmark = ...` mark names.
    pub pytestmark: Vec<String>,
    /// `slow = pytest.mark.slow` style aliases defined in this module.
    pub mark_aliases: Table<String>,
    /// `pytest_plugins = [...]` declarations.
    pub plugin_modules: Vec<String>,
    /// The literal entries of `collect_ignore`.
    pub collect_ignore: Vec<String>,
    /// The literal entries of `collect_ignore_glob`.
    pub collect_ignore_glob: Vec<String>,
    /// A `pytest_generate_tests` hook here parametrizes tests in ways static
    /// analysis cannot see; all expansions in scope must fall back.
    pub has_generate_tests: bool,
}

/// What a module holds.
pub struct ModuleView {
    pub path: Seq<Seq<char>>,
    pub dir: Seq<Seq<char>>,
    pub imports: Seq<(Seq<char>, ImportView)>,
    pub star_imports: Seq<ModuleRefView>,
    pub links: Seq<ModuleRefView>,
    pub classes: Seq<(Seq<char>, ClassView)>,
    pub functions: Seq<(Seq<char>, TestDefView)>,
    pub fixtures: Seq<(Seq<char>, FixtureView)>,
    pub order: Seq<TopItemView>,
    pub skip_requires: Seq<Seq<char>>,
    pub has_module_skip: bool,
    pub helper_calls: Seq<Seq<char>>,
    pub import_bindings: Seq<(Seq<char>, Seq<char>)>,
    pub synthetic_testcases: Seq<Seq<char>>,
    pub cond_blocks: Seq<GuardedView>,
    pub certain_names: Seq<Seq<char>>,
    pub pytestmark: Seq<Seq<char>>,
    pub mark_aliases: Seq<(Seq<char>, Seq<char>)>,
    pub plugin_modules: Seq<Seq<char>>,
    pub collect_ignore: Seq<Seq<char>>,
    pub collect_ignore_glob: Seq<Seq<char>>,
    pub has_generate_tests: bool,
}

impl View for Module {
    type V = ModuleView;

    open spec fn view(&self) -> ModuleView {
        ModuleView {
            path: self.path@,
            dir: self.dir@,
            imports: self.imports@,
            star_imports: text::deep(self.star_imports@),
            links: text::deep(self.links@),
            classes: self.classes@,
            functions: self.functions@,
            fixtures: self.fixtures@,
            order: text::deep(self.order@),
            skip_requires: text::deep(self.skip_requires@),
            has_module_skip: self.has_module_skip,
            helper_calls: text::deep(self.helper_calls@),
            import_bindings: self.import_bindings@,
            synthetic_testcases: text::deep(self.synthetic_testcases@),
            cond_blocks: text::deep(self.cond_blocks@),
            certain_names: text::deep(self.certain_names@),
            pytestmark: text::deep(self.pytestmark@),
            mark_aliases: self.mark_aliases@,
            plugin_modules: text::deep(self.plugin_modules@),
            collect_ignore: text::deep(self.collect_ignore@),
            collect_ignore_glob: text::deep(self.collect_ignore_glob@),
            has_generate_tests: self.has_generate_tests,
        }
    }
}

/// The directory of a file.
pub open spec fn dir_of(path: Seq<Seq<char>>) -> Seq<Seq<char>> {
    match crate::path::parent_of(path) {
        Some(d) => d,
        None => Seq::empty(),
    }
}

/// A module in which nothing has been found yet.
pub open spec fn blank(path: Seq<Seq<char>>) -> ModuleView {
    ModuleView {
        path,
        dir: dir_of(path),
        imports: Seq::empty(),
        star_imports: Seq::empty(),
        links: Seq::empty(),
        classes: Seq::empty(),
        functions: Seq::empty(),
        fixtures: Seq::empty(),
        order: Seq::empty(),
        skip_requires: Seq::empty(),
        has_module_skip: false,
        helper_calls: Seq::empty(),
        import_bindings: Seq::empty(),
        synthetic_testcases: Seq::empty(),
        cond_blocks: Seq::empty(),
        certain_names: Seq::empty(),
        pytestmark: Seq::empty(),
        mark_aliases: Seq::empty(),
        plugin_modules: Seq::empty(),
        collect_ignore: Seq::empty(),
        collect_ignore_glob: Seq::empty(),
        has_generate_tests: false,
    }
}

impl Module {
    /// A module in which nothing has been found yet.
    pub fn blank(path: &FilePath) -> (r: Module)
        ensures
            r@ == blank(path@),
    {
        let dir: FilePath = match path.parent() {
            Some(d) => d,
            None => FilePath::empty(),
        };
        Module {
            path: path.copy(),
            dir,
            imports: Table::new(),
            star_imports: Vec::new(),
            links: Vec::new(),
            classes: Table::new(),
            functions: Table::new(),
            fixtures: Table::new(),
            order: Vec::new(),
            skip_requires: Vec::new(),
            has_module_skip: false,
            helper_calls: Vec::new(),
            import_bindings: Table::new(),
            synthetic_testcases: Vec::new(),
            cond_blocks: Vec::new(),
            certain_names: Vec::new(),
            pytestmark: Vec::new(),
            mark_aliases: Table::new(),
            plugin_modules: Vec::new(),
            collect_ignore: Vec::new(),
            collect_ignore_glob: Vec::new(),
            has_generate_tests: false,
        }
    }
}

// ---------------------------------------------------------------------------
// Names without brackets
// ---------------------------------------------------------------------------

/// Is a text free of brackets? A Python name is, and so are the dots and colons
/// between names.
pub open spec fn bare(s: Seq<char>) -> bool {
    forall|i: int| 0 <= i < s.len() ==> #[trigger] s[i] != '[' && s[i] != ']'
}

/// Are all the texts free of brackets?
pub open spec fn all_bare(v: Seq<Seq<char>>) -> bool {
    forall|i: int| 0 <= i < v.len() ==> bare(#[trigger] v[i])
}

/// Are the members of a class named by Python names, in nested classes too?
pub open spec fn class_is_named(c: ClassView) -> bool
    decreases c,
{
    forall|i: int|
        0 <= i < c.items.len() ==> match #[trigger] c.items[i] {
            ClassItemView::Method(def) => bare(def.name),
            ClassItemView::Nested(name, class) => bare(name) && class_is_named(class),
        }
}

/// Is everything that a module defines or imports named by a Python name?
pub open spec fn is_named(m: ModuleView) -> bool {
    &&& forall|i: int|
        0 <= i < m.order.len() ==> match #[trigger] m.order[i] {
            TopItemView::Func(def) => bare(def.name),
            TopItemView::Class(name) => bare(name),
        }
    &&& forall|i: int|
        0 <= i < m.classes.len() ==> bare((#[trigger] m.classes[i]).0) && class_is_named(
            m.classes[i].1,
        )
    &&& forall|i: int| 0 <= i < m.imports.len() ==> bare((#[trigger] m.imports[i]).0)
    &&& all_bare(m.synthetic_testcases)
}

} // verus!
