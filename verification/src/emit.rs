//! From parsed modules to node IDs.

use vstd::prelude::*;

use crate::config::{Config, ConfigView};
use crate::fixtures::{has_autouse_params, requests_parametrized_fixture, Scope};
use crate::inherit::{resolve_class, Resolved, ResolvedView};
use crate::keyword::{KExpr, KExprView};
use crate::model::{
    Class, ClassItem, ClassItemView, ClassView, FixtureView, Fixtures, Module, ModuleView, TestDef,
    TestDefView,
};
use crate::params::{Expansion, ExpansionView};
use crate::resolve::{self, Knowledge, KnowledgeView, Query, QueryView};
use crate::symbols::resolve_mark_alias;
use crate::text::{self, concat3, copy_list};

verus! {

broadcast use crate::text::group_deep;

// ---------------------------------------------------------------------------
// What governs the tests of a module
// ---------------------------------------------------------------------------

/// The modules that govern the tests of a module, and what follows from them.
pub struct Surroundings<'a> {
    /// The module, its conftest chain, and the plugins that those declare.
    pub contexts: Vec<&'a Module>,
    /// The module-level marks of the module.
    pub pytestmark: Vec<String>,
    /// A hook or fixture in scope can add parameters that cannot be seen; exact
    /// expansions are not trustworthy.
    pub poisoned: bool,
}

/// The modules that govern the tests of a module, and what follows from them.
pub struct SurroundingsView {
    pub contexts: Seq<ModuleView>,
    pub pytestmark: Seq<Seq<char>>,
    pub poisoned: bool,
}

impl<'a> View for Surroundings<'a> {
    type V = SurroundingsView;

    open spec fn view(&self) -> SurroundingsView {
        SurroundingsView {
            contexts: text::deep(self.contexts@),
            pytestmark: text::deep(self.pytestmark@),
            poisoned: self.poisoned,
        }
    }
}

/// The fixture tables of some modules.
pub open spec fn tables_of(contexts: Seq<ModuleView>) -> Seq<Seq<(Seq<char>, FixtureView)>> {
    Seq::new(contexts.len(), |i: int| contexts[i].fixtures)
}

/// The scope of a test outside of classes, or with the fixtures of its class in
/// front.
fn scope_of<'a>(first: Option<&'a Fixtures>, contexts: &Vec<&'a Module>) -> (r: Scope<'a>)
    ensures
        r@ == (match first {
            Some(t) => seq![t@],
            None => Seq::empty(),
        }) + tables_of(text::deep(contexts@)),
{
    let ghost cs = text::deep(contexts@);
    let mut tables: Vec<&'a Fixtures> = Vec::new();
    match first {
        Some(t) => {
            tables.push(t);
        },
        None => {},
    }
    let ghost front = text::deep(tables@);
    proof {
        assert(front =~= (match first {
            Some(t) => seq![t@],
            None => Seq::empty(),
        }));
        assert(front + tables_of(cs).take(0) =~= front);
    }
    let mut i: usize = 0;
    while i < contexts.len()
        invariant
            i <= contexts.len(),
            cs == text::deep(contexts@),
            text::deep(tables@) == front + tables_of(cs).take(i as int),
        decreases contexts.len() - i,
    {
        tables.push(&contexts[i].fixtures);
        i += 1;
        proof {
            assert(tables_of(cs).take(i as int) =~= tables_of(cs).take(i - 1).push(
                tables_of(cs)[i - 1],
            ));
            assert(text::deep(tables@) =~= front + tables_of(cs).take(i as int));
        }
    }
    proof {
        assert(tables_of(cs).take(i as int) =~= tables_of(cs));
    }
    Scope { tables }
}

// ---------------------------------------------------------------------------
// Single tests
// ---------------------------------------------------------------------------

/// The marks that bare decorator names from position `i` on stand for in a
/// module, behind those in `out`.
pub open spec fn aliased_marks(
    k: KnowledgeView,
    m: ModuleView,
    names: Seq<Seq<char>>,
    i: int,
    out: Seq<Seq<char>>,
) -> Result<Seq<Seq<char>>, QueryView>
    decreases names.len() - i,
{
    if i < 0 || i >= names.len() {
        Ok(out)
    } else {
        match crate::symbols::mark_symbol(k, m, names[i], crate::symbols::HOPS as nat) {
            Err(q) => Err(q),
            Ok(Some(mark)) => aliased_marks(k, m, names, i + 1, out.push(mark)),
            Ok(None) => aliased_marks(k, m, names, i + 1, out),
        }
    }
}

/// Is a test with these marks selected?
pub open spec fn selected(marker: Option<KExprView>, marks: Seq<Seq<char>>) -> bool {
    match marker {
        Some(e) => crate::keyword::marked(e, marks),
        None => true,
    }
}

/// The node IDs, inside its module, of a test function that is known there as
/// `local` and defined in the module `home`.
pub open spec fn function_ids(
    k: KnowledgeView,
    home: ModuleView,
    def: TestDefView,
    local: Seq<char>,
    s: SurroundingsView,
    marker: Option<KExprView>,
) -> Result<Seq<Seq<char>>, QueryView> {
    match aliased_marks(k, home, def.maybe_marks, 0, s.pytestmark + def.marks) {
        Err(q) => Err(q),
        Ok(marks) => if !selected(marker, marks) {
            Ok(Seq::empty())
        } else {
            let doubtful = match def.expansion {
                ExpansionView::Params(_) => s.poisoned || marks.contains("anyio"@)
                    || crate::fixtures::requests_params(tables_of(s.contexts), def),
                _ => false,
            };
            Ok(
                crate::params::applied(
                    if doubtful {
                        ExpansionView::Fallback
                    } else {
                        def.expansion
                    },
                    local,
                ),
            )
        },
    }
}

/// The IDs with `prefix` and `::` in front of each.
pub open spec fn prefixed(prefix: Seq<char>, ids: Seq<Seq<char>>) -> Seq<Seq<char>> {
    Seq::new(ids.len(), |i: int| prefix + "::"@ + ids[i])
}

/// Is a method of this name a test? In a `unittest` class those that begin with
/// `test` are.
pub open spec fn method_matches(c: ConfigView, unittest: bool, name: Seq<char>) -> bool {
    if unittest {
        "test"@.is_prefix_of(name)
    } else {
        crate::config::any_name_hit(c.python_functions, name)
    }
}

/// The expansion that a class gives its methods.
pub open spec fn class_expansion(class: ClassView, has: ResolvedView) -> ExpansionView {
    if has.base_params {
        ExpansionView::Fallback
    } else {
        class.expansion
    }
}

/// The node IDs, inside its module, of a method of a class. Any exact expansion,
/// the method's own or one applied by the class, is invalid if the test requests
/// a parametrized fixture, or if the anyio plugin will parametrize it.
pub open spec fn method_ids(
    k: KnowledgeView,
    c: ConfigView,
    m: ModuleView,
    class: ClassView,
    has: ResolvedView,
    def: TestDefView,
    s: SurroundingsView,
    marker: Option<KExprView>,
    stack: Seq<Seq<char>>,
) -> Result<Seq<Seq<char>>, QueryView> {
    if !method_matches(c, has.unittest, def.name) {
        Ok(Seq::empty())
    } else {
        match aliased_marks(k, m, def.maybe_marks, 0, s.pytestmark + has.marks + def.marks) {
            Err(q) => Err(q),
            Ok(marks) => if !selected(marker, marks) {
                Ok(Seq::empty())
            } else {
                let combined = crate::params::combined(class_expansion(class, has), def.expansion);
                let request = TestDefView { args: def.args + class.usefixtures, ..def };
                let doubtful = match combined {
                    ExpansionView::Params(_) => s.poisoned || marks.contains("anyio"@)
                        || crate::fixtures::requests_params(
                        seq![has.fixtures] + tables_of(s.contexts),
                        request,
                    ),
                    _ => false,
                };
                Ok(
                    prefixed(
                        text::joined(stack, "::"@),
                        crate::params::applied(
                            if doubtful {
                                ExpansionView::Fallback
                            } else {
                                combined
                            },
                            def.name,
                        ),
                    ),
                )
            },
        }
    }
}

fn all_marks(k: &Knowledge, m: &Module, names: &Vec<String>, known: Vec<String>) -> (r: Result<
    Vec<String>,
    Query,
>)
    ensures
        resolve::told_all(r) == aliased_marks(
            k@,
            m@,
            text::deep(names@),
            0,
            text::deep(known@),
        ),
{
    let ghost ns = text::deep(names@);
    let ghost start = text::deep(known@);
    let mut out: Vec<String> = known;
    let mut i: usize = 0;
    while i < names.len()
        invariant
            i <= names.len(),
            ns == text::deep(names@),
            start == text::deep(known@),
            aliased_marks(k@, m@, ns, i as int, text::deep(out@)) == aliased_marks(
                k@,
                m@,
                ns,
                0,
                start,
            ),
        decreases names.len() - i,
    {
        match resolve_mark_alias(k, m, names[i].as_str()) {
            Err(q) => {
                return Err(q);
            },
            Ok(Some(mark)) => {
                out.push(mark);
            },
            Ok(None) => {},
        }
        i += 1;
    }
    Ok(out)
}

pub fn is_selected(marker: Option<&KExpr>, marks: &Vec<String>) -> (r: bool)
    ensures
        r == selected(text::opt(marker), text::deep(marks@)),
{
    match marker {
        Some(e) => e.matches_names(marks),
        None => true,
    }
}

pub fn ids_of_function<'a>(
    k: &Knowledge,
    home: &Module,
    def: &TestDef,
    local: &str,
    s: &Surroundings<'a>,
    marker: Option<&KExpr>,
) -> (r: Result<Vec<String>, Query>)
    ensures
        resolve::told_all(r) == function_ids(
            k@,
            home@,
            def@,
            local@,
            s@,
            text::opt(marker),
        ),
{
    let mut known: Vec<String> = copy_list(&s.pytestmark);
    text::extend(&mut known, &def.marks);
    let marks: Vec<String> = match all_marks(k, home, &def.maybe_marks, known) {
        Ok(v) => v,
        Err(q) => {
            return Err(q);
        },
    };
    if !is_selected(marker, &marks) {
        return Ok(Vec::new());
    }
    if def.expansion.is_exact() {
        let scope: Scope<'a> = scope_of(None, &s.contexts);
        proof {
            assert(scope@ =~= tables_of(s@.contexts));
        }
        if s.poisoned || text::is_in(&marks, "anyio") || requests_parametrized_fixture(
            &scope,
            def,
        ) {
            return Ok(Expansion::Fallback.apply(local));
        }
    }
    Ok(def.expansion.apply(local))
}

fn with_prefix(prefix: &str, ids: &Vec<String>) -> (r: Vec<String>)
    ensures
        text::deep(r@) == prefixed(prefix@, text::deep(ids@)),
{
    let mut out: Vec<String> = Vec::new();
    let mut i: usize = 0;
    while i < ids.len()
        invariant
            i <= ids.len(),
            out.len() == i,
            forall|j: int| 0 <= j < i ==> (#[trigger] out@[j])@ == prefix@ + "::"@ + ids@[j]@,
        decreases ids.len() - i,
    {
        out.push(concat3(prefix, "::", ids[i].as_str()));
        i += 1;
    }
    proof {
        assert(text::deep(out@) =~= prefixed(prefix@, text::deep(ids@)));
    }
    out
}

fn ids_of_method<'a>(
    k: &Knowledge,
    c: &Config,
    m: &Module,
    class: &Class,
    has: &'a Resolved,
    def: &TestDef,
    s: &Surroundings<'a>,
    marker: Option<&KExpr>,
    stack: &Vec<String>,
) -> (r: Result<Vec<String>, Query>)
    ensures
        resolve::told_all(r) == method_ids(
            k@,
            c@,
            m@,
            class@,
            has@,
            def@,
            s@,
            text::opt(marker),
            text::deep(stack@),
        ),
{
    proof {
        crate::model::class_parts(*class);
    }
    let matches: bool = if has.unittest {
        text::starts_with(def.name.as_str(), "test")
    } else {
        c.function_matches(def.name.as_str())
    };
    if !matches {
        return Ok(Vec::new());
    }
    let mut known: Vec<String> = copy_list(&s.pytestmark);
    text::extend(&mut known, &has.marks);
    text::extend(&mut known, &def.marks);
    let marks: Vec<String> = match all_marks(k, m, &def.maybe_marks, known) {
        Ok(v) => v,
        Err(q) => {
            return Err(q);
        },
    };
    if !is_selected(marker, &marks) {
        return Ok(Vec::new());
    }
    let from_class: Expansion = if has.base_params {
        Expansion::Fallback
    } else {
        class.expansion.copy()
    };
    let mut combined: Expansion = Expansion::combine(&from_class, &def.expansion);
    if combined.is_exact() {
        let mut request: TestDef = def.copy();
        text::extend(&mut request.args, &class.usefixtures);
        let scope: Scope<'a> = scope_of(Some(&has.fixtures), &s.contexts);
        if s.poisoned || text::is_in(&marks, "anyio") || requests_parametrized_fixture(
            &scope,
            &request,
        ) {
            combined = Expansion::Fallback;
        }
    }
    let prefix: String = text::join(stack, "::");
    let ids: Vec<String> = combined.apply(def.name.as_str());
    Ok(with_prefix(prefix.as_str(), &ids))
}

// ---------------------------------------------------------------------------
// Classes
// ---------------------------------------------------------------------------

/// Does a class hold tests? Those of `unittest` do regardless of their names;
/// others by name, unless they have a constructor.
pub open spec fn collectable(
    c: ConfigView,
    class: ClassView,
    has: ResolvedView,
    name: Seq<char>,
) -> bool {
    has.unittest || (crate::config::any_name_hit(c.python_classes, name) && !class.has_ctor)
}

/// The IDs of the methods of a class from position `i` on, behind those in
/// `out`.
pub open spec fn methods_ids(
    k: KnowledgeView,
    c: ConfigView,
    m: ModuleView,
    class: ClassView,
    has: ResolvedView,
    s: SurroundingsView,
    marker: Option<KExprView>,
    stack: Seq<Seq<char>>,
    i: int,
    out: Seq<Seq<char>>,
) -> Result<Seq<Seq<char>>, QueryView>
    decreases has.methods.len() - i,
{
    if i < 0 || i >= has.methods.len() {
        Ok(out)
    } else {
        match method_ids(k, c, m, class, has, has.methods[i], s, marker, stack) {
            Err(q) => Err(q),
            Ok(ids) => methods_ids(k, c, m, class, has, s, marker, stack, i + 1, out + ids),
        }
    }
}

/// The surroundings of the methods of a class: parametrized autouse fixtures of
/// the class chain poison exact expansion for all of them.
pub open spec fn inside_class(s: SurroundingsView, has: ResolvedView) -> SurroundingsView {
    SurroundingsView {
        poisoned: s.poisoned || has.base_params || crate::fixtures::autouse_params(has.fixtures),
        ..s
    }
}

/// The IDs of the tests of a class, behind those in `out`; `stack` holds the
/// names of the classes around it.
pub open spec fn class_ids(
    k: KnowledgeView,
    c: ConfigView,
    m: ModuleView,
    class: ClassView,
    name: Seq<char>,
    s: SurroundingsView,
    marker: Option<KExprView>,
    stack: Seq<Seq<char>>,
    out: Seq<Seq<char>>,
) -> Result<Seq<Seq<char>>, QueryView>
    decreases class, 0int,
{
    match crate::inherit::class_has(k, m, class, name) {
        Err(q) => Err(q),
        Ok(has) => if !collectable(c, class, has, name) {
            Ok(out)
        } else {
            let inner = inside_class(s, has);
            let path = stack.push(name);
            match methods_ids(k, c, m, class, has, inner, marker, path, 0, out) {
                Err(q) => Err(q),
                Ok(ids) => nested_ids(k, c, m, class.items, 0, inner, marker, path, ids),
            }
        },
    }
}

/// The IDs of the tests of nested classes from the member at position `i` on,
/// behind those in `out`.
pub open spec fn nested_ids(
    k: KnowledgeView,
    c: ConfigView,
    m: ModuleView,
    items: Seq<ClassItemView>,
    i: int,
    s: SurroundingsView,
    marker: Option<KExprView>,
    stack: Seq<Seq<char>>,
    out: Seq<Seq<char>>,
) -> Result<Seq<Seq<char>>, QueryView>
    decreases items, items.len() - i,
{
    if i < 0 || i >= items.len() {
        Ok(out)
    } else {
        match items[i] {
            ClassItemView::Nested(name, class) => match class_ids(
                k,
                c,
                m,
                class,
                name,
                s,
                marker,
                stack,
                out,
            ) {
                Err(q) => Err(q),
                Ok(ids) => nested_ids(k, c, m, items, i + 1, s, marker, stack, ids),
            },
            ClassItemView::Method(_) => nested_ids(
                k,
                c,
                m,
                items,
                i + 1,
                s,
                marker,
                stack,
                out,
            ),
        }
    }
}

fn emit_methods<'a>(
    k: &Knowledge,
    c: &Config,
    m: &Module,
    class: &Class,
    has: &'a Resolved,
    s: &Surroundings<'a>,
    marker: Option<&KExpr>,
    stack: &Vec<String>,
    out: Vec<String>,
) -> (r: Result<Vec<String>, Query>)
    ensures
        resolve::told_all(r) == methods_ids(
            k@,
            c@,
            m@,
            class@,
            has@,
            s@,
            text::opt(marker),
            text::deep(stack@),
            0,
            text::deep(out@),
        ),
{
    let ghost start = text::deep(out@);
    let ghost mk = text::opt(marker);
    let ghost st = text::deep(stack@);
    let mut all: Vec<String> = out;
    let mut i: usize = 0;
    while i < has.methods.len()
        invariant
            i <= has.methods.len(),
            mk == text::opt(marker),
            st == text::deep(stack@),
            start == text::deep(out@),
            methods_ids(
                k@,
                c@,
                m@,
                class@,
                has@,
                s@,
                mk,
                st,
                i as int,
                text::deep(all@),
            ) == methods_ids(k@, c@, m@, class@, has@, s@, mk, st, 0, start),
        decreases has.methods.len() - i,
    {
        match ids_of_method(k, c, m, class, has, &has.methods[i], s, marker, stack) {
            Err(q) => {
                return Err(q);
            },
            Ok(ids) => {
                text::extend(&mut all, &ids);
            },
        }
        i += 1;
    }
    Ok(all)
}

/// The IDs of the tests of a class, behind those in `out`.
pub fn emit_class<'a>(
    k: &Knowledge,
    c: &Config,
    m: &Module,
    class: &Class,
    name: &str,
    s: &Surroundings<'a>,
    marker: Option<&KExpr>,
    stack: &Vec<String>,
    out: Vec<String>,
) -> (r: Result<Vec<String>, Query>)
    ensures
        resolve::told_all(r) == class_ids(
            k@,
            c@,
            m@,
            class@,
            name@,
            s@,
            text::opt(marker),
            text::deep(stack@),
            text::deep(out@),
        ),
    decreases class, 0int,
{
    proof {
        crate::model::class_parts(*class);
    }
    let has: Resolved = match resolve_class(k, m, class, name) {
        Ok(h) => h,
        Err(q) => {
            return Err(q);
        },
    };
    if !(has.unittest || (c.class_matches(name) && !class.has_ctor)) {
        return Ok(out);
    }
    let mut contexts: Vec<&Module> = Vec::new();
    let mut i: usize = 0;
    while i < s.contexts.len()
        invariant
            i <= s.contexts.len(),
            contexts.len() == i,
            forall|j: int| 0 <= j < i ==> contexts@[j]@ == (#[trigger] s.contexts@[j])@,
        decreases s.contexts.len() - i,
    {
        contexts.push(s.contexts[i]);
        i += 1;
    }
    let inner: Surroundings = Surroundings {
        contexts,
        pytestmark: copy_list(&s.pytestmark),
        poisoned: s.poisoned || has.base_params || has_autouse_params(&has.fixtures),
    };
    proof {
        assert(inner@.contexts =~= s@.contexts);
    }
    let mut path: Vec<String> = copy_list(stack);
    path.push(name.to_owned());
    match emit_methods(k, c, m, class, &has, &inner, marker, &path, out) {
        Err(q) => Err(q),
        Ok(ids) => emit_nested(k, c, m, &class.items, &inner, marker, &path, ids),
    }
}

fn emit_nested<'a>(
    k: &Knowledge,
    c: &Config,
    m: &Module,
    items: &Vec<ClassItem>,
    s: &Surroundings<'a>,
    marker: Option<&KExpr>,
    stack: &Vec<String>,
    out: Vec<String>,
) -> (r: Result<Vec<String>, Query>)
    ensures
        resolve::told_all(r) == nested_ids(
            k@,
            c@,
            m@,
            text::deep(items@),
            0,
            s@,
            text::opt(marker),
            text::deep(stack@),
            text::deep(out@),
        ),
    decreases items, 1int,
{
    let ghost start = text::deep(out@);
    let ghost mk = text::opt(marker);
    let ghost st = text::deep(stack@);
    let ghost is = text::deep(items@);
    let mut all: Vec<String> = out;
    let mut i: usize = 0;
    while i < items.len()
        invariant
            i <= items.len(),
            is == text::deep(items@),
            mk == text::opt(marker),
            st == text::deep(stack@),
            start == text::deep(out@),
            nested_ids(k@, c@, m@, is, i as int, s@, mk, st, text::deep(all@)) == nested_ids(
                k@,
                c@,
                m@,
                is,
                0,
                s@,
                mk,
                st,
                start,
            ),
        decreases items.len() - i,
    {
        proof {
            assert(decreases_to!(items => items@[i as int]));
        }
        match &items[i] {
            ClassItem::Nested(name, class) => {
                all = match emit_class(k, c, m, class, name.as_str(), s, marker, stack, all) {
                    Ok(ids) => ids,
                    Err(q) => {
                        return Err(q);
                    },
                };
            },
            ClassItem::Method(_) => {},
        }
        i += 1;
    }
    Ok(all)
}

// ---------------------------------------------------------------------------
// Laws
// ---------------------------------------------------------------------------

/// Every node ID of a test function is its bare name, or that name with a
/// bracketed suffix; where it is the bare name it is the only one.
pub proof fn law_ids_are_bare_or_bracketed(
    k: KnowledgeView,
    home: ModuleView,
    def: TestDefView,
    local: Seq<char>,
    s: SurroundingsView,
    marker: Option<KExprView>,
    i: int,
)
    requires
        function_ids(k, home, def, local, s, marker) matches Ok(ids) && 0 <= i < ids.len(),
    ensures
        function_ids(k, home, def, local, s, marker) matches Ok(ids) && (ids == seq![local] || (
        def.expansion matches ExpansionView::Params(v) && i < v.len() && ids[i] == local + "["@
            + v[i] + "]"@)),
{
}

/// Where a hook or a fixture in scope can add parameters that cannot be seen, a
/// test function has no bracketed ID: it has its bare name, or is not selected.
pub proof fn law_hidden_parameters_fall_back(
    k: KnowledgeView,
    home: ModuleView,
    def: TestDefView,
    local: Seq<char>,
    s: SurroundingsView,
    marker: Option<KExprView>,
)
    requires
        s.poisoned || crate::fixtures::requests_params(tables_of(s.contexts), def),
    ensures
        function_ids(k, home, def, local, s, marker) matches Ok(ids) ==> ids == seq![local]
            || ids.len() == 0,
{
}

/// The same holds of a method, whatever its class is parametrized with.
pub proof fn law_hidden_parameters_of_methods_fall_back(
    k: KnowledgeView,
    c: ConfigView,
    m: ModuleView,
    class: ClassView,
    has: ResolvedView,
    def: TestDefView,
    s: SurroundingsView,
    marker: Option<KExprView>,
    stack: Seq<Seq<char>>,
)
    requires
        s.poisoned || crate::fixtures::requests_params(
            seq![has.fixtures] + tables_of(s.contexts),
            TestDefView { args: def.args + class.usefixtures, ..def },
        ) || has.base_params,
    ensures
        method_ids(k, c, m, class, has, def, s, marker, stack) matches Ok(ids) ==> ids
            == seq![text::joined(stack, "::"@) + "::"@ + def.name] || ids.len() == 0,
{
    let name = text::joined(stack, "::"@) + "::"@ + def.name;
    assert(prefixed(text::joined(stack, "::"@), seq![def.name]) =~= seq![name]);
}

/// A test that the mark expression does not select has no node ID: it is never
/// scheduled.
pub proof fn law_deselected_tests_are_absent(
    k: KnowledgeView,
    home: ModuleView,
    def: TestDefView,
    local: Seq<char>,
    s: SurroundingsView,
    e: KExprView,
)
    requires
        aliased_marks(k, home, def.maybe_marks, 0, s.pytestmark + def.marks) matches Ok(marks)
            && !crate::keyword::marked(e, marks),
    ensures
        function_ids(k, home, def, local, s, Some(e)) == Ok::<Seq<Seq<char>>, QueryView>(Seq::empty()),
{
}

proof fn marks_stay(
    k: KnowledgeView,
    more: KnowledgeView,
    m: ModuleView,
    names: Seq<Seq<char>>,
    i: int,
    out: Seq<Seq<char>>,
)
    requires
        resolve::extends(k, more),
        0 <= i,
        aliased_marks(k, m, names, i, out) is Ok,
    ensures
        aliased_marks(more, m, names, i, out) == aliased_marks(k, m, names, i, out),
    decreases names.len() - i,
{
    if i < names.len() {
        crate::symbols::law_marks_stay(k, more, m, names[i], crate::symbols::HOPS as nat);
        let next = match crate::symbols::mark_symbol(
            k,
            m,
            names[i],
            crate::symbols::HOPS as nat,
        )->Ok_0 {
            Some(mark) => out.push(mark),
            None => out,
        };
        marks_stay(k, more, m, names, i + 1, next);
    }
}

/// The node IDs of a test function do not depend on facts that were not asked
/// for: once they can be told, they stay the same however much more is learnt.
pub proof fn law_function_ids_stay(
    k: KnowledgeView,
    more: KnowledgeView,
    home: ModuleView,
    def: TestDefView,
    local: Seq<char>,
    s: SurroundingsView,
    marker: Option<KExprView>,
)
    requires
        resolve::extends(k, more),
        function_ids(k, home, def, local, s, marker) is Ok,
    ensures
        function_ids(more, home, def, local, s, marker) == function_ids(
            k,
            home,
            def,
            local,
            s,
            marker,
        ),
{
    marks_stay(k, more, home, def.maybe_marks, 0, s.pytestmark + def.marks);
}

proof fn methods_stay(
    k: KnowledgeView,
    more: KnowledgeView,
    c: ConfigView,
    m: ModuleView,
    class: ClassView,
    has: ResolvedView,
    s: SurroundingsView,
    marker: Option<KExprView>,
    stack: Seq<Seq<char>>,
    i: int,
    out: Seq<Seq<char>>,
)
    requires
        resolve::extends(k, more),
        0 <= i,
        methods_ids(k, c, m, class, has, s, marker, stack, i, out) is Ok,
    ensures
        methods_ids(more, c, m, class, has, s, marker, stack, i, out) == methods_ids(
            k,
            c,
            m,
            class,
            has,
            s,
            marker,
            stack,
            i,
            out,
        ),
    decreases has.methods.len() - i,
{
    if i < has.methods.len() {
        let def = has.methods[i];
        if method_matches(c, has.unittest, def.name) {
            marks_stay(k, more, m, def.maybe_marks, 0, s.pytestmark + has.marks + def.marks);
        }
        let ids = method_ids(k, c, m, class, has, def, s, marker, stack)->Ok_0;
        methods_stay(k, more, c, m, class, has, s, marker, stack, i + 1, out + ids);
    }
}

/// Neither do those of the tests of a class.
pub proof fn law_class_ids_stay(
    k: KnowledgeView,
    more: KnowledgeView,
    c: ConfigView,
    m: ModuleView,
    class: ClassView,
    name: Seq<char>,
    s: SurroundingsView,
    marker: Option<KExprView>,
    stack: Seq<Seq<char>>,
    out: Seq<Seq<char>>,
)
    requires
        resolve::extends(k, more),
        class_ids(k, c, m, class, name, s, marker, stack, out) is Ok,
    ensures
        class_ids(more, c, m, class, name, s, marker, stack, out) == class_ids(
            k,
            c,
            m,
            class,
            name,
            s,
            marker,
            stack,
            out,
        ),
    decreases class, 0int,
{
    crate::inherit::law_classes_stay(k, more, m, class, name);
    let has = crate::inherit::class_has(k, m, class, name)->Ok_0;
    if collectable(c, class, has, name) {
        let inner = inside_class(s, has);
        let path = stack.push(name);
        methods_stay(k, more, c, m, class, has, inner, marker, path, 0, out);
        let ids = methods_ids(k, c, m, class, has, inner, marker, path, 0, out)->Ok_0;
        nested_stay(k, more, c, m, class.items, 0, inner, marker, path, ids);
    }
}

proof fn nested_stay(
    k: KnowledgeView,
    more: KnowledgeView,
    c: ConfigView,
    m: ModuleView,
    items: Seq<ClassItemView>,
    i: int,
    s: SurroundingsView,
    marker: Option<KExprView>,
    stack: Seq<Seq<char>>,
    out: Seq<Seq<char>>,
)
    requires
        resolve::extends(k, more),
        0 <= i,
        nested_ids(k, c, m, items, i, s, marker, stack, out) is Ok,
    ensures
        nested_ids(more, c, m, items, i, s, marker, stack, out) == nested_ids(
            k,
            c,
            m,
            items,
            i,
            s,
            marker,
            stack,
            out,
        ),
    decreases items, items.len() - i,
{
    if i < items.len() {
        match items[i] {
            ClassItemView::Nested(name, class) => {
                law_class_ids_stay(k, more, c, m, class, name, s, marker, stack, out);
                let ids = class_ids(k, c, m, class, name, s, marker, stack, out)->Ok_0;
                nested_stay(k, more, c, m, items, i + 1, s, marker, stack, ids);
            },
            ClassItemView::Method(_) => {
                nested_stay(k, more, c, m, items, i + 1, s, marker, stack, out);
            },
        }
    }
}

proof fn joined_is_bare(parts: Seq<Seq<char>>)
    requires
        crate::model::all_bare(parts),
    ensures
        crate::model::bare(text::joined(parts, "::"@)),
    decreases parts.len(),
{
    reveal_strlit("::");
    if parts.len() == 1 {
        assert(crate::model::bare(parts[0]));
    } else if parts.len() > 1 {
        joined_is_bare(parts.drop_last());
        assert(crate::model::bare(parts[parts.len() - 1]));
    }
}

proof fn methods_are_bare(
    k: KnowledgeView,
    c: ConfigView,
    m: ModuleView,
    class: ClassView,
    has: ResolvedView,
    s: SurroundingsView,
    marker: Option<KExprView>,
    stack: Seq<Seq<char>>,
    i: int,
    out: Seq<Seq<char>>,
)
    requires
        s.poisoned,
        0 <= i,
        crate::inherit::methods_named(has.methods),
        crate::model::all_bare(stack),
        crate::model::all_bare(out),
    ensures
        methods_ids(k, c, m, class, has, s, marker, stack, i, out) matches Ok(ids)
            ==> crate::model::all_bare(ids),
    decreases has.methods.len() - i,
{
    if i < has.methods.len() {
        let def = has.methods[i];
        law_hidden_parameters_of_methods_fall_back(k, c, m, class, has, def, s, marker, stack);
        match method_ids(k, c, m, class, has, def, s, marker, stack) {
            Err(_) => {},
            Ok(ids) => {
                reveal_strlit("::");
                joined_is_bare(stack);
                assert(crate::model::bare(def.name));
                assert(crate::model::bare(text::joined(stack, "::"@) + "::"@ + def.name));
                methods_are_bare(k, c, m, class, has, s, marker, stack, i + 1, out + ids);
            },
        }
    }
}

/// Where hidden parameters are in scope no ID of a test of a class has a
/// bracket, in nested classes neither, whatever it is parametrized with.
pub proof fn law_poisoned_class_ids_are_bare(
    k: KnowledgeView,
    c: ConfigView,
    m: ModuleView,
    class: ClassView,
    name: Seq<char>,
    s: SurroundingsView,
    marker: Option<KExprView>,
    stack: Seq<Seq<char>>,
    out: Seq<Seq<char>>,
)
    requires
        s.poisoned,
        crate::inherit::all_named(k),
        crate::model::is_named(m),
        crate::model::class_is_named(class),
        crate::model::bare(name),
        crate::model::all_bare(stack),
        crate::model::all_bare(out),
    ensures
        class_ids(k, c, m, class, name, s, marker, stack, out) matches Ok(ids)
            ==> crate::model::all_bare(ids),
    decreases class, 0int,
{
    crate::inherit::class_has_named(k, m, class, name);
    match crate::inherit::class_has(k, m, class, name) {
        Err(_) => {},
        Ok(has) => {
            if collectable(c, class, has, name) {
                let inner = inside_class(s, has);
                let path = stack.push(name);
                methods_are_bare(k, c, m, class, has, inner, marker, path, 0, out);
                match methods_ids(k, c, m, class, has, inner, marker, path, 0, out) {
                    Err(_) => {},
                    Ok(ids) => {
                        nested_are_bare(k, c, m, class.items, 0, inner, marker, path, ids);
                    },
                }
            }
        },
    }
}

proof fn nested_are_bare(
    k: KnowledgeView,
    c: ConfigView,
    m: ModuleView,
    items: Seq<ClassItemView>,
    i: int,
    s: SurroundingsView,
    marker: Option<KExprView>,
    stack: Seq<Seq<char>>,
    out: Seq<Seq<char>>,
)
    requires
        s.poisoned,
        0 <= i,
        crate::inherit::all_named(k),
        crate::model::is_named(m),
        forall|j: int|
            0 <= j < items.len() ==> match #[trigger] items[j] {
                ClassItemView::Method(def) => crate::model::bare(def.name),
                ClassItemView::Nested(name, class) => crate::model::bare(name)
                    && crate::model::class_is_named(class),
            },
        crate::model::all_bare(stack),
        crate::model::all_bare(out),
    ensures
        nested_ids(k, c, m, items, i, s, marker, stack, out) matches Ok(ids)
            ==> crate::model::all_bare(ids),
    decreases items, items.len() - i,
{
    if i < items.len() {
        match items[i] {
            ClassItemView::Nested(name, class) => {
                law_poisoned_class_ids_are_bare(k, c, m, class, name, s, marker, stack, out);
                match class_ids(k, c, m, class, name, s, marker, stack, out) {
                    Err(_) => {},
                    Ok(ids) => {
                        nested_are_bare(k, c, m, items, i + 1, s, marker, stack, ids);
                    },
                }
            },
            ClassItemView::Method(_) => {
                nested_are_bare(k, c, m, items, i + 1, s, marker, stack, out);
            },
        }
    }
}

// ---------------------------------------------------------------------------
// Laws of marks and selection
// ---------------------------------------------------------------------------

/// The marks of a test are those that are known of it, followed by what the bare
/// names on it stand for: all of these and nothing else.
pub proof fn law_marks_of_a_test(
    k: KnowledgeView,
    m: ModuleView,
    names: Seq<Seq<char>>,
    known: Seq<Seq<char>>,
)
    requires
        aliased_marks(k, m, names, 0, known) is Ok,
    ensures
        ({
            let marks = aliased_marks(k, m, names, 0, known)->Ok_0;
            &&& known.is_prefix_of(marks)
            &&& forall|x: Seq<char>| #[trigger]
                marks.contains(x) <==> known.contains(x) || exists|i: int|
                0 <= i < names.len() && crate::symbols::mark_symbol(
                    k,
                    m,
                    #[trigger] names[i],
                    crate::symbols::HOPS as nat,
                ) == Ok::<Option<Seq<char>>, QueryView>(Some(x))
        }),
{
    marks_hold(k, m, names, 0, known);
}

/// A mark expression decides on a test function by its marks alone: those of the
/// module, its own, and what bare names on it stand for. A selected one has the
/// IDs that it has without an expression, another one has none.
pub proof fn law_marks_select_functions(
    k: KnowledgeView,
    home: ModuleView,
    def: TestDefView,
    local: Seq<char>,
    s: SurroundingsView,
    e: KExprView,
)
    requires
        function_ids(k, home, def, local, s, None) is Ok,
    ensures
        aliased_marks(k, home, def.maybe_marks, 0, s.pytestmark + def.marks) is Ok,
        function_ids(k, home, def, local, s, Some(e)) == Ok::<Seq<Seq<char>>, QueryView>(
            if crate::keyword::marked(
                e,
                aliased_marks(k, home, def.maybe_marks, 0, s.pytestmark + def.marks)->Ok_0,
            ) {
                function_ids(k, home, def, local, s, None)->Ok_0
            } else {
                Seq::empty()
            },
        ),
{
}

/// So it does on a method, whose class and the bases of that count too.
pub proof fn law_marks_select_methods(
    k: KnowledgeView,
    c: ConfigView,
    m: ModuleView,
    class: ClassView,
    has: ResolvedView,
    def: TestDefView,
    s: SurroundingsView,
    stack: Seq<Seq<char>>,
    e: KExprView,
)
    requires
        aliased_marks(k, m, def.maybe_marks, 0, s.pytestmark + has.marks + def.marks) is Ok,
    ensures
        method_ids(k, c, m, class, has, def, s, Some(e), stack) == Ok::<
            Seq<Seq<char>>,
            QueryView,
        >(
            if crate::keyword::marked(
                e,
                aliased_marks(
                    k,
                    m,
                    def.maybe_marks,
                    0,
                    s.pytestmark + has.marks + def.marks,
                )->Ok_0,
            ) {
                method_ids(k, c, m, class, has, def, s, None, stack)->Ok_0
            } else {
                Seq::empty()
            },
        ),
        method_ids(k, c, m, class, has, def, s, None, stack) is Ok,
{
}

/// A mark of the module, of the class or of the test selects it.
pub proof fn law_any_mark_selects(
    k: KnowledgeView,
    c: ConfigView,
    m: ModuleView,
    class: ClassView,
    has: ResolvedView,
    def: TestDefView,
    s: SurroundingsView,
    stack: Seq<Seq<char>>,
    mark: Seq<char>,
)
    requires
        method_ids(k, c, m, class, has, def, s, None, stack) is Ok,
        function_ids(k, m, def, def.name, s, None) is Ok,
    ensures
        ({
            let e = KExprView::Frag(crate::keyword::lower_of(mark));
            let none = KExprView::Not(Box::new(e));
            &&& s.pytestmark.contains(mark) || def.marks.contains(mark) ==> function_ids(
                k,
                m,
                def,
                def.name,
                s,
                Some(e),
            ) == function_ids(k, m, def, def.name, s, None) && function_ids(
                k,
                m,
                def,
                def.name,
                s,
                Some(none),
            ) == Ok::<Seq<Seq<char>>, QueryView>(Seq::empty())
            &&& s.pytestmark.contains(mark) || has.marks.contains(mark) || def.marks.contains(mark)
                ==> method_ids(k, c, m, class, has, def, s, Some(e), stack) == method_ids(
                k,
                c,
                m,
                class,
                has,
                def,
                s,
                None,
                stack,
            ) && method_ids(k, c, m, class, has, def, s, Some(none), stack) == Ok::<
                Seq<Seq<char>>,
                QueryView,
            >(Seq::empty())
        }),
{
    let e = KExprView::Frag(crate::keyword::lower_of(mark));
    let none = KExprView::Not(Box::new(e));
    let own = s.pytestmark + def.marks;
    let all = s.pytestmark + has.marks + def.marks;
    if s.pytestmark.contains(mark) || def.marks.contains(mark) {
        let at = if s.pytestmark.contains(mark) {
            s.pytestmark.index_of(mark)
        } else {
            s.pytestmark.len() + def.marks.index_of(mark)
        };
        assert(own[at] == mark);
        law_marks_of_a_test(k, m, def.maybe_marks, own);
        let marks = aliased_marks(k, m, def.maybe_marks, 0, own)->Ok_0;
        assert(marks.contains(mark));
        crate::keyword::law_mark_selects(mark, e, marks);
        law_marks_select_functions(k, m, def, def.name, s, e);
        law_marks_select_functions(k, m, def, def.name, s, none);
    }
    if s.pytestmark.contains(mark) || has.marks.contains(mark) || def.marks.contains(mark) {
        if method_matches(c, has.unittest, def.name) {
            let at = if s.pytestmark.contains(mark) {
                s.pytestmark.index_of(mark)
            } else if has.marks.contains(mark) {
                s.pytestmark.len() + has.marks.index_of(mark)
            } else {
                s.pytestmark.len() + has.marks.len() + def.marks.index_of(mark)
            };
            assert(all[at] == mark);
            law_marks_of_a_test(k, m, def.maybe_marks, all);
            let marks = aliased_marks(k, m, def.maybe_marks, 0, all)->Ok_0;
            assert(marks.contains(mark));
            crate::keyword::law_mark_selects(mark, e, marks);
            law_marks_select_methods(k, c, m, class, has, def, s, stack, e);
            law_marks_select_methods(k, c, m, class, has, def, s, stack, none);
        }
    }
}

proof fn marks_hold(
    k: KnowledgeView,
    m: ModuleView,
    names: Seq<Seq<char>>,
    i: int,
    out: Seq<Seq<char>>,
)
    requires
        0 <= i <= names.len(),
        aliased_marks(k, m, names, i, out) is Ok,
    ensures
        ({
            let marks = aliased_marks(k, m, names, i, out)->Ok_0;
            &&& out.is_prefix_of(marks)
            &&& forall|x: Seq<char>| #[trigger]
                marks.contains(x) <==> out.contains(x) || exists|j: int|
                i <= j < names.len() && crate::symbols::mark_symbol(
                    k,
                    m,
                    #[trigger] names[j],
                    crate::symbols::HOPS as nat,
                ) == Ok::<Option<Seq<char>>, QueryView>(Some(x))
        }),
    decreases names.len() - i,
{
    if i < names.len() {
        let found = crate::symbols::mark_symbol(k, m, names[i], crate::symbols::HOPS as nat)->Ok_0;
        let next = match found {
            Some(mark) => out.push(mark),
            None => out,
        };
        marks_hold(k, m, names, i + 1, next);
        let marks = aliased_marks(k, m, names, i, out)->Ok_0;
        assert(out.is_prefix_of(marks)) by {
            assert(out =~= marks.subrange(0, out.len() as int)) by {
                assert forall|q: int| 0 <= q < out.len() implies out[q] == marks[q] by {
                    assert(marks.subrange(0, next.len() as int)[q] == next[q]);
                }
            }
        }
        assert forall|x: Seq<char>| #[trigger] marks.contains(x) <==> out.contains(x) || exists|
            j: int,
        |
            i <= j < names.len() && crate::symbols::mark_symbol(
                k,
                m,
                #[trigger] names[j],
                crate::symbols::HOPS as nat,
            ) == Ok::<Option<Seq<char>>, QueryView>(Some(x)) by {
            if out.contains(x) {
                assert(next[out.index_of(x)] == x);
            }
            if found == Some(x) {
                assert(next[out.len() as int] == x);
            }
            if next.contains(x) && !out.contains(x) {
                let q = next.index_of(x);
                assert(q == out.len());
                assert(names[i] == names[i]);
            }
        }
    } else {
        assert(out.subrange(0, out.len() as int) =~= out);
    }
}

// ---------------------------------------------------------------------------
// Laws of node IDs
// ---------------------------------------------------------------------------

/// A selected test function is collected under its name: once for each suffix
/// that is certain, in order, and else once, bare. It is not certain where a
/// hook, a fixture or the anyio plugin can add parameters.
pub proof fn law_functions_are_collected(
    k: KnowledgeView,
    home: ModuleView,
    def: TestDefView,
    local: Seq<char>,
    s: SurroundingsView,
)
    requires
        function_ids(k, home, def, local, s, None) is Ok,
    ensures
        ({
            let ids = function_ids(k, home, def, local, s, None)->Ok_0;
            let marks = aliased_marks(k, home, def.maybe_marks, 0, s.pytestmark + def.marks)->Ok_0;
            match def.expansion {
                ExpansionView::Params(v) => if s.poisoned || marks.contains("anyio"@)
                    || crate::fixtures::requests_params(tables_of(s.contexts), def) {
                    ids == seq![local]
                } else {
                    ids.len() == v.len() && (forall|i: int|
                        0 <= i < v.len() ==> #[trigger] ids[i] == local + seq!['['] + v[i]
                            + seq![']'])
                },
                _ => ids == seq![local],
            }
        }),
{
    if let ExpansionView::Params(v) = def.expansion {
        crate::params::law_suffixes_go_in_brackets(v, local);
    }
}

/// The ID of a method as it begins: the names of the classes around it and its
/// own name, with `::` between them.
pub open spec fn method_path(stack: Seq<Seq<char>>, name: Seq<char>) -> Seq<char> {
    text::joined(stack.push(name), seq![':', ':'])
}

/// A method is collected where its name is that of a test: one that begins with
/// `test` in a `unittest` class, and one that the configuration takes elsewhere.
/// It is collected once for each suffix of the method with each of the class that
/// is certain, and else once, bare.
pub proof fn law_methods_are_collected(
    k: KnowledgeView,
    c: ConfigView,
    m: ModuleView,
    class: ClassView,
    has: ResolvedView,
    def: TestDefView,
    s: SurroundingsView,
    stack: Seq<Seq<char>>,
)
    requires
        method_ids(k, c, m, class, has, def, s, None, stack) is Ok,
        stack.len() > 0,
    ensures
        ({
            let ids = method_ids(k, c, m, class, has, def, s, None, stack)->Ok_0;
            let marks = aliased_marks(
                k,
                m,
                def.maybe_marks,
                0,
                s.pytestmark + has.marks + def.marks,
            )->Ok_0;
            let is_test = if has.unittest {
                "test"@.is_prefix_of(def.name)
            } else {
                crate::config::any_name_hit(c.python_functions, def.name)
            };
            let path = method_path(stack, def.name);
            let both = crate::params::combined(
                if has.base_params {
                    ExpansionView::Fallback
                } else {
                    class.expansion
                },
                def.expansion,
            );
            let doubtful = s.poisoned || marks.contains("anyio"@)
                || crate::fixtures::requests_params(
                seq![has.fixtures] + tables_of(s.contexts),
                TestDefView { args: def.args + class.usefixtures, ..def },
            );
            if !is_test {
                ids.len() == 0
            } else {
                match both {
                    ExpansionView::Params(v) => if doubtful {
                        ids == seq![path]
                    } else {
                        ids.len() == v.len() && (forall|i: int|
                            0 <= i < v.len() ==> #[trigger] ids[i] == path + seq!['['] + v[i]
                                + seq![']'])
                    },
                    _ => ids == seq![path],
                }
            }
        }),
{
    reveal_strlit("::");
    assert("::"@ =~= seq![':', ':']);
    let prefix = text::joined(stack, "::"@);
    let path = method_path(stack, def.name);
    assert(stack.push(def.name).drop_last() =~= stack);
    assert(path == prefix + "::"@ + def.name);
    let both = crate::params::combined(class_expansion(class, has), def.expansion);
    assert(prefixed(prefix, seq![def.name]) =~= seq![path]);
    if let ExpansionView::Params(v) = both {
        crate::params::law_suffixes_go_in_brackets(v, def.name);
        let plain = crate::params::applied(both, def.name);
        let ids = prefixed(prefix, plain);
        assert forall|i: int| 0 <= i < v.len() implies #[trigger] ids[i] == path + seq!['['] + v[i]
            + seq![']'] by {
            assert(prefix + "::"@ + plain[i] =~= path + seq!['['] + v[i] + seq![']']);
        }
    }
}

/// The tests of a class go behind those that are there already.
pub proof fn law_classes_go_behind(
    k: KnowledgeView,
    c: ConfigView,
    m: ModuleView,
    class: ClassView,
    name: Seq<char>,
    s: SurroundingsView,
    marker: Option<KExprView>,
    stack: Seq<Seq<char>>,
    out: Seq<Seq<char>>,
)
    requires
        class_ids(k, c, m, class, name, s, marker, stack, out) is Ok,
    ensures
        class_ids(k, c, m, class, name, s, marker, stack, Seq::empty()) is Ok,
        class_ids(k, c, m, class, name, s, marker, stack, out)->Ok_0 == out + class_ids(
            k,
            c,
            m,
            class,
            name,
            s,
            marker,
            stack,
            Seq::empty(),
        )->Ok_0,
    decreases class, 0int,
{
    let none = Seq::<Seq<char>>::empty();
    let has = crate::inherit::class_has(k, m, class, name)->Ok_0;
    if collectable(c, class, has, name) {
        let inner = inside_class(s, has);
        let path = stack.push(name);
        methods_go_behind(k, c, m, class, has, inner, marker, path, 0, out);
        let first = methods_ids(k, c, m, class, has, inner, marker, path, 0, out)->Ok_0;
        let own = methods_ids(k, c, m, class, has, inner, marker, path, 0, none)->Ok_0;
        nested_go_behind(k, c, m, class.items, 0, inner, marker, path, first);
        let rest = nested_ids(k, c, m, class.items, 0, inner, marker, path, none)->Ok_0;
        nested_go_behind_again(k, c, m, class.items, 0, inner, marker, path, own);
        assert(out + own + rest =~= out + (own + rest));
    } else {
        assert(out + none =~= out);
    }
}

proof fn methods_go_behind(
    k: KnowledgeView,
    c: ConfigView,
    m: ModuleView,
    class: ClassView,
    has: ResolvedView,
    s: SurroundingsView,
    marker: Option<KExprView>,
    stack: Seq<Seq<char>>,
    i: int,
    out: Seq<Seq<char>>,
)
    requires
        0 <= i <= has.methods.len(),
    ensures
        methods_ids(k, c, m, class, has, s, marker, stack, i, out) is Ok <==> methods_ids(
            k,
            c,
            m,
            class,
            has,
            s,
            marker,
            stack,
            i,
            Seq::empty(),
        ) is Ok,
        methods_ids(k, c, m, class, has, s, marker, stack, i, out) matches Ok(all) ==> all == out
            + methods_ids(k, c, m, class, has, s, marker, stack, i, Seq::empty())->Ok_0,
    decreases has.methods.len() - i,
{
    let none = Seq::<Seq<char>>::empty();
    if i < has.methods.len() {
        match method_ids(k, c, m, class, has, has.methods[i], s, marker, stack) {
            Err(_) => {},
            Ok(ids) => {
                methods_go_behind(k, c, m, class, has, s, marker, stack, i + 1, out + ids);
                methods_go_behind(k, c, m, class, has, s, marker, stack, i + 1, none + ids);
                match methods_ids(k, c, m, class, has, s, marker, stack, i + 1, none) {
                    Ok(rest) => {
                        assert(out + ids + rest =~= out + (none + ids + rest));
                    },
                    Err(_) => {},
                }
            },
        }
    } else {
        assert(out + none =~= out);
    }
}

proof fn nested_go_behind(
    k: KnowledgeView,
    c: ConfigView,
    m: ModuleView,
    items: Seq<ClassItemView>,
    i: int,
    s: SurroundingsView,
    marker: Option<KExprView>,
    stack: Seq<Seq<char>>,
    out: Seq<Seq<char>>,
)
    requires
        0 <= i <= items.len(),
        nested_ids(k, c, m, items, i, s, marker, stack, out) is Ok,
    ensures
        nested_ids(k, c, m, items, i, s, marker, stack, Seq::empty()) is Ok,
        nested_ids(k, c, m, items, i, s, marker, stack, out)->Ok_0 == out + nested_ids(
            k,
            c,
            m,
            items,
            i,
            s,
            marker,
            stack,
            Seq::empty(),
        )->Ok_0,
    decreases items, items.len() - i,
{
    let none = Seq::<Seq<char>>::empty();
    if i < items.len() {
        match items[i] {
            ClassItemView::Nested(name, class) => {
                law_classes_go_behind(k, c, m, class, name, s, marker, stack, out);
                let ids = class_ids(k, c, m, class, name, s, marker, stack, out)->Ok_0;
                let one = class_ids(k, c, m, class, name, s, marker, stack, none)->Ok_0;
                nested_go_behind(k, c, m, items, i + 1, s, marker, stack, ids);
                nested_go_behind_again(k, c, m, items, i + 1, s, marker, stack, one);
                let rest = nested_ids(k, c, m, items, i + 1, s, marker, stack, none)->Ok_0;
                assert(out + one + rest =~= out + (one + rest));
            },
            ClassItemView::Method(_) => {
                nested_go_behind(k, c, m, items, i + 1, s, marker, stack, out);
            },
        }
    } else {
        assert(out + none =~= out);
    }
}

proof fn nested_go_behind_again(
    k: KnowledgeView,
    c: ConfigView,
    m: ModuleView,
    items: Seq<ClassItemView>,
    i: int,
    s: SurroundingsView,
    marker: Option<KExprView>,
    stack: Seq<Seq<char>>,
    out: Seq<Seq<char>>,
)
    requires
        0 <= i <= items.len(),
        nested_ids(k, c, m, items, i, s, marker, stack, Seq::empty()) is Ok,
    ensures
        nested_ids(k, c, m, items, i, s, marker, stack, out) is Ok,
        nested_ids(k, c, m, items, i, s, marker, stack, out)->Ok_0 == out + nested_ids(
            k,
            c,
            m,
            items,
            i,
            s,
            marker,
            stack,
            Seq::empty(),
        )->Ok_0,
    decreases items, items.len() - i,
{
    let none = Seq::<Seq<char>>::empty();
    if i < items.len() {
        match items[i] {
            ClassItemView::Nested(name, class) => {
                class_is_told_anywhere(k, c, m, class, name, s, marker, stack, out);
                let one = class_ids(k, c, m, class, name, s, marker, stack, none)->Ok_0;
                nested_go_behind(k, c, m, items, i + 1, s, marker, stack, one);
                nested_go_behind_again(k, c, m, items, i + 1, s, marker, stack, out + one);
                let rest = nested_ids(k, c, m, items, i + 1, s, marker, stack, none)->Ok_0;
                assert(out + one + rest =~= out + (one + rest));
            },
            ClassItemView::Method(_) => {
                nested_go_behind_again(k, c, m, items, i + 1, s, marker, stack, out);
            },
        }
    } else {
        assert(out + none =~= out);
    }
}

pub(crate) proof fn class_is_told_anywhere(
    k: KnowledgeView,
    c: ConfigView,
    m: ModuleView,
    class: ClassView,
    name: Seq<char>,
    s: SurroundingsView,
    marker: Option<KExprView>,
    stack: Seq<Seq<char>>,
    out: Seq<Seq<char>>,
)
    requires
        class_ids(k, c, m, class, name, s, marker, stack, Seq::empty()) is Ok,
    ensures
        class_ids(k, c, m, class, name, s, marker, stack, out) is Ok,
        class_ids(k, c, m, class, name, s, marker, stack, out)->Ok_0 == out + class_ids(
            k,
            c,
            m,
            class,
            name,
            s,
            marker,
            stack,
            Seq::empty(),
        )->Ok_0,
    decreases class, 0int,
{
    let none = Seq::<Seq<char>>::empty();
    let has = crate::inherit::class_has(k, m, class, name)->Ok_0;
    if collectable(c, class, has, name) {
        let inner = inside_class(s, has);
        let path = stack.push(name);
        methods_go_behind(k, c, m, class, has, inner, marker, path, 0, out);
        let own = methods_ids(k, c, m, class, has, inner, marker, path, 0, none)->Ok_0;
        nested_go_behind(k, c, m, class.items, 0, inner, marker, path, own);
        let rest = nested_ids(k, c, m, class.items, 0, inner, marker, path, none)->Ok_0;
        nested_go_behind_again(k, c, m, class.items, 0, inner, marker, path, out + own);
        assert(out + own + rest =~= out + (own + rest));
    } else {
        assert(out + none =~= out);
    }
}

/// What stands around the tests of a class: a parametrized fixture that its
/// tests cannot escape makes them uncertain.
pub open spec fn around_methods(s: SurroundingsView, has: ResolvedView) -> SurroundingsView {
    SurroundingsView {
        poisoned: s.poisoned || has.base_params || crate::fixtures::autouse_params(has.fixtures),
        contexts: s.contexts,
        pytestmark: s.pytestmark,
    }
}

/// A class is collected where it is a test case of `unittest`, whatever its name,
/// or where the configuration takes its name and it has no constructor. Then the
/// IDs of each of its methods, inherited ones among them, and of the classes
/// inside it are collected, and nothing else; a class that is not collected adds
/// nothing.
pub proof fn law_classes_are_collected(
    k: KnowledgeView,
    c: ConfigView,
    m: ModuleView,
    class: ClassView,
    name: Seq<char>,
    s: SurroundingsView,
    marker: Option<KExprView>,
    stack: Seq<Seq<char>>,
    id: Seq<char>,
)
    requires
        class_ids(k, c, m, class, name, s, marker, stack, Seq::empty()) is Ok,
    ensures
        ({
            let ids = class_ids(k, c, m, class, name, s, marker, stack, Seq::empty())->Ok_0;
            let has = crate::inherit::class_has(k, m, class, name)->Ok_0;
            let inner = around_methods(s, has);
            let path = stack.push(name);
            let taken = has.unittest || (crate::config::any_name_hit(c.python_classes, name)
                && !class.has_ctor);
            &&& crate::inherit::class_has(k, m, class, name) is Ok
            &&& !taken ==> ids.len() == 0
            &&& taken ==> (ids.contains(id) <==> (exists|i: int|
                0 <= i < has.methods.len() && id_is_in(
                    method_ids(k, c, m, class, has, #[trigger] has.methods[i], inner, marker, path),
                    id,
                )) || (exists|i: int|
                0 <= i < class.items.len() && (#[trigger] class.items[i] matches
                    ClassItemView::Nested(n, inside) && id_is_in(
                    class_ids(k, c, m, inside, n, inner, marker, path, Seq::empty()),
                    id,
                ))))
        }),
{
    let none = Seq::<Seq<char>>::empty();
    let has = crate::inherit::class_has(k, m, class, name)->Ok_0;
    if collectable(c, class, has, name) {
        let inner = inside_class(s, has);
        let path = stack.push(name);
        let own = methods_ids(k, c, m, class, has, inner, marker, path, 0, none)->Ok_0;
        methods_hold(k, c, m, class, has, inner, marker, path, 0, none, id);
        nested_hold(k, c, m, class.items, 0, inner, marker, path, own, id);
    }
}

/// Is an ID among those that could be told?
pub open spec fn id_is_in(ids: Result<Seq<Seq<char>>, QueryView>, id: Seq<char>) -> bool {
    ids matches Ok(v) && v.contains(id)
}

proof fn methods_hold(
    k: KnowledgeView,
    c: ConfigView,
    m: ModuleView,
    class: ClassView,
    has: ResolvedView,
    s: SurroundingsView,
    marker: Option<KExprView>,
    stack: Seq<Seq<char>>,
    i: int,
    out: Seq<Seq<char>>,
    id: Seq<char>,
)
    requires
        0 <= i <= has.methods.len(),
        methods_ids(k, c, m, class, has, s, marker, stack, i, out) is Ok,
    ensures
        methods_ids(k, c, m, class, has, s, marker, stack, i, out)->Ok_0.contains(id)
            <==> out.contains(id) || exists|j: int|
            i <= j < has.methods.len() && id_is_in(
                method_ids(k, c, m, class, has, #[trigger] has.methods[j], s, marker, stack),
                id,
            ),
    decreases has.methods.len() - i,
{
    if i < has.methods.len() {
        let ids = method_ids(k, c, m, class, has, has.methods[i], s, marker, stack)->Ok_0;
        methods_hold(k, c, m, class, has, s, marker, stack, i + 1, out + ids, id);
        text::law_both_hold(out, ids, id);
    }
}

proof fn nested_hold(
    k: KnowledgeView,
    c: ConfigView,
    m: ModuleView,
    items: Seq<ClassItemView>,
    i: int,
    s: SurroundingsView,
    marker: Option<KExprView>,
    stack: Seq<Seq<char>>,
    out: Seq<Seq<char>>,
    id: Seq<char>,
)
    requires
        0 <= i <= items.len(),
        nested_ids(k, c, m, items, i, s, marker, stack, out) is Ok,
    ensures
        nested_ids(k, c, m, items, i, s, marker, stack, out)->Ok_0.contains(id)
            <==> out.contains(id) || exists|j: int|
            i <= j < items.len() && (#[trigger] items[j] matches ClassItemView::Nested(n, inside)
                && id_is_in(
                class_ids(k, c, m, inside, n, s, marker, stack, Seq::empty()),
                id,
            )),
    decreases items.len() - i,
{
    if i < items.len() {
        match items[i] {
            ClassItemView::Nested(name, class) => {
                law_classes_go_behind(k, c, m, class, name, s, marker, stack, out);
                let ids = class_ids(k, c, m, class, name, s, marker, stack, out)->Ok_0;
                let one = class_ids(k, c, m, class, name, s, marker, stack, Seq::empty())->Ok_0;
                nested_hold(k, c, m, items, i + 1, s, marker, stack, ids, id);
                text::law_both_hold(out, one, id);
            },
            ClassItemView::Method(_) => {
                nested_hold(k, c, m, items, i + 1, s, marker, stack, out, id);
            },
        }
    }
}

} // verus!
