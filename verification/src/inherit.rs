//! What a class has from itself and from its bases.

use vstd::prelude::*;

use crate::fixtures::{has_autouse_params, requests_parametrized_fixture, Scope};
use crate::model::{
    copy_fixtures, Class, ClassItem, ClassItemView, ClassView, FixtureView, Fixtures, Module,
    ModuleView, TestDef, TestDefView,
};
use crate::params::{Expansion, ExpansionView};
use crate::path::FilePath;
use crate::resolve::{self, Knowledge, KnowledgeView, Query, QueryView};
use crate::symbols::{is_unittest_module_class, resolve_base, BaseTarget, BaseView};
use crate::text::{self, copy_list, same};

verus! {

broadcast use crate::text::group_deep;

/// A class, by the file it stands in and its name.
#[derive(Debug)]
pub struct ClassKey {
    pub path: FilePath,
    pub name: String,
}

impl View for ClassKey {
    type V = (Seq<Seq<char>>, Seq<char>);

    open spec fn view(&self) -> (Seq<Seq<char>>, Seq<char>) {
        (self.path@, self.name@)
    }
}

fn holds_key(keys: &Vec<ClassKey>, path: &FilePath, name: &str) -> (r: bool)
    ensures
        r == text::deep(keys@).contains((path@, name@)),
{
    let ghost ks = text::deep(keys@);
    let mut i: usize = 0;
    while i < keys.len()
        invariant
            i <= keys.len(),
            ks == text::deep(keys@),
            forall|j: int| 0 <= j < i ==> #[trigger] ks[j] != (path@, name@),
        decreases keys.len() - i,
    {
        if keys[i].path.equals(path) && same(keys[i].name.as_str(), name) {
            proof {
                assert(ks[i as int] == (path@, name@));
            }
            return true;
        }
        i += 1;
    }
    false
}

/// The effective members of a class.
#[derive(Debug)]
pub struct Resolved {
    /// Own methods first, then inherited ones (base order, depth-first),
    /// without overridden ones.
    pub methods: Vec<TestDef>,
    /// A test case class of `unittest` is among the bases.
    pub unittest: bool,
    /// A base class is parametrized itself.
    pub base_params: bool,
    /// The fixtures of the class and its bases, the nearest of each name.
    pub fixtures: Fixtures,
    /// The marks of the class and its bases.
    pub marks: Vec<String>,
}

/// The effective members of a class.
pub struct ResolvedView {
    pub methods: Seq<TestDefView>,
    pub unittest: bool,
    pub base_params: bool,
    pub fixtures: Seq<(Seq<char>, FixtureView)>,
    pub marks: Seq<Seq<char>>,
}

impl View for Resolved {
    type V = ResolvedView;

    open spec fn view(&self) -> ResolvedView {
        ResolvedView {
            methods: text::deep(self.methods@),
            unittest: self.unittest,
            base_params: self.base_params,
            fixtures: self.fixtures@,
            marks: text::deep(self.marks@),
        }
    }
}

// ---------------------------------------------------------------------------
// Members
// ---------------------------------------------------------------------------

/// Is one of the methods named `name`?
pub open spec fn has_method(methods: Seq<TestDefView>, name: Seq<char>) -> bool {
    exists|i: int| 0 <= i < methods.len() && (#[trigger] methods[i]).name == name
}

/// The methods with one more, unless it is overridden.
pub open spec fn with_method(methods: Seq<TestDefView>, def: TestDefView) -> Seq<TestDefView> {
    if has_method(methods, def.name) {
        methods
    } else {
        methods.push(def)
    }
}

/// The methods with those of `more` from position `i` on that are not
/// overridden.
pub open spec fn with_methods(
    methods: Seq<TestDefView>,
    more: Seq<TestDefView>,
    i: int,
) -> Seq<TestDefView>
    decreases more.len() - i,
{
    if i < 0 || i >= more.len() {
        methods
    } else {
        with_methods(with_method(methods, more[i]), more, i + 1)
    }
}

/// A method in the module and class that define it: its expansion falls back
/// where a fixture or hook there adds parameters.
pub open spec fn in_its_module(
    def: TestDefView,
    m: ModuleView,
    fixtures: Seq<(Seq<char>, FixtureView)>,
) -> TestDefView {
    if !(def.expansion is Plain) && (m.has_generate_tests || crate::fixtures::requests_params(
        seq![fixtures, m.fixtures],
        def,
    )) {
        TestDefView { expansion: ExpansionView::Fallback, ..def }
    } else {
        def
    }
}

/// The methods that a class defines itself, from the member at position `i` on.
pub open spec fn own_methods(
    m: ModuleView,
    class: ClassView,
    i: int,
    out: Seq<TestDefView>,
) -> Seq<TestDefView>
    decreases class.items.len() - i,
{
    if i < 0 || i >= class.items.len() {
        out
    } else {
        own_methods(
            m,
            class,
            i + 1,
            match class.items[i] {
                ClassItemView::Method(def) => with_method(
                    out,
                    in_its_module(def, m, class.fixtures),
                ),
                _ => out,
            },
        )
    }
}

/// The fixtures with those of `more` from position `i` on whose names are new.
pub open spec fn with_fixtures(
    t: Seq<(Seq<char>, FixtureView)>,
    more: Seq<(Seq<char>, FixtureView)>,
    i: int,
) -> Seq<(Seq<char>, FixtureView)>
    decreases more.len() - i,
{
    if i < 0 || i >= more.len() {
        t
    } else {
        with_fixtures(
            if crate::table::find(t, more[i].0) is Some {
                t
            } else {
                crate::table::put(t, more[i].0, more[i].1)
            },
            more,
            i + 1,
        )
    }
}

/// Take up what a base class has.
pub open spec fn with_base(r: ResolvedView, base: ClassView, has: ResolvedView) -> ResolvedView {
    ResolvedView {
        methods: with_methods(r.methods, has.methods, 0),
        unittest: r.unittest || has.unittest,
        base_params: r.base_params || !(base.expansion is Plain) || crate::fixtures::autouse_params(
            base.fixtures,
        ) || has.base_params,
        fixtures: with_fixtures(r.fixtures, has.fixtures, 0),
        marks: r.marks + has.marks,
    }
}

fn knows_method(methods: &Vec<TestDef>, name: &str) -> (r: bool)
    ensures
        r == has_method(text::deep(methods@), name@),
{
    let ghost ms = text::deep(methods@);
    let mut i: usize = 0;
    while i < methods.len()
        invariant
            i <= methods.len(),
            ms == text::deep(methods@),
            forall|j: int| 0 <= j < i ==> (#[trigger] ms[j]).name != name@,
        decreases methods.len() - i,
    {
        if same(methods[i].name.as_str(), name) {
            proof {
                assert(ms[i as int].name == name@);
            }
            return true;
        }
        i += 1;
    }
    false
}

fn collect_own<'a>(m: &'a Module, class: &'a Class) -> (r: Vec<TestDef>)
    ensures
        text::deep(r@) == own_methods(m@, class@, 0, Seq::empty()),
{
    proof {
        crate::model::class_parts(*class);
    }
    let mut tables: Vec<&'a Fixtures> = Vec::new();
    tables.push(&class.fixtures);
    tables.push(&m.fixtures);
    let scope: Scope<'a> = Scope { tables };
    proof {
        assert(scope@ =~= seq![class@.fixtures, m@.fixtures]);
    }
    let mut out: Vec<TestDef> = Vec::new();
    let mut i: usize = 0;
    while i < class.items.len()
        invariant
            i <= class.items.len(),
            class@.items == text::deep(class.items@),
            scope@ == seq![class@.fixtures, m@.fixtures],
            own_methods(m@, class@, i as int, text::deep(out@)) == own_methods(
                m@,
                class@,
                0,
                Seq::empty(),
            ),
        decreases class.items.len() - i,
    {
        match &class.items[i] {
            ClassItem::Method(def) => {
                let mut here: TestDef = def.copy();
                if !here.expansion.is_plain() && (m.has_generate_tests
                    || requests_parametrized_fixture(&scope, &here)) {
                    here.expansion = Expansion::Fallback;
                }
                if !knows_method(&out, here.name.as_str()) {
                    out.push(here);
                }
            },
            _ => {},
        }
        i += 1;
    }
    out
}

fn merge_fixtures(t: &mut Fixtures, more: &Fixtures)
    ensures
        final(t)@ == with_fixtures(old(t)@, more@, 0),
{
    let mut i: usize = 0;
    while i < more.entries.len()
        invariant
            i <= more.entries.len(),
            with_fixtures(t@, more@, i as int) == with_fixtures(old(t)@, more@, 0),
        decreases more.entries.len() - i,
    {
        if !t.has(more.entries[i].0.as_str()) {
            t.insert(more.entries[i].0.clone(), more.entries[i].1.copy());
        }
        i += 1;
    }
}

fn take_base(r: &mut Resolved, base: &Class, has: Resolved)
    ensures
        final(r)@ == with_base(old(r)@, base@, has@),
{
    proof {
        crate::model::class_parts(*base);
    }
    r.unittest = r.unittest || has.unittest;
    r.base_params = r.base_params || !base.expansion.is_plain() || has_autouse_params(
        &base.fixtures,
    ) || has.base_params;
    merge_fixtures(&mut r.fixtures, &has.fixtures);
    text::extend(&mut r.marks, &has.marks);
    let ghost first = text::deep(r.methods@);
    let ghost more = text::deep(has.methods@);
    let ghost before = r@;
    let mut i: usize = 0;
    while i < has.methods.len()
        invariant
            i <= has.methods.len(),
            more == text::deep(has.methods@),
            r@ == (ResolvedView { methods: text::deep(r.methods@), ..before }),
            with_methods(text::deep(r.methods@), more, i as int) == with_methods(first, more, 0),
        decreases has.methods.len() - i,
    {
        if !knows_method(&r.methods, has.methods[i].name.as_str()) {
            r.methods.push(has.methods[i].copy());
        }
        i += 1;
    }
}

// ---------------------------------------------------------------------------
// The classes that there are
// ---------------------------------------------------------------------------

/// The classes of a module.
pub open spec fn keys_of(m: ModuleView) -> Seq<(Seq<Seq<char>>, Seq<char>)> {
    Seq::new(m.classes.len(), |i: int| (m.path, m.classes[i].0))
}

/// The classes of the known modules from position `i` on.
pub open spec fn keys_in(
    modules: Seq<(Seq<Seq<char>>, Option<ModuleView>)>,
    i: int,
) -> Seq<(Seq<Seq<char>>, Seq<char>)>
    decreases modules.len() - i,
{
    if i < 0 || i >= modules.len() {
        Seq::empty()
    } else {
        (match modules[i].1 {
            Some(m) => keys_of(m),
            None => Seq::empty(),
        }) + keys_in(modules, i + 1)
    }
}

/// All classes that there are: those of the module at hand and those of the
/// known modules.
pub open spec fn all_keys(
    k: KnowledgeView,
    root: ModuleView,
) -> Seq<(Seq<Seq<char>>, Seq<char>)> {
    keys_of(root) + keys_in(k.modules, 0)
}

/// More classes than this are never visited: all that there are, and the one at
/// hand, which may stand inside another class.
pub open spec fn most(k: KnowledgeView, root: ModuleView) -> int {
    all_keys(k, root).len() as int + 1
}

// ---------------------------------------------------------------------------
// Inheritance
// ---------------------------------------------------------------------------

/// What a class has, and the classes that have been visited after that. The
/// class itself has been.
pub open spec fn inherited(
    k: KnowledgeView,
    root: ModuleView,
    m: ModuleView,
    class: ClassView,
    visited: Seq<(Seq<Seq<char>>, Seq<char>)>,
) -> Result<(ResolvedView, Seq<(Seq<Seq<char>>, Seq<char>)>), QueryView>
    decreases most(k, root) - visited.len(), 1int, 0int,
{
    bases_from(
        k,
        root,
        m,
        class.bases,
        0,
        ResolvedView {
            methods: own_methods(m, class, 0, Seq::empty()),
            unittest: false,
            base_params: false,
            fixtures: class.fixtures,
            marks: class.marks,
        },
        visited,
    )
}

/// What a class has with its bases from position `i` on, on top of `r`. A base
/// that was visited already adds nothing.
pub open spec fn bases_from(
    k: KnowledgeView,
    root: ModuleView,
    m: ModuleView,
    bases: Seq<Seq<char>>,
    i: int,
    r: ResolvedView,
    visited: Seq<(Seq<Seq<char>>, Seq<char>)>,
) -> Result<(ResolvedView, Seq<(Seq<Seq<char>>, Seq<char>)>), QueryView>
    decreases most(k, root) - visited.len(), 0int, bases.len() - i,
{
    if i < 0 || i >= bases.len() {
        Ok((r, visited))
    } else {
        match crate::symbols::base_target(k, m, bases[i]) {
            Err(q) => Err(q),
            Ok(BaseView::Unittest) => bases_from(
                k,
                root,
                m,
                bases,
                i + 1,
                ResolvedView { unittest: true, ..r },
                visited,
            ),
            Ok(BaseView::Unknown) => bases_from(k, root, m, bases, i + 1, r, visited),
            Ok(BaseView::Local(target, name)) => {
                let key = (target.path, name);
                if crate::symbols::unittest_module_class(target, name) {
                    bases_from(
                        k,
                        root,
                        m,
                        bases,
                        i + 1,
                        ResolvedView { unittest: true, ..r },
                        visited,
                    )
                } else if visited.contains(key) || visited.len() >= most(k, root) {
                    bases_from(k, root, m, bases, i + 1, r, visited)
                } else {
                    match crate::table::find(target.classes, name) {
                        None => bases_from(k, root, m, bases, i + 1, r, visited),
                        Some(base) => match inherited(k, root, target, base, visited.push(key)) {
                            Err(q) => Err(q),
                            Ok((has, after)) => if visited.len() < after.len() <= most(k, root) {
                                bases_from(
                                    k,
                                    root,
                                    m,
                                    bases,
                                    i + 1,
                                    with_base(r, base, has),
                                    after,
                                )
                            } else {
                                Ok((r, visited))
                            },
                        },
                    }
                }
            },
        }
    }
}

/// The module at hand, or one of the known ones.
pub open spec fn is_known(k: KnowledgeView, root: ModuleView, m: ModuleView) -> bool {
    m == root || exists|i: int| 0 <= i < k.modules.len() && #[trigger] k.modules[i].1 == Some(m)
}

proof fn fact_is_entry<T>(s: Seq<(Seq<Seq<char>>, T)>, path: Seq<Seq<char>>, i: int)
    requires
        0 <= i,
        crate::facts::fact_from(s, path, i) is Some,
    ensures
        exists|j: int|
            0 <= j < s.len() && #[trigger] s[j].1 == crate::facts::fact_from(s, path, i)->0,
    decreases s.len() - i,
{
    if i < s.len() && s[i].0 != path {
        fact_is_entry(s, path, i + 1);
    }
}

proof fn referred_is_known(
    k: KnowledgeView,
    root: ModuleView,
    paths: Seq<Seq<Seq<char>>>,
    i: int,
)
    requires
        0 <= i,
    ensures
        resolve::first_module(k, paths, i) matches Ok(Some(m)) ==> is_known(k, root, m),
    decreases paths.len() - i,
{
    if i < paths.len() {
        match crate::facts::fact(k.modules, paths[i]) {
            Some(found) => {
                fact_is_entry(k.modules, paths[i], 0);
            },
            None => {},
        }
        referred_is_known(k, root, paths, i + 1);
    }
}

/// The module that a reference names is a known one.
pub proof fn ref_is_known(
    k: KnowledgeView,
    root: ModuleView,
    mref: crate::model::ModuleRefView,
    dir: Seq<Seq<char>>,
)
    ensures
        resolve::referred(k, mref, dir) matches Ok(Some(m)) ==> is_known(k, root, m),
{
    match resolve::candidates(k, mref, dir) {
        Ok(paths) => {
            referred_is_known(k, root, paths, 0);
        },
        Err(_) => {},
    }
}

proof fn star_is_known(
    k: KnowledgeView,
    root: ModuleView,
    m: ModuleView,
    name: Seq<char>,
    i: int,
)
    requires
        0 <= i,
    ensures
        crate::symbols::star_class(k, m, name, i) matches Ok(Some((t, n))) ==> is_known(
            k,
            root,
            t,
        ) && crate::table::find(t.classes, n) is Some,
    decreases m.star_imports.len() - i,
{
    if i < m.star_imports.len() {
        ref_is_known(k, root, m.star_imports[i], m.dir);
        star_is_known(k, root, m, name, i + 1);
    }
}

proof fn symbol_is_known(
    k: KnowledgeView,
    root: ModuleView,
    m: ModuleView,
    name: Seq<char>,
    hops: nat,
)
    requires
        is_known(k, root, m),
    ensures
        crate::symbols::class_symbol(k, m, name, hops) matches Ok(Some((t, n))) ==> is_known(
            k,
            root,
            t,
        ) && crate::table::find(t.classes, n) is Some,
    decreases hops,
{
    if hops > 0 && crate::table::find(m.classes, name) is None {
        match crate::table::find(m.imports, name) {
            Some(crate::model::ImportView::From(mref, orig)) => {
                ref_is_known(k, root, mref, m.dir);
                match resolve::referred(k, mref, m.dir) {
                    Ok(Some(next)) => {
                        symbol_is_known(k, root, next, orig, (hops - 1) as nat);
                    },
                    _ => {},
                }
            },
            Some(crate::model::ImportView::Module(_)) => {},
            None => {
                star_is_known(k, root, m, name, 0);
            },
        }
    }
}

proof fn class_in_is_known(
    k: KnowledgeView,
    root: ModuleView,
    mref: crate::model::ModuleRefView,
    name: Seq<char>,
    dir: Seq<Seq<char>>,
)
    ensures
        crate::symbols::class_in(k, mref, name, dir) matches Ok(BaseView::Local(t, n)) ==> is_known(
            k,
            root,
            t,
        ) && crate::table::find(t.classes, n) is Some,
{
    ref_is_known(k, root, mref, dir);
    match resolve::referred(k, mref, dir) {
        Ok(Some(target)) => {
            symbol_is_known(k, root, target, name, crate::symbols::HOPS as nat);
        },
        _ => {},
    }
}

/// A base class that was found is a class of a known module.
proof fn base_is_known(k: KnowledgeView, root: ModuleView, m: ModuleView, base: Seq<char>)
    requires
        is_known(k, root, m),
    ensures
        crate::symbols::base_target(k, m, base) matches Ok(BaseView::Local(t, n)) ==> is_known(
            k,
            root,
            t,
        ) && crate::table::find(t.classes, n) is Some,
{
    let segments = text::fields(base, text::Separator::Char('.'), true);
    if segments.len() == 1 {
        let name = segments[0];
        match crate::table::find(m.imports, name) {
            Some(crate::model::ImportView::From(mref, orig)) => {
                class_in_is_known(k, root, mref, orig, m.dir);
            },
            _ => {
                star_is_known(k, root, m, name, 0);
            },
        }
    } else if segments.len() > 1 {
        let last = segments.last();
        let middle = segments.subrange(1, segments.len() - 1);
        match crate::table::find(m.imports, segments[0]) {
            Some(crate::model::ImportView::Module(d)) => {
                match crate::symbols::steps_into(
                    k,
                    crate::model::ModuleRefView::Absolute(d),
                    middle,
                    0,
                    m.dir,
                ) {
                    Ok(full) => {
                        class_in_is_known(k, root, full, last, m.dir);
                    },
                    Err(_) => {},
                }
            },
            Some(crate::model::ImportView::From(mref, orig)) => {
                match crate::symbols::steps_into(k, mref, seq![orig] + middle, 0, m.dir) {
                    Ok(full) => {
                        class_in_is_known(k, root, full, last, m.dir);
                    },
                    Err(_) => {},
                }
            },
            None => {},
        }
    }
}

proof fn find_is_entry<T>(s: Seq<(Seq<char>, T)>, key: Seq<char>, i: int)
    requires
        0 <= i,
        crate::table::find_from(s, key, i) is Some,
    ensures
        exists|j: int| 0 <= j < s.len() && #[trigger] s[j].0 == key,
    decreases s.len() - i,
{
    if i < s.len() && s[i].0 != key {
        find_is_entry(s, key, i + 1);
    }
}

proof fn keys_in_has(
    modules: Seq<(Seq<Seq<char>>, Option<ModuleView>)>,
    i: int,
    j: int,
    m: ModuleView,
    key: (Seq<Seq<char>>, Seq<char>),
)
    requires
        0 <= i <= j < modules.len(),
        modules[j].1 == Some(m),
        keys_of(m).contains(key),
    ensures
        keys_in(modules, i).contains(key),
    decreases modules.len() - i,
{
    let here = match modules[i].1 {
        Some(x) => keys_of(x),
        None => Seq::empty(),
    };
    let there = keys_in(modules, i + 1);
    let both = here + there;
    if i == j {
        let c = choose|c: int| 0 <= c < here.len() && here[c] == key;
        assert(both[c] == key);
    } else {
        keys_in_has(modules, i + 1, j, m, key);
        let c = choose|c: int| 0 <= c < there.len() && there[c] == key;
        assert(both[here.len() + c] == key);
    }
}

/// The key of a class of a known module is among all keys.
proof fn key_is_known(k: KnowledgeView, root: ModuleView, m: ModuleView, name: Seq<char>)
    requires
        is_known(k, root, m),
        crate::table::find(m.classes, name) is Some,
    ensures
        all_keys(k, root).contains((m.path, name)),
{
    find_is_entry(m.classes, name, 0);
    let c = choose|c: int| 0 <= c < m.classes.len() && #[trigger] m.classes[c].0 == name;
    assert(keys_of(m)[c] == (m.path, name));
    let own = keys_of(root);
    let others = keys_in(k.modules, 0);
    let all = own + others;
    if m == root {
        assert(all[c] == (m.path, name));
    } else {
        let j = choose|j: int| 0 <= j < k.modules.len() && #[trigger] k.modules[j].1 == Some(m);
        keys_in_has(k.modules, 0, j, m, (m.path, name));
        let d = choose|d: int| 0 <= d < others.len() && others[d] == (m.path, name);
        assert(all[own.len() + d] == (m.path, name));
    }
}

/// Distinct classes, each of them known or the first, are not more than `most`.
spec fn in_bounds(
    k: KnowledgeView,
    root: ModuleView,
    visited: Seq<(Seq<Seq<char>>, Seq<char>)>,
    first: (Seq<Seq<char>>, Seq<char>),
) -> bool {
    &&& visited.no_duplicates()
    &&& forall|key: (Seq<Seq<char>>, Seq<char>)| #[trigger]
        visited.contains(key) ==> key == first || all_keys(k, root).contains(key)
}

proof fn bounded(
    k: KnowledgeView,
    root: ModuleView,
    visited: Seq<(Seq<Seq<char>>, Seq<char>)>,
    first: (Seq<Seq<char>>, Seq<char>),
)
    requires
        in_bounds(k, root, visited, first),
    ensures
        visited.len() <= most(k, root),
{
    let all = all_keys(k, root).push(first);
    visited.unique_seq_to_set();
    all.lemma_cardinality_of_set();
    assert forall|key: (Seq<Seq<char>>, Seq<char>)| #[trigger] visited.contains(
        key,
    ) implies all.contains(key) by {
        if key == first {
            assert(all[all.len() - 1] == first);
        } else {
            let known = all_keys(k, root);
            let c = choose|c: int| 0 <= c < known.len() && known[c] == key;
            assert(all[c] == key);
        }
    }
    assert(visited.to_set().subset_of(all.to_set()));
    vstd::set_lib::lemma_len_subset(visited.to_set(), all.to_set());
}

proof fn visit_one_more(
    k: KnowledgeView,
    root: ModuleView,
    visited: Seq<(Seq<Seq<char>>, Seq<char>)>,
    first: (Seq<Seq<char>>, Seq<char>),
    key: (Seq<Seq<char>>, Seq<char>),
)
    requires
        in_bounds(k, root, visited, first),
        !visited.contains(key),
        all_keys(k, root).contains(key),
    ensures
        in_bounds(k, root, visited.push(key), first),
        visited.len() < most(k, root),
{
    let next = visited.push(key);
    assert forall|i: int, j: int| 0 <= i < next.len() && 0 <= j < next.len() && i != j implies
        next[i] != next[j] by {
        if i == visited.len() {
            assert(visited.contains(visited[j]));
        } else if j == visited.len() {
            assert(visited.contains(visited[i]));
        }
    }
    assert forall|x: (Seq<Seq<char>>, Seq<char>)| #[trigger] next.contains(x) implies x == first
        || all_keys(k, root).contains(x) by {
        let c = choose|c: int| 0 <= c < next.len() && next[c] == x;
        if c < visited.len() {
            assert(visited.contains(visited[c]));
        }
    }
    bounded(k, root, next, first);
}

/// What a class has and the classes that have been visited after that.
spec fn told(
    r: Result<Resolved, Query>,
    visited: Seq<ClassKey>,
) -> Result<(ResolvedView, Seq<(Seq<Seq<char>>, Seq<char>)>), QueryView> {
    match r {
        Ok(v) => Ok((v@, text::deep(visited))),
        Err(q) => Err(q@),
    }
}

fn inherit(
    k: &Knowledge,
    Ghost(root): Ghost<ModuleView>,
    Ghost(first): Ghost<(Seq<Seq<char>>, Seq<char>)>,
    m: &Module,
    class: &Class,
    visited: &mut Vec<ClassKey>,
) -> (r: Result<Resolved, Query>)
    requires
        is_known(k@, root, m@),
        in_bounds(k@, root, text::deep(old(visited)@), first),
    ensures
        told(r, final(visited)@) == inherited(
            k@,
            root,
            m@,
            class@,
            text::deep(old(visited)@),
        ),
        r is Ok ==> in_bounds(k@, root, text::deep(final(visited)@), first)
            && old(visited)@.len() <= final(visited)@.len(),
    decreases most(k@, root) - old(visited)@.len(),
{
    proof {
        crate::model::class_parts(*class);
    }
    let ghost at_first = text::deep(visited@);
    let mut r: Resolved = Resolved {
        methods: collect_own(m, class),
        unittest: false,
        base_params: false,
        fixtures: copy_fixtures(&class.fixtures),
        marks: copy_list(&class.marks),
    };
    let ghost start = r@;
    let ghost bs = class@.bases;
    let mut i: usize = 0;
    while i < class.bases.len()
        invariant
            i <= class.bases.len(),
            bs == text::deep(class.bases@),
            at_first == text::deep(old(visited)@),
            is_known(k@, root, m@),
            in_bounds(k@, root, text::deep(visited@), first),
            at_first.len() <= visited@.len(),
            inherited(k@, root, m@, class@, at_first) == bases_from(
                k@,
                root,
                m@,
                bs,
                0,
                start,
                at_first,
            ),
            bases_from(k@, root, m@, bs, i as int, r@, text::deep(visited@)) == bases_from(
                k@,
                root,
                m@,
                bs,
                0,
                start,
                at_first,
            ),
        decreases class.bases.len() - i,
    {
        proof {
            base_is_known(k@, root, m@, bs[i as int]);
        }
        match resolve_base(k, m, class.bases[i].as_str()) {
            Err(q) => {
                return Err(q);
            },
            Ok(BaseTarget::Unittest) => {
                r.unittest = true;
            },
            Ok(BaseTarget::Unknown) => {},
            Ok(BaseTarget::Local(target, name)) => {
                if is_unittest_module_class(target, name.as_str()) {
                    r.unittest = true;
                } else if !holds_key(visited, &target.path, name.as_str()) {
                    match target.classes.get(name.as_str()) {
                        None => {},
                        Some(base) => {
                            let ghost key = (target@.path, name@);
                            let ghost before = text::deep(visited@);
                            proof {
                                key_is_known(k@, root, target@, name@);
                                visit_one_more(k@, root, before, first, key);
                            }
                            visited.push(ClassKey { path: target.path.copy(), name });
                            let has: Resolved = match inherit(
                                k,
                                Ghost(root),
                                Ghost(first),
                                target,
                                base,
                                visited,
                            ) {
                                Ok(h) => h,
                                Err(q) => {
                                    return Err(q);
                                },
                            };
                            proof {
                                bounded(k@, root, text::deep(visited@), first);
                            }
                            take_base(&mut r, base, has);
                        },
                    }
                }
            },
        }
        i += 1;
    }
    Ok(r)
}

/// What a class `name` of the module `m` has.
pub open spec fn class_has(
    k: KnowledgeView,
    m: ModuleView,
    class: ClassView,
    name: Seq<char>,
) -> Result<ResolvedView, QueryView> {
    match inherited(k, m, m, class, seq![(m.path, name)]) {
        Ok((r, _)) => Ok(r),
        Err(q) => Err(q),
    }
}

/// Effective members of a class: own methods first, then inherited ones (base
/// order, depth-first), overrides deduped. Methods requesting a parametrized
/// fixture from their defining module fall back here; the leaf module's
/// fixtures are checked again at emission.
pub fn resolve_class(k: &Knowledge, m: &Module, class: &Class, name: &str) -> (r: Result<
    Resolved,
    Query,
>)
    ensures
        resolve::told(r) == class_has(k@, m@, class@, name@),
{
    let mut visited: Vec<ClassKey> = Vec::new();
    visited.push(ClassKey { path: m.path.copy(), name: name.to_owned() });
    let ghost first = (m@.path, name@);
    proof {
        assert(text::deep(visited@) =~= seq![first]);
        assert(seq![first].contains(first)) by {
            assert(seq![first][0] == first);
        }
        assert(in_bounds(k@, m@, seq![first], first));
    }
    inherit(k, Ghost(m@), Ghost(first), m, class, &mut visited)
}

// ---------------------------------------------------------------------------
// Laws
// ---------------------------------------------------------------------------

proof fn inherited_stays(
    k: KnowledgeView,
    more: KnowledgeView,
    root: ModuleView,
    m: ModuleView,
    class: ClassView,
    visited: Seq<(Seq<Seq<char>>, Seq<char>)>,
    first: (Seq<Seq<char>>, Seq<char>),
)
    requires
        resolve::extends(k, more),
        is_known(k, root, m),
        is_known(more, root, m),
        in_bounds(k, root, visited, first),
        in_bounds(more, root, visited, first),
        inherited(k, root, m, class, visited) is Ok,
    ensures
        inherited(more, root, m, class, visited) == inherited(k, root, m, class, visited),
        in_bounds(k, root, inherited(k, root, m, class, visited)->Ok_0.1, first),
        in_bounds(more, root, inherited(k, root, m, class, visited)->Ok_0.1, first),
        visited.len() <= inherited(k, root, m, class, visited)->Ok_0.1.len(),
    decreases most(k, root) - visited.len(), 1int, 0int,
{
    let own = ResolvedView {
        methods: own_methods(m, class, 0, Seq::empty()),
        unittest: false,
        base_params: false,
        fixtures: class.fixtures,
        marks: class.marks,
    };
    bases_stay(k, more, root, m, class.bases, 0, own, visited, first);
}

proof fn bases_stay(
    k: KnowledgeView,
    more: KnowledgeView,
    root: ModuleView,
    m: ModuleView,
    bases: Seq<Seq<char>>,
    i: int,
    r: ResolvedView,
    visited: Seq<(Seq<Seq<char>>, Seq<char>)>,
    first: (Seq<Seq<char>>, Seq<char>),
)
    requires
        resolve::extends(k, more),
        0 <= i,
        is_known(k, root, m),
        is_known(more, root, m),
        in_bounds(k, root, visited, first),
        in_bounds(more, root, visited, first),
        bases_from(k, root, m, bases, i, r, visited) is Ok,
    ensures
        bases_from(more, root, m, bases, i, r, visited) == bases_from(
            k,
            root,
            m,
            bases,
            i,
            r,
            visited,
        ),
        in_bounds(k, root, bases_from(k, root, m, bases, i, r, visited)->Ok_0.1, first),
        in_bounds(more, root, bases_from(k, root, m, bases, i, r, visited)->Ok_0.1, first),
        visited.len() <= bases_from(k, root, m, bases, i, r, visited)->Ok_0.1.len(),
    decreases most(k, root) - visited.len(), 0int, bases.len() - i,
{
    if i < bases.len() {
        crate::symbols::law_bases_stay(k, more, m, bases[i]);
        base_is_known(k, root, m, bases[i]);
        base_is_known(more, root, m, bases[i]);
        match crate::symbols::base_target(k, m, bases[i])->Ok_0 {
            BaseView::Unittest => {
                let next = ResolvedView { unittest: true, ..r };
                bases_stay(k, more, root, m, bases, i + 1, next, visited, first);
            },
            BaseView::Unknown => {
                bases_stay(k, more, root, m, bases, i + 1, r, visited, first);
            },
            BaseView::Local(target, name) => {
                let key = (target.path, name);
                if crate::symbols::unittest_module_class(target, name) {
                    let next = ResolvedView { unittest: true, ..r };
                    bases_stay(k, more, root, m, bases, i + 1, next, visited, first);
                } else if visited.contains(key) {
                    bases_stay(k, more, root, m, bases, i + 1, r, visited, first);
                } else {
                    key_is_known(k, root, target, name);
                    key_is_known(more, root, target, name);
                    visit_one_more(k, root, visited, first, key);
                    visit_one_more(more, root, visited, first, key);
                    let base = crate::table::find(target.classes, name)->0;
                    inherited_stays(k, more, root, target, base, visited.push(key), first);
                    let (has, after) = inherited(k, root, target, base, visited.push(key))->Ok_0;
                    bounded(k, root, after, first);
                    bounded(more, root, after, first);
                    bases_stay(
                        k,
                        more,
                        root,
                        m,
                        bases,
                        i + 1,
                        with_base(r, base, has),
                        after,
                        first,
                    );
                }
            },
        }
    }
}

/// What a class has does not depend on facts that were not asked for: once it
/// can be told, it stays the same however much more is learnt.
pub proof fn law_classes_stay(
    k: KnowledgeView,
    more: KnowledgeView,
    m: ModuleView,
    class: ClassView,
    name: Seq<char>,
)
    requires
        resolve::extends(k, more),
        class_has(k, m, class, name) is Ok,
    ensures
        class_has(more, m, class, name) == class_has(k, m, class, name),
{
    let first = (m.path, name);
    inherited_stays(k, more, m, m, class, seq![first], first);
}

/// Are the names in all known modules Python names?
pub open spec fn all_named(k: KnowledgeView) -> bool {
    forall|i: int|
        0 <= i < k.modules.len() ==> (#[trigger] k.modules[i].1 matches Some(m)
            ==> crate::model::is_named(m))
}

/// Are the methods named by Python names?
pub open spec fn methods_named(methods: Seq<TestDefView>) -> bool {
    forall|i: int| 0 <= i < methods.len() ==> crate::model::bare((#[trigger] methods[i]).name)
}

proof fn find_is_value<T>(s: Seq<(Seq<char>, T)>, key: Seq<char>, i: int)
    requires
        0 <= i,
        crate::table::find_from(s, key, i) is Some,
    ensures
        exists|j: int|
            0 <= j < s.len() && #[trigger] s[j] == (key, crate::table::find_from(s, key, i)->0),
    decreases s.len() - i,
{
    if i < s.len() {
        if s[i].0 == key {
            assert(s[i] == (key, s[i].1));
        } else {
            find_is_value(s, key, i + 1);
        }
    }
}

/// A class of a module whose names are Python names has members with such
/// names.
pub proof fn found_is_named(m: ModuleView, name: Seq<char>)
    requires
        crate::model::is_named(m),
        crate::table::find(m.classes, name) is Some,
    ensures
        crate::model::bare(name),
        crate::model::class_is_named(crate::table::find(m.classes, name)->0),
{
    find_is_value(m.classes, name, 0);
    let class = crate::table::find(m.classes, name)->0;
    let j = choose|j: int| 0 <= j < m.classes.len() && #[trigger] m.classes[j] == (name, class);
    assert(crate::model::bare(m.classes[j].0));
}

proof fn own_named(m: ModuleView, class: ClassView, i: int, out: Seq<TestDefView>)
    requires
        0 <= i,
        crate::model::class_is_named(class),
        methods_named(out),
    ensures
        methods_named(own_methods(m, class, i, out)),
    decreases class.items.len() - i,
{
    if i < class.items.len() {
        match class.items[i] {
            ClassItemView::Method(def) => {
                let next = with_method(out, in_its_module(def, m, class.fixtures));
                own_named(m, class, i + 1, next);
            },
            _ => {
                own_named(m, class, i + 1, out);
            },
        }
    }
}

proof fn more_named(methods: Seq<TestDefView>, more: Seq<TestDefView>, i: int)
    requires
        0 <= i,
        methods_named(methods),
        methods_named(more),
    ensures
        methods_named(with_methods(methods, more, i)),
    decreases more.len() - i,
{
    if i < more.len() {
        more_named(with_method(methods, more[i]), more, i + 1);
    }
}

proof fn inherited_named(
    k: KnowledgeView,
    root: ModuleView,
    m: ModuleView,
    class: ClassView,
    visited: Seq<(Seq<Seq<char>>, Seq<char>)>,
)
    requires
        all_named(k),
        crate::model::is_named(root),
        is_known(k, root, m),
        crate::model::class_is_named(class),
    ensures
        inherited(k, root, m, class, visited) matches Ok((r, _)) ==> methods_named(r.methods),
    decreases most(k, root) - visited.len(), 1int, 0int,
{
    own_named(m, class, 0, Seq::empty());
    let own = ResolvedView {
        methods: own_methods(m, class, 0, Seq::empty()),
        unittest: false,
        base_params: false,
        fixtures: class.fixtures,
        marks: class.marks,
    };
    bases_named(k, root, m, class.bases, 0, own, visited);
}

proof fn bases_named(
    k: KnowledgeView,
    root: ModuleView,
    m: ModuleView,
    bases: Seq<Seq<char>>,
    i: int,
    r: ResolvedView,
    visited: Seq<(Seq<Seq<char>>, Seq<char>)>,
)
    requires
        all_named(k),
        crate::model::is_named(root),
        is_known(k, root, m),
        0 <= i,
        methods_named(r.methods),
    ensures
        bases_from(k, root, m, bases, i, r, visited) matches Ok((all, _)) ==> methods_named(
            all.methods,
        ),
    decreases most(k, root) - visited.len(), 0int, bases.len() - i,
{
    if i < bases.len() {
        base_is_known(k, root, m, bases[i]);
        match crate::symbols::base_target(k, m, bases[i]) {
            Err(_) => {},
            Ok(BaseView::Unittest) => {
                let next = ResolvedView { unittest: true, ..r };
                bases_named(k, root, m, bases, i + 1, next, visited);
            },
            Ok(BaseView::Unknown) => {
                bases_named(k, root, m, bases, i + 1, r, visited);
            },
            Ok(BaseView::Local(target, name)) => {
                let key = (target.path, name);
                if crate::symbols::unittest_module_class(target, name) {
                    let next = ResolvedView { unittest: true, ..r };
                    bases_named(k, root, m, bases, i + 1, next, visited);
                } else if visited.contains(key) || visited.len() >= most(k, root) {
                    bases_named(k, root, m, bases, i + 1, r, visited);
                } else {
                    let base = crate::table::find(target.classes, name)->0;
                    known_is_named(k, root, target);
                    found_is_named(target, name);
                    inherited_named(k, root, target, base, visited.push(key));
                    match inherited(k, root, target, base, visited.push(key)) {
                        Err(_) => {},
                        Ok((has, after)) => {
                            if visited.len() < after.len() <= most(k, root) {
                                more_named(r.methods, has.methods, 0);
                                let next = with_base(r, base, has);
                                bases_named(k, root, m, bases, i + 1, next, after);
                            }
                        },
                    }
                }
            },
        }
    }
}

/// A known module has Python names.
pub proof fn known_is_named(k: KnowledgeView, root: ModuleView, m: ModuleView)
    requires
        all_named(k),
        crate::model::is_named(root),
        is_known(k, root, m),
    ensures
        crate::model::is_named(m),
{
    if m != root {
        let i = choose|i: int| 0 <= i < k.modules.len() && #[trigger] k.modules[i].1 == Some(m);
        assert(k.modules[i].1 matches Some(x) ==> crate::model::is_named(x));
    }
}

/// The methods that a class has, its own and inherited ones, have Python names.
pub proof fn class_has_named(k: KnowledgeView, m: ModuleView, class: ClassView, name: Seq<char>)
    requires
        all_named(k),
        crate::model::is_named(m),
        crate::model::class_is_named(class),
    ensures
        class_has(k, m, class, name) matches Ok(r) ==> methods_named(r.methods),
{
    inherited_named(k, m, m, class, seq![(m.path, name)]);
}

/// The module in which a class or function is found is a known one.
pub proof fn symbol_source_is_known(
    k: KnowledgeView,
    root: ModuleView,
    m: ModuleView,
    name: Seq<char>,
    hops: nat,
)
    requires
        is_known(k, root, m),
    ensures
        crate::symbols::any_symbol(k, m, name, hops) matches Ok(Some((t, _))) ==> is_known(
            k,
            root,
            t,
        ),
    decreases hops,
{
    if hops > 0 {
        match crate::table::find(m.imports, name) {
            Some(crate::model::ImportView::From(mref, orig)) => {
                ref_is_known(k, root, mref, m.dir);
                match resolve::referred(k, mref, m.dir) {
                    Ok(Some(next)) => {
                        symbol_source_is_known(k, root, next, orig, (hops - 1) as nat);
                    },
                    _ => {},
                }
            },
            _ => {},
        }
    }
}

// ---------------------------------------------------------------------------
// Laws of inheritance
// ---------------------------------------------------------------------------

/// Does a path stand for one module only?
pub open spec fn one_module_a_path(k: KnowledgeView, root: ModuleView) -> bool {
    forall|a: ModuleView, b: ModuleView|
        #![trigger is_known(k, root, a), is_known(k, root, b)]
        is_known(k, root, a) && is_known(k, root, b) && a.path == b.path ==> a == b
}

/// Is the class `name` of the module `t` one of the bases of a class?
pub open spec fn is_base(
    k: KnowledgeView,
    m: ModuleView,
    class: ClassView,
    t: ModuleView,
    name: Seq<char>,
) -> bool {
    &&& crate::table::find(t.classes, name) is Some
    &&& !crate::symbols::unittest_module_class(t, name)
    &&& exists|i: int|
        0 <= i < class.bases.len() && crate::symbols::base_target(k, m, #[trigger] class.bases[i])
            == Ok::<BaseView, QueryView>(BaseView::Local(t, name))
}

/// Is a base of a class the test case class of `unittest`?
pub open spec fn is_unittest_target(base: Result<BaseView, QueryView>) -> bool {
    match base {
        Ok(BaseView::Unittest) => true,
        Ok(BaseView::Local(t, name)) => crate::symbols::unittest_module_class(t, name),
        _ => false,
    }
}

/// Is the test case class of `unittest` among the bases of a class?
pub open spec fn has_unittest_base(k: KnowledgeView, m: ModuleView, class: ClassView) -> bool {
    exists|i: int|
        0 <= i < class.bases.len() && is_unittest_target(
            crate::symbols::base_target(k, m, #[trigger] class.bases[i]),
        )
}

/// Does a class define a method of this name?
pub open spec fn defines(class: ClassView, name: Seq<char>) -> bool {
    exists|j: int|
        0 <= j < class.items.len() && (#[trigger] class.items[j] matches ClassItemView::Method(def)
            && def.name == name)
}

/// Is it a method that a class defines, which may have fallen back?
pub open spec fn is_from(class: ClassView, q: TestDefView) -> bool {
    exists|j: int|
        0 <= j < class.items.len() && (#[trigger] class.items[j] matches ClassItemView::Method(def)
            && (q == def || q == (TestDefView { expansion: ExpansionView::Fallback, ..def })))
}

/// Does a class have what another one defines: its methods and fixtures, by name,
/// its marks, and being a test case of `unittest`?
pub open spec fn takes_all(
    k: KnowledgeView,
    m: ModuleView,
    class: ClassView,
    r: ResolvedView,
) -> bool {
    &&& forall|x: Seq<char>| #[trigger] defines(class, x) ==> has_method(r.methods, x)
    &&& forall|x: Seq<char>| class.marks.contains(x) ==> #[trigger] r.marks.contains(x)
    &&& forall|x: Seq<char>|
        crate::table::find(class.fixtures, x) is Some ==> #[trigger] crate::table::find(
            r.fixtures,
            x,
        ) is Some
    &&& has_unittest_base(k, m, class) ==> r.unittest
}

/// Does a class multiply the tests of those that inherit from it: by parameters
/// of its own, or by an autouse fixture with parameters?
pub open spec fn multiplies(class: ClassView) -> bool {
    !(class.expansion is Plain) || exists|i: int|
        0 <= i < class.fixtures.len() && (#[trigger] class.fixtures[i]).1.autouse
            && class.fixtures[i].1.parametrized
}

/// The classes on a way up from a class: each is a base of the one before it.
pub open spec fn is_chain(
    k: KnowledgeView,
    m: ModuleView,
    class: ClassView,
    chain: Seq<(ModuleView, Seq<char>)>,
) -> bool
    decreases chain.len(),
{
    chain.len() == 0 || (is_base(k, m, class, chain[0].0, chain[0].1) && is_chain(
        k,
        chain[0].0,
        crate::table::find(chain[0].0.classes, chain[0].1)->0,
        chain.skip(1),
    ))
}

/// Every base of a class counts, at any position of its list: the class has the
/// methods and fixtures that the base defines and its marks, it is a test case of
/// `unittest` where the base is, and its tests are multiplied where the base
/// multiplies them. A base that cannot be told leaves the class untold.
pub proof fn law_every_base_counts(
    k: KnowledgeView,
    m: ModuleView,
    class: ClassView,
    name: Seq<char>,
    i: int,
)
    requires
        one_module_a_path(k, m),
        class_has(k, m, class, name) is Ok,
        0 <= i < class.bases.len(),
    ensures
        ({
            let r = class_has(k, m, class, name)->Ok_0;
            let base = crate::symbols::base_target(k, m, class.bases[i]);
            &&& base is Ok
            &&& is_unittest_target(base) ==> r.unittest
            &&& base matches Ok(BaseView::Local(t, n)) ==> (crate::table::find(
                t.classes,
                n,
            ) matches Some(found) ==> (!crate::symbols::unittest_module_class(t, n) && (t.path, n)
                != (m.path, name) ==> takes_all(k, t, found, r) && (multiplies(found)
                ==> r.base_params)))
        }),
{
    let first = (m.path, name);
    first_in_bounds(k, m, first);
    inherited_counts(k, m, m, class, seq![first], first);
    let (r, after) = inherited(k, m, m, class, seq![first])->Ok_0;
    bases_are_told(k, m, m, class.bases, 0, own_of(m, class), seq![first], first, i);
    match crate::symbols::base_target(k, m, class.bases[i]) {
        Ok(BaseView::Local(t, n)) => {
            base_is_known(k, m, m, class.bases[i]);
            if !crate::symbols::unittest_module_class(t, n) && (t.path, n) != first {
                assert(is_base(k, m, class, t, n));
                assert(after.contains((t.path, n)));
                assert(!seq![first].contains((t.path, n)));
            }
        },
        _ => {},
    }
}

/// So does every class further up: a class has the methods, the fixtures and the
/// marks that any class on a way up through its bases defines, is a test case of
/// `unittest` where one of them is, and its tests are multiplied where one of
/// them multiplies them.
pub proof fn law_every_ancestor_counts(
    k: KnowledgeView,
    m: ModuleView,
    class: ClassView,
    name: Seq<char>,
    chain: Seq<(ModuleView, Seq<char>)>,
)
    requires
        one_module_a_path(k, m),
        class_has(k, m, class, name) is Ok,
        is_chain(k, m, class, chain),
        chain.len() > 0,
        forall|j: int|
            0 <= j < chain.len() ==> ((#[trigger] chain[j]).0.path, chain[j].1) != (m.path, name),
    ensures
        takes_all(
            k,
            chain.last().0,
            crate::table::find(chain.last().0.classes, chain.last().1)->0,
            class_has(k, m, class, name)->Ok_0,
        ),
        multiplies(crate::table::find(chain.last().0.classes, chain.last().1)->0) ==> class_has(
            k,
            m,
            class,
            name,
        )->Ok_0.base_params,
{
    let first = (m.path, name);
    first_in_bounds(k, m, first);
    inherited_counts(k, m, m, class, seq![first], first);
    let (r, after) = inherited(k, m, m, class, seq![first])->Ok_0;
    chain_counts(k, m, m, class, r, seq![first], after, chain);
}

/// A class has what it defines itself, and its own methods and fixtures win: one
/// of a name that it defines is its own, and no name stands twice.
pub proof fn law_own_methods_win(
    k: KnowledgeView,
    m: ModuleView,
    class: ClassView,
    name: Seq<char>,
)
    requires
        class_has(k, m, class, name) is Ok,
    ensures
        ({
            let methods = class_has(k, m, class, name)->Ok_0.methods;
            &&& forall|x: Seq<char>| #[trigger] defines(class, x) ==> has_method(methods, x)
            &&& forall|i: int|
                0 <= i < methods.len() && defines(class, (#[trigger] methods[i]).name)
                    ==> is_from(class, methods[i])
            &&& forall|i: int, j: int|
                0 <= i < j < methods.len() ==> (#[trigger] methods[i]).name != (
                #[trigger] methods[j]).name
        }),
        forall|x: Seq<char>|
            crate::table::find(class.fixtures, x) is Some ==> #[trigger] crate::table::find(
                class_has(k, m, class, name)->Ok_0.fixtures,
                x,
            ) == crate::table::find(class.fixtures, x),
{
    let own = own_of(m, class);
    let first = seq![(m.path, name)];
    own_is_defined(m, class, 0, Seq::empty());
    bases_add_behind(k, m, m, class.bases, 0, own, first);
    let methods = class_has(k, m, class, name)->Ok_0.methods;
    assert forall|x: Seq<char>| #[trigger] defines(class, x) implies has_method(methods, x) by {
        let i = choose|i: int|
            0 <= i < own.methods.len() && (#[trigger] own.methods[i]).name == x;
        assert(methods[i].name == x);
    }
    assert forall|i: int|
        0 <= i < methods.len() && defines(class, (#[trigger] methods[i]).name) implies is_from(
        class,
        methods[i],
    ) by {
        let x = methods[i].name;
        let o = choose|o: int|
            0 <= o < own.methods.len() && (#[trigger] own.methods[o]).name == x;
        assert(methods[o].name == x);
        assert(o == i) by {
            if o < i {
                assert(methods[o].name != methods[i].name);
            } else if i < o {
                assert(methods[i].name != methods[o].name);
            }
        }
        assert(is_from(class, own.methods[o]));
    }
}

/// A class invents no methods: each is one that the class or a class on a way up
/// through its bases defines.
pub proof fn law_methods_come_from_classes(
    k: KnowledgeView,
    m: ModuleView,
    class: ClassView,
    name: Seq<char>,
    i: int,
)
    requires
        class_has(k, m, class, name) matches Ok(r) && 0 <= i < r.methods.len(),
    ensures
        is_from(class, class_has(k, m, class, name)->Ok_0.methods[i]) || exists|
            chain: Seq<(ModuleView, Seq<char>)>,
        |
            #[trigger] is_chain(k, m, class, chain) && chain.len() > 0 && is_from(
                crate::table::find(chain.last().0.classes, chain.last().1)->0,
                class_has(k, m, class, name)->Ok_0.methods[i],
            ),
{
    let first = seq![(m.path, name)];
    inherited_is_sound(k, m, m, class, first);
    let r = inherited(k, m, m, class, first)->Ok_0.0;
    assert(comes_from(k, m, class, r.methods[i]));
}

/// Earlier bases win: what a class has from the first of its bases stands before
/// what the others add, and a further base takes nothing away.
pub proof fn law_further_bases_only_add(
    k: KnowledgeView,
    m: ModuleView,
    class: ClassView,
    name: Seq<char>,
    n: int,
)
    requires
        class_has(k, m, class, name) is Ok,
        0 <= n <= class.bases.len(),
    ensures
        ({
            let r = class_has(k, m, class, name)->Ok_0;
            let fewer = class_has(
                k,
                m,
                ClassView { bases: class.bases.take(n), ..class },
                name,
            );
            &&& fewer is Ok
            &&& fewer->Ok_0.methods.is_prefix_of(r.methods)
            &&& fewer->Ok_0.marks.is_prefix_of(r.marks)
            &&& fewer->Ok_0.unittest ==> r.unittest
            &&& fewer->Ok_0.base_params ==> r.base_params
        }),
{
    let short = ClassView { bases: class.bases.take(n), ..class };
    let first = seq![(m.path, name)];
    let own = own_of(m, class);
    own_ignores_bases(m, class, short, 0, Seq::empty());
    assert(own_of(m, short) == own);
    bases_in_turn(k, m, m, class.bases, n, 0, own, first);
    let (r1, v1) = bases_from(k, m, m, class.bases.take(n), 0, own, first)->Ok_0;
    if bases_from(k, m, m, class.bases, n, r1, v1) == bases_from(
        k,
        m,
        m,
        class.bases,
        0,
        own,
        first,
    ) {
        bases_add_behind(k, m, m, class.bases, n, r1, v1);
    } else {
        assert(r1.methods.subrange(0, r1.methods.len() as int) =~= r1.methods);
        assert(r1.marks.subrange(0, r1.marks.len() as int) =~= r1.marks);
    }
}

/// What a class has without any bases.
spec fn own_of(m: ModuleView, class: ClassView) -> ResolvedView {
    ResolvedView {
        methods: own_methods(m, class, 0, Seq::empty()),
        unittest: false,
        base_params: false,
        fixtures: class.fixtures,
        marks: class.marks,
    }
}

proof fn first_in_bounds(
    k: KnowledgeView,
    m: ModuleView,
    first: (Seq<Seq<char>>, Seq<char>),
)
    ensures
        in_bounds(k, m, seq![first], first),
{
    assert forall|key: (Seq<Seq<char>>, Seq<char>)| #[trigger] seq![first].contains(
        key,
    ) implies key == first || all_keys(k, m).contains(key) by {
        let c = choose|c: int| 0 <= c < seq![first].len() && seq![first][c] == key;
        assert(seq![first][c] == first);
    }
}

proof fn own_ignores_bases(
    m: ModuleView,
    class: ClassView,
    short: ClassView,
    i: int,
    out: Seq<TestDefView>,
)
    requires
        0 <= i,
        short.items == class.items,
        short.fixtures == class.fixtures,
    ensures
        own_methods(m, short, i, out) == own_methods(m, class, i, out),
    decreases class.items.len() - i,
{
    if i < class.items.len() {
        let next = match class.items[i] {
            ClassItemView::Method(def) => with_method(out, in_its_module(def, m, class.fixtures)),
            _ => out,
        };
        own_ignores_bases(m, class, short, i + 1, next);
    }
}

/// Does no name stand twice?
spec fn distinct(methods: Seq<TestDefView>) -> bool {
    forall|i: int, j: int|
        0 <= i < j < methods.len() ==> (#[trigger] methods[i]).name != (#[trigger] methods[j]).name
}

proof fn own_is_defined(m: ModuleView, class: ClassView, i: int, out: Seq<TestDefView>)
    requires
        0 <= i <= class.items.len(),
        distinct(out),
        forall|q: int| 0 <= q < out.len() ==> is_from(class, #[trigger] out[q]),
        forall|j: int|
            0 <= j < i ==> (#[trigger] class.items[j] matches ClassItemView::Method(def)
                ==> has_method(out, def.name)),
    ensures
        distinct(own_methods(m, class, i, out)),
        forall|q: int|
            0 <= q < own_methods(m, class, i, out).len() ==> is_from(
                class,
                #[trigger] own_methods(m, class, i, out)[q],
            ),
        forall|x: Seq<char>| #[trigger]
            defines(class, x) ==> has_method(own_methods(m, class, i, out), x),
    decreases class.items.len() - i,
{
    if i < class.items.len() {
        match class.items[i] {
            ClassItemView::Method(def) => {
                let here = in_its_module(def, m, class.fixtures);
                let next = with_method(out, here);
                assert(is_from(class, here));
                method_is_kept(out, here);
                own_is_defined(m, class, i + 1, next);
            },
            _ => {
                own_is_defined(m, class, i + 1, out);
            },
        }
    } else {
        assert forall|x: Seq<char>| #[trigger] defines(class, x) implies has_method(out, x) by {
            let j = choose|j: int|
                0 <= j < class.items.len() && (#[trigger] class.items[j] matches
                    ClassItemView::Method(def) && def.name == x);
            assert(class.items[j] matches ClassItemView::Method(def) ==> has_method(out, def.name));
        }
    }
}

proof fn method_is_kept(methods: Seq<TestDefView>, def: TestDefView)
    ensures
        has_method(with_method(methods, def), def.name),
        forall|x: Seq<char>| #[trigger]
            has_method(methods, x) ==> has_method(with_method(methods, def), x),
        distinct(methods) ==> distinct(with_method(methods, def)),
        methods.is_prefix_of(with_method(methods, def)),
{
    let next = with_method(methods, def);
    if !has_method(methods, def.name) {
        assert(next[methods.len() as int].name == def.name);
        assert forall|x: Seq<char>| #[trigger] has_method(methods, x) implies has_method(
            next,
            x,
        ) by {
            let i = choose|i: int| 0 <= i < methods.len() && (#[trigger] methods[i]).name == x;
            assert(next[i].name == x);
        }
    }
}

proof fn methods_are_kept(methods: Seq<TestDefView>, more: Seq<TestDefView>, i: int)
    requires
        0 <= i <= more.len(),
    ensures
        forall|x: Seq<char>| #[trigger]
            has_method(methods, x) ==> has_method(with_methods(methods, more, i), x),
        forall|j: int|
            i <= j < more.len() ==> has_method(
                with_methods(methods, more, i),
                (#[trigger] more[j]).name,
            ),
        distinct(methods) ==> distinct(with_methods(methods, more, i)),
        methods.is_prefix_of(with_methods(methods, more, i)),
        forall|q: int|
            0 <= q < with_methods(methods, more, i).len() ==> methods.contains(
                #[trigger] with_methods(methods, more, i)[q],
            ) || more.contains(with_methods(methods, more, i)[q]),
    decreases more.len() - i,
{
    if i < more.len() {
        let next = with_method(methods, more[i]);
        let all = with_methods(next, more, i + 1);
        method_is_kept(methods, more[i]);
        methods_are_kept(next, more, i + 1);
        assert(has_method(all, more[i].name));
        assert forall|q: int| 0 <= q < all.len() implies methods.contains(#[trigger] all[q])
            || more.contains(all[q]) by {
            if next.contains(all[q]) {
                let c = choose|c: int| 0 <= c < next.len() && next[c] == all[q];
                if c < methods.len() {
                    assert(methods[c] == all[q]);
                } else {
                    assert(more[i] == all[q]);
                }
            }
        }
        assert(methods.is_prefix_of(all)) by {
            assert(all.subrange(0, methods.len() as int) =~= next.subrange(
                0,
                methods.len() as int,
            ));
        }
    } else {
        assert forall|q: int| 0 <= q < methods.len() implies methods.contains(
            #[trigger] methods[q],
        ) by {}
        assert(methods.subrange(0, methods.len() as int) =~= methods);
    }
}

/// Does one class have at least what another one has?
spec fn grows(a: ResolvedView, b: ResolvedView) -> bool {
    &&& forall|x: Seq<char>| #[trigger] has_method(a.methods, x) ==> has_method(b.methods, x)
    &&& forall|x: Seq<char>| a.marks.contains(x) ==> #[trigger] b.marks.contains(x)
    &&& forall|x: Seq<char>|
        crate::table::find(a.fixtures, x) is Some ==> #[trigger] crate::table::find(
            b.fixtures,
            x,
        ) is Some
    &&& a.unittest ==> b.unittest
    &&& a.base_params ==> b.base_params
}

proof fn fixtures_are_kept(
    t: Seq<(Seq<char>, FixtureView)>,
    more: Seq<(Seq<char>, FixtureView)>,
    i: int,
    x: Seq<char>,
)
    requires
        0 <= i <= more.len(),
    ensures
        crate::table::find(t, x) is Some ==> crate::table::find(with_fixtures(t, more, i), x)
            == crate::table::find(t, x),
        crate::table::find(t, x) is None ==> crate::table::find(with_fixtures(t, more, i), x)
            == crate::table::find_from(more, x, i),
    decreases more.len() - i,
{
    if i < more.len() {
        let next = if crate::table::find(t, more[i].0) is Some {
            t
        } else {
            crate::table::put(t, more[i].0, more[i].1)
        };
        crate::table::law_find_after_put(t, more[i].0, more[i].1, x);
        fixtures_are_kept(next, more, i + 1, x);
    }
}

proof fn autouse_is_seen(class: ClassView)
    ensures
        multiplies(class) <==> !(class.expansion is Plain) || crate::fixtures::autouse_params(
            class.fixtures,
        ),
{
    if crate::fixtures::autouse_params(class.fixtures) {
        let i = choose|i: int|
            0 <= i < class.fixtures.len() && crate::fixtures::multiplies_all(
                #[trigger] class.fixtures[i].1,
            );
        assert(class.fixtures[i].1.autouse);
    }
    if exists|i: int|
        0 <= i < class.fixtures.len() && (#[trigger] class.fixtures[i]).1.autouse
            && class.fixtures[i].1.parametrized {
        let i = choose|i: int|
            0 <= i < class.fixtures.len() && (#[trigger] class.fixtures[i]).1.autouse
                && class.fixtures[i].1.parametrized;
        assert(crate::fixtures::multiplies_all(class.fixtures[i].1));
    }
}

proof fn base_is_taken(r: ResolvedView, base: ClassView, has: ResolvedView)
    ensures
        grows(r, with_base(r, base, has)),
        grows(has, with_base(r, base, has)),
        multiplies(base) ==> with_base(r, base, has).base_params,
{
    let both = with_base(r, base, has);
    autouse_is_seen(base);
    assert forall|x: Seq<char>|
        crate::table::find(r.fixtures, x) is Some || crate::table::find(
            has.fixtures,
            x,
        ) is Some implies #[trigger] crate::table::find(both.fixtures, x) is Some by {
        fixtures_are_kept(r.fixtures, has.fixtures, 0, x);
    }
    methods_are_kept(r.methods, has.methods, 0);
    assert forall|x: Seq<char>| #[trigger] has_method(has.methods, x) implies has_method(
        both.methods,
        x,
    ) by {
        let i = choose|i: int| 0 <= i < has.methods.len() && (#[trigger] has.methods[i]).name == x;
    }
    assert forall|x: Seq<char>| r.marks.contains(x) || has.marks.contains(x) implies
        #[trigger] both.marks.contains(x) by {
        if r.marks.contains(x) {
            assert(both.marks[r.marks.index_of(x)] == x);
        } else {
            assert(both.marks[r.marks.len() + has.marks.index_of(x)] == x);
        }
    }
}

/// Has a class been taken up, and are its bases visited?
spec fn counted(
    k: KnowledgeView,
    m: ModuleView,
    class: ClassView,
    r: ResolvedView,
    after: Seq<(Seq<Seq<char>>, Seq<char>)>,
) -> bool {
    &&& takes_all(k, m, class, r)
    &&& forall|t: ModuleView, n: Seq<char>| #[trigger]
        is_base(k, m, class, t, n) ==> after.contains((t.path, n))
}

proof fn counted_stays(
    k: KnowledgeView,
    m: ModuleView,
    class: ClassView,
    r: ResolvedView,
    after: Seq<(Seq<Seq<char>>, Seq<char>)>,
    r2: ResolvedView,
    after2: Seq<(Seq<Seq<char>>, Seq<char>)>,
)
    requires
        counted(k, m, class, r, after),
        grows(r, r2),
        forall|key: (Seq<Seq<char>>, Seq<char>)| #[trigger]
            after.contains(key) ==> after2.contains(key),
    ensures
        counted(k, m, class, r2, after2),
{
    assert forall|x: Seq<char>| class.marks.contains(x) implies #[trigger] r2.marks.contains(x) by {
        assert(r.marks.contains(x));
    }
    assert forall|x: Seq<char>| crate::table::find(class.fixtures, x) is Some implies
        #[trigger] crate::table::find(r2.fixtures, x) is Some by {
        assert(crate::table::find(r.fixtures, x) is Some);
    }
}

/// Have all classes that were visited since been taken up?
spec fn settled(
    k: KnowledgeView,
    root: ModuleView,
    r: ResolvedView,
    before: Seq<(Seq<Seq<char>>, Seq<char>)>,
    after: Seq<(Seq<Seq<char>>, Seq<char>)>,
) -> bool {
    forall|t: ModuleView, n: Seq<char>|
        #![trigger is_known(k, root, t), after.contains((t.path, n))]
        is_known(k, root, t) && crate::table::find(t.classes, n) is Some && after.contains(
            (t.path, n),
        ) && !before.contains((t.path, n)) ==> counted(
            k,
            t,
            crate::table::find(t.classes, n)->0,
            r,
            after,
        ) && (multiplies(crate::table::find(t.classes, n)->0) ==> r.base_params)
}

proof fn inherited_counts(
    k: KnowledgeView,
    root: ModuleView,
    m: ModuleView,
    class: ClassView,
    visited: Seq<(Seq<Seq<char>>, Seq<char>)>,
    first: (Seq<Seq<char>>, Seq<char>),
)
    requires
        one_module_a_path(k, root),
        is_known(k, root, m),
        in_bounds(k, root, visited, first),
        inherited(k, root, m, class, visited) is Ok,
    ensures
        ({
            let (r, after) = inherited(k, root, m, class, visited)->Ok_0;
            &&& counted(k, m, class, r, after)
            &&& settled(k, root, r, visited, after)
            &&& forall|key: (Seq<Seq<char>>, Seq<char>)| #[trigger]
                visited.contains(key) ==> after.contains(key)
            &&& in_bounds(k, root, after, first)
            &&& visited.len() <= after.len()
        }),
    decreases most(k, root) - visited.len(), 1int, 0int,
{
    let own = own_of(m, class);
    own_is_defined(m, class, 0, Seq::empty());
    bases_count(k, root, m, class, 0, own, visited, visited, first);
}

/// Do the first of the bases count?
spec fn counted_to(
    k: KnowledgeView,
    m: ModuleView,
    class: ClassView,
    i: int,
    r: ResolvedView,
    after: Seq<(Seq<Seq<char>>, Seq<char>)>,
) -> bool {
    &&& forall|x: Seq<char>| #[trigger] defines(class, x) ==> has_method(r.methods, x)
    &&& forall|x: Seq<char>| class.marks.contains(x) ==> #[trigger] r.marks.contains(x)
    &&& forall|x: Seq<char>|
        crate::table::find(class.fixtures, x) is Some ==> #[trigger] crate::table::find(
            r.fixtures,
            x,
        ) is Some
    &&& forall|j: int|
        0 <= j < i && is_unittest_target(
            crate::symbols::base_target(k, m, #[trigger] class.bases[j]),
        ) ==> r.unittest
    &&& forall|j: int|
        0 <= j < i ==> (crate::symbols::base_target(k, m, #[trigger] class.bases[j]) matches Ok(
            BaseView::Local(t, n),
        ) ==> (!crate::symbols::unittest_module_class(t, n) && crate::table::find(
            t.classes,
            n,
        ) is Some ==> after.contains((t.path, n))))
}

proof fn bases_count(
    k: KnowledgeView,
    root: ModuleView,
    m: ModuleView,
    class: ClassView,
    i: int,
    r: ResolvedView,
    visited: Seq<(Seq<Seq<char>>, Seq<char>)>,
    start: Seq<(Seq<Seq<char>>, Seq<char>)>,
    first: (Seq<Seq<char>>, Seq<char>),
)
    requires
        one_module_a_path(k, root),
        0 <= i <= class.bases.len(),
        is_known(k, root, m),
        in_bounds(k, root, visited, first),
        bases_from(k, root, m, class.bases, i, r, visited) is Ok,
        counted_to(k, m, class, i, r, visited),
        settled(k, root, r, start, visited),
        forall|key: (Seq<Seq<char>>, Seq<char>)| #[trigger]
            start.contains(key) ==> visited.contains(key),
    ensures
        ({
            let (all, after) = bases_from(k, root, m, class.bases, i, r, visited)->Ok_0;
            &&& counted(k, m, class, all, after)
            &&& settled(k, root, all, start, after)
            &&& forall|key: (Seq<Seq<char>>, Seq<char>)| #[trigger]
                start.contains(key) ==> after.contains(key)
            &&& in_bounds(k, root, after, first)
            &&& visited.len() <= after.len()
        }),
    decreases most(k, root) - visited.len(), 0int, class.bases.len() - i,
{
    let bases = class.bases;
    if i < bases.len() {
        base_is_known(k, root, m, bases[i]);
        match crate::symbols::base_target(k, m, bases[i])->Ok_0 {
            BaseView::Unittest => {
                let next = ResolvedView { unittest: true, ..r };
                settled_stays(k, root, r, next, start, visited);
                bases_count(k, root, m, class, i + 1, next, visited, start, first);
            },
            BaseView::Unknown => {
                bases_count(k, root, m, class, i + 1, r, visited, start, first);
            },
            BaseView::Local(target, name) => {
                let key = (target.path, name);
                if crate::symbols::unittest_module_class(target, name) {
                    let next = ResolvedView { unittest: true, ..r };
                    settled_stays(k, root, r, next, start, visited);
                    bases_count(k, root, m, class, i + 1, next, visited, start, first);
                } else if visited.contains(key) {
                    bases_count(k, root, m, class, i + 1, r, visited, start, first);
                } else {
                    key_is_known(k, root, target, name);
                    visit_one_more(k, root, visited, first, key);
                    let pushed = visited.push(key);
                    let base = crate::table::find(target.classes, name)->0;
                    inherited_counts(k, root, target, base, pushed, first);
                    let (has, after) = inherited(k, root, target, base, pushed)->Ok_0;
                    bounded(k, root, after, first);
                    let next = with_base(r, base, has);
                    base_is_taken(r, base, has);
                    assert(pushed[visited.len() as int] == key);
                    assert(pushed.contains(key));
                    assert forall|x: (Seq<Seq<char>>, Seq<char>)| #[trigger] visited.contains(
                        x,
                    ) implies after.contains(x) by {
                        let c = visited.index_of(x);
                        assert(pushed[c] == x);
                        assert(pushed.contains(x));
                    }
                    assert(settled(k, root, next, start, after)) by {
                        assert forall|t: ModuleView, n: Seq<char>|
                            #![trigger is_known(k, root, t), after.contains((t.path, n))]
                            is_known(k, root, t) && crate::table::find(t.classes, n) is Some
                                && after.contains((t.path, n)) && !start.contains(
                                (t.path, n),
                            ) implies counted(
                            k,
                            t,
                            crate::table::find(t.classes, n)->0,
                            next,
                            after,
                        ) && (multiplies(crate::table::find(t.classes, n)->0)
                            ==> next.base_params) by {
                            let c = crate::table::find(t.classes, n)->0;
                            if visited.contains((t.path, n)) {
                                counted_stays(k, t, c, r, visited, next, after);
                            } else if (t.path, n) == key {
                                assert(t == target);
                                counted_stays(k, t, c, has, after, next, after);
                            } else {
                                assert(!pushed.contains((t.path, n))) by {
                                    if pushed.contains((t.path, n)) {
                                        let at = pushed.index_of((t.path, n));
                                        assert(at < visited.len());
                                        assert(visited[at] == (t.path, n));
                                    }
                                }
                                counted_stays(k, t, c, has, after, next, after);
                            }
                        }
                    }
                    assert(counted_to(k, m, class, i + 1, next, after)) by {
                        assert forall|x: Seq<char>| class.marks.contains(x) implies
                            #[trigger] next.marks.contains(x) by {
                            assert(r.marks.contains(x));
                        }
                        assert forall|x: Seq<char>|
                            crate::table::find(class.fixtures, x) is Some implies
                            #[trigger] crate::table::find(next.fixtures, x) is Some by {
                            assert(crate::table::find(r.fixtures, x) is Some);
                        }
                    }
                    bases_count(k, root, m, class, i + 1, next, after, start, first);
                }
            },
        }
    }
}

proof fn settled_stays(
    k: KnowledgeView,
    root: ModuleView,
    r: ResolvedView,
    next: ResolvedView,
    start: Seq<(Seq<Seq<char>>, Seq<char>)>,
    visited: Seq<(Seq<Seq<char>>, Seq<char>)>,
)
    requires
        settled(k, root, r, start, visited),
        grows(r, next),
    ensures
        settled(k, root, next, start, visited),
{
    assert forall|t: ModuleView, n: Seq<char>|
        #![trigger is_known(k, root, t), visited.contains((t.path, n))]
        is_known(k, root, t) && crate::table::find(t.classes, n) is Some && visited.contains(
            (t.path, n),
        ) && !start.contains((t.path, n)) implies counted(
        k,
        t,
        crate::table::find(t.classes, n)->0,
        next,
        visited,
    ) && (multiplies(crate::table::find(t.classes, n)->0) ==> next.base_params) by {
        let c = crate::table::find(t.classes, n)->0;
        counted_stays(k, t, c, r, visited, next, visited);
    }
}

proof fn bases_are_told(
    k: KnowledgeView,
    root: ModuleView,
    m: ModuleView,
    bases: Seq<Seq<char>>,
    i: int,
    r: ResolvedView,
    visited: Seq<(Seq<Seq<char>>, Seq<char>)>,
    first: (Seq<Seq<char>>, Seq<char>),
    j: int,
)
    requires
        one_module_a_path(k, root),
        is_known(k, root, m),
        in_bounds(k, root, visited, first),
        0 <= i <= j < bases.len(),
        bases_from(k, root, m, bases, i, r, visited) is Ok,
    ensures
        crate::symbols::base_target(k, m, bases[j]) is Ok,
    decreases bases.len() - i,
{
    base_is_known(k, root, m, bases[i]);
    if i < j {
        match crate::symbols::base_target(k, m, bases[i])->Ok_0 {
            BaseView::Unittest => {
                let next = ResolvedView { unittest: true, ..r };
                bases_are_told(k, root, m, bases, i + 1, next, visited, first, j);
            },
            BaseView::Unknown => {
                bases_are_told(k, root, m, bases, i + 1, r, visited, first, j);
            },
            BaseView::Local(target, name) => {
                let key = (target.path, name);
                if crate::symbols::unittest_module_class(target, name) {
                    let next = ResolvedView { unittest: true, ..r };
                    bases_are_told(k, root, m, bases, i + 1, next, visited, first, j);
                } else if visited.contains(key) {
                    bases_are_told(k, root, m, bases, i + 1, r, visited, first, j);
                } else {
                    key_is_known(k, root, target, name);
                    visit_one_more(k, root, visited, first, key);
                    let pushed = visited.push(key);
                    let base = crate::table::find(target.classes, name)->0;
                    inherited_counts(k, root, target, base, pushed, first);
                    let (has, after) = inherited(k, root, target, base, pushed)->Ok_0;
                    bounded(k, root, after, first);
                    let next = with_base(r, base, has);
                    bases_are_told(k, root, m, bases, i + 1, next, after, first, j);
                }
            },
        }
    }
}

proof fn chain_counts(
    k: KnowledgeView,
    root: ModuleView,
    m: ModuleView,
    class: ClassView,
    r: ResolvedView,
    start: Seq<(Seq<Seq<char>>, Seq<char>)>,
    after: Seq<(Seq<Seq<char>>, Seq<char>)>,
    chain: Seq<(ModuleView, Seq<char>)>,
)
    requires
        is_known(k, root, m),
        counted(k, m, class, r, after),
        settled(k, root, r, start, after),
        is_chain(k, m, class, chain),
        chain.len() > 0,
        forall|j: int|
            0 <= j < chain.len() ==> !start.contains(((#[trigger] chain[j]).0.path, chain[j].1)),
    ensures
        takes_all(
            k,
            chain.last().0,
            crate::table::find(chain.last().0.classes, chain.last().1)->0,
            r,
        ),
        multiplies(crate::table::find(chain.last().0.classes, chain.last().1)->0)
            ==> r.base_params,
    decreases chain.len(),
{
    let (t, n) = chain[0];
    let base = crate::table::find(t.classes, n)->0;
    assert(is_base(k, m, class, t, n));
    let i = choose|i: int|
        0 <= i < class.bases.len() && crate::symbols::base_target(k, m, #[trigger] class.bases[i])
            == Ok::<BaseView, QueryView>(BaseView::Local(t, n));
    base_is_known(k, root, m, class.bases[i]);
    assert(after.contains((t.path, n)));
    assert(!start.contains((t.path, n)));
    assert(counted(k, t, base, r, after));
    let rest = chain.skip(1);
    if rest.len() > 0 {
        assert forall|j: int| 0 <= j < rest.len() implies !start.contains(
            ((#[trigger] rest[j]).0.path, rest[j].1),
        ) by {
            assert(rest[j] == chain[j + 1]);
        }
        chain_counts(k, root, t, base, r, start, after, rest);
        assert(rest.last() == chain.last());
    }
}

proof fn bases_add_behind(
    k: KnowledgeView,
    root: ModuleView,
    m: ModuleView,
    bases: Seq<Seq<char>>,
    i: int,
    r: ResolvedView,
    visited: Seq<(Seq<Seq<char>>, Seq<char>)>,
)
    requires
        0 <= i,
        bases_from(k, root, m, bases, i, r, visited) is Ok,
    ensures
        ({
            let all = bases_from(k, root, m, bases, i, r, visited)->Ok_0.0;
            &&& r.methods.is_prefix_of(all.methods)
            &&& r.marks.is_prefix_of(all.marks)
            &&& r.unittest ==> all.unittest
            &&& r.base_params ==> all.base_params
            &&& distinct(r.methods) ==> distinct(all.methods)
            &&& forall|x: Seq<char>|
                crate::table::find(r.fixtures, x) is Some ==> #[trigger] crate::table::find(
                    all.fixtures,
                    x,
                ) == crate::table::find(r.fixtures, x)
        }),
    decreases most(k, root) - visited.len(), 0int, bases.len() - i,
{
    let all = bases_from(k, root, m, bases, i, r, visited)->Ok_0.0;
    if i < bases.len() {
        match crate::symbols::base_target(k, m, bases[i])->Ok_0 {
            BaseView::Unittest => {
                let next = ResolvedView { unittest: true, ..r };
                bases_add_behind(k, root, m, bases, i + 1, next, visited);
            },
            BaseView::Unknown => {
                bases_add_behind(k, root, m, bases, i + 1, r, visited);
            },
            BaseView::Local(target, name) => {
                let key = (target.path, name);
                if crate::symbols::unittest_module_class(target, name) {
                    let next = ResolvedView { unittest: true, ..r };
                    bases_add_behind(k, root, m, bases, i + 1, next, visited);
                } else if visited.contains(key) || visited.len() >= most(k, root) {
                    bases_add_behind(k, root, m, bases, i + 1, r, visited);
                } else {
                    match crate::table::find(target.classes, name) {
                        None => bases_add_behind(k, root, m, bases, i + 1, r, visited),
                        Some(base) => {
                            let pushed = visited.push(key);
                            let (has, after) = inherited(k, root, target, base, pushed)->Ok_0;
                            if visited.len() < after.len() <= most(k, root) {
                                let next = with_base(r, base, has);
                                methods_are_kept(r.methods, has.methods, 0);
                                bases_add_behind(k, root, m, bases, i + 1, next, after);
                                prefix_of_prefix(r.methods, next.methods, all.methods);
                                assert(r.marks.is_prefix_of(next.marks));
                                prefix_of_prefix(r.marks, next.marks, all.marks);
                                assert forall|x: Seq<char>|
                                    crate::table::find(r.fixtures, x) is Some implies
                                    #[trigger] crate::table::find(all.fixtures, x)
                                    == crate::table::find(r.fixtures, x) by {
                                    fixtures_are_kept(r.fixtures, has.fixtures, 0, x);
                                }
                            }
                        },
                    }
                }
            },
        }
    }
}

proof fn prefix_of_prefix<T>(a: Seq<T>, b: Seq<T>, c: Seq<T>)
    requires
        a.is_prefix_of(b),
        b.is_prefix_of(c),
    ensures
        a.is_prefix_of(c),
{
    assert(a =~= c.subrange(0, a.len() as int)) by {
        assert forall|i: int| 0 <= i < a.len() implies a[i] == c[i] by {
            assert(b.subrange(0, a.len() as int)[i] == b[i]);
            assert(c.subrange(0, b.len() as int)[i] == c[i]);
        }
    }
}

proof fn bases_in_turn(
    k: KnowledgeView,
    root: ModuleView,
    m: ModuleView,
    bases: Seq<Seq<char>>,
    n: int,
    i: int,
    r: ResolvedView,
    visited: Seq<(Seq<Seq<char>>, Seq<char>)>,
)
    requires
        0 <= i <= n <= bases.len(),
        bases_from(k, root, m, bases, i, r, visited) is Ok,
    ensures
        bases_from(k, root, m, bases.take(n), i, r, visited) is Ok,
        ({
            let (r1, v1) = bases_from(k, root, m, bases.take(n), i, r, visited)->Ok_0;
            bases_from(k, root, m, bases, i, r, visited) == bases_from(
                k,
                root,
                m,
                bases,
                n,
                r1,
                v1,
            ) || bases_from(k, root, m, bases, i, r, visited) == Ok::<
                (ResolvedView, Seq<(Seq<Seq<char>>, Seq<char>)>),
                QueryView,
            >((r1, v1))
        }),
    decreases most(k, root) - visited.len(), 0int, bases.len() - i,
{
    if i < n {
        assert(bases.take(n)[i] == bases[i]);
        match crate::symbols::base_target(k, m, bases[i])->Ok_0 {
            BaseView::Unittest => {
                let next = ResolvedView { unittest: true, ..r };
                bases_in_turn(k, root, m, bases, n, i + 1, next, visited);
            },
            BaseView::Unknown => {
                bases_in_turn(k, root, m, bases, n, i + 1, r, visited);
            },
            BaseView::Local(target, name) => {
                let key = (target.path, name);
                if crate::symbols::unittest_module_class(target, name) {
                    let next = ResolvedView { unittest: true, ..r };
                    bases_in_turn(k, root, m, bases, n, i + 1, next, visited);
                } else if visited.contains(key) || visited.len() >= most(k, root) {
                    bases_in_turn(k, root, m, bases, n, i + 1, r, visited);
                } else {
                    match crate::table::find(target.classes, name) {
                        None => bases_in_turn(k, root, m, bases, n, i + 1, r, visited),
                        Some(base) => {
                            let pushed = visited.push(key);
                            let (has, after) = inherited(k, root, target, base, pushed)->Ok_0;
                            if visited.len() < after.len() <= most(k, root) {
                                let next = with_base(r, base, has);
                                bases_in_turn(k, root, m, bases, n, i + 1, next, after);
                            }
                        },
                    }
                }
            },
        }
    }
}

/// Is it a method of a class or of a class on a way up through its bases?
spec fn comes_from(k: KnowledgeView, m: ModuleView, class: ClassView, q: TestDefView) -> bool {
    is_from(class, q) || exists|chain: Seq<(ModuleView, Seq<char>)>| #[trigger]
        is_chain(k, m, class, chain) && chain.len() > 0 && is_from(
            crate::table::find(chain.last().0.classes, chain.last().1)->0,
            q,
        )
}

proof fn inherited_is_sound(
    k: KnowledgeView,
    root: ModuleView,
    m: ModuleView,
    class: ClassView,
    visited: Seq<(Seq<Seq<char>>, Seq<char>)>,
)
    requires
        inherited(k, root, m, class, visited) is Ok,
    ensures
        forall|q: int|
            0 <= q < inherited(k, root, m, class, visited)->Ok_0.0.methods.len() ==> comes_from(
                k,
                m,
                class,
                #[trigger] inherited(k, root, m, class, visited)->Ok_0.0.methods[q],
            ),
    decreases most(k, root) - visited.len(), 1int, 0int,
{
    own_is_defined(m, class, 0, Seq::empty());
    let own = own_of(m, class);
    assert forall|q: int| 0 <= q < own.methods.len() implies comes_from(
        k,
        m,
        class,
        #[trigger] own.methods[q],
    ) by {}
    bases_are_sound(k, root, m, class, 0, own, visited);
}

proof fn bases_are_sound(
    k: KnowledgeView,
    root: ModuleView,
    m: ModuleView,
    class: ClassView,
    i: int,
    r: ResolvedView,
    visited: Seq<(Seq<Seq<char>>, Seq<char>)>,
)
    requires
        0 <= i,
        bases_from(k, root, m, class.bases, i, r, visited) is Ok,
        forall|q: int| 0 <= q < r.methods.len() ==> comes_from(k, m, class, #[trigger] r.methods[q]),
    ensures
        forall|q: int|
            0 <= q < bases_from(k, root, m, class.bases, i, r, visited)->Ok_0.0.methods.len()
                ==> comes_from(
                k,
                m,
                class,
                #[trigger] bases_from(k, root, m, class.bases, i, r, visited)->Ok_0.0.methods[q],
            ),
    decreases most(k, root) - visited.len(), 0int, class.bases.len() - i,
{
    let bases = class.bases;
    if i < bases.len() {
        match crate::symbols::base_target(k, m, bases[i])->Ok_0 {
            BaseView::Unittest => {
                let next = ResolvedView { unittest: true, ..r };
                bases_are_sound(k, root, m, class, i + 1, next, visited);
            },
            BaseView::Unknown => {
                bases_are_sound(k, root, m, class, i + 1, r, visited);
            },
            BaseView::Local(target, name) => {
                let key = (target.path, name);
                if crate::symbols::unittest_module_class(target, name) {
                    let next = ResolvedView { unittest: true, ..r };
                    bases_are_sound(k, root, m, class, i + 1, next, visited);
                } else if visited.contains(key) || visited.len() >= most(k, root) {
                    bases_are_sound(k, root, m, class, i + 1, r, visited);
                } else {
                    match crate::table::find(target.classes, name) {
                        None => bases_are_sound(k, root, m, class, i + 1, r, visited),
                        Some(base) => {
                            let pushed = visited.push(key);
                            let (has, after) = inherited(k, root, target, base, pushed)->Ok_0;
                            if visited.len() < after.len() <= most(k, root) {
                                let next = with_base(r, base, has);
                                inherited_is_sound(k, root, target, base, pushed);
                                methods_are_kept(r.methods, has.methods, 0);
                                assert(is_base(k, m, class, target, name));
                                assert forall|q: int| 0 <= q < next.methods.len() implies
                                    comes_from(k, m, class, #[trigger] next.methods[q]) by {
                                    let x = next.methods[q];
                                    if r.methods.contains(x) {
                                        let c = r.methods.index_of(x);
                                        assert(comes_from(k, m, class, r.methods[c]));
                                    } else {
                                        let c = has.methods.index_of(x);
                                        assert(comes_from(k, target, base, has.methods[c]));
                                        comes_from_base(k, m, class, target, name, x);
                                    }
                                }
                                bases_are_sound(k, root, m, class, i + 1, next, after);
                            }
                        },
                    }
                }
            },
        }
    }
}

proof fn comes_from_base(
    k: KnowledgeView,
    m: ModuleView,
    class: ClassView,
    target: ModuleView,
    name: Seq<char>,
    q: TestDefView,
)
    requires
        is_base(k, m, class, target, name),
        comes_from(k, target, crate::table::find(target.classes, name)->0, q),
    ensures
        comes_from(k, m, class, q),
{
    let base = crate::table::find(target.classes, name)->0;
    let one = seq![(target, name)];
    if is_from(base, q) {
        assert(one.skip(1) =~= Seq::empty());
        assert(is_chain(k, target, base, one.skip(1)));
        assert(is_chain(k, m, class, one));
        assert(one.last() == (target, name));
    } else {
        let chain = choose|chain: Seq<(ModuleView, Seq<char>)>| #[trigger]
            is_chain(k, target, base, chain) && chain.len() > 0 && is_from(
                crate::table::find(chain.last().0.classes, chain.last().1)->0,
                q,
            );
        let longer = one + chain;
        assert(longer.skip(1) =~= chain);
        assert(longer[0] == (target, name));
        assert(is_chain(k, m, class, longer));
        assert(longer.last() == chain.last());
    }
}

/// A method with parameters falls back where a hook in its module generates
/// tests, or where it requests a fixture with parameters of its class or module;
/// else it stays as it is defined, and one without parameters always does.
pub proof fn law_where_methods_fall_back(
    def: TestDefView,
    m: ModuleView,
    fixtures: Seq<(Seq<char>, FixtureView)>,
)
    ensures
        ({
            let here = in_its_module(def, m, fixtures);
            let asked = crate::fixtures::requests_params(seq![fixtures, m.fixtures], def);
            &&& here == (TestDefView { expansion: here.expansion, ..def })
            &&& def.expansion is Plain ==> here == def
            &&& !m.has_generate_tests && !asked ==> here == def
            &&& !(def.expansion is Plain) && (m.has_generate_tests || asked)
                ==> here.expansion is Fallback
        }),
{
}

} // verus!
