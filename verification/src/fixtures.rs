//! Which fixtures a test requests, and whether one of them multiplies it.

use vstd::prelude::*;

use crate::graph::{closure, Graph};
use crate::model::{Fixture, FixtureView, Fixtures, TestDef, TestDefView};
use crate::text::{self, same};

verus! {

broadcast use crate::text::group_deep;

/// A fixture that applies to every test in scope and multiplies it.
pub open spec fn multiplies_all(f: FixtureView) -> bool {
    f.autouse && f.parametrized
}

/// A parametrized autouse fixture parametrizes every test in its scope.
pub open spec fn autouse_params(fixtures: Seq<(Seq<char>, FixtureView)>) -> bool {
    exists|i: int| 0 <= i < fixtures.len() && multiplies_all(#[trigger] fixtures[i].1)
}

/// A parametrized autouse fixture parametrizes every test in its scope.
pub fn has_autouse_params(fixtures: &Fixtures) -> (r: bool)
    ensures
        r == autouse_params(fixtures@),
{
    let mut i: usize = 0;
    while i < fixtures.entries.len()
        invariant
            i <= fixtures.entries.len(),
            forall|j: int| 0 <= j < i ==> !multiplies_all(#[trigger] fixtures@[j].1),
        decreases fixtures.entries.len() - i,
    {
        if fixtures.entries[i].1.autouse && fixtures.entries[i].1.parametrized {
            proof {
                assert(multiplies_all(fixtures@[i as int].1));
            }
            return true;
        }
        i += 1;
    }
    false
}

/// The fixture that a name stands for: that of the first table from position
/// `i` on that has one.
pub open spec fn visible(
    tables: Seq<Seq<(Seq<char>, FixtureView)>>,
    name: Seq<char>,
    i: int,
) -> Option<FixtureView>
    decreases tables.len() - i,
{
    if i < 0 || i >= tables.len() {
        None
    } else {
        match crate::table::find(tables[i], name) {
            Some(f) => Some(f),
            None => visible(tables, name, i + 1),
        }
    }
}

/// A parameter that is no fixture of the project.
pub open spec fn is_builtin(name: Seq<char>) -> bool {
    name == "self"@ || name == "cls"@ || name == "request"@
}

/// The backend fixtures of the anyio plugin, which the plugin parametrizes.
pub open spec fn is_anyio(name: Seq<char>) -> bool {
    name == "anyio_backend"@ || name == "anyio_backend_name"@ || name == "anyio_backend_options"@
}

/// The names of a list from position `i` on that are no builtins and not in
/// `claimed`, behind those in `out`.
pub open spec fn requests_from(
    names: Seq<Seq<char>>,
    claimed: Seq<Seq<char>>,
    i: int,
    out: Seq<Seq<char>>,
) -> Seq<Seq<char>>
    decreases names.len() - i,
{
    if i < 0 || i >= names.len() {
        out
    } else {
        requests_from(
            names,
            claimed,
            i + 1,
            if is_builtin(names[i]) || claimed.contains(names[i]) {
                out
            } else {
                out.push(names[i])
            },
        )
    }
}

/// The names of a list that are no builtins and not in `claimed`.
pub open spec fn requests(names: Seq<Seq<char>>, claimed: Seq<Seq<char>>) -> Seq<Seq<char>> {
    requests_from(names, claimed, 0, Seq::empty())
}

fn requested(names: &Vec<String>, claimed: &Vec<String>) -> (r: Vec<String>)
    ensures
        text::deep(r@) == requests(text::deep(names@), text::deep(claimed@)),
{
    let ghost ns = text::deep(names@);
    let ghost cs = text::deep(claimed@);
    let mut out: Vec<String> = Vec::new();
    let mut i: usize = 0;
    while i < names.len()
        invariant
            i <= names.len(),
            ns == text::deep(names@),
            cs == text::deep(claimed@),
            requests_from(ns, cs, i as int, text::deep(out@)) == requests(ns, cs),
        decreases names.len() - i,
    {
        let n: &str = names[i].as_str();
        if !(same(n, "self") || same(n, "cls") || same(n, "request") || text::is_in(claimed, n)) {
            out.push(names[i].clone());
        }
        i += 1;
    }
    out
}

proof fn requests_are_names(
    names: Seq<Seq<char>>,
    claimed: Seq<Seq<char>>,
    i: int,
    out: Seq<Seq<char>>,
    m: Seq<char>,
)
    requires
        0 <= i <= names.len(),
        requests_from(names, claimed, i, out).contains(m),
    ensures
        out.contains(m) || names.contains(m),
    decreases names.len() - i,
{
    if i < names.len() {
        let next = if is_builtin(names[i]) || claimed.contains(names[i]) {
            out
        } else {
            out.push(names[i])
        };
        requests_are_names(names, claimed, i + 1, next, m);
        if next.contains(m) && !out.contains(m) {
            let k = choose|k: int| 0 <= k < next.len() && next[k] == m;
            if k < out.len() {
                assert(out[k] == m);
            }
            assert(names[i] == m);
        }
    }
}

/// The fixtures that are in scope of a test: the tables of its classes and
/// modules, nearest first.
pub struct Scope<'a> {
    pub tables: Vec<&'a Fixtures>,
}

impl<'a> View for Scope<'a> {
    type V = Seq<Seq<(Seq<char>, FixtureView)>>;

    open spec fn view(&self) -> Seq<Seq<(Seq<char>, FixtureView)>> {
        text::deep(self.tables@)
    }
}

/// The names that the fixtures of a table from position `j` on request, behind
/// those in `out`.
pub open spec fn deps_in(
    table: Seq<(Seq<char>, FixtureView)>,
    j: int,
    out: Seq<Seq<char>>,
) -> Seq<Seq<char>>
    decreases table.len() - j,
{
    if j < 0 || j >= table.len() {
        out
    } else {
        deps_in(table, j + 1, out + table[j].1.deps)
    }
}

/// The names that the fixtures of the tables from position `i` on request.
pub open spec fn all_deps(tables: Seq<Seq<(Seq<char>, FixtureView)>>, i: int) -> Seq<Seq<char>>
    decreases tables.len() - i,
{
    if i < 0 || i >= tables.len() {
        Seq::empty()
    } else {
        deps_in(tables[i], 0, Seq::empty()) + all_deps(tables, i + 1)
    }
}

proof fn deps_in_has(
    table: Seq<(Seq<char>, FixtureView)>,
    j: int,
    out: Seq<Seq<char>>,
    name: Seq<char>,
    m: Seq<char>,
)
    requires
        0 <= j,
        out.contains(m) || (crate::table::find_from(table, name, j) matches Some(f)
            && f.deps.contains(m)),
    ensures
        deps_in(table, j, out).contains(m),
    decreases table.len() - j,
{
    if j < table.len() {
        let next = out + table[j].1.deps;
        if out.contains(m) {
            let k = choose|k: int| 0 <= k < out.len() && out[k] == m;
            assert(next[k] == m);
        } else if table[j].0 == name {
            let ds = table[j].1.deps;
            let k = choose|k: int| 0 <= k < ds.len() && ds[k] == m;
            assert(next[out.len() + k] == m);
        }
        deps_in_has(table, j + 1, next, name, m);
    }
}

proof fn all_deps_has(
    tables: Seq<Seq<(Seq<char>, FixtureView)>>,
    i: int,
    name: Seq<char>,
    m: Seq<char>,
)
    requires
        0 <= i,
        visible(tables, name, i) matches Some(f) && f.deps.contains(m),
    ensures
        all_deps(tables, i).contains(m),
    decreases tables.len() - i,
{
    if i < tables.len() {
        let here = deps_in(tables[i], 0, Seq::empty());
        let there = all_deps(tables, i + 1);
        let both = here + there;
        if crate::table::find(tables[i], name) is Some {
            deps_in_has(tables[i], 0, Seq::empty(), name, m);
            let k = choose|k: int| 0 <= k < here.len() && here[k] == m;
            assert(both[k] == m);
        } else {
            all_deps_has(tables, i + 1, name, m);
            let k = choose|k: int| 0 <= k < there.len() && there[k] == m;
            assert(both[here.len() + k] == m);
        }
    }
}

impl<'a> Scope<'a> {
    /// The fixture that a name stands for.
    fn lookup(&self, name: &str) -> (r: Option<&Fixture>)
        ensures
            text::opt(r) == visible(self@, name@, 0),
    {
        let mut i: usize = 0;
        while i < self.tables.len()
            invariant
                i <= self.tables.len(),
                visible(self@, name@, i as int) == visible(self@, name@, 0),
            decreases self.tables.len() - i,
        {
            match self.tables[i].get(name) {
                Some(f) => {
                    return Some(f);
                },
                None => {},
            }
            i += 1;
        }
        None
    }
}

/// The fixtures that each fixture requests.
pub open spec fn dependencies(
    tables: Seq<Seq<(Seq<char>, FixtureView)>>,
) -> spec_fn(Seq<char>) -> Seq<Seq<char>> {
    |name: Seq<char>|
        match visible(tables, name, 0) {
            Some(f) => requests(f.deps, Seq::empty()),
            None => Seq::empty(),
        }
}

impl<'a> Graph for Scope<'a> {
    open spec fn edges(&self) -> spec_fn(Seq<char>) -> Seq<Seq<char>> {
        dependencies(self@)
    }

    open spec fn targets(&self) -> Seq<Seq<char>> {
        all_deps(self@, 0)
    }

    proof fn edges_lead_to_targets(&self, name: Seq<char>) {
        assert forall|m: Seq<char>| #[trigger]
            (self.edges())(name).contains(m) implies self.targets().contains(m) by {
            match visible(self@, name, 0) {
                Some(f) => {
                    requests_are_names(f.deps, Seq::empty(), 0, Seq::empty(), m);
                    all_deps_has(self@, 0, name, m);
                },
                None => {},
            }
        }
    }

    fn successors(&self, name: &str) -> (r: Vec<String>) {
        match self.lookup(name) {
            Some(f) => {
                let none: Vec<String> = Vec::new();
                requested(&f.deps, &none)
            },
            None => Vec::new(),
        }
    }
}

/// A fixture name whose fixture adds pieces to the IDs of the tests that
/// request it.
pub open spec fn multiplies(tables: Seq<Seq<(Seq<char>, FixtureView)>>, name: Seq<char>) -> bool {
    is_anyio(name) || (visible(tables, name, 0) matches Some(f) && f.parametrized)
}

/// Does this test, directly or through other fixtures, request a parametrized
/// fixture that is in scope? If so, pytest will append ID pieces that cannot be
/// seen statically, so the test's expansion must fall back to the bare name.
pub open spec fn requests_params(
    tables: Seq<Seq<(Seq<char>, FixtureView)>>,
    def: TestDefView,
) -> bool {
    exists|name: Seq<char>| #[trigger]
        multiplies(tables, name) && crate::graph::reaches(
            dependencies(tables),
            requests(def.args, def.claimed),
            name,
        )
}

/// Does this test transitively request a parametrized fixture that is in scope?
pub fn requests_parametrized_fixture(scope: &Scope, def: &TestDef) -> (r: bool)
    ensures
        r == requests_params(scope@, def@),
{
    let start: Vec<String> = requested(&def.args, &def.claimed);
    let ghost from = text::deep(start@);
    let all: Vec<String> = closure(scope, &start);
    let ghost names = text::deep(all@);
    let mut i: usize = 0;
    while i < all.len()
        invariant
            i <= all.len(),
            names == text::deep(all@),
            from == requests(def@.args, def@.claimed),
            forall|n: Seq<char>| #[trigger]
                names.contains(n) <==> crate::graph::reaches(dependencies(scope@), from, n),
            forall|j: int| 0 <= j < i ==> !multiplies(scope@, #[trigger] names[j]),
        decreases all.len() - i,
    {
        let n: &str = all[i].as_str();
        let hit: bool = same(n, "anyio_backend") || same(n, "anyio_backend_name") || same(
            n,
            "anyio_backend_options",
        ) || match scope.lookup(n) {
            Some(f) => f.parametrized,
            None => false,
        };
        if hit {
            proof {
                assert(names.contains(names[i as int]));
                assert(multiplies(scope@, names[i as int]));
            }
            return true;
        }
        i += 1;
    }
    proof {
        assert forall|name: Seq<char>| #[trigger] multiplies(scope@, name) implies
            !crate::graph::reaches(dependencies(scope@), from, name) by {
            if names.contains(name) {
                let k = choose|k: int| 0 <= k < names.len() && names[k] == name;
                assert(!multiplies(scope@, names[k]));
            }
        }
    }
    false
}

// ---------------------------------------------------------------------------
// Laws
// ---------------------------------------------------------------------------

/// A test requests each of its arguments but `self`, `cls`, `request` and those
/// that its own parameters claim, and requests nothing else.
pub proof fn law_requested_names(names: Seq<Seq<char>>, claimed: Seq<Seq<char>>, x: Seq<char>)
    ensures
        requests(names, claimed).contains(x) <==> names.contains(x) && !claimed.contains(x) && x
            != "self"@ && x != "cls"@ && x != "request"@,
{
    requests_hold(names, claimed, 0, Seq::empty(), x);
    if names.contains(x) {
        assert(names[names.index_of(x)] == x);
    }
}

proof fn requests_hold(
    names: Seq<Seq<char>>,
    claimed: Seq<Seq<char>>,
    i: int,
    out: Seq<Seq<char>>,
    x: Seq<char>,
)
    requires
        0 <= i <= names.len(),
    ensures
        requests_from(names, claimed, i, out).contains(x) <==> out.contains(x) || (!claimed.contains(
            x,
        ) && x != "self"@ && x != "cls"@ && x != "request"@ && exists|j: int|
            i <= j < names.len() && #[trigger] names[j] == x),
    decreases names.len() - i,
{
    if i < names.len() {
        let kept = !(is_builtin(names[i]) || claimed.contains(names[i]));
        let next = if kept {
            out.push(names[i])
        } else {
            out
        };
        requests_hold(names, claimed, i + 1, next, x);
        if kept {
            assert(next =~= out + seq![names[i]]);
            text::law_both_hold(out, seq![names[i]], x);
            assert(seq![names[i]].contains(names[i])) by {
                assert(seq![names[i]][0] == names[i]);
            }
        }
    }
}

/// The nearest fixture of a name counts: that of the first table that has one.
pub proof fn law_nearest_fixture_counts(
    tables: Seq<Seq<(Seq<char>, FixtureView)>>,
    name: Seq<char>,
    at: int,
)
    requires
        0 <= at <= tables.len(),
        forall|i: int| 0 <= i < at ==> crate::table::find(#[trigger] tables[i], name) is None,
    ensures
        at == tables.len() ==> visible(tables, name, 0) is None,
        at < tables.len() && crate::table::find(tables[at], name) is Some ==> visible(
            tables,
            name,
            0,
        ) == crate::table::find(tables[at], name),
{
    farther_tables(tables, name, 0, at);
}

proof fn farther_tables(
    tables: Seq<Seq<(Seq<char>, FixtureView)>>,
    name: Seq<char>,
    i: int,
    at: int,
)
    requires
        0 <= i <= at <= tables.len(),
        forall|j: int| i <= j < at ==> crate::table::find(#[trigger] tables[j], name) is None,
    ensures
        visible(tables, name, i) == visible(tables, name, at),
    decreases at - i,
{
    if i < at {
        assert(crate::table::find(tables[i], name) is None);
        farther_tables(tables, name, i + 1, at);
    }
}

/// `chain` leads from an argument of a test over fixtures that each request the
/// next.
pub open spec fn is_chain(
    tables: Seq<Seq<(Seq<char>, FixtureView)>>,
    def: TestDefView,
    chain: Seq<Seq<char>>,
) -> bool {
    &&& chain.len() > 0
    &&& def.args.contains(chain[0])
    &&& !def.claimed.contains(chain[0])
    &&& forall|i: int|
        0 <= i < chain.len() ==> #[trigger] chain[i] != "self"@ && chain[i] != "cls"@ && chain[i]
            != "request"@
    &&& forall|i: int|
        0 <= i < chain.len() - 1 ==> (visible(tables, #[trigger] chain[i], 0) matches Some(f)
            && f.deps.contains(chain[i + 1]))
}

/// Where a chain of requests leads from a test to a fixture with parameters, at
/// any distance, the test has parameters that cannot be seen.
pub proof fn law_parameters_are_found(
    tables: Seq<Seq<(Seq<char>, FixtureView)>>,
    def: TestDefView,
    chain: Seq<Seq<char>>,
)
    requires
        is_chain(tables, def, chain),
        visible(tables, chain.last(), 0) matches Some(f) && f.parametrized,
    ensures
        requests_params(tables, def),
{
    let e = dependencies(tables);
    let start = requests(def.args, def.claimed);
    law_requested_names(def.args, def.claimed, chain[0]);
    assert forall|i: int| 0 <= i < chain.len() - 1 implies #[trigger] e(chain[i]).contains(
        chain[i + 1],
    ) by {
        assert(chain[i] == chain[i]);
        let f = visible(tables, chain[i], 0)->0;
        law_requested_names(f.deps, Seq::empty(), chain[i + 1]);
    }
    assert(crate::graph::is_path(e, start, chain));
    assert(multiplies(tables, chain.last()));
}

/// A test has such parameters only where a fixture in scope has parameters, or
/// where it or a fixture in scope requests one of the backend fixtures of the
/// anyio plugin.
pub proof fn law_parameters_need_a_fixture(
    tables: Seq<Seq<(Seq<char>, FixtureView)>>,
    def: TestDefView,
)
    requires
        forall|name: Seq<char>| #[trigger]
            visible(tables, name, 0) matches Some(f) ==> !f.parametrized && !f.deps.contains(
                "anyio_backend"@,
            ) && !f.deps.contains("anyio_backend_name"@) && !f.deps.contains(
                "anyio_backend_options"@,
            ),
        !def.args.contains("anyio_backend"@),
        !def.args.contains("anyio_backend_name"@),
        !def.args.contains("anyio_backend_options"@),
    ensures
        !requests_params(tables, def),
{
    let e = dependencies(tables);
    let start = requests(def.args, def.claimed);
    assert forall|name: Seq<char>| #[trigger] multiplies(tables, name) implies
        !crate::graph::reaches(e, start, name) by {
        if crate::graph::reaches(e, start, name) {
            let path = choose|path: Seq<Seq<char>>| #[trigger]
                crate::graph::is_path(e, start, path) && path.last() == name;
            let n = path.len() as int;
            if n == 1 {
                law_requested_names(def.args, def.claimed, name);
            } else {
                assert(e(path[n - 2]).contains(path[n - 2 + 1]));
                let f = visible(tables, path[n - 2], 0)->0;
                law_requested_names(f.deps, Seq::empty(), name);
            }
            assert(visible(tables, name, 0) matches Some(f) ==> !f.parametrized);
        }
    }
}

/// An argument that is a backend fixture of the anyio plugin has parameters that
/// cannot be seen.
pub proof fn law_anyio_backends_multiply(
    tables: Seq<Seq<(Seq<char>, FixtureView)>>,
    def: TestDefView,
    name: Seq<char>,
)
    requires
        name == "anyio_backend"@ || name == "anyio_backend_name"@ || name
            == "anyio_backend_options"@,
        def.args.contains(name),
        !def.claimed.contains(name),
    ensures
        requests_params(tables, def),
{
    reveal_strlit("anyio_backend");
    reveal_strlit("anyio_backend_name");
    reveal_strlit("anyio_backend_options");
    reveal_strlit("self");
    reveal_strlit("cls");
    reveal_strlit("request");
    assert(name.len() >= 13);
    assert("self"@.len() == 4 && "cls"@.len() == 3 && "request"@.len() == 7);
    law_requested_names(def.args, def.claimed, name);
    crate::graph::law_start_is_reached(
        dependencies(tables),
        requests(def.args, def.claimed),
        name,
    );
    assert(multiplies(tables, name));
}

} // verus!
