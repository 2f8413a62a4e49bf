//! Test functions and classes as a module defines them.

use vstd::prelude::*;

use crate::guards::{base_text, body_calls_skip, const_return};
use crate::model::{
    Class, ClassItem, ClassItemView, ClassView, Fixture, FixtureView, Fixtures, TestDef,
    TestDefView,
};
use crate::names::{dedupe_keep_last, Named};
use crate::params::{
    decorator_argnames, fixture_info, from_decorators, DecoratorInfo, Expansion, ExpansionView,
    FixtureFlags, FixtureFlagsView, ParamAliases,
};
use crate::syntax::{Expr, ExprView, Stmt, StmtView};
use crate::table::Table;
use crate::text::{self, copy_list, same};

verus! {

broadcast use crate::text::group_deep;

/// The test that a function definition gives.
pub open spec fn test_of(
    name: Seq<char>,
    decorators: Seq<ExprView>,
    params: Seq<Seq<char>>,
    body: Seq<StmtView>,
    aliases: Seq<(Seq<char>, Option<Seq<Seq<char>>>)>,
    os: Seq<char>,
) -> TestDefView {
    let info = crate::params::decorators_say(decorators, aliases);
    TestDefView {
        name,
        expansion: info.expansion,
        args: params + info.extra_fixture_requests,
        claimed: crate::params::claimed_from(decorators, 0, Seq::empty()),
        marks: info.marks,
        maybe_marks: info.unresolved,
        skips_module: crate::guards::any_skips(body, 0),
        returns_const: crate::guards::returned(body, os),
    }
}

/// The test that a function definition gives.
pub fn test_def(
    name: &str,
    decorators: &Vec<Expr>,
    params: &Vec<String>,
    body: &Vec<Stmt>,
    aliases: &ParamAliases,
    os: &str,
) -> (r: TestDef)
    ensures
        r@ == test_of(
            name@,
            text::deep(decorators@),
            text::deep(params@),
            text::deep(body@),
            aliases@,
            os@,
        ),
{
    let info: DecoratorInfo = from_decorators(decorators, aliases);
    let mut args: Vec<String> = copy_list(params);
    text::extend(&mut args, &info.extra_fixture_requests);
    TestDef {
        name: name.to_owned(),
        expansion: info.expansion,
        args,
        claimed: decorator_argnames(decorators),
        marks: info.marks,
        maybe_marks: info.unresolved,
        skips_module: body_calls_skip(body),
        returns_const: const_return(body, os),
    }
}

/// The name that a fixture is registered under.
pub open spec fn fixture_key(flags: FixtureFlagsView, name: Seq<char>) -> Seq<char> {
    match flags.name {
        Some(n) => n,
        None => name,
    }
}

/// The fixture that a function with the given flags and parameters is.
pub open spec fn fixture_with(flags: FixtureFlagsView, params: Seq<Seq<char>>) -> FixtureView {
    FixtureView { parametrized: flags.parametrized, autouse: flags.autouse, deps: params }
}

/// The fixture that a function is, and the name that it is registered under.
pub fn make_fixture(flags: FixtureFlags, name: &str, params: &Vec<String>) -> (r: (String, Fixture))
    ensures
        r.0@ == fixture_key(flags@, name@),
        r.1@ == fixture_with(flags@, text::deep(params@)),
{
    let fixture: Fixture = Fixture {
        parametrized: flags.parametrized,
        autouse: flags.autouse,
        deps: copy_list(params),
    };
    let key: String = match flags.name {
        Some(n) => n,
        None => name.to_owned(),
    };
    (key, fixture)
}

// ---------------------------------------------------------------------------
// Classes
// ---------------------------------------------------------------------------

/// What the body of a class has given so far.
pub struct Members {
    pub items: Seq<ClassItemView>,
    pub fixtures: Seq<(Seq<char>, FixtureView)>,
    pub has_ctor: bool,
}

/// The method that `name = factory(...)` in a class body stands for: its IDs
/// are not known.
pub open spec fn factory_method(name: Seq<char>, extra: Seq<Seq<char>>) -> TestDefView {
    TestDefView {
        name,
        expansion: ExpansionView::Fallback,
        args: extra,
        claimed: Seq::empty(),
        marks: Seq::empty(),
        maybe_marks: Seq::empty(),
        skips_module: false,
        returns_const: None,
    }
}

/// Take up a function of a class body. Fixtures are no methods; the fixtures
/// that the class uses apply to every method.
pub open spec fn with_method(
    m: Members,
    name: Seq<char>,
    decorators: Seq<ExprView>,
    params: Seq<Seq<char>>,
    body: Seq<StmtView>,
    extra: Seq<Seq<char>>,
    aliases: Seq<(Seq<char>, Option<Seq<Seq<char>>>)>,
    os: Seq<char>,
) -> Members {
    let has_ctor = m.has_ctor || name == "__init__"@ || name == "__new__"@;
    match crate::params::fixture_from(decorators, 0) {
        Some(flags) => Members {
            items: m.items,
            fixtures: crate::table::put(
                m.fixtures,
                fixture_key(flags, name),
                fixture_with(flags, params),
            ),
            has_ctor,
        },
        None => {
            let def = test_of(name, decorators, params, body, aliases, os);
            Members {
                items: m.items.push(
                    ClassItemView::Method(TestDefView { args: def.args + extra, ..def }),
                ),
                fixtures: m.fixtures,
                has_ctor,
            }
        },
    }
}

/// Take up an assignment of a class body: `name = factory(...)`.
pub open spec fn with_factory(
    m: Members,
    targets: Seq<ExprView>,
    value: ExprView,
    extra: Seq<Seq<char>>,
) -> Members {
    if targets.len() == 1 {
        match (targets[0], value) {
            (ExprView::Name(n), ExprView::Call(_, _, _)) => Members {
                items: m.items.push(ClassItemView::Method(factory_method(n, extra))),
                ..m
            },
            _ => m,
        }
    } else {
        m
    }
}

/// What the statements of a class body from position `i` on give, on top of
/// `m`.
pub open spec fn members_from(
    body: Seq<StmtView>,
    i: int,
    m: Members,
    extra: Seq<Seq<char>>,
    aliases: Seq<(Seq<char>, Option<Seq<Seq<char>>>)>,
    os: Seq<char>,
) -> Members
    decreases body, body.len() - i,
{
    if i < 0 || i >= body.len() {
        m
    } else {
        members_from(
            body,
            i + 1,
            match body[i] {
                StmtView::Function { name, decorators, params, body: inner } => with_method(
                    m,
                    name,
                    decorators,
                    params,
                    inner,
                    extra,
                    aliases,
                    os,
                ),
                StmtView::Class { name, decorators, bases, body: inner } => Members {
                    items: m.items.push(
                        ClassItemView::Nested(
                            name,
                            class_of(decorators, bases, inner, aliases, os),
                        ),
                    ),
                    ..m
                },
                StmtView::Assign { targets, value } => with_factory(m, targets, value, extra),
                _ => m,
            },
            extra,
            aliases,
            os,
        )
    }
}

/// The bases from position `i` on that have a dotted form, behind those in
/// `out`.
pub open spec fn bases_from(v: Seq<ExprView>, i: int, out: Seq<Seq<char>>) -> Seq<Seq<char>>
    decreases v.len() - i,
{
    if i < 0 || i >= v.len() {
        out
    } else {
        bases_from(
            v,
            i + 1,
            match crate::guards::base_of(v[i]) {
                Some(b) => out.push(b),
                None => out,
            },
        )
    }
}

/// The class that a class definition gives.
pub open spec fn class_of(
    decorators: Seq<ExprView>,
    bases: Seq<ExprView>,
    body: Seq<StmtView>,
    aliases: Seq<(Seq<char>, Option<Seq<Seq<char>>>)>,
    os: Seq<char>,
) -> ClassView
    decreases body, body.len() + 1,
{
    let info = crate::params::decorators_say(decorators, aliases);
    let m = members_from(
        body,
        0,
        Members { items: Seq::empty(), fixtures: Seq::empty(), has_ctor: false },
        info.extra_fixture_requests,
        aliases,
        os,
    );
    ClassView {
        bases: bases_from(bases, 0, Seq::empty()),
        items: crate::names::keep_last::<ClassItem>(m.items),
        fixtures: m.fixtures,
        usefixtures: info.extra_fixture_requests,
        marks: info.marks,
        expansion: info.expansion,
        has_ctor: m.has_ctor,
    }
}

fn base_texts(v: &Vec<Expr>) -> (r: Vec<String>)
    ensures
        text::deep(r@) == bases_from(text::deep(v@), 0, Seq::empty()),
{
    let ghost vs = text::deep(v@);
    let mut out: Vec<String> = Vec::new();
    let mut i: usize = 0;
    while i < v.len()
        invariant
            i <= v.len(),
            vs == text::deep(v@),
            bases_from(vs, i as int, text::deep(out@)) == bases_from(vs, 0, Seq::empty()),
        decreases v.len() - i,
    {
        match base_text(&v[i]) {
            Some(b) => {
                out.push(b);
            },
            None => {},
        }
        i += 1;
    }
    out
}

/// What the body of a class has given so far.
struct MembersBuf {
    items: Vec<ClassItem>,
    fixtures: Fixtures,
    has_ctor: bool,
}

impl View for MembersBuf {
    type V = Members;

    closed spec fn view(&self) -> Members {
        Members {
            items: text::deep(self.items@),
            fixtures: self.fixtures@,
            has_ctor: self.has_ctor,
        }
    }
}

/// Take up a function of a class body.
fn add_method(
    m: &mut MembersBuf,
    name: &str,
    decorators: &Vec<Expr>,
    params: &Vec<String>,
    body: &Vec<Stmt>,
    extra: &Vec<String>,
    aliases: &ParamAliases,
    os: &str,
)
    ensures
        final(m)@ == with_method(
            old(m)@,
            name@,
            text::deep(decorators@),
            text::deep(params@),
            text::deep(body@),
            text::deep(extra@),
            aliases@,
            os@,
        ),
{
    if same(name, "__init__") || same(name, "__new__") {
        m.has_ctor = true;
    }
    match fixture_info(decorators) {
        Some(flags) => {
            let (key, fixture): (String, Fixture) = make_fixture(flags, name, params);
            m.fixtures.insert(key, fixture);
        },
        None => {
            let mut def: TestDef = test_def(name, decorators, params, body, aliases, os);
            text::extend(&mut def.args, extra);
            m.items.push(ClassItem::Method(def));
        },
    }
}

/// Take up an assignment of a class body.
fn add_factory(m: &mut MembersBuf, targets: &Vec<Expr>, value: &Expr, extra: &Vec<String>)
    ensures
        final(m)@ == with_factory(
            old(m)@,
            text::deep(targets@),
            value@,
            text::deep(extra@),
        ),
{
    if targets.len() == 1 {
        proof {
            crate::syntax::expr_parts(targets@[0]);
            crate::syntax::expr_parts(*value);
        }
        match (&targets[0], value) {
            (Expr::Name(n), Expr::Call(_, _, _)) => {
                let def: TestDef = TestDef {
                    name: n.clone(),
                    expansion: Expansion::Fallback,
                    args: copy_list(extra),
                    claimed: Vec::new(),
                    marks: Vec::new(),
                    maybe_marks: Vec::new(),
                    skips_module: false,
                    returns_const: None,
                };
                m.items.push(ClassItem::Method(def));
            },
            _ => {},
        }
    }
}

/// The class that a class definition gives.
pub fn build_class(
    decorators: &Vec<Expr>,
    bases: &Vec<Expr>,
    body: &Vec<Stmt>,
    aliases: &ParamAliases,
    os: &str,
) -> (r: Class)
    ensures
        r@ == class_of(
            text::deep(decorators@),
            text::deep(bases@),
            text::deep(body@),
            aliases@,
            os@,
        ),
    decreases body,
{
    let ghost bs = text::deep(body@);
    let info: DecoratorInfo = from_decorators(decorators, aliases);
    let mut m: MembersBuf = MembersBuf {
        items: Vec::new(),
        fixtures: Table::new(),
        has_ctor: false,
    };
    let extra: Vec<String> = info.extra_fixture_requests;
    let ghost ex = text::deep(extra@);
    let ghost start = m@;
    let mut i: usize = 0;
    while i < body.len()
        invariant
            i <= body.len(),
            bs == text::deep(body@),
            ex == text::deep(extra@),
            members_from(bs, i as int, m@, ex, aliases@, os@) == members_from(
                bs,
                0,
                start,
                ex,
                aliases@,
                os@,
            ),
        decreases body.len() - i,
    {
        proof {
            crate::syntax::stmt_parts(body@[i as int]);
            assert(decreases_to!(body => body@[i as int]));
        }
        match &body[i] {
            Stmt::Function { name, decorators: d, params, body: inner } => {
                add_method(&mut m, name.as_str(), d, params, inner, &extra, aliases, os);
            },
            Stmt::Class { name, decorators: d, bases: b, body: inner } => {
                let nested: Class = build_class(d, b, inner, aliases, os);
                m.items.push(ClassItem::Nested(name.clone(), nested));
            },
            Stmt::Assign { targets, value } => {
                add_factory(&mut m, targets, value, &extra);
            },
            _ => {},
        }
        i += 1;
    }
    let c: Class = Class {
        bases: base_texts(bases),
        items: dedupe_keep_last(m.items),
        fixtures: m.fixtures,
        usefixtures: extra,
        marks: info.marks,
        expansion: info.expansion,
        has_ctor: m.has_ctor,
    };
    proof {
        crate::model::class_parts(c);
        assert(start.items =~= Seq::<ClassItemView>::empty());
    }
    c
}

// ---------------------------------------------------------------------------
// Laws
// ---------------------------------------------------------------------------

/// A class has a constructor if and only if one of the functions in its body is
/// `__init__` or `__new__`.
pub proof fn law_constructors_are_seen(
    decorators: Seq<ExprView>,
    bases: Seq<ExprView>,
    body: Seq<StmtView>,
    aliases: Seq<(Seq<char>, Option<Seq<Seq<char>>>)>,
    os: Seq<char>,
)
    ensures
        class_of(decorators, bases, body, aliases, os).has_ctor <==> exists|i: int|
            0 <= i < body.len() && is_constructor(#[trigger] body[i]),
{
    let info = crate::params::decorators_say(decorators, aliases);
    constructors_hold(
        body,
        0,
        Members { items: Seq::empty(), fixtures: Seq::empty(), has_ctor: false },
        info.extra_fixture_requests,
        aliases,
        os,
    );
}

/// Is a statement the definition of `__init__` or `__new__`?
pub open spec fn is_constructor(s: StmtView) -> bool {
    s matches StmtView::Function { name, .. } && (name == "__init__"@ || name == "__new__"@)
}

/// What a statement of a class body adds.
spec fn member(
    m: Members,
    s: StmtView,
    extra: Seq<Seq<char>>,
    aliases: Seq<(Seq<char>, Option<Seq<Seq<char>>>)>,
    os: Seq<char>,
) -> Members {
    match s {
        StmtView::Function { name, decorators, params, body } => with_method(
            m,
            name,
            decorators,
            params,
            body,
            extra,
            aliases,
            os,
        ),
        StmtView::Class { name, decorators, bases, body } => Members {
            items: m.items.push(
                ClassItemView::Nested(name, class_of(decorators, bases, body, aliases, os)),
            ),
            ..m
        },
        StmtView::Assign { targets, value } => with_factory(m, targets, value, extra),
        _ => m,
    }
}

proof fn constructors_hold(
    body: Seq<StmtView>,
    i: int,
    m: Members,
    extra: Seq<Seq<char>>,
    aliases: Seq<(Seq<char>, Option<Seq<Seq<char>>>)>,
    os: Seq<char>,
)
    requires
        0 <= i <= body.len(),
    ensures
        members_from(body, i, m, extra, aliases, os).has_ctor <==> m.has_ctor || exists|j: int|
            i <= j < body.len() && is_constructor(#[trigger] body[j]),
    decreases body.len() - i,
{
    if i < body.len() {
        let next = member(m, body[i], extra, aliases, os);
        constructors_hold(body, i + 1, next, extra, aliases, os);
        assert(next.has_ctor <==> m.has_ctor || is_constructor(body[i]));
    }
}

/// The bases of a class stand in their order: where each has a dotted form, each
/// stands in the class as it is written.
pub proof fn law_bases_are_kept(
    decorators: Seq<ExprView>,
    bases: Seq<ExprView>,
    body: Seq<StmtView>,
    aliases: Seq<(Seq<char>, Option<Seq<Seq<char>>>)>,
    os: Seq<char>,
)
    requires
        forall|i: int|
            0 <= i < bases.len() ==> crate::guards::base_of(#[trigger] bases[i]) is Some,
    ensures
        ({
            let class = class_of(decorators, bases, body, aliases, os);
            &&& class.bases.len() == bases.len()
            &&& forall|i: int|
                0 <= i < bases.len() ==> crate::guards::base_of(bases[i]) == Some(
                    #[trigger] class.bases[i],
                )
        }),
{
    bases_hold(bases, 0, Seq::empty());
}

proof fn bases_hold(v: Seq<ExprView>, i: int, out: Seq<Seq<char>>)
    requires
        0 <= i <= v.len(),
        out.len() == i,
        forall|j: int| 0 <= j < v.len() ==> crate::guards::base_of(#[trigger] v[j]) is Some,
        forall|j: int|
            0 <= j < i ==> crate::guards::base_of(v[j]) == Some(#[trigger] out[j]),
    ensures
        bases_from(v, i, out).len() == v.len(),
        forall|j: int|
            0 <= j < v.len() ==> crate::guards::base_of(v[j]) == Some(
                #[trigger] bases_from(v, i, out)[j],
            ),
    decreases v.len() - i,
{
    if i < v.len() {
        assert(crate::guards::base_of(v[i]) is Some);
        bases_hold(v, i + 1, out.push(crate::guards::base_of(v[i])->0));
    }
}

/// Does a statement of a class body define a member of this name that is no
/// fixture: a function, a class, or a name that a call is assigned to?
pub open spec fn defines_member(s: StmtView, x: Seq<char>) -> bool {
    match s {
        StmtView::Function { name, decorators, .. } => name == x && crate::params::fixture_from(
            decorators,
            0,
        ) is None,
        StmtView::Class { name, .. } => name == x,
        StmtView::Assign { targets, value } => targets.len() == 1 && targets[0] == ExprView::Name(x)
            && value is Call,
        _ => false,
    }
}

/// Is there a member of this name?
pub open spec fn has_member(items: Seq<ClassItemView>, x: Seq<char>) -> bool {
    exists|i: int| 0 <= i < items.len() && ClassItem::name_of(#[trigger] items[i]) == x
}

/// A class has a member of a name if and only if its body defines one.
pub proof fn law_members_are_kept(
    decorators: Seq<ExprView>,
    bases: Seq<ExprView>,
    body: Seq<StmtView>,
    aliases: Seq<(Seq<char>, Option<Seq<Seq<char>>>)>,
    os: Seq<char>,
    x: Seq<char>,
)
    ensures
        has_member(class_of(decorators, bases, body, aliases, os).items, x) <==> exists|i: int|
            0 <= i < body.len() && defines_member(#[trigger] body[i], x),
{
    let info = crate::params::decorators_say(decorators, aliases);
    let start = Members { items: Seq::empty(), fixtures: Seq::empty(), has_ctor: false };
    let m = members_from(body, 0, start, info.extra_fixture_requests, aliases, os);
    members_hold(body, 0, start, info.extra_fixture_requests, aliases, os, x);
    let kept = class_of(decorators, bases, body, aliases, os).items;
    crate::names::law_last_definition_survives::<ClassItem>(m.items);
    if has_member(kept, x) {
        let i = choose|i: int| 0 <= i < kept.len() && ClassItem::name_of(#[trigger] kept[i]) == x;
        assert(kept.contains(kept[i]));
        let k = choose|k: int|
            0 <= k < m.items.len() && !crate::names::shadowed::<ClassItem>(m.items, k)
                && #[trigger] m.items[k] == kept[i];
        assert(ClassItem::name_of(m.items[k]) == x);
    }
    if has_member(m.items, x) {
        let k = choose|k: int|
            0 <= k < m.items.len() && ClassItem::name_of(#[trigger] m.items[k]) == x;
        let last = last_of_name(m.items, k);
        assert(kept.contains(m.items[last]));
        let i = choose|i: int| 0 <= i < kept.len() && kept[i] == m.items[last];
        assert(ClassItem::name_of(kept[i]) == x);
    }
}

proof fn last_of_name(s: Seq<ClassItemView>, k: int) -> (last: int)
    requires
        0 <= k < s.len(),
    ensures
        k <= last < s.len(),
        ClassItem::name_of(s[last]) == ClassItem::name_of(s[k]),
        !crate::names::shadowed::<ClassItem>(s, last),
    decreases s.len() - k,
{
    if crate::names::shadowed::<ClassItem>(s, k) {
        let j = choose|j: int|
            k < j < s.len() && ClassItem::name_of(#[trigger] s[j]) == ClassItem::name_of(s[k]);
        last_of_name(s, j)
    } else {
        k
    }
}

proof fn members_hold(
    body: Seq<StmtView>,
    i: int,
    m: Members,
    extra: Seq<Seq<char>>,
    aliases: Seq<(Seq<char>, Option<Seq<Seq<char>>>)>,
    os: Seq<char>,
    x: Seq<char>,
)
    requires
        0 <= i <= body.len(),
    ensures
        has_member(members_from(body, i, m, extra, aliases, os).items, x) <==> has_member(
            m.items,
            x,
        ) || exists|j: int|
            i <= j < body.len() && defines_member(#[trigger] body[j], x),
    decreases body.len() - i,
{
    if i < body.len() {
        let next = member(m, body[i], extra, aliases, os);
        members_hold(body, i + 1, next, extra, aliases, os, x);
        assert(has_member(next.items, x) <==> has_member(m.items, x) || defines_member(body[i], x))
            by {
            if has_member(m.items, x) {
                let k = choose|k: int|
                    0 <= k < m.items.len() && ClassItem::name_of(#[trigger] m.items[k]) == x;
                assert(next.items[k] == m.items[k]);
            }
            if defines_member(body[i], x) {
                assert(ClassItem::name_of(next.items[m.items.len() as int]) == x);
            }
            if has_member(next.items, x) {
                let k = choose|k: int|
                    0 <= k < next.items.len() && ClassItem::name_of(#[trigger] next.items[k]) == x;
                if k < m.items.len() {
                    assert(next.items[k] == m.items[k]);
                }
            }
        }
        assert(members_from(body, i, m, extra, aliases, os) == members_from(
            body,
            i + 1,
            next,
            extra,
            aliases,
            os,
        ));
    }
}

/// A test requests all of its parameters and what its decorators add, under its
/// own name, and claims what they claim; it skips its callers where a statement
/// of it does. A fixture requests all of its parameters.
pub proof fn law_definitions_say_what_they_request(
    name: Seq<char>,
    decorators: Seq<ExprView>,
    params: Seq<Seq<char>>,
    body: Seq<StmtView>,
    aliases: Seq<(Seq<char>, Option<Seq<Seq<char>>>)>,
    os: Seq<char>,
    flags: FixtureFlagsView,
    x: Seq<char>,
)
    ensures
        ({
            let def = test_of(name, decorators, params, body, aliases, os);
            let info = crate::params::decorators_say(decorators, aliases);
            &&& def.name == name
            &&& def.args == params + info.extra_fixture_requests
            &&& def.marks == info.marks
            &&& def.maybe_marks == info.unresolved
            &&& def.expansion == info.expansion
            &&& def.claimed.contains(x) <==> exists|i: int|
                0 <= i < decorators.len() && crate::params::claimed_by(
                    #[trigger] decorators[i],
                ).contains(x)
            &&& def.skips_module <==> exists|i: int|
                0 <= i < body.len() && crate::guards::skips(#[trigger] body[i])
            &&& forall|e: ExprView|
                body == #[trigger] seq![StmtView::Return(Some(e))] ==> def.returns_const
                    == crate::guards::truth(e, os)
        }),
        fixture_with(flags, params).deps == params,
        fixture_with(flags, params).parametrized == flags.parametrized,
        fixture_with(flags, params).autouse == flags.autouse,
        flags.name is None ==> fixture_key(flags, name) == name,
        flags.name matches Some(other) ==> fixture_key(flags, name) == other,
{
    let call = ExprView::Name("parametrize"@);
    crate::params::law_claimed_names(
        decorators,
        Box::new(call),
        Seq::empty(),
        Seq::empty(),
        Seq::empty(),
        Seq::empty(),
        x,
    );
    crate::guards::law_skips_are_found(
        body,
        call,
        Seq::empty(),
        Seq::empty(),
        Seq::empty(),
        Seq::empty(),
    );
}

/// The last function of a name in the body of a class is a method of it as it is
/// defined there; it requests what the decorators of the class add as well. The
/// class itself has the marks and the parameters of its decorators.
pub proof fn law_methods_are_as_defined(
    class_decorators: Seq<ExprView>,
    bases: Seq<ExprView>,
    body: Seq<StmtView>,
    aliases: Seq<(Seq<char>, Option<Seq<Seq<char>>>)>,
    os: Seq<char>,
    i: int,
    name: Seq<char>,
    decorators: Seq<ExprView>,
    params: Seq<Seq<char>>,
    inner: Seq<StmtView>,
)
    requires
        0 <= i < body.len(),
        body[i] == (StmtView::Function { name, decorators, params, body: inner }),
        crate::params::fixture_from(decorators, 0) is None,
        forall|j: int| i < j < body.len() ==> !defines_member(#[trigger] body[j], name),
    ensures
        ({
            let class = class_of(class_decorators, bases, body, aliases, os);
            let info = crate::params::decorators_say(class_decorators, aliases);
            let def = test_of(name, decorators, params, inner, aliases, os);
            &&& class.items.contains(
                ClassItemView::Method(
                    TestDefView { args: def.args + info.extra_fixture_requests, ..def },
                ),
            )
            &&& class.marks == info.marks
            &&& class.expansion == info.expansion
            &&& class.usefixtures == info.extra_fixture_requests
        }),
{
    let info = crate::params::decorators_say(class_decorators, aliases);
    let extra = info.extra_fixture_requests;
    let start = Members { items: Seq::empty(), fixtures: Seq::empty(), has_ctor: false };
    let before = members_until(body, 0, i, start, extra, aliases, os);
    let next = member(before, body[i], extra, aliases, os);
    members_behind(body, i + 1, next, extra, aliases, os);
    let all = members_from(body, 0, start, extra, aliases, os).items;
    let at = before.items.len() as int;
    assert(all == members_from(body, i + 1, next, extra, aliases, os).items);
    assert(all[at] == next.items[at]);
    assert(!crate::names::shadowed::<ClassItem>(all, at)) by {
        if crate::names::shadowed::<ClassItem>(all, at) {
            let k = choose|k: int|
                at < k < all.len() && ClassItem::name_of(#[trigger] all[k]) == ClassItem::name_of(
                    all[at],
                );
            let j = choose|j: int|
                i + 1 <= j < body.len() && defines_member(
                    #[trigger] body[j],
                    ClassItem::name_of(all[k]),
                );
            assert(!defines_member(body[j], name));
        }
    }
    crate::names::law_last_definition_survives::<ClassItem>(all);
    assert(all[at] == all[at]);
}

proof fn members_until(
    body: Seq<StmtView>,
    i: int,
    n: int,
    m: Members,
    extra: Seq<Seq<char>>,
    aliases: Seq<(Seq<char>, Option<Seq<Seq<char>>>)>,
    os: Seq<char>,
) -> (before: Members)
    requires
        0 <= i <= n <= body.len(),
    ensures
        members_from(body, i, m, extra, aliases, os) == members_from(
            body,
            n,
            before,
            extra,
            aliases,
            os,
        ),
    decreases n - i,
{
    if i < n {
        members_until(body, i + 1, n, member(m, body[i], extra, aliases, os), extra, aliases, os)
    } else {
        m
    }
}

proof fn members_behind(
    body: Seq<StmtView>,
    i: int,
    m: Members,
    extra: Seq<Seq<char>>,
    aliases: Seq<(Seq<char>, Option<Seq<Seq<char>>>)>,
    os: Seq<char>,
)
    requires
        0 <= i <= body.len(),
    ensures
        ({
            let all = members_from(body, i, m, extra, aliases, os).items;
            &&& m.items.len() <= all.len()
            &&& forall|k: int| 0 <= k < m.items.len() ==> #[trigger] all[k] == m.items[k]
            &&& forall|k: int|
                m.items.len() <= k < all.len() ==> exists|j: int|
                    i <= j < body.len() && defines_member(
                        #[trigger] body[j],
                        ClassItem::name_of(#[trigger] all[k]),
                    )
        }),
    decreases body.len() - i,
{
    if i < body.len() {
        let next = member(m, body[i], extra, aliases, os);
        members_behind(body, i + 1, next, extra, aliases, os);
        let all = members_from(body, i, m, extra, aliases, os).items;
        assert(all == members_from(body, i + 1, next, extra, aliases, os).items);
        assert forall|k: int| 0 <= k < m.items.len() implies #[trigger] all[k] == m.items[k] by {
            assert(all[k] == next.items[k]);
        }
        assert forall|k: int| m.items.len() <= k < all.len() implies exists|j: int|
            i <= j < body.len() && defines_member(
                #[trigger] body[j],
                ClassItem::name_of(#[trigger] all[k]),
            ) by {
            if k < next.items.len() {
                assert(all[k] == next.items[k]);
                assert(defines_member(body[i], ClassItem::name_of(all[k])));
            }
        }
    }
}

/// The fixtures of a class are the fixture functions of its body, each under its
/// key; of several under one key the last one counts.
pub proof fn law_class_fixtures_are_kept(
    class_decorators: Seq<ExprView>,
    bases: Seq<ExprView>,
    body: Seq<StmtView>,
    aliases: Seq<(Seq<char>, Option<Seq<Seq<char>>>)>,
    os: Seq<char>,
    i: int,
    key: Seq<char>,
)
    requires
        0 <= i < body.len(),
        is_fixture(body[i], key),
        forall|j: int| i < j < body.len() ==> !is_fixture(#[trigger] body[j], key),
    ensures
        ({
            let class = class_of(class_decorators, bases, body, aliases, os);
            &&& crate::table::find(class.fixtures, key) matches Some(f)
            &&& body[i] matches StmtView::Function { name, decorators, params, .. }
            &&& f == fixture_with(crate::params::fixture_from(decorators, 0)->0, params)
        }),
{
    let extra = crate::params::decorators_say(class_decorators, aliases).extra_fixture_requests;
    let start = Members { items: Seq::empty(), fixtures: Seq::empty(), has_ctor: false };
    let before = members_until(body, 0, i, start, extra, aliases, os);
    let next = member(before, body[i], extra, aliases, os);
    if let StmtView::Function { name, decorators, params, body: inner } = body[i] {
        let flags = crate::params::fixture_from(decorators, 0)->0;
        crate::table::law_find_after_put(
            before.fixtures,
            key,
            fixture_with(flags, params),
            key,
        );
    }
    fixtures_stay(body, i + 1, next, extra, aliases, os, key);
}

/// Is a statement of a class body a fixture that is registered under this key?
pub open spec fn is_fixture(s: StmtView, key: Seq<char>) -> bool {
    s matches StmtView::Function { name, decorators, .. } && (crate::params::fixture_from(
        decorators,
        0,
    ) matches Some(flags) && fixture_key(flags, name) == key)
}

proof fn fixtures_stay(
    body: Seq<StmtView>,
    i: int,
    m: Members,
    extra: Seq<Seq<char>>,
    aliases: Seq<(Seq<char>, Option<Seq<Seq<char>>>)>,
    os: Seq<char>,
    key: Seq<char>,
)
    requires
        0 <= i <= body.len(),
        forall|j: int| i <= j < body.len() ==> !is_fixture(#[trigger] body[j], key),
    ensures
        crate::table::find(members_from(body, i, m, extra, aliases, os).fixtures, key)
            == crate::table::find(m.fixtures, key),
    decreases body.len() - i,
{
    if i < body.len() {
        let next = member(m, body[i], extra, aliases, os);
        assert(!is_fixture(body[i], key));
        if let StmtView::Function { name, decorators, params, body: inner } = body[i] {
            if let Some(flags) = crate::params::fixture_from(decorators, 0) {
                crate::table::law_find_after_put(
                    m.fixtures,
                    fixture_key(flags, name),
                    fixture_with(flags, params),
                    key,
                );
            }
        }
        fixtures_stay(body, i + 1, next, extra, aliases, os, key);
    }
}

} // verus!
