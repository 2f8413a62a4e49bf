//! Names that are defined in another module than they are used in.

use vstd::prelude::*;

use crate::model::{
    resolve_child, Import, ImportView, Module, ModuleRef, ModuleRefView, ModuleView,
};
use crate::path::FilePath;
use crate::resolve::{self, resolve_ref, Knowledge, KnowledgeView, Query, QueryView};
use crate::text::{self, same, split, Separator};

verus! {

broadcast use crate::text::group_deep;

/// How many re-exports are followed.
pub const HOPS: u32 = 8;

/// The names of the test case classes of `unittest`.
pub open spec fn unittest_class(name: Seq<char>) -> bool {
    name == "TestCase"@ || name == "IsolatedAsyncioTestCase"@ || name == "FunctionTestCase"@
}

fn is_unittest_class(name: &str) -> (r: bool)
    ensures
        r == unittest_class(name@),
{
    same(name, "TestCase") || same(name, "IsolatedAsyncioTestCase") || same(
        name,
        "FunctionTestCase",
    )
}

/// Is `name` of the module `mref` a test case class of `unittest`?
pub open spec fn unittest_ref(mref: ModuleRefView, name: Seq<char>) -> bool {
    match mref {
        ModuleRefView::Absolute(d) => (d == "unittest"@ || d == "unittest.case"@ || d
            == "unittest.async_case"@) && unittest_class(name),
        _ => false,
    }
}

/// Is `name` of the module `mref` a test case class of `unittest`?
pub fn is_unittest_ref(mref: &ModuleRef, name: &str) -> (r: bool)
    ensures
        r == unittest_ref(mref@, name@),
{
    match mref {
        ModuleRef::Absolute(d) => (same(d.as_str(), "unittest") || same(
            d.as_str(),
            "unittest.case",
        ) || same(d.as_str(), "unittest.async_case")) && is_unittest_class(name),
        _ => false,
    }
}

/// A class of the stdlib `unittest` package itself.
pub open spec fn unittest_module_class(m: ModuleView, name: Seq<char>) -> bool {
    unittest_class(name) && m.path.contains("unittest"@)
}

/// A base that resolved into the stdlib `unittest` package itself.
pub fn is_unittest_module_class(m: &Module, name: &str) -> (r: bool)
    ensures
        r == unittest_module_class(m@, name@),
{
    is_unittest_class(name) && text::is_in(&m.path.parts, "unittest")
}

// ---------------------------------------------------------------------------
// Chasing
// ---------------------------------------------------------------------------

/// The class `name` that the star imports of a module from position `i` on
/// bring in.
pub open spec fn star_class(
    k: KnowledgeView,
    m: ModuleView,
    name: Seq<char>,
    i: int,
) -> Result<Option<(ModuleView, Seq<char>)>, QueryView>
    decreases m.star_imports.len() - i,
{
    if i < 0 || i >= m.star_imports.len() {
        Ok(None)
    } else {
        match resolve::referred(k, m.star_imports[i], m.dir) {
            Err(q) => Err(q),
            Ok(Some(target)) => if crate::table::find(target.classes, name) is Some {
                Ok(Some((target, name)))
            } else {
                star_class(k, m, name, i + 1)
            },
            Ok(None) => star_class(k, m, name, i + 1),
        }
    }
}

/// Where the class that `m` knows as `name` is defined, and under which name:
/// through re-exports (`from .impl import X` in an `__init__.py`, star
/// re-exports), over at most `hops` modules.
pub open spec fn class_symbol(
    k: KnowledgeView,
    m: ModuleView,
    name: Seq<char>,
    hops: nat,
) -> Result<Option<(ModuleView, Seq<char>)>, QueryView>
    decreases hops,
{
    if hops == 0 {
        Ok(None)
    } else if crate::table::find(m.classes, name) is Some {
        Ok(Some((m, name)))
    } else {
        match crate::table::find(m.imports, name) {
            Some(ImportView::From(mref, orig)) => if unittest_ref(mref, orig) {
                Ok(None)
            } else {
                match resolve::referred(k, mref, m.dir) {
                    Err(q) => Err(q),
                    Ok(None) => Ok(None),
                    Ok(Some(next)) => class_symbol(k, next, orig, (hops - 1) as nat),
                }
            },
            Some(ImportView::Module(_)) => Ok(None),
            None => star_class(k, m, name, 0),
        }
    }
}

/// Where the class or function that `m` knows as `name` is defined, and under
/// which name, over at most `hops` modules.
pub open spec fn any_symbol(
    k: KnowledgeView,
    m: ModuleView,
    name: Seq<char>,
    hops: nat,
) -> Result<Option<(ModuleView, Seq<char>)>, QueryView>
    decreases hops,
{
    if hops == 0 {
        Ok(None)
    } else if crate::table::find(m.classes, name) is Some || crate::table::find(
        m.functions,
        name,
    ) is Some {
        Ok(Some((m, name)))
    } else {
        match crate::table::find(m.imports, name) {
            Some(ImportView::From(mref, orig)) => if unittest_ref(mref, orig) {
                Ok(None)
            } else {
                match resolve::referred(k, mref, m.dir) {
                    Err(q) => Err(q),
                    Ok(None) => Ok(None),
                    Ok(Some(next)) => any_symbol(k, next, orig, (hops - 1) as nat),
                }
            },
            _ => Ok(None),
        }
    }
}

/// The mark that `m` knows as `name` (`from sympy.testing.pytest import slow`,
/// there `slow = pytest.mark.slow`), over at most `hops` modules.
pub open spec fn mark_symbol(
    k: KnowledgeView,
    m: ModuleView,
    name: Seq<char>,
    hops: nat,
) -> Result<Option<Seq<char>>, QueryView>
    decreases hops,
{
    if hops == 0 {
        Ok(None)
    } else {
        match crate::table::find(m.mark_aliases, name) {
            Some(mark) => Ok(Some(mark)),
            None => match crate::table::find(m.imports, name) {
                Some(ImportView::From(mref, orig)) => match resolve::referred(k, mref, m.dir) {
                    Err(q) => Err(q),
                    Ok(None) => Ok(None),
                    Ok(Some(next)) => mark_symbol(k, next, orig, (hops - 1) as nat),
                },
                _ => Ok(None),
            },
        }
    }
}

fn find_star<'a>(k: &'a Knowledge, m: &'a Module, name: &str) -> (r: Result<
    Option<(&'a Module, String)>,
    Query,
>)
    ensures
        resolve::told_opt(r) == star_class(k@, m@, name@, 0),
{
    let mut i: usize = 0;
    while i < m.star_imports.len()
        invariant
            i <= m.star_imports.len(),
            star_class(k@, m@, name@, i as int) == star_class(k@, m@, name@, 0),
        decreases m.star_imports.len() - i,
    {
        match resolve_ref(k, &m.star_imports[i], &m.dir) {
            Err(q) => {
                return Err(q);
            },
            Ok(Some(target)) => {
                if target.classes.has(name) {
                    return Ok(Some((target, name.to_owned())));
                }
            },
            Ok(None) => {},
        }
        i += 1;
    }
    Ok(None)
}

/// Chase `name` through re-exports until the module that defines the class is
/// found.
pub fn resolve_symbol<'a>(k: &'a Knowledge, module: &'a Module, name: &str) -> (r: Result<
    Option<(&'a Module, String)>,
    Query,
>)
    ensures
        resolve::told_opt(r) == class_symbol(k@, module@, name@, HOPS as nat),
{
    let mut m: &'a Module = module;
    let mut n: String = name.to_owned();
    let mut hops: u32 = HOPS;
    while hops > 0
        invariant
            class_symbol(k@, m@, n@, hops as nat) == class_symbol(
                k@,
                module@,
                name@,
                HOPS as nat,
            ),
        decreases hops,
    {
        if m.classes.has(n.as_str()) {
            return Ok(Some((m, n)));
        }
        match m.imports.get(n.as_str()) {
            Some(Import::From(mref, orig)) => {
                if is_unittest_ref(mref, orig.as_str()) {
                    return Ok(None);
                }
                match resolve_ref(k, mref, &m.dir) {
                    Err(q) => {
                        return Err(q);
                    },
                    Ok(None) => {
                        return Ok(None);
                    },
                    Ok(Some(next)) => {
                        n = orig.clone();
                        m = next;
                    },
                }
            },
            Some(Import::Module(_)) => {
                return Ok(None);
            },
            None => {
                return find_star(k, m, n.as_str());
            },
        }
        hops -= 1;
    }
    Ok(None)
}

/// Like `resolve_symbol`, but a name defined as a top-level function in the
/// target module also ends the chase.
pub fn resolve_symbol_or_function<'a>(k: &'a Knowledge, module: &'a Module, name: &str) -> (r:
    Result<Option<(&'a Module, String)>, Query>)
    ensures
        resolve::told_opt(r) == any_symbol(k@, module@, name@, HOPS as nat),
{
    let mut m: &'a Module = module;
    let mut n: String = name.to_owned();
    let mut hops: u32 = HOPS;
    while hops > 0
        invariant
            any_symbol(k@, m@, n@, hops as nat) == any_symbol(k@, module@, name@, HOPS as nat),
        decreases hops,
    {
        if m.classes.has(n.as_str()) || m.functions.has(n.as_str()) {
            return Ok(Some((m, n)));
        }
        match m.imports.get(n.as_str()) {
            Some(Import::From(mref, orig)) => {
                if is_unittest_ref(mref, orig.as_str()) {
                    return Ok(None);
                }
                match resolve_ref(k, mref, &m.dir) {
                    Err(q) => {
                        return Err(q);
                    },
                    Ok(None) => {
                        return Ok(None);
                    },
                    Ok(Some(next)) => {
                        n = orig.clone();
                        m = next;
                    },
                }
            },
            _ => {
                return Ok(None);
            },
        }
        hops -= 1;
    }
    Ok(None)
}

/// Resolve a bare decorator name to a mark name, chasing imports.
pub fn resolve_mark_alias(k: &Knowledge, module: &Module, name: &str) -> (r: Result<
    Option<String>,
    Query,
>)
    ensures
        resolve::told_opt(r) == mark_symbol(k@, module@, name@, HOPS as nat),
{
    let mut m: &Module = module;
    let mut n: String = name.to_owned();
    let mut hops: u32 = HOPS;
    while hops > 0
        invariant
            mark_symbol(k@, m@, n@, hops as nat) == mark_symbol(k@, module@, name@, HOPS as nat),
        decreases hops,
    {
        match m.mark_aliases.get(n.as_str()) {
            Some(mark) => {
                return Ok(Some(mark.clone()));
            },
            None => {},
        }
        match m.imports.get(n.as_str()) {
            Some(Import::From(mref, orig)) => match resolve_ref(k, mref, &m.dir) {
                Err(q) => {
                    return Err(q);
                },
                Ok(None) => {
                    return Ok(None);
                },
                Ok(Some(next)) => {
                    n = orig.clone();
                    m = next;
                },
            },
            _ => {
                return Ok(None);
            },
        }
        hops -= 1;
    }
    Ok(None)
}

// ---------------------------------------------------------------------------
// Base classes
// ---------------------------------------------------------------------------

/// The module that `segment` is in the module `mref`: a submodule, or else what
/// the package binds the name to by an import (`from tests import unittest`),
/// over at most `hops` packages.
pub open spec fn step_into(
    k: KnowledgeView,
    mref: ModuleRefView,
    segment: Seq<char>,
    dir: Seq<Seq<char>>,
    hops: nat,
) -> Result<ModuleRefView, QueryView>
    decreases hops,
{
    let direct = crate::model::child_ref(mref, segment);
    match resolve::referred(k, direct, dir) {
        Err(q) => Err(q),
        Ok(Some(_)) => Ok(direct),
        Ok(None) => match resolve::referred(k, mref, dir) {
            Err(q) => Err(q),
            Ok(None) => Ok(direct),
            Ok(Some(package)) => match crate::table::find(package.imports, segment) {
                Some(ImportView::Module(d)) => Ok(ModuleRefView::Absolute(d)),
                Some(ImportView::From(next, orig)) => if hops == 0 {
                    Ok(direct)
                } else {
                    step_into(k, next, orig, package.dir, (hops - 1) as nat)
                },
                None => Ok(direct),
            },
        },
    }
}

/// The module that the segments from position `i` on lead to, from `mref`.
pub open spec fn steps_into(
    k: KnowledgeView,
    mref: ModuleRefView,
    segments: Seq<Seq<char>>,
    i: int,
    dir: Seq<Seq<char>>,
) -> Result<ModuleRefView, QueryView>
    decreases segments.len() - i,
{
    if i < 0 || i >= segments.len() {
        Ok(mref)
    } else {
        match step_into(k, mref, segments[i], dir, HOPS as nat) {
            Err(q) => Err(q),
            Ok(next) => steps_into(k, next, segments, i + 1, dir),
        }
    }
}

/// The module reference with the segments from position `i` on behind it.
pub open spec fn child_refs(
    mref: ModuleRefView,
    segments: Seq<Seq<char>>,
    i: int,
) -> ModuleRefView
    decreases segments.len() - i,
{
    if i < 0 || i >= segments.len() {
        mref
    } else {
        child_refs(crate::model::child_ref(mref, segments[i]), segments, i + 1)
    }
}

/// What a base class is.
pub enum BaseTarget<'a> {
    /// A test case class of `unittest`.
    Unittest,
    /// A class of a known module.
    Local(&'a Module, String),
    Unknown,
}

/// What a base class is.
pub enum BaseView {
    Unittest,
    Local(ModuleView, Seq<char>),
    Unknown,
}

impl<'a> View for BaseTarget<'a> {
    type V = BaseView;

    open spec fn view(&self) -> BaseView {
        match self {
            BaseTarget::Unittest => BaseView::Unittest,
            BaseTarget::Local(m, n) => BaseView::Local(m@, n@),
            BaseTarget::Unknown => BaseView::Unknown,
        }
    }
}

/// The class that a chase found.
pub open spec fn as_base(
    r: Result<Option<(ModuleView, Seq<char>)>, QueryView>,
) -> Result<BaseView, QueryView> {
    match r {
        Err(q) => Err(q),
        Ok(Some((m, n))) => Ok(BaseView::Local(m, n)),
        Ok(None) => Ok(BaseView::Unknown),
    }
}

/// The class `name` of the module `mref`.
pub open spec fn class_in(
    k: KnowledgeView,
    mref: ModuleRefView,
    name: Seq<char>,
    dir: Seq<Seq<char>>,
) -> Result<BaseView, QueryView> {
    if unittest_ref(mref, name) {
        Ok(BaseView::Unittest)
    } else {
        match resolve::referred(k, mref, dir) {
            Err(q) => Err(q),
            Ok(None) => Ok(BaseView::Unknown),
            Ok(Some(target)) => as_base(class_symbol(k, target, name, HOPS as nat)),
        }
    }
}

/// The base class that a plain name is in a module: an imported class, one of
/// the module itself, or one that a star import brings in.
pub open spec fn plain_base(
    k: KnowledgeView,
    m: ModuleView,
    name: Seq<char>,
) -> Result<BaseView, QueryView> {
    match crate::table::find(m.imports, name) {
        Some(ImportView::From(mref, orig)) => class_in(k, mref, orig, m.dir),
        Some(ImportView::Module(_)) => Ok(BaseView::Unknown),
        None => if crate::table::find(m.classes, name) is Some {
            Ok(BaseView::Local(m, name))
        } else {
            as_base(star_class(k, m, name, 0))
        },
    }
}

/// The class `last` that the segments lead to, from `mref`.
pub open spec fn dotted_from(
    k: KnowledgeView,
    m: ModuleView,
    mref: ModuleRefView,
    segments: Seq<Seq<char>>,
    last: Seq<char>,
) -> Result<BaseView, QueryView> {
    if unittest_ref(child_refs(mref, segments, 0), last) {
        Ok(BaseView::Unittest)
    } else {
        match steps_into(k, mref, segments, 0, m.dir) {
            Err(q) => Err(q),
            Ok(full) => class_in(k, full, last, m.dir),
        }
    }
}

/// The base class that a dotted name is in a module.
pub open spec fn dotted_base(
    k: KnowledgeView,
    m: ModuleView,
    segments: Seq<Seq<char>>,
) -> Result<BaseView, QueryView> {
    let last = segments.last();
    let middle = segments.subrange(1, segments.len() - 1);
    match crate::table::find(m.imports, segments[0]) {
        Some(ImportView::Module(d)) => dotted_from(k, m, ModuleRefView::Absolute(d), middle, last),
        Some(ImportView::From(mref, orig)) => dotted_from(k, m, mref, seq![orig] + middle, last),
        None => Ok(BaseView::Unknown),
    }
}

/// The base class that a text is in a module.
pub open spec fn base_target(
    k: KnowledgeView,
    m: ModuleView,
    text: Seq<char>,
) -> Result<BaseView, QueryView> {
    let segments = text::fields(text, Separator::Char('.'), true);
    if segments.len() == 1 {
        plain_base(k, m, segments[0])
    } else if segments.len() == 0 {
        Ok(BaseView::Unknown)
    } else {
        dotted_base(k, m, segments)
    }
}

fn step(k: &Knowledge, mref: &ModuleRef, segment: &str, dir: &FilePath) -> (r: Result<
    ModuleRef,
    Query,
>)
    ensures
        resolve::told(r) == step_into(k@, mref@, segment@, dir@, HOPS as nat),
{
    let mut at: ModuleRef = mref.copy();
    let mut name: String = segment.to_owned();
    let mut from: FilePath = dir.copy();
    let mut hops: u32 = HOPS;
    loop
        invariant
            step_into(k@, at@, name@, from@, hops as nat) == step_into(
                k@,
                mref@,
                segment@,
                dir@,
                HOPS as nat,
            ),
        decreases hops,
    {
        let direct: ModuleRef = resolve_child(&at, name.as_str());
        match resolve_ref(k, &direct, &from) {
            Err(q) => {
                return Err(q);
            },
            Ok(Some(_)) => {
                return Ok(direct);
            },
            Ok(None) => {},
        }
        match resolve_ref(k, &at, &from) {
            Err(q) => {
                return Err(q);
            },
            Ok(None) => {
                return Ok(direct);
            },
            Ok(Some(package)) => match package.imports.get(name.as_str()) {
                Some(Import::Module(d)) => {
                    return Ok(ModuleRef::Absolute(d.clone()));
                },
                Some(Import::From(next, orig)) => {
                    if hops == 0 {
                        return Ok(direct);
                    }
                    at = next.copy();
                    name = orig.clone();
                    from = package.dir.copy();
                    hops -= 1;
                },
                None => {
                    return Ok(direct);
                },
            },
        }
    }
}

/// The view of a chase's result as a base class.
fn to_base<'a>(r: Result<Option<(&'a Module, String)>, Query>) -> (b: Result<
    BaseTarget<'a>,
    Query,
>)
    ensures
        resolve::told(b) == as_base(resolve::told_opt(r)),
{
    match r {
        Err(q) => Err(q),
        Ok(Some((m, n))) => Ok(BaseTarget::Local(m, n)),
        Ok(None) => Ok(BaseTarget::Unknown),
    }
}

fn find_class_in<'a>(k: &'a Knowledge, mref: &ModuleRef, name: &str, dir: &FilePath) -> (r: Result<
    BaseTarget<'a>,
    Query,
>)
    ensures
        resolve::told(r) == class_in(k@, mref@, name@, dir@),
{
    if is_unittest_ref(mref, name) {
        return Ok(BaseTarget::Unittest);
    }
    match resolve_ref(k, mref, dir) {
        Err(q) => Err(q),
        Ok(None) => Ok(BaseTarget::Unknown),
        Ok(Some(target)) => to_base(resolve_symbol(k, target, name)),
    }
}

fn resolve_plain<'a>(k: &'a Knowledge, m: &'a Module, name: &str) -> (r: Result<
    BaseTarget<'a>,
    Query,
>)
    ensures
        resolve::told(r) == plain_base(k@, m@, name@),
{
    match m.imports.get(name) {
        Some(Import::From(mref, orig)) => find_class_in(k, mref, orig.as_str(), &m.dir),
        Some(Import::Module(_)) => Ok(BaseTarget::Unknown),
        None => if m.classes.has(name) {
            Ok(BaseTarget::Local(m, name.to_owned()))
        } else {
            to_base(find_star(k, m, name))
        },
    }
}

fn resolve_from<'a>(
    k: &'a Knowledge,
    m: &'a Module,
    mref: ModuleRef,
    segments: &Vec<String>,
    last: &str,
) -> (r: Result<BaseTarget<'a>, Query>)
    ensures
        resolve::told(r) == dotted_from(k@, m@, mref@, text::deep(segments@), last@),
{
    let ghost ss = text::deep(segments@);
    let mut plain: ModuleRef = mref.copy();
    let mut i: usize = 0;
    while i < segments.len()
        invariant
            i <= segments.len(),
            ss == text::deep(segments@),
            child_refs(plain@, ss, i as int) == child_refs(mref@, ss, 0),
        decreases segments.len() - i,
    {
        plain = resolve_child(&plain, segments[i].as_str());
        i += 1;
    }
    if is_unittest_ref(&plain, last) {
        return Ok(BaseTarget::Unittest);
    }
    let ghost start = mref@;
    let mut full: ModuleRef = mref;
    let mut j: usize = 0;
    while j < segments.len()
        invariant
            j <= segments.len(),
            ss == text::deep(segments@),
            start == mref@,
            !unittest_ref(child_refs(start, ss, 0), last@),
            steps_into(k@, full@, ss, j as int, m@.dir) == steps_into(
                k@,
                start,
                ss,
                0,
                m@.dir,
            ),
        decreases segments.len() - j,
    {
        full = match step(k, &full, segments[j].as_str(), &m.dir) {
            Ok(next) => next,
            Err(q) => {
                return Err(q);
            },
        };
        j += 1;
    }
    find_class_in(k, &full, last, &m.dir)
}

/// The strings of a list between two positions, behind those in `out`.
fn push_range(out: &mut Vec<String>, list: &Vec<String>, from: usize, to: usize)
    requires
        from <= to <= list.len(),
    ensures
        text::deep(final(out)@) == text::deep(old(out)@) + text::deep(list@).subrange(
            from as int,
            to as int,
        ),
{
    let ghost before = text::deep(out@);
    let ghost ls = text::deep(list@);
    let mut i: usize = from;
    proof {
        assert(before + ls.subrange(from as int, from as int) =~= before);
    }
    while i < to
        invariant
            from <= i <= to <= list.len(),
            ls == text::deep(list@),
            text::deep(out@) == before + ls.subrange(from as int, i as int),
        decreases to - i,
    {
        out.push(list[i].clone());
        i += 1;
        proof {
            assert(ls.subrange(from as int, i as int) =~= ls.subrange(from as int, i - 1).push(
                ls[i - 1],
            ));
            assert(text::deep(out@) =~= before + ls.subrange(from as int, i as int));
        }
    }
}

/// What the base class that is written `base` is in a module.
pub fn resolve_base<'a>(k: &'a Knowledge, m: &'a Module, base: &str) -> (r: Result<
    BaseTarget<'a>,
    Query,
>)
    ensures
        resolve::told(r) == base_target(k@, m@, base@),
{
    let segments: Vec<String> = split(base, Separator::Char('.'), true);
    let ghost ss = text::deep(segments@);
    let n: usize = segments.len();
    proof {
        assert(ss.len() == n);
    }
    if n == 0 {
        return Ok(BaseTarget::Unknown);
    }
    if n == 1 {
        return resolve_plain(k, m, segments[0].as_str());
    }
    let mut middle: Vec<String> = Vec::new();
    match m.imports.get(segments[0].as_str()) {
        Some(Import::Module(d)) => {
            push_range(&mut middle, &segments, 1, n - 1);
            proof {
                assert(text::deep(middle@) =~= ss.subrange(1, n - 1));
            }
            resolve_from(
                k,
                m,
                ModuleRef::Absolute(d.clone()),
                &middle,
                segments[n - 1].as_str(),
            )
        },
        Some(Import::From(mref, orig)) => {
            middle.push(orig.clone());
            proof {
                assert(text::deep(middle@) =~= seq![orig@]);
            }
            push_range(&mut middle, &segments, 1, n - 1);
            resolve_from(k, m, mref.copy(), &middle, segments[n - 1].as_str())
        },
        None => Ok(BaseTarget::Unknown),
    }
}

// ---------------------------------------------------------------------------
// Laws
// ---------------------------------------------------------------------------

proof fn star_stays(
    k: KnowledgeView,
    more: KnowledgeView,
    m: ModuleView,
    name: Seq<char>,
    i: int,
)
    requires
        resolve::extends(k, more),
        0 <= i,
        star_class(k, m, name, i) is Ok,
    ensures
        star_class(more, m, name, i) == star_class(k, m, name, i),
    decreases m.star_imports.len() - i,
{
    if i < m.star_imports.len() {
        resolve::law_references_stay(k, more, m.star_imports[i], m.dir);
        if star_class(k, m, name, i) == star_class(k, m, name, i + 1) {
            star_stays(k, more, m, name, i + 1);
        }
    }
}

proof fn class_symbol_stays(
    k: KnowledgeView,
    more: KnowledgeView,
    m: ModuleView,
    name: Seq<char>,
    hops: nat,
)
    requires
        resolve::extends(k, more),
        class_symbol(k, m, name, hops) is Ok,
    ensures
        class_symbol(more, m, name, hops) == class_symbol(k, m, name, hops),
    decreases hops,
{
    if hops > 0 && crate::table::find(m.classes, name) is None {
        match crate::table::find(m.imports, name) {
            Some(ImportView::From(mref, orig)) => {
                if !unittest_ref(mref, orig) {
                    resolve::law_references_stay(k, more, mref, m.dir);
                    match resolve::referred(k, mref, m.dir) {
                        Ok(Some(next)) => {
                            class_symbol_stays(k, more, next, orig, (hops - 1) as nat);
                        },
                        _ => {},
                    }
                }
            },
            Some(ImportView::Module(_)) => {},
            None => {
                star_stays(k, more, m, name, 0);
            },
        }
    }
}

/// Where a class or function is defined stays the same however much more is
/// learnt.
pub proof fn law_symbols_stay(
    k: KnowledgeView,
    more: KnowledgeView,
    m: ModuleView,
    name: Seq<char>,
    hops: nat,
)
    requires
        resolve::extends(k, more),
        any_symbol(k, m, name, hops) is Ok,
    ensures
        any_symbol(more, m, name, hops) == any_symbol(k, m, name, hops),
    decreases hops,
{
    if hops > 0 && crate::table::find(m.classes, name) is None && crate::table::find(
        m.functions,
        name,
    ) is None {
        match crate::table::find(m.imports, name) {
            Some(ImportView::From(mref, orig)) => {
                if !unittest_ref(mref, orig) {
                    resolve::law_references_stay(k, more, mref, m.dir);
                    match resolve::referred(k, mref, m.dir) {
                        Ok(Some(next)) => {
                            law_symbols_stay(k, more, next, orig, (hops - 1) as nat);
                        },
                        _ => {},
                    }
                }
            },
            _ => {},
        }
    }
}

/// So does the mark that a name stands for.
pub proof fn law_marks_stay(
    k: KnowledgeView,
    more: KnowledgeView,
    m: ModuleView,
    name: Seq<char>,
    hops: nat,
)
    requires
        resolve::extends(k, more),
        mark_symbol(k, m, name, hops) is Ok,
    ensures
        mark_symbol(more, m, name, hops) == mark_symbol(k, m, name, hops),
    decreases hops,
{
    if hops > 0 && crate::table::find(m.mark_aliases, name) is None {
        match crate::table::find(m.imports, name) {
            Some(ImportView::From(mref, orig)) => {
                resolve::law_references_stay(k, more, mref, m.dir);
                match resolve::referred(k, mref, m.dir) {
                    Ok(Some(next)) => {
                        law_marks_stay(k, more, next, orig, (hops - 1) as nat);
                    },
                    _ => {},
                }
            },
            _ => {},
        }
    }
}

proof fn step_stays(
    k: KnowledgeView,
    more: KnowledgeView,
    mref: ModuleRefView,
    segment: Seq<char>,
    dir: Seq<Seq<char>>,
    hops: nat,
)
    requires
        resolve::extends(k, more),
        step_into(k, mref, segment, dir, hops) is Ok,
    ensures
        step_into(more, mref, segment, dir, hops) == step_into(k, mref, segment, dir, hops),
    decreases hops,
{
    let direct = crate::model::child_ref(mref, segment);
    resolve::law_references_stay(k, more, direct, dir);
    if resolve::referred(k, direct, dir)->Ok_0 is None {
        resolve::law_references_stay(k, more, mref, dir);
        match resolve::referred(k, mref, dir) {
            Ok(Some(package)) => match crate::table::find(package.imports, segment) {
                Some(ImportView::From(next, orig)) => {
                    if hops > 0 {
                        step_stays(k, more, next, orig, package.dir, (hops - 1) as nat);
                    }
                },
                _ => {},
            },
            _ => {},
        }
    }
}

proof fn steps_stay(
    k: KnowledgeView,
    more: KnowledgeView,
    mref: ModuleRefView,
    segments: Seq<Seq<char>>,
    i: int,
    dir: Seq<Seq<char>>,
)
    requires
        resolve::extends(k, more),
        0 <= i,
        steps_into(k, mref, segments, i, dir) is Ok,
    ensures
        steps_into(more, mref, segments, i, dir) == steps_into(k, mref, segments, i, dir),
    decreases segments.len() - i,
{
    if i < segments.len() {
        step_stays(k, more, mref, segments[i], dir, HOPS as nat);
        let next = step_into(k, mref, segments[i], dir, HOPS as nat)->Ok_0;
        steps_stay(k, more, next, segments, i + 1, dir);
    }
}

proof fn class_in_stays(
    k: KnowledgeView,
    more: KnowledgeView,
    mref: ModuleRefView,
    name: Seq<char>,
    dir: Seq<Seq<char>>,
)
    requires
        resolve::extends(k, more),
        class_in(k, mref, name, dir) is Ok,
    ensures
        class_in(more, mref, name, dir) == class_in(k, mref, name, dir),
{
    if !unittest_ref(mref, name) {
        resolve::law_references_stay(k, more, mref, dir);
        match resolve::referred(k, mref, dir) {
            Ok(Some(target)) => {
                class_symbol_stays(k, more, target, name, HOPS as nat);
            },
            _ => {},
        }
    }
}

proof fn dotted_stays(
    k: KnowledgeView,
    more: KnowledgeView,
    m: ModuleView,
    mref: ModuleRefView,
    segments: Seq<Seq<char>>,
    last: Seq<char>,
)
    requires
        resolve::extends(k, more),
        dotted_from(k, m, mref, segments, last) is Ok,
    ensures
        dotted_from(more, m, mref, segments, last) == dotted_from(k, m, mref, segments, last),
{
    if !unittest_ref(child_refs(mref, segments, 0), last) {
        steps_stay(k, more, mref, segments, 0, m.dir);
        let full = steps_into(k, mref, segments, 0, m.dir)->Ok_0;
        class_in_stays(k, more, full, last, m.dir);
    }
}

/// So does the class that a base class is.
pub proof fn law_bases_stay(
    k: KnowledgeView,
    more: KnowledgeView,
    m: ModuleView,
    base: Seq<char>,
)
    requires
        resolve::extends(k, more),
        base_target(k, m, base) is Ok,
    ensures
        base_target(more, m, base) == base_target(k, m, base),
{
    let segments = text::fields(base, Separator::Char('.'), true);
    if segments.len() == 1 {
        let name = segments[0];
        match crate::table::find(m.imports, name) {
            Some(ImportView::From(mref, orig)) => {
                class_in_stays(k, more, mref, orig, m.dir);
            },
            Some(ImportView::Module(_)) => {},
            None => {
                if crate::table::find(m.classes, name) is None {
                    star_stays(k, more, m, name, 0);
                }
            },
        }
    } else if segments.len() > 1 {
        let last = segments.last();
        let middle = segments.subrange(1, segments.len() - 1);
        match crate::table::find(m.imports, segments[0]) {
            Some(ImportView::Module(d)) => {
                dotted_stays(k, more, m, ModuleRefView::Absolute(d), middle, last);
            },
            Some(ImportView::From(mref, orig)) => {
                dotted_stays(k, more, m, mref, seq![orig] + middle, last);
            },
            None => {},
        }
    }
}

// ---------------------------------------------------------------------------
// Laws of chasing
// ---------------------------------------------------------------------------

/// What a chase finds is there: a class where one was looked for, a class or a
/// function where either was.
pub proof fn law_symbols_are_there(
    k: KnowledgeView,
    m: ModuleView,
    name: Seq<char>,
    hops: nat,
)
    ensures
        class_symbol(k, m, name, hops) matches Ok(Some(at)) ==> crate::table::find(
            at.0.classes,
            at.1,
        ) is Some,
        any_symbol(k, m, name, hops) matches Ok(Some(at)) ==> crate::table::find(
            at.0.classes,
            at.1,
        ) is Some || crate::table::find(at.0.functions, at.1) is Some,
    decreases hops,
{
    if hops > 0 {
        star_is_there(k, m, name, 0);
        if let Some(ImportView::From(mref, orig)) = crate::table::find(m.imports, name) {
            if let Ok(Some(next)) = resolve::referred(k, mref, m.dir) {
                law_symbols_are_there(k, next, orig, (hops - 1) as nat);
            }
        }
    }
}

proof fn star_is_there(k: KnowledgeView, m: ModuleView, name: Seq<char>, i: int)
    ensures
        star_class(k, m, name, i) matches Ok(Some(at)) ==> at.1 == name && crate::table::find(
            at.0.classes,
            name,
        ) is Some,
    decreases m.star_imports.len() - i,
{
    if 0 <= i < m.star_imports.len() {
        star_is_there(k, m, name, i + 1);
    }
}

/// A module's own definition is what its name stands for. A name that it imports
/// stands for what the other name stands for in the module it comes from, with
/// one hop less to go; this holds of classes, of either kind of definition and of
/// marks.
pub proof fn law_names_are_followed(
    k: KnowledgeView,
    m: ModuleView,
    name: Seq<char>,
    hops: nat,
    mref: ModuleRefView,
    orig: Seq<char>,
    next: ModuleView,
)
    requires
        hops > 0,
    ensures
        crate::table::find(m.classes, name) is Some ==> class_symbol(k, m, name, hops) == Ok::<
            Option<(ModuleView, Seq<char>)>,
            QueryView,
        >(Some((m, name))) && any_symbol(k, m, name, hops) == Ok::<
            Option<(ModuleView, Seq<char>)>,
            QueryView,
        >(Some((m, name))),
        crate::table::find(m.functions, name) is Some ==> any_symbol(k, m, name, hops) == Ok::<
            Option<(ModuleView, Seq<char>)>,
            QueryView,
        >(Some((m, name))),
        crate::table::find(m.mark_aliases, name) matches Some(mark) ==> mark_symbol(
            k,
            m,
            name,
            hops,
        ) == Ok::<Option<Seq<char>>, QueryView>(Some(mark)),
        crate::table::find(m.imports, name) == Some(ImportView::From(mref, orig))
            && resolve::referred(k, mref, m.dir) == Ok::<Option<ModuleView>, QueryView>(Some(next))
            ==> {
            &&& crate::table::find(m.classes, name) is None && !unittest_ref(mref, orig)
                ==> class_symbol(k, m, name, hops) == class_symbol(
                k,
                next,
                orig,
                (hops - 1) as nat,
            )
            &&& crate::table::find(m.classes, name) is None && crate::table::find(
                m.functions,
                name,
            ) is None && !unittest_ref(mref, orig) ==> any_symbol(k, m, name, hops) == any_symbol(
                k,
                next,
                orig,
                (hops - 1) as nat,
            )
            &&& crate::table::find(m.mark_aliases, name) is None ==> mark_symbol(k, m, name, hops)
                == mark_symbol(k, next, orig, (hops - 1) as nat)
        },
{
}

/// A class that no import and no definition of a module names comes from the
/// first star import whose module defines it.
pub proof fn law_star_imports_bring_classes(
    k: KnowledgeView,
    m: ModuleView,
    name: Seq<char>,
    at: int,
    target: ModuleView,
)
    requires
        0 <= at < m.star_imports.len(),
        crate::table::find(m.imports, name) is None,
        crate::table::find(m.classes, name) is None,
        resolve::referred(k, m.star_imports[at], m.dir) == Ok::<Option<ModuleView>, QueryView>(
            Some(target),
        ),
        crate::table::find(target.classes, name) is Some,
        forall|i: int|
            0 <= i < at ==> match resolve::referred(k, #[trigger] m.star_imports[i], m.dir) {
                Ok(Some(other)) => crate::table::find(other.classes, name) is None,
                Ok(None) => true,
                Err(_) => false,
            },
    ensures
        plain_base(k, m, name) == Ok::<BaseView, QueryView>(BaseView::Local(target, name)),
        class_symbol(k, m, name, HOPS as nat) == Ok::<
            Option<(ModuleView, Seq<char>)>,
            QueryView,
        >(Some((target, name))),
{
    earlier_stars(k, m, name, 0, at);
}

proof fn earlier_stars(k: KnowledgeView, m: ModuleView, name: Seq<char>, i: int, at: int)
    requires
        0 <= i <= at < m.star_imports.len(),
        forall|j: int|
            i <= j < at ==> match resolve::referred(k, #[trigger] m.star_imports[j], m.dir) {
                Ok(Some(other)) => crate::table::find(other.classes, name) is None,
                Ok(None) => true,
                Err(_) => false,
            },
    ensures
        star_class(k, m, name, i) == star_class(k, m, name, at),
    decreases at - i,
{
    if i < at {
        assert(resolve::referred(k, m.star_imports[i], m.dir) is Ok);
        earlier_stars(k, m, name, i + 1, at);
    }
}

/// A base that is imported from `unittest` as one of its test case classes is
/// known as such, under any name; a class that the module defines itself is that
/// class, unless an import has its name.
pub proof fn law_plain_bases(
    k: KnowledgeView,
    m: ModuleView,
    name: Seq<char>,
    package: Seq<char>,
    class: Seq<char>,
)
    requires
        !name.contains('.'),
    ensures
        (package == "unittest"@ || package == "unittest.case"@ || package
            == "unittest.async_case"@) && (class == "TestCase"@ || class
            == "IsolatedAsyncioTestCase"@ || class == "FunctionTestCase"@) && crate::table::find(
            m.imports,
            name,
        ) == Some(ImportView::From(ModuleRefView::Absolute(package), class)) ==> base_target(
            k,
            m,
            name,
        ) == Ok::<BaseView, QueryView>(BaseView::Unittest),
        crate::table::find(m.imports, name) is None && crate::table::find(m.classes, name) is Some
            ==> base_target(k, m, name) == Ok::<BaseView, QueryView>(BaseView::Local(m, name)),
        crate::table::find(m.imports, name) matches Some(ImportView::Module(_)) ==> base_target(
            k,
            m,
            name,
        ) == Ok::<BaseView, QueryView>(BaseView::Unknown),
{
    text::law_field_is_one(name, '.');
}

/// A base `alias.Class`, where `alias` is the module `unittest`, is a test case
/// class of it; where `alias` is another module, it is what the class is there.
pub proof fn law_dotted_bases(
    k: KnowledgeView,
    m: ModuleView,
    alias: Seq<char>,
    class: Seq<char>,
    module: Seq<char>,
)
    requires
        !alias.contains('.'),
        !class.contains('.'),
        crate::table::find(m.imports, alias) == Some(ImportView::Module(module)),
    ensures
        ({
            let base = base_target(k, m, alias.push('.') + class);
            let mref = ModuleRefView::Absolute(module);
            &&& module == "unittest"@ && (class == "TestCase"@ || class
                == "IsolatedAsyncioTestCase"@ || class == "FunctionTestCase"@) ==> base == Ok::<
                BaseView,
                QueryView,
            >(BaseView::Unittest)
            &&& !unittest_ref(mref, class) ==> (resolve::referred(k, mref, m.dir) matches Ok(
                Some(target),
            ) ==> (class_symbol(k, target, class, HOPS as nat) matches Ok(Some(at)) ==> base
                == Ok::<BaseView, QueryView>(BaseView::Local(at.0, at.1))))
        }),
{
    text::law_fields_add_up(alias, '.', class, true);
    text::law_field_is_one(alias, '.');
    text::law_field_is_one(class, '.');
    let segments = text::fields(alias.push('.') + class, Separator::Char('.'), true);
    assert(segments =~= seq![alias, class]);
    assert(segments.subrange(1, segments.len() - 1) =~= Seq::empty());
}

/// A class of the `unittest` package itself is one of its test case classes in a
/// module somewhere below a directory of that name.
pub proof fn law_classes_of_unittest(m: ModuleView, name: Seq<char>)
    ensures
        unittest_module_class(m, name) <==> (name == "TestCase"@ || name
            == "IsolatedAsyncioTestCase"@ || name == "FunctionTestCase"@) && exists|i: int|
            0 <= i < m.path.len() && #[trigger] m.path[i] == "unittest"@,
{
    if m.path.contains("unittest"@) {
        assert(m.path[m.path.index_of("unittest"@)] == "unittest"@);
    }
}

/// A base `alias.Class`, where `alias` is a submodule that a package gives away by
/// name, is what the class is in that submodule; where there is no such
/// submodule, but the package itself binds the name to a module, it is what the
/// class is there.
pub proof fn law_bases_in_submodules(
    k: KnowledgeView,
    m: ModuleView,
    alias: Seq<char>,
    class: Seq<char>,
    package: ModuleRefView,
    orig: Seq<char>,
    target: ModuleView,
    module: Seq<char>,
)
    requires
        !alias.contains('.'),
        !class.contains('.'),
        crate::table::find(m.imports, alias) == Some(ImportView::From(package, orig)),
        !unittest_ref(crate::model::child_ref(package, orig), class),
    ensures
        ({
            let base = base_target(k, m, alias.push('.') + class);
            let direct = crate::model::child_ref(package, orig);
            let there = resolve::referred(k, direct, m.dir);
            &&& there == Ok::<Option<ModuleView>, QueryView>(Some(target)) ==> (class_symbol(
                k,
                target,
                class,
                HOPS as nat,
            ) matches Ok(Some(at)) ==> base == Ok::<BaseView, QueryView>(
                BaseView::Local(at.0, at.1),
            ))
            &&& there == Ok::<Option<ModuleView>, QueryView>(None) ==> (resolve::referred(
                k,
                package,
                m.dir,
            ) matches Ok(Some(init)) ==> (crate::table::find(init.imports, orig) == Some(
                ImportView::Module(module),
            ) ==> base == class_in(k, ModuleRefView::Absolute(module), class, m.dir)))
        }),
{
    text::law_fields_add_up(alias, '.', class, true);
    text::law_field_is_one(alias, '.');
    text::law_field_is_one(class, '.');
    let segments = text::fields(alias.push('.') + class, Separator::Char('.'), true);
    assert(segments =~= seq![alias, class]);
    let middle = segments.subrange(1, segments.len() - 1);
    assert(seq![orig] + middle =~= seq![orig]);
    let one = seq![orig];
    assert(one[0] == orig);
    reveal_with_fuel(child_refs, 2);
    reveal_with_fuel(steps_into, 2);
}

} // verus!
