//! File paths as lists of components.

use vstd::prelude::*;

use crate::text::{self, concat, same, split, to_chars, Separator};

verus! {

broadcast use crate::text::group_deep;

/// A file path, by its components. The root directory is the component `/`;
/// a path that begins with it is absolute. A component `.` stands only at the
/// front of a relative path.
#[derive(Debug)]
pub struct FilePath {
    pub parts: Vec<String>,
}

impl View for FilePath {
    type V = Seq<Seq<char>>;

    open spec fn view(&self) -> Seq<Seq<char>> {
        text::deep(self.parts@)
    }
}

/// The component that stands for the root directory.
pub open spec fn root_part() -> Seq<char> {
    "/"@
}

/// Does the path begin at the root directory?
pub open spec fn absolute(p: Seq<Seq<char>>) -> bool {
    p.len() > 0 && p[0] == root_part()
}

/// The components `parts` from position `i` on behind `out`, where a `.` is
/// dropped unless the path begins with it.
pub open spec fn add_parts(
    out: Seq<Seq<char>>,
    parts: Seq<Seq<char>>,
    i: int,
) -> Seq<Seq<char>>
    decreases parts.len() - i,
{
    if i < 0 || i >= parts.len() {
        out
    } else if parts[i] == "."@ && out.len() > 0 {
        add_parts(out, parts, i + 1)
    } else {
        add_parts(out.push(parts[i]), parts, i + 1)
    }
}

/// Where a path that is written `s` begins: at the root or nowhere.
pub open spec fn origin(s: Seq<char>) -> Seq<Seq<char>> {
    if s.len() > 0 && s[0] == '/' {
        seq![root_part()]
    } else {
        Seq::empty()
    }
}

/// The path that is written `s`, with `/` between the components.
pub open spec fn path_of(s: Seq<char>) -> Seq<Seq<char>> {
    add_parts(origin(s), text::fields(s, Separator::Char('/'), false), 0)
}

/// `more`, taken from the directory `base`.
pub open spec fn joined_path(base: Seq<Seq<char>>, more: Seq<Seq<char>>) -> Seq<Seq<char>> {
    if absolute(more) {
        more
    } else {
        add_parts(base, more, 0)
    }
}

/// The file or directory written `name`, taken from the directory `base`.
pub open spec fn child(base: Seq<Seq<char>>, name: Seq<char>) -> Seq<Seq<char>> {
    joined_path(base, path_of(name))
}

/// The directory that a path stands in: none for the root and for the empty
/// path.
pub open spec fn parent_of(p: Seq<Seq<char>>) -> Option<Seq<Seq<char>>> {
    if p.len() == 0 || p.last() == root_part() {
        None
    } else {
        Some(p.drop_last())
    }
}

/// The last component, unless it is the root, `.` or `..`.
pub open spec fn name_of(p: Seq<Seq<char>>) -> Option<Seq<char>> {
    if p.len() == 0 || p.last() == root_part() || p.last() == "."@ || p.last() == ".."@ {
        None
    } else {
        Some(p.last())
    }
}

/// The path from the directory `base` on, where `p` lies in it.
pub open spec fn relative_to(p: Seq<Seq<char>>, base: Seq<Seq<char>>) -> Option<Seq<Seq<char>>> {
    if base.is_prefix_of(p) {
        Some(p.skip(base.len() as int))
    } else {
        None
    }
}

/// The path as text, with `/` between the components.
pub open spec fn shown(p: Seq<Seq<char>>) -> Seq<char> {
    if absolute(p) {
        root_part() + text::joined(p.skip(1), "/"@)
    } else {
        text::joined(p, "/"@)
    }
}

/// The position of the last `.` in `s` before `i`; -1 if there is none.
pub open spec fn last_dot(s: Seq<char>, i: int) -> int
    decreases i,
{
    if i <= 0 || i > s.len() {
        -1
    } else if s[i - 1] == '.' {
        i - 1
    } else {
        last_dot(s, i - 1)
    }
}

/// A file name without its extension: what stands before the last `.`, if
/// anything does.
pub open spec fn stem(name: Seq<char>) -> Seq<char> {
    let dot = last_dot(name, name.len() as int);
    if dot <= 0 {
        name
    } else {
        name.take(dot)
    }
}

/// The extension of a file name: what stands behind the last `.`, where
/// something stands before it.
pub open spec fn extension(name: Seq<char>) -> Option<Seq<char>> {
    let dot = last_dot(name, name.len() as int);
    if dot <= 0 {
        None
    } else {
        Some(name.skip(dot + 1))
    }
}

/// The path with the extension of its file name replaced by `.py`.
pub open spec fn as_python(p: Seq<Seq<char>>) -> Seq<Seq<char>> {
    match name_of(p) {
        Some(name) => p.drop_last().push(stem(name) + ".py"@),
        None => p,
    }
}

proof fn last_dot_range(s: Seq<char>, i: int)
    requires
        0 <= i <= s.len(),
    ensures
        -1 <= last_dot(s, i) < s.len(),
    decreases i,
{
    if i > 0 && s[i - 1] != '.' {
        last_dot_range(s, i - 1);
    }
}

/// The position of the last `.` in `name`, if it has one behind its first
/// character.
fn inner_dot(name: &Vec<char>) -> (r: Option<usize>)
    ensures
        match r {
            Some(d) => d == last_dot(name@, name@.len() as int) && 0 < d < name@.len(),
            None => last_dot(name@, name@.len() as int) <= 0,
        },
{
    let mut i: usize = name.len();
    while i > 0
        invariant
            i <= name.len(),
            last_dot(name@, i as int) == last_dot(name@, name@.len() as int),
        decreases i,
    {
        if name[i - 1] == '.' {
            return if i > 1 {
                Some(i - 1)
            } else {
                None
            };
        }
        i -= 1;
    }
    None
}

/// Does the path `a` stand before `b`, component by component, from position
/// `i` on?
pub open spec fn before_from(a: Seq<Seq<char>>, b: Seq<Seq<char>>, i: int) -> bool
    decreases a.len() - i,
{
    if i < 0 || i >= b.len() {
        false
    } else if i >= a.len() {
        true
    } else if a[i] != b[i] {
        text::less(a[i], b[i])
    } else {
        before_from(a, b, i + 1)
    }
}

/// Does the path `a` stand before `b`?
pub open spec fn before(a: Seq<Seq<char>>, b: Seq<Seq<char>>) -> bool {
    before_from(a, b, 0)
}

proof fn before_from_total(a: Seq<Seq<char>>, b: Seq<Seq<char>>, i: int)
    requires
        0 <= i,
        i <= a.len(),
        i <= b.len(),
        forall|j: int| 0 <= j < i ==> a[j] == b[j],
    ensures
        before_from(a, b, i) || before_from(b, a, i) || a == b,
        !(before_from(a, b, i) && before_from(b, a, i)),
        a == b ==> !before_from(a, b, i),
    decreases a.len() - i,
{
    if i < a.len() && i < b.len() {
        if a[i] == b[i] {
            before_from_total(a, b, i + 1);
        } else {
            text::law_order_is_total(a[i], b[i]);
        }
    } else if i >= a.len() && i >= b.len() {
        assert(a =~= b);
    }
}

/// Of two different paths exactly one stands before the other.
pub proof fn law_paths_are_ordered(a: Seq<Seq<char>>, b: Seq<Seq<char>>)
    ensures
        before(a, b) || before(b, a) || a == b,
        !(before(a, b) && before(b, a)),
        a == b ==> !before(a, b),
{
    before_from_total(a, b, 0);
}

proof fn before_from_transitive(a: Seq<Seq<char>>, b: Seq<Seq<char>>, c: Seq<Seq<char>>, i: int)
    requires
        0 <= i,
        before_from(a, b, i),
        before_from(b, c, i),
    ensures
        before_from(a, c, i),
    decreases a.len() - i,
{
    if i < a.len() && i < b.len() && i < c.len() {
        if a[i] == b[i] && b[i] == c[i] {
            before_from_transitive(a, b, c, i + 1);
        } else if a[i] != b[i] && b[i] != c[i] {
            text::law_order_is_transitive(a[i], b[i], c[i]);
            text::law_order_is_total(a[i], c[i]);
            text::law_order_is_total(a[i], b[i]);
        }
    }
}

/// What stands before a path stands before all that follow it.
pub proof fn law_path_order_is_transitive(
    a: Seq<Seq<char>>,
    b: Seq<Seq<char>>,
    c: Seq<Seq<char>>,
)
    requires
        before(a, b),
        before(b, c),
    ensures
        before(a, c),
{
    before_from_transitive(a, b, c, 0);
}

/// Do the paths stand in order, each once?
pub open spec fn in_order(paths: Seq<Seq<Seq<char>>>) -> bool {
    forall|i: int, j: int|
        0 <= i < j < paths.len() ==> before(#[trigger] paths[i], #[trigger] paths[j])
}

impl FilePath {
    /// The root directory.
    pub fn root() -> (r: FilePath)
        ensures
            r@ == seq![root_part()],
    {
        let mut parts: Vec<String> = Vec::new();
        parts.push("/".to_owned());
        let r: FilePath = FilePath { parts };
        proof {
            assert(r@ =~= seq![root_part()]);
        }
        r
    }

    /// Does this path stand before `other`?
    pub fn is_before(&self, other: &FilePath) -> (r: bool)
        ensures
            r == before(self@, other@),
    {
        let mut i: usize = 0;
        while i < self.parts.len() && i < other.parts.len() && same(
            self.parts[i].as_str(),
            other.parts[i].as_str(),
        )
            invariant
                i <= self.parts.len(),
                i <= other.parts.len(),
                before_from(self@, other@, i as int) == before(self@, other@),
            decreases self.parts.len() - i,
        {
            i += 1;
        }
        if i >= other.parts.len() {
            false
        } else if i >= self.parts.len() {
            true
        } else {
            text::is_less(self.parts[i].as_str(), other.parts[i].as_str())
        }
    }

    /// The path without components.
    pub fn empty() -> (r: FilePath)
        ensures
            r@ == Seq::<Seq<char>>::empty(),
    {
        FilePath { parts: Vec::new() }
    }

    /// The path that is written `text`.
    pub fn parse(text: &str) -> (r: FilePath)
        ensures
            r@ == path_of(text@),
    {
        let chars: Vec<char> = to_chars(text);
        let fields: Vec<String> = split(text, Separator::Char('/'), false);
        let mut parts: Vec<String> = Vec::new();
        if chars.len() > 0 && chars[0] == '/' {
            parts.push("/".to_owned());
        }
        proof {
            assert(text::deep(parts@) =~= origin(text@));
        }
        let mut out: FilePath = FilePath { parts };
        out.add(&fields);
        out
    }

    /// Puts components behind the path.
    fn add(&mut self, parts: &Vec<String>)
        ensures
            final(self)@ == add_parts(old(self)@, text::deep(parts@), 0),
    {
        let mut i: usize = 0;
        while i < parts.len()
            invariant
                i <= parts.len(),
                add_parts(self@, text::deep(parts@), i as int) == add_parts(
                    old(self)@,
                    text::deep(parts@),
                    0,
                ),
            decreases parts.len() - i,
        {
            let ghost before = self.parts@;
            if !(same(parts[i].as_str(), ".") && self.parts.len() > 0) {
                self.parts.push(parts[i].clone());
            }
            i += 1;
        }
    }

    /// The same path once more.
    pub fn copy(&self) -> (r: FilePath)
        ensures
            r@ == self@,
    {
        FilePath { parts: text::copy_list(&self.parts) }
    }

    /// Does the path begin at the root directory?
    pub fn is_absolute(&self) -> (r: bool)
        ensures
            r == absolute(self@),
    {
        self.parts.len() > 0 && same(self.parts[0].as_str(), "/")
    }

    /// `more`, taken from this directory.
    pub fn join(&self, more: &FilePath) -> (r: FilePath)
        ensures
            r@ == joined_path(self@, more@),
    {
        if more.is_absolute() {
            more.copy()
        } else {
            let mut out: FilePath = self.copy();
            out.add(&more.parts);
            out
        }
    }

    /// The file or directory written `name`, taken from this directory.
    pub fn child(&self, name: &str) -> (r: FilePath)
        ensures
            r@ == child(self@, name@),
    {
        self.join(&FilePath::parse(name))
    }

    /// The directory that the path stands in.
    pub fn parent(&self) -> (r: Option<FilePath>)
        ensures
            text::opt(r) == parent_of(self@),
    {
        let n: usize = self.parts.len();
        if n == 0 || same(self.parts[n - 1].as_str(), "/") {
            None
        } else {
            let mut parts: Vec<String> = text::copy_list(&self.parts);
            let ghost before = parts@;
            let _last: Option<String> = parts.pop();
            let out: FilePath = FilePath { parts };
            proof {
                assert(text::deep(parts@) =~= text::deep(before).drop_last());
            }
            Some(out)
        }
    }

    /// The last component, unless it is the root, `.` or `..`.
    pub fn file_name(&self) -> (r: Option<&str>)
        ensures
            text::opt(r) == name_of(self@),
    {
        let n: usize = self.parts.len();
        if n == 0 {
            return None;
        }
        let last: &str = self.parts[n - 1].as_str();
        if same(last, "/") || same(last, ".") || same(last, "..") {
            None
        } else {
            Some(last)
        }
    }

    /// Are the two paths the same, component by component?
    pub fn equals(&self, other: &FilePath) -> (r: bool)
        ensures
            r == (self@ == other@),
    {
        if self.parts.len() != other.parts.len() {
            return false;
        }
        let r: bool = self.starts_with(other);
        proof {
            if r {
                assert(self@ =~= other@);
            }
        }
        r
    }

    /// Does the path lie in the directory `base`, or is it `base` itself?
    pub fn starts_with(&self, base: &FilePath) -> (r: bool)
        ensures
            r == base@.is_prefix_of(self@),
    {
        if base.parts.len() > self.parts.len() {
            return false;
        }
        let mut i: usize = 0;
        while i < base.parts.len()
            invariant
                i <= base.parts.len() <= self.parts.len(),
                forall|j: int| 0 <= j < i ==> self@[j] == base@[j],
            decreases base.parts.len() - i,
        {
            if !same(self.parts[i].as_str(), base.parts[i].as_str()) {
                proof {
                    assert(self@[i as int] != base@[i as int]);
                    assert(self@.subrange(0, base@.len() as int)[i as int] == self@[i as int]);
                }
                return false;
            }
            i += 1;
        }
        proof {
            assert(base@ =~= self@.subrange(0, base@.len() as int));
        }
        true
    }

    /// The path from the directory `base` on, where this one lies in it.
    pub fn strip(&self, base: &FilePath) -> (r: Option<FilePath>)
        ensures
            text::opt(r) == relative_to(self@, base@),
    {
        if !self.starts_with(base) {
            return None;
        }
        let mut parts: Vec<String> = Vec::new();
        let mut i: usize = base.parts.len();
        while i < self.parts.len()
            invariant
                base.parts.len() <= i <= self.parts.len(),
                text::deep(parts@) == self@.subrange(base@.len() as int, i as int),
            decreases self.parts.len() - i,
        {
            proof {
                assert(self@.subrange(base@.len() as int, i + 1) =~= self@.subrange(
                    base@.len() as int,
                    i as int,
                ).push(self@[i as int]));
            }
            parts.push(self.parts[i].clone());
            i += 1;
        }
        proof {
            assert(text::deep(parts@) =~= self@.skip(base@.len() as int));
        }
        Some(FilePath { parts })
    }

    /// The path with the extension of its file name replaced by `.py`.
    pub fn with_py(&self) -> (r: FilePath)
        ensures
            r@ == as_python(self@),
    {
        let stem_text: String = match self.file_name() {
            None => {
                return self.copy();
            },
            Some(name) => {
                let chars: Vec<char> = to_chars(name);
                match inner_dot(&chars) {
                    Some(d) => {
                        let s: String = text::from_range(&chars, 0, d);
                        proof {
                            assert(s@ =~= stem(name@));
                        }
                        s
                    },
                    None => name.to_owned(),
                }
            },
        };
        let mut parts: Vec<String> = text::copy_list(&self.parts);
        let ghost before = parts@;
        let _last: Option<String> = parts.pop();
        proof {
            assert(text::deep(parts@) =~= text::deep(before).drop_last());
        }
        parts.push(concat(stem_text.as_str(), ".py"));
        FilePath { parts }
    }

    /// Does the file name have the extension `ext`?
    pub fn has_extension(&self, ext: &str) -> (r: bool)
        ensures
            r == (name_of(self@) matches Some(name) && extension(name) == Some(ext@)),
    {
        match self.file_name() {
            None => false,
            Some(name) => {
                let chars: Vec<char> = to_chars(name);
                let n: usize = chars.len();
                match inner_dot(&chars) {
                    Some(d) => {
                        let e: String = text::from_range(&chars, d + 1, n);
                        proof {
                            assert(e@ =~= name@.skip(d + 1));
                        }
                        same(e.as_str(), ext)
                    },
                    None => false,
                }
            },
        }
    }

    /// The path as text, with `/` between the components.
    pub fn display(&self) -> (r: String)
        ensures
            r@ == shown(self@),
    {
        if self.is_absolute() {
            let base: FilePath = FilePath { parts: vec!["/".to_owned()] };
            proof {
                assert(base@ =~= seq![root_part()]);
                assert(base@ =~= self@.subrange(0, 1));
            }
            match self.strip(&base) {
                Some(rest) => concat("/", text::join(&rest.parts, "/").as_str()),
                None => String::new(),
            }
        } else {
            text::join(&self.parts, "/")
        }
    }
}

/// Puts a path in at its place, unless it is there already.
fn insert_path(sorted: &mut Vec<FilePath>, p: FilePath)
    requires
        in_order(text::deep(old(sorted)@)),
    ensures
        in_order(text::deep(final(sorted)@)),
        forall|x: Seq<Seq<char>>| #[trigger]
            text::deep(final(sorted)@).contains(x) <==> text::deep(old(sorted)@).contains(x) || x
                == p@,
{
    let ghost s = text::deep(sorted@);
    let ghost q = p@;
    let mut i: usize = 0;
    while i < sorted.len() && sorted[i].is_before(&p)
        invariant
            i <= sorted.len(),
            s == text::deep(sorted@),
            forall|j: int| 0 <= j < i ==> before(#[trigger] s[j], p@),
        decreases sorted.len() - i,
    {
        i += 1;
    }
    if i < sorted.len() && sorted[i].equals(&p) {
        proof {
            assert(s[i as int] == q);
        }
        return;
    }
    sorted.insert(i, p);
    proof {
        let t = text::deep(sorted@);
        assert(t =~= s.insert(i as int, q));
        assert forall|a: int, b: int| 0 <= a < b < t.len() implies before(
            #[trigger] t[a],
            #[trigger] t[b],
        ) by {
            if a < i && b == i {
                assert(t[a] == s[a]);
            } else if a == i {
                assert(t[b] == s[b - 1]);
                law_paths_are_ordered(s[i as int], q);
                if i < b - 1 {
                    law_path_order_is_transitive(q, s[i as int], s[b - 1]);
                }
            } else if a < i && b > i {
                assert(t[a] == s[a] && t[b] == s[b - 1]);
            } else if a > i {
                assert(t[a] == s[a - 1] && t[b] == s[b - 1]);
            } else {
                assert(t[a] == s[a] && t[b] == s[b]);
            }
        }
        assert forall|x: Seq<Seq<char>>| #[trigger] t.contains(x) <==> s.contains(x) || x == q by {
            if t.contains(x) {
                let c = choose|c: int| 0 <= c < t.len() && t[c] == x;
                if c < i {
                    assert(s[c] == x);
                } else if c > i {
                    assert(s[c - 1] == x);
                }
            }
            if s.contains(x) {
                let c = choose|c: int| 0 <= c < s.len() && s[c] == x;
                if c < i {
                    assert(t[c] == x);
                } else {
                    assert(t[c + 1] == x);
                }
            }
            if x == q {
                assert(t[i as int] == x);
            }
        }
    }
}

/// The same paths in order, each once.
pub fn sort_paths(paths: Vec<FilePath>) -> (r: Vec<FilePath>)
    ensures
        in_order(text::deep(r@)),
        forall|x: Seq<Seq<char>>| #[trigger]
            text::deep(r@).contains(x) <==> text::deep(paths@).contains(x),
{
    let ghost all = text::deep(paths@);
    let mut out: Vec<FilePath> = Vec::new();
    let mut i: usize = 0;
    proof {
        assert(text::deep(out@).len() == 0);
    }
    while i < paths.len()
        invariant
            i <= paths.len(),
            all == text::deep(paths@),
            in_order(text::deep(out@)),
            forall|x: Seq<Seq<char>>| #[trigger]
                text::deep(out@).contains(x) <==> all.take(i as int).contains(x),
        decreases paths.len() - i,
    {
        let ghost before = text::deep(out@);
        insert_path(&mut out, paths[i].copy());
        i += 1;
        proof {
            let a = all.take(i - 1);
            let b = all.take(i as int);
            assert(b =~= a.push(all[i - 1]));
            assert forall|x: Seq<Seq<char>>| #[trigger] b.contains(x) <==> a.contains(x) || x
                == all[i - 1] by {
                if b.contains(x) {
                    let c = choose|c: int| 0 <= c < b.len() && b[c] == x;
                    if c < a.len() {
                        assert(a[c] == x);
                    }
                }
                if a.contains(x) {
                    let c = choose|c: int| 0 <= c < a.len() && a[c] == x;
                    assert(b[c] == x);
                }
                if x == all[i - 1] {
                    assert(b[i - 1] == x);
                }
            }
            assert forall|x: Seq<Seq<char>>| #[trigger] text::deep(out@).contains(x)
                <==> b.contains(x) by {
                assert(text::deep(out@).contains(x) <==> before.contains(x) || x == all[i - 1]);
                assert(before.contains(x) <==> a.contains(x));
            }
        }
    }
    proof {
        assert(all.take(i as int) =~= all);
    }
    out
}

/// Is it a relative path whose components are names: not empty, and without a
/// `/`?
pub open spec fn clean(p: Seq<Seq<char>>) -> bool {
    forall|i: int| 0 <= i < p.len() ==> (#[trigger] p[i]).len() > 0 && !p[i].contains('/')
}

/// Two relative paths are shown alike only where they are the same.
pub proof fn law_shown_tells_apart(a: Seq<Seq<char>>, b: Seq<Seq<char>>)
    requires
        clean(a),
        clean(b),
        shown(a) == shown(b),
    ensures
        a == b,
{
    reveal_strlit("/");
    assert("/"@ =~= seq!['/']);
    shown_is_joined(a);
    shown_is_joined(b);
    if a.len() == 0 && b.len() > 0 {
        text::law_split_undoes_join(b, '/');
        assert(b[0].len() > 0);
    } else if a.len() > 0 && b.len() == 0 {
        text::law_split_undoes_join(a, '/');
        assert(a[0].len() > 0);
    } else if a.len() > 0 {
        text::law_split_undoes_join(a, '/');
        text::law_split_undoes_join(b, '/');
    } else {
        assert(a =~= b);
    }
}

proof fn shown_is_joined(p: Seq<Seq<char>>)
    requires
        clean(p),
    ensures
        shown(p) == text::joined(p, "/"@),
{
    if absolute(p) {
        reveal_strlit("/");
        assert("/"@[0] == '/');
        assert(p[0].contains('/'));
    }
}

/// A name without a `/` stands directly in the directory that it is taken from.
pub proof fn law_children_stand_in_their_directory(dir: Seq<Seq<char>>, name: Seq<char>)
    requires
        name.len() > 0,
        !name.contains('/'),
        name != seq!['.'],
    ensures
        child(dir, name) == dir.push(name),
        parent_of(child(dir, name)) == Some(dir),
        relative_to(child(dir, name), dir) == Some(seq![name]),
{
    reveal_strlit("/");
    reveal_strlit(".");
    assert("."@ =~= seq!['.']);
    assert(name[0] != '/') by {
        assert(name.contains(name[0]));
    }
    assert(root_part() != name) by {
        assert("/"@[0] == '/');
    }
    text::law_field_is_one(name, '/');
    let none = Seq::<Seq<char>>::empty();
    assert(seq![name][0] == name);
    reveal_with_fuel(add_parts, 2);
    assert(add_parts(none, seq![name], 0) =~= seq![name]);
    assert(add_parts(dir, seq![name], 0) =~= dir.push(name));
    assert(dir.push(name).drop_last() =~= dir);
    assert(dir.push(name).subrange(0, dir.len() as int) =~= dir);
    assert(dir.push(name).skip(dir.len() as int) =~= seq![name]);
}

/// A module's file is named like the module, with `.py` behind it.
pub proof fn law_module_files_are_named(dir: Seq<Seq<char>>, name: Seq<char>)
    requires
        name.len() > 0,
        !name.contains('/'),
        !name.contains('.'),
    ensures
        as_python(dir.push(name)) == dir.push(name + seq!['.', 'p', 'y']),
{
    reveal_strlit(".py");
    reveal_strlit("/");
    reveal_strlit(".");
    reveal_strlit("..");
    assert(".py"@ =~= seq!['.', 'p', 'y']);
    assert(name.contains(name[0]));
    assert(name != root_part() && name != "."@ && name != ".."@) by {
        assert("/"@[0] == '/');
        assert("."@[0] == '.');
        assert(".."@[0] == '.');
    }
    no_dot(name, name.len() as int);
    assert(dir.push(name).drop_last() =~= dir);
}

proof fn no_dot(s: Seq<char>, i: int)
    requires
        0 <= i <= s.len(),
        !s.contains('.'),
    ensures
        last_dot(s, i) == -1,
    decreases i,
{
    if i > 0 {
        assert(s.contains(s[i - 1]));
        no_dot(s, i - 1);
    }
}

/// The last dot of a name parts its stem from its extension.
pub proof fn law_extension_is_behind_the_last_dot(a: Seq<char>, ext: Seq<char>)
    requires
        a.len() > 0,
        !ext.contains('.'),
    ensures
        stem(a + seq!['.'] + ext) == a,
        extension(a + seq!['.'] + ext) == Some(ext),
{
    let name = a + seq!['.'] + ext;
    dot_is_last(name, a.len() as int, name.len() as int, ext);
    assert(name.take(a.len() as int) =~= a);
    assert(name.skip(a.len() as int + 1) =~= ext);
}

proof fn dot_is_last(s: Seq<char>, at: int, i: int, ext: Seq<char>)
    requires
        0 <= at < i <= s.len(),
        s[at] == '.',
        s.skip(at + 1) == ext,
        !ext.contains('.'),
    ensures
        last_dot(s, i) == at,
    decreases i,
{
    if i - 1 > at {
        assert(s.skip(at + 1)[i - 1 - (at + 1)] == s[i - 1]);
        assert(ext.contains(s[i - 1]));
        dot_is_last(s, at, i - 1, ext);
    }
}

/// Are the components of a path names: neither empty nor `.`, and without a `/`?
pub open spec fn proper(p: Seq<Seq<char>>) -> bool {
    forall|i: int|
        0 <= i < p.len() ==> (#[trigger] p[i]).len() > 0 && !p[i].contains('/') && p[i] != "."@
}

/// A path that is shown reads as the same path again, from the root as well as
/// from nowhere; from the root it is shown with a `/` in front.
pub proof fn law_shown_paths_are_read(p: Seq<Seq<char>>)
    requires
        proper(p),
        p.len() > 0,
    ensures
        path_of(shown(p)) == p,
        shown(seq![root_part()] + p) == seq!['/'] + shown(p),
        path_of(seq!['/'] + shown(p)) == seq![root_part()] + p,
{
    reveal_strlit("/");
    assert("/"@ =~= seq!['/']);
    let none = Seq::<Seq<char>>::empty();
    assert(clean(p)) by {
        assert forall|i: int| 0 <= i < p.len() implies (#[trigger] p[i]).len() > 0
            && !p[i].contains('/') by {}
    }
    shown_is_joined(p);
    fields_of_joined(p);
    let s = shown(p);
    let whole = seq!['/'] + s;
    begins_with_a_name(p);
    assert(origin(s) =~= none);
    add_all(none, p, 0);
    assert(p.skip(0) =~= p);
    assert(none + p =~= p);
    let full = seq![root_part()] + p;
    assert(full[0] == root_part());
    assert(full.skip(1) =~= p);
    assert(whole =~= Seq::<char>::empty().push('/') + s);
    text::law_fields_add_up(Seq::empty(), '/', s, false);
    text::law_field_is_one(Seq::empty(), '/');
    assert(none + p =~= p);
    assert(whole[0] == '/');
    add_all(seq![root_part()], p, 0);
}

proof fn begins_with_a_name(p: Seq<Seq<char>>)
    requires
        proper(p),
        p.len() > 0,
    ensures
        text::joined(p, "/"@).len() > 0,
        text::joined(p, "/"@)[0] != '/',
    decreases p.len(),
{
    reveal_strlit("/");
    let last = p.last();
    assert(p[p.len() - 1].len() > 0);
    if p.len() == 1 {
        assert(p[0].contains(p[0][0]));
        text_of_one(p[0]);
        assert(p =~= seq![p[0]]);
    } else {
        assert(proper(p.drop_last())) by {
            assert forall|i: int| 0 <= i < p.drop_last().len() implies (#[trigger] p.drop_last()[i])
                .len() > 0 && !p.drop_last()[i].contains('/') && p.drop_last()[i] != "."@ by {
                assert(p.drop_last()[i] == p[i]);
            }
        }
        begins_with_a_name(p.drop_last());
    }
}

proof fn text_of_one(a: Seq<char>)
    ensures
        text::joined(seq![a], "/"@) == a,
{
    reveal_with_fuel(text::joined, 2);
    assert(seq![a].drop_last().len() == 0);
}

proof fn fields_of_joined(p: Seq<Seq<char>>)
    requires
        proper(p),
        p.len() > 0,
    ensures
        text::fields(text::joined(p, "/"@), Separator::Char('/'), false) == p,
    decreases p.len(),
{
    reveal_strlit("/");
    assert("/"@ =~= seq!['/']);
    let last = p.last();
    assert(p[p.len() - 1].len() > 0 && !p[p.len() - 1].contains('/'));
    text::law_field_is_one(last, '/');
    if p.len() == 1 {
        text_of_one(p[0]);
        assert(p =~= seq![p[0]]);
    } else {
        let front = p.drop_last();
        assert(proper(front)) by {
            assert forall|i: int| 0 <= i < front.len() implies (#[trigger] front[i]).len() > 0
                && !front[i].contains('/') && front[i] != "."@ by {
                assert(front[i] == p[i]);
            }
        }
        fields_of_joined(front);
        let head = text::joined(front, "/"@);
        assert(text::joined(p, "/"@) =~= head.push('/') + last);
        text::law_fields_add_up(head, '/', last, false);
        assert(front + seq![last] =~= p);
    }
}

proof fn add_all(out: Seq<Seq<char>>, parts: Seq<Seq<char>>, i: int)
    requires
        0 <= i <= parts.len(),
        proper(parts),
    ensures
        add_parts(out, parts, i) == out + parts.skip(i),
    decreases parts.len() - i,
{
    if i < parts.len() {
        assert(parts[i] != "."@);
        add_all(out.push(parts[i]), parts, i + 1);
        assert(out.push(parts[i]) + parts.skip(i + 1) =~= out + parts.skip(i));
    } else {
        assert(out + parts.skip(i) =~= out);
    }
}

/// A path from the root stays what it is, wherever it is taken from; any other
/// one goes behind the directory that it is taken from, and is found below it
/// again.
pub proof fn law_paths_are_joined(base: Seq<Seq<char>>, p: Seq<Seq<char>>)
    requires
        proper(p),
    ensures
        joined_path(base, p) == base + p,
        relative_to(joined_path(base, p), base) == Some(p),
        joined_path(base, seq![root_part()] + p) == seq![root_part()] + p,
{
    reveal_strlit("/");
    assert("/"@[0] == '/');
    assert(!absolute(p)) by {
        if p.len() > 0 {
            assert(!p[0].contains('/'));
            if p[0] == root_part() {
                assert(p[0].contains(p[0][0]));
            }
        }
    }
    add_all(base, p, 0);
    assert(p.skip(0) =~= p);
    assert((base + p).subrange(0, base.len() as int) =~= base);
    assert((base + p).skip(base.len() as int) =~= p);
    assert((seq![root_part()] + p)[0] == root_part());
}

/// The name of a path is its last component, unless that is none: the root, `.`
/// or `..`.
pub proof fn law_names_of_paths(dir: Seq<Seq<char>>, name: Seq<char>)
    ensures
        name != root_part() && name != "."@ && name != ".."@ ==> name_of(dir.push(name)) == Some(
            name,
        ),
        name == root_part() || name == "."@ || name == ".."@ ==> name_of(dir.push(name)) is None,
        name_of(Seq::empty()) is None,
        name != root_part() ==> parent_of(dir.push(name)) == Some(dir),
        parent_of(seq![root_part()]) is None,
{
    assert(dir.push(name).drop_last() =~= dir);
    assert(seq![root_part()].last() == root_part());
}

} // verus!
