//! What is known of the file system: facts by path. Functions that need a fact
//! that is not known name the path they ask about; whoever can look answers and
//! calls again.

use vstd::prelude::*;

use crate::path::FilePath;
use crate::text;

verus! {

broadcast use crate::text::group_deep;

/// Facts by path, in the order of the paths. The first fact about a path
/// counts.
#[derive(Debug)]
pub struct PathMap<V> {
    entries: Vec<(FilePath, V)>,
}

impl<V: View> View for PathMap<V> {
    type V = Seq<(Seq<Seq<char>>, V::V)>;

    closed spec fn view(&self) -> Seq<(Seq<Seq<char>>, V::V)> {
        text::deep(self.entries@)
    }
}

/// Do the facts stand in the order of their paths, one for each?
pub open spec fn ordered<T>(s: Seq<(Seq<Seq<char>>, T)>) -> bool {
    forall|i: int, j: int|
        0 <= i < j < s.len() ==> crate::path::before(#[trigger] s[i].0, #[trigger] s[j].0)
}

/// The fact about `path`, from position `i` on.
pub open spec fn fact_from<T>(
    s: Seq<(Seq<Seq<char>>, T)>,
    path: Seq<Seq<char>>,
    i: int,
) -> Option<T>
    decreases s.len() - i,
{
    if i < 0 || i >= s.len() {
        None
    } else if s[i].0 == path {
        Some(s[i].1)
    } else {
        fact_from(s, path, i + 1)
    }
}

/// The fact about `path`.
pub open spec fn fact<T>(s: Seq<(Seq<Seq<char>>, T)>, path: Seq<Seq<char>>) -> Option<T> {
    fact_from(s, path, 0)
}

/// The first position from `i` on whose path does not stand before `path`.
pub open spec fn place<T>(s: Seq<(Seq<Seq<char>>, T)>, path: Seq<Seq<char>>, i: int) -> int
    decreases s.len() - i,
{
    if i < 0 || i >= s.len() || !crate::path::before(s[i].0, path) {
        i
    } else {
        place(s, path, i + 1)
    }
}

/// The facts with a new one, which counts unless there is one about the path
/// already.
pub open spec fn added<T>(
    s: Seq<(Seq<Seq<char>>, T)>,
    path: Seq<Seq<char>>,
    v: T,
) -> Seq<(Seq<Seq<char>>, T)> {
    let p = place(s, path, 0);
    if p < s.len() && s[p].0 == path {
        s
    } else {
        s.insert(p, (path, v))
    }
}

proof fn place_is<T>(s: Seq<(Seq<Seq<char>>, T)>, path: Seq<Seq<char>>, i: int, p: int)
    requires
        0 <= i <= p <= s.len(),
        forall|j: int| i <= j < p ==> crate::path::before(#[trigger] s[j].0, path),
        p < s.len() ==> !crate::path::before(s[p].0, path),
    ensures
        place(s, path, i) == p,
    decreases p - i,
{
    if i < p {
        assert(crate::path::before(s[i].0, path));
        place_is(s, path, i + 1, p);
    }
}

proof fn place_splits<T>(s: Seq<(Seq<Seq<char>>, T)>, path: Seq<Seq<char>>, i: int)
    requires
        0 <= i <= s.len(),
    ensures
        i <= place(s, path, i) <= s.len(),
        forall|j: int| i <= j < place(s, path, i) ==> crate::path::before(#[trigger] s[j].0, path),
        place(s, path, i) < s.len() ==> !crate::path::before(s[place(s, path, i)].0, path),
    decreases s.len() - i,
{
    if i < s.len() && crate::path::before(s[i].0, path) {
        place_splits(s, path, i + 1);
    }
}

proof fn found_at<T>(s: Seq<(Seq<Seq<char>>, T)>, path: Seq<Seq<char>>, i: int, p: int)
    requires
        0 <= i <= p < s.len(),
        ordered(s),
        s[p].0 == path,
    ensures
        fact_from(s, path, i) == Some(s[p].1),
    decreases p - i,
{
    if i < p {
        assert(crate::path::before(s[i].0, s[p].0));
        crate::path::law_paths_are_ordered(s[i].0, s[p].0);
        found_at(s, path, i + 1, p);
    }
}

proof fn found_nowhere<T>(s: Seq<(Seq<Seq<char>>, T)>, path: Seq<Seq<char>>, i: int)
    requires
        0 <= i,
        forall|j: int| i <= j < s.len() ==> (#[trigger] s[j]).0 != path,
    ensures
        fact_from(s, path, i) is None,
    decreases s.len() - i,
{
    if i < s.len() {
        found_nowhere(s, path, i + 1);
    }
}

impl<V> PathMap<V> {
    #[verifier::type_invariant]
    spec fn is_ordered(self) -> bool {
        forall|i: int, j: int|
            0 <= i < j < self.entries@.len() ==> crate::path::before(
                (#[trigger] self.entries@[i]).0@,
                (#[trigger] self.entries@[j]).0@,
            )
    }
}

impl<V: View> PathMap<V> {
    /// No facts.
    pub fn new() -> (r: PathMap<V>)
        ensures
            r@ == Seq::<(Seq<Seq<char>>, V::V)>::empty(),
    {
        PathMap { entries: Vec::new() }
    }

    /// The number of facts.
    pub fn len(&self) -> (r: usize)
        ensures
            r == self@.len(),
    {
        self.entries.len()
    }

    /// The fact at a position.
    pub fn at(&self, i: usize) -> (r: &V)
        requires
            i < self@.len(),
        ensures
            r@ == self@[i as int].1,
    {
        &self.entries[i].1
    }

    /// The path of the fact at a position.
    pub fn path_at(&self, i: usize) -> (r: &FilePath)
        requires
            i < self@.len(),
        ensures
            r@ == self@[i as int].0,
    {
        &self.entries[i].0
    }

    /// Where `path` stands or has to stand.
    fn find(&self, path: &FilePath) -> (r: usize)
        ensures
            r == place(self@, path@, 0),
            r <= self@.len(),
            ordered(self@),
    {
        proof {
            use_type_invariant(self);
            assert forall|i: int, j: int| 0 <= i < j < self@.len() implies crate::path::before(
                #[trigger] self@[i].0,
                #[trigger] self@[j].0,
            ) by {
                assert(crate::path::before(self.entries@[i].0@, self.entries@[j].0@));
            }
        }
        let ghost s = self@;
        let mut lo: usize = 0;
        let mut hi: usize = self.entries.len();
        while lo < hi
            invariant
                lo <= hi <= self.entries.len(),
                s == self@,
                ordered(s),
                s.len() == self.entries@.len(),
                forall|j: int| 0 <= j < lo ==> crate::path::before(#[trigger] s[j].0, path@),
                forall|j: int|
                    hi <= j < s.len() ==> !crate::path::before(#[trigger] s[j].0, path@),
            decreases hi - lo,
        {
            let mid: usize = lo + (hi - lo) / 2;
            let ghost pivot = s[mid as int].0;
            if self.entries[mid].0.is_before(path) {
                proof {
                    assert(crate::path::before(pivot, path@));
                    assert forall|j: int| 0 <= j < mid + 1 implies crate::path::before(
                        #[trigger] s[j].0,
                        path@,
                    ) by {
                        if j < mid {
                            crate::path::law_path_order_is_transitive(s[j].0, pivot, path@);
                        }
                    }
                }
                lo = mid + 1;
            } else {
                proof {
                    assert(!crate::path::before(pivot, path@));
                    assert forall|j: int| mid <= j < s.len() implies !crate::path::before(
                        #[trigger] s[j].0,
                        path@,
                    ) by {
                        if j > mid && crate::path::before(s[j].0, path@) {
                            crate::path::law_path_order_is_transitive(pivot, s[j].0, path@);
                        }
                    }
                }
                hi = mid;
            }
        }
        proof {
            place_is(s, path@, 0, lo as int);
        }
        lo
    }

    /// The fact about `path`.
    pub fn get(&self, path: &FilePath) -> (r: Option<&V>)
        ensures
            text::opt(r) == fact(self@, path@),
    {
        let ghost s = self@;
        let p: usize = self.find(path);
        proof {
            place_splits(s, path@, 0);
        }
        if p < self.entries.len() && self.entries[p].0.equals(path) {
            proof {
                found_at(s, path@, 0, p as int);
            }
            Some(&self.entries[p].1)
        } else {
            proof {
                assert forall|j: int| 0 <= j < s.len() implies (#[trigger] s[j]).0 != path@ by {
                    if j < p {
                        crate::path::law_paths_are_ordered(s[j].0, path@);
                    } else if j > p && s[j].0 == path@ {
                        assert(crate::path::before(s[p as int].0, s[j].0));
                    }
                }
                found_nowhere(s, path@, 0);
            }
            None
        }
    }

    /// Adds a fact. It counts unless there is one about the path already.
    pub fn add(&mut self, path: FilePath, v: V)
        ensures
            final(self)@ == added(old(self)@, path@, v@),
    {
        let ghost s = self@;
        let ghost key = path@;
        let p: usize = self.find(&path);
        if p < self.entries.len() && self.entries[p].0.equals(&path) {
            return;
        }
        proof {
            add_keeps_order(s, key, v@);
        }
        let mut entries: Vec<(FilePath, V)> = Vec::new();
        std::mem::swap(&mut entries, &mut self.entries);
        entries.insert(p, (path, v));
        proof {
            let t = text::deep(entries@);
            assert(t =~= added(s, key, v@));
            assert forall|i: int, j: int| 0 <= i < j < entries@.len() implies crate::path::before(
                (#[trigger] entries@[i]).0@,
                (#[trigger] entries@[j]).0@,
            ) by {
                assert(crate::path::before(t[i].0, t[j].0));
            }
        }
        self.entries = entries;
    }
}

proof fn add_keeps_order<T>(s: Seq<(Seq<Seq<char>>, T)>, path: Seq<Seq<char>>, v: T)
    requires
        ordered(s),
    ensures
        ordered(added(s, path, v)),
{
    place_splits(s, path, 0);
    let p = place(s, path, 0);
    let t = added(s, path, v);
    if !(p < s.len() && s[p].0 == path) {
        assert forall|i: int, j: int| 0 <= i < j < t.len() implies crate::path::before(
            #[trigger] t[i].0,
            #[trigger] t[j].0,
        ) by {
            if i < p && j == p {
                assert(t[i] == s[i]);
            } else if i == p {
                assert(t[j] == s[j - 1]);
                crate::path::law_paths_are_ordered(s[p].0, path);
                if p < j - 1 {
                    crate::path::law_path_order_is_transitive(path, s[p].0, s[j - 1].0);
                }
            } else if i < p && j > p {
                assert(t[i] == s[i] && t[j] == s[j - 1]);
            } else if i > p {
                assert(t[i] == s[i - 1] && t[j] == s[j - 1]);
            } else {
                assert(t[i] == s[i] && t[j] == s[j]);
            }
        }
    }
}

/// A new fact changes nothing that was known, and answers for its path; the
/// facts stay in order.
pub proof fn law_fact_after_add<T>(
    s: Seq<(Seq<Seq<char>>, T)>,
    path: Seq<Seq<char>>,
    v: T,
    key: Seq<Seq<char>>,
)
    requires
        ordered(s),
    ensures
        ordered(added(s, path, v)),
        fact(added(s, path, v), key) == (match fact(s, key) {
            Some(x) => Some(x),
            None => if key == path {
                Some(v)
            } else {
                None
            },
        }),
{
    add_keeps_order(s, path, v);
    place_splits(s, path, 0);
    let p = place(s, path, 0);
    let t = added(s, path, v);
    if p < s.len() && s[p].0 == path {
        if key == path {
            found_at(s, key, 0, p);
        }
    } else if key == path {
        assert(t[p] == (path, v));
        found_at(t, key, 0, p);
        assert forall|j: int| 0 <= j < s.len() implies (#[trigger] s[j]).0 != path by {
            if j < p {
                crate::path::law_paths_are_ordered(s[j].0, path);
            } else if j > p && s[j].0 == path {
                assert(crate::path::before(s[p].0, s[j].0));
            }
        }
        found_nowhere(s, key, 0);
    } else if exists|j: int| 0 <= j < s.len() && (#[trigger] s[j]).0 == key {
        let j = choose|j: int| 0 <= j < s.len() && (#[trigger] s[j]).0 == key;
        found_at(s, key, 0, j);
        if j < p {
            assert(t[j] == s[j]);
            found_at(t, key, 0, j);
        } else {
            assert(t[j + 1] == s[j]);
            found_at(t, key, 0, j + 1);
        }
    } else {
        found_nowhere(s, key, 0);
        assert forall|j: int| 0 <= j < t.len() implies (#[trigger] t[j]).0 != key by {
            if j < p {
                assert(t[j] == s[j]);
            } else if j > p {
                assert(t[j] == s[j - 1]);
            }
        }
        found_nowhere(t, key, 0);
    }
}

/// What stands at a path.
#[derive(Debug)]
pub enum Entry {
    Missing,
    Folder,
    /// A file, with its text.
    File(String),
}

/// What stands at a path.
pub enum EntryView {
    Missing,
    Folder,
    File(Seq<char>),
}

impl View for Entry {
    type V = EntryView;

    open spec fn view(&self) -> EntryView {
        match self {
            Entry::Missing => EntryView::Missing,
            Entry::Folder => EntryView::Folder,
            Entry::File(s) => EntryView::File(s@),
        }
    }
}

/// What is known of a file system.
#[derive(Debug)]
pub struct Disk {
    pub known: PathMap<Entry>,
    /// Nothing stands where nothing is known.
    pub complete: bool,
}

/// What is known of a file system.
pub struct DiskView {
    pub known: Seq<(Seq<Seq<char>>, EntryView)>,
    pub complete: bool,
}

impl View for Disk {
    type V = DiskView;

    open spec fn view(&self) -> DiskView {
        DiskView { known: self.known@, complete: self.complete }
    }
}

/// What stands at `path`, or the path itself where that is not known.
pub open spec fn entry_at(
    disk: DiskView,
    path: Seq<Seq<char>>,
) -> Result<EntryView, Seq<Seq<char>>> {
    match fact(disk.known, path) {
        Some(e) => Ok(e),
        None => if disk.complete {
            Ok(EntryView::Missing)
        } else {
            Err(path)
        },
    }
}

/// The view of an answer, or of the path that is asked about.
pub open spec fn told<T: View>(r: Result<T, FilePath>) -> Result<T::V, Seq<Seq<char>>> {
    match r {
        Ok(v) => Ok(v@),
        Err(p) => Err(p@),
    }
}

impl Disk {
    /// What stands at `path`, or the path itself where that is not known.
    pub fn entry(&self, path: &FilePath) -> (r: Result<&Entry, FilePath>)
        ensures
            told(r) == entry_at(self@, path@),
    {
        match self.known.get(path) {
            Some(e) => Ok(e),
            None => if self.complete {
                Ok(&Entry::Missing)
            } else {
                Err(path.copy())
            },
        }
    }
}

/// A fact that is known stands at a position.
pub proof fn law_fact_has_a_place<T>(s: Seq<(Seq<Seq<char>>, T)>, path: Seq<Seq<char>>) -> (p: int)
    requires
        fact(s, path) is Some,
    ensures
        0 <= p < s.len(),
        s[p].0 == path,
        Some(s[p].1) == fact(s, path),
{
    fact_place(s, path, 0)
}

proof fn fact_place<T>(s: Seq<(Seq<Seq<char>>, T)>, path: Seq<Seq<char>>, i: int) -> (p: int)
    requires
        0 <= i,
        fact_from(s, path, i) is Some,
    ensures
        i <= p < s.len(),
        s[p].0 == path,
        Some(s[p].1) == fact_from(s, path, i),
    decreases s.len() - i,
{
    if s[i].0 == path {
        i
    } else {
        fact_place(s, path, i + 1)
    }
}

} // verus!
