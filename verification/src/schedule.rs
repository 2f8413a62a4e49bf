//! The order in which files run, what a run ends with, and what a change in a
//! watched project asks for.

use vstd::prelude::*;

use crate::collector::{FileTests, FileTestsView};
use crate::commands::file_has_failure;
use crate::config::{Config, ConfigView};
use crate::path::FilePath;
use crate::text::{self, same};

verus! {

broadcast use crate::text::group_deep;

// ---------------------------------------------------------------------------
// Order
// ---------------------------------------------------------------------------

/// What decides when a file runs.
#[derive(Debug, Clone, Copy)]
pub struct Rank {
    /// One of its tests failed last time.
    pub failed: bool,
    /// Its content changed since the last run.
    pub changed: bool,
    /// When it was modified last.
    pub modified: u64,
}

/// Does a file of the rank `a` run before one of the rank `b`? Files that
/// failed run first, then changed ones, then the most recently modified ones.
pub open spec fn sooner(a: Rank, b: Rank) -> bool {
    if a.failed != b.failed {
        a.failed
    } else if a.changed != b.changed {
        a.changed
    } else {
        a.modified > b.modified
    }
}

fn runs_sooner(a: Rank, b: Rank) -> (r: bool)
    ensures
        r == sooner(a, b),
{
    if a.failed != b.failed {
        a.failed
    } else if a.changed != b.changed {
        a.changed
    } else {
        a.modified > b.modified
    }
}

/// The first place from `p` on in a schedule whose file runs after the file
/// `new`.
pub open spec fn place(ranks: Seq<Rank>, order: Seq<int>, new: int, p: int) -> int
    decreases order.len() - p,
{
    if p < 0 || p >= order.len() || sooner(ranks[new], ranks[order[p]]) {
        p
    } else {
        place(ranks, order, new, p + 1)
    }
}

/// The schedule of the first `n` files: each is put in front of those that run
/// after it, behind all others.
pub open spec fn scheduled(ranks: Seq<Rank>, n: nat) -> Seq<int>
    decreases n,
{
    if n == 0 {
        Seq::empty()
    } else {
        let order = scheduled(ranks, (n - 1) as nat);
        order.insert(place(ranks, order, n - 1, 0), n - 1)
    }
}

proof fn place_range(ranks: Seq<Rank>, order: Seq<int>, new: int, p: int)
    requires
        0 <= p <= order.len(),
    ensures
        p <= place(ranks, order, new, p) <= order.len(),
        forall|q: int|
            p <= q < place(ranks, order, new, p) ==> !sooner(
                ranks[new],
                ranks[#[trigger] order[q]],
            ),
        place(ranks, order, new, p) < order.len() ==> sooner(
            ranks[new],
            ranks[order[place(ranks, order, new, p)]],
        ),
    decreases order.len() - p,
{
    if p < order.len() && !sooner(ranks[new], ranks[order[p]]) {
        place_range(ranks, order, new, p + 1);
    }
}

/// Is the list a schedule of the first `n` files: each of them once, none
/// behind one that it runs before, and files of one rank in their order?
pub open spec fn is_schedule(ranks: Seq<Rank>, order: Seq<int>, n: nat) -> bool {
    &&& order.len() == n
    &&& order.no_duplicates()
    &&& forall|i: int| 0 <= i < n ==> 0 <= #[trigger] order[i] < n
    &&& forall|a: int, b: int|
        0 <= a < b < n ==> !sooner(ranks[#[trigger] order[b]], ranks[#[trigger] order[a]])
    &&& forall|a: int, b: int|
        0 <= a < b < n && !sooner(ranks[order[a]], ranks[order[b]]) ==> #[trigger] order[a]
            < #[trigger] order[b]
}

/// The schedule holds each file once; files that failed run first, then changed
/// ones, then the most recently modified ones; files that do not differ in
/// these keep their order.
pub proof fn law_schedule(ranks: Seq<Rank>, n: nat)
    requires
        n <= ranks.len(),
    ensures
        is_schedule(ranks, scheduled(ranks, n), n),
    decreases n,
{
    if n > 0 {
        let m = (n - 1) as nat;
        law_schedule(ranks, m);
        let order = scheduled(ranks, m);
        let at = place(ranks, order, n - 1, 0);
        place_range(ranks, order, n - 1, 0);
        let next = scheduled(ranks, n);
        assert(next == order.insert(at, n - 1));
        assert forall|i: int| 0 <= i < n implies 0 <= #[trigger] next[i] < n by {
            if i < at {
                assert(next[i] == order[i]);
            } else if i > at {
                assert(next[i] == order[i - 1]);
            }
        }
        assert forall|a: int, b: int| 0 <= a < b < n implies !sooner(
            ranks[#[trigger] next[b]],
            ranks[#[trigger] next[a]],
        ) && next[a] != next[b] && (!sooner(ranks[next[a]], ranks[next[b]]) ==> next[a]
            < next[b]) by {
            if b < at {
                assert(next[a] == order[a] && next[b] == order[b]);
            } else if a < at && b == at {
                assert(next[a] == order[a]);
            } else if a < at {
                assert(next[a] == order[a] && next[b] == order[b - 1]);
            } else if a == at {
                assert(next[b] == order[b - 1]);
                assert(sooner(ranks[n - 1], ranks[order[at]]));
                if b - 1 > at {
                    assert(!sooner(ranks[order[b - 1]], ranks[order[at]]));
                }
            } else {
                assert(next[a] == order[a - 1] && next[b] == order[b - 1]);
            }
        }
        assert(next.no_duplicates()) by {
            assert forall|a: int, b: int| 0 <= a < n && 0 <= b < n && a != b implies next[a]
                != next[b] by {
                if a < b {
                    assert(next[a] != next[b]);
                } else {
                    assert(next[b] != next[a]);
                }
            }
        }
    }
}

/// The rank of a file.
pub open spec fn rank_of(
    f: FileTestsView,
    previous: Seq<Seq<char>>,
    changed: Seq<Seq<char>>,
    modified: u64,
) -> Rank {
    Rank {
        failed: crate::commands::any_failed(f, previous),
        changed: changed.contains(f.path),
        modified,
    }
}

/// The ranks of the files.
pub open spec fn ranks_of(
    files: Seq<FileTestsView>,
    previous: Seq<Seq<char>>,
    changed: Seq<Seq<char>>,
    modified: Seq<u64>,
) -> Seq<Rank> {
    Seq::new(files.len(), |i: int| rank_of(files[i], previous, changed, modified[i]))
}

/// The files in the order in which they run.
pub open spec fn in_schedule(files: Seq<FileTestsView>, ranks: Seq<Rank>) -> Seq<FileTestsView> {
    let order = scheduled(ranks, files.len());
    Seq::new(files.len(), |i: int| files[order[i]])
}

fn schedule(ranks: &Vec<Rank>) -> (r: Vec<usize>)
    ensures
        r@.len() == ranks@.len(),
        forall|i: int|
            0 <= i < r@.len() ==> (#[trigger] r@[i]) as int == scheduled(
                ranks@,
                ranks@.len(),
            )[i] && r@[i] < ranks@.len(),
{
    let mut order: Vec<usize> = Vec::new();
    let mut n: usize = 0;
    while n < ranks.len()
        invariant
            n <= ranks.len(),
            order.len() == n,
            scheduled(ranks@, n as nat).len() == n,
            forall|i: int|
                0 <= i < n ==> (#[trigger] order@[i]) as int == scheduled(ranks@, n as nat)[i]
                    && order@[i] < n,
        decreases ranks.len() - n,
    {
        let ghost so_far = scheduled(ranks@, n as nat);
        let mut p: usize = 0;
        while p < order.len() && !runs_sooner(ranks[n], ranks[order[p]])
            invariant
                n < ranks.len(),
                p <= order.len(),
                order.len() == n,
                so_far == scheduled(ranks@, n as nat),
                so_far.len() == n,
                forall|i: int|
                    0 <= i < n ==> (#[trigger] order@[i]) as int == so_far[i] && order@[i] < n,
                place(ranks@, so_far, n as int, p as int) == place(ranks@, so_far, n as int, 0),
            decreases order.len() - p,
        {
            p += 1;
        }
        let ghost before = order@;
        order.insert(p, n);
        proof {
            place_range(ranks@, so_far, n as int, 0);
            let next = scheduled(ranks@, (n + 1) as nat);
            assert(next == so_far.insert(p as int, n as int));
            assert forall|i: int| 0 <= i < n + 1 implies (#[trigger] order@[i]) as int == next[i]
                && order@[i] < n + 1 by {
                if i < p {
                    assert(order@[i] == before[i]);
                } else if i > p {
                    assert(order@[i] == before[i - 1]);
                }
            }
        }
        n += 1;
    }
    order
}

/// The files in the order in which they run: failed-first, then changed ones,
/// then most-recently-modified first. `modified` gives each file's time of
/// modification.
pub fn order_files(
    files: &Vec<FileTests>,
    previous: &Vec<String>,
    changed: &Vec<String>,
    modified: &Vec<u64>,
) -> (r: Vec<FileTests>)
    requires
        modified@.len() == files@.len(),
    ensures
        text::deep(r@) == in_schedule(
            text::deep(files@),
            ranks_of(
                text::deep(files@),
                text::deep(previous@),
                text::deep(changed@),
                modified@,
            ),
        ),
{
    let ghost fs = text::deep(files@);
    let ghost all = ranks_of(fs, text::deep(previous@), text::deep(changed@), modified@);
    let mut ranks: Vec<Rank> = Vec::new();
    let mut i: usize = 0;
    while i < files.len()
        invariant
            i <= files.len(),
            modified@.len() == files@.len(),
            fs == text::deep(files@),
            all == ranks_of(fs, text::deep(previous@), text::deep(changed@), modified@),
            ranks.len() == i,
            forall|j: int| 0 <= j < i ==> #[trigger] ranks@[j] == all[j],
        decreases files.len() - i,
    {
        ranks.push(
            Rank {
                failed: file_has_failure(&files[i], previous),
                changed: text::is_in(changed, files[i].path.as_str()),
                modified: modified[i],
            },
        );
        i += 1;
    }
    proof {
        assert(ranks@ =~= all);
    }
    let order: Vec<usize> = schedule(&ranks);
    let mut out: Vec<FileTests> = Vec::new();
    let mut k: usize = 0;
    while k < order.len()
        invariant
            k <= order.len(),
            order@.len() == files@.len(),
            ranks@ == all,
            all.len() == files@.len(),
            fs == text::deep(files@),
            forall|j: int|
                0 <= j < order@.len() ==> (#[trigger] order@[j]) as int == scheduled(
                    all,
                    all.len(),
                )[j] && order@[j] < files@.len(),
            out.len() == k,
            forall|j: int| 0 <= j < k ==> (#[trigger] out@[j])@ == in_schedule(fs, all)[j],
        decreases order.len() - k,
    {
        out.push(files[order[k]].copy());
        k += 1;
    }
    proof {
        assert(text::deep(out@) =~= in_schedule(fs, all));
    }
    out
}

// ---------------------------------------------------------------------------
// Totals and exit codes
// ---------------------------------------------------------------------------

/// The number of tests of the files from position `i` on.
pub open spec fn tests_from(files: Seq<FileTestsView>, i: int) -> nat
    decreases files.len() - i,
{
    if i < 0 || i >= files.len() {
        0
    } else {
        files[i].tests.len() + tests_from(files, i + 1)
    }
}

/// The number of tests of all files.
pub fn count_tests(files: &Vec<FileTests>) -> (r: u128)
    ensures
        r == tests_from(text::deep(files@), 0),
{
    let ghost fs = text::deep(files@);
    let mut total: u128 = 0;
    let mut i: usize = 0;
    while i < files.len()
        invariant
            i <= files.len(),
            fs == text::deep(files@),
            total <= i * 0xffff_ffff_ffff_ffff,
            total + tests_from(fs, i as int) == tests_from(fs, 0),
        decreases files.len() - i,
    {
        let n: usize = files[i].tests.len();
        proof {
            assert(fs[i as int].tests.len() == n);
            assert(i * 0xffff_ffff_ffff_ffff + 0xffff_ffff_ffff_ffff <= 0xffff_ffff_ffff_ffff
                * 0xffff_ffff_ffff_ffff) by (nonlinear_arith)
                requires
                    i < 0xffff_ffff_ffff_ffff,
            ;
        }
        total = total + n as u128;
        i += 1;
    }
    total
}

/// pytest's exit codes: 5 where nothing was collected, 0 where nothing failed,
/// else 1.
pub fn exit_code(collected: u128, failed_chunks: usize) -> (r: u8)
    ensures
        r == (if collected == 0 {
            5u8
        } else if failed_chunks == 0 {
            0u8
        } else {
            1u8
        }),
{
    if collected == 0 {
        5
    } else if failed_chunks == 0 {
        0
    } else {
        1
    }
}

/// The paths from position `i` on of files that have tests to run, behind those
/// in `out`.
pub open spec fn running_from(
    files: Seq<FileTestsView>,
    i: int,
    out: Seq<Seq<char>>,
) -> Seq<Seq<char>>
    decreases files.len() - i,
{
    if i < 0 || i >= files.len() {
        out
    } else {
        running_from(
            files,
            i + 1,
            if files[i].tests.len() > 0 {
                out.push(files[i].path)
            } else {
                out
            },
        )
    }
}

/// The paths of the files that have tests to run.
pub fn running_files(files: &Vec<FileTests>) -> (r: Vec<String>)
    ensures
        text::deep(r@) == running_from(text::deep(files@), 0, Seq::empty()),
{
    let ghost fs = text::deep(files@);
    let mut out: Vec<String> = Vec::new();
    let mut i: usize = 0;
    while i < files.len()
        invariant
            i <= files.len(),
            fs == text::deep(files@),
            running_from(fs, i as int, text::deep(out@)) == running_from(fs, 0, Seq::empty()),
        decreases files.len() - i,
    {
        proof {
            assert(fs[i as int].tests.len() == files@[i as int].tests@.len());
        }
        if files[i].tests.len() > 0 {
            out.push(files[i].path.clone());
        }
        i += 1;
    }
    out
}

// ---------------------------------------------------------------------------
// Options from the configuration
// ---------------------------------------------------------------------------

/// The value of an option: that of the command line, else that inside addopts.
pub open spec fn effective(
    given: Option<Seq<char>>,
    c: ConfigView,
    flag: Seq<char>,
) -> Option<Seq<char>> {
    match given {
        Some(v) => Some(v),
        None => crate::config::flag_from(c.addopts, flag, 0, None),
    }
}

/// The value of an option: that of the command line, else that inside addopts.
pub fn effective_flag(given: Option<String>, c: &Config, flag: &str) -> (r: Option<String>)
    ensures
        text::opt(r) == effective(text::opt(given), c@, flag@),
{
    match given {
        Some(v) => Some(v),
        None => c.addopts_flag(flag),
    }
}

/// An argument that makes pytest-xdist start workers of its own.
pub open spec fn is_xdist(arg: Seq<char>) -> bool {
    "-n"@.is_prefix_of(arg) || "--dist"@.is_prefix_of(arg) || "--numprocesses"@.is_prefix_of(arg)
}

/// Does addopts make pytest-xdist start workers inside each of ours?
pub open spec fn nests_xdist(c: ConfigView) -> bool {
    exists|i: int| 0 <= i < c.addopts.len() && is_xdist(#[trigger] c.addopts[i])
}

/// Does addopts make pytest-xdist start workers inside each of ours?
pub fn uses_xdist(c: &Config) -> (r: bool)
    ensures
        r == nests_xdist(c@),
{
    let ghost args = c@.addopts;
    let mut i: usize = 0;
    while i < c.addopts.len()
        invariant
            i <= c.addopts.len(),
            args == text::deep(c.addopts@),
            args == c@.addopts,
            forall|j: int| 0 <= j < i ==> !is_xdist(#[trigger] args[j]),
        decreases c.addopts.len() - i,
    {
        let arg: &str = c.addopts[i].as_str();
        if text::starts_with(arg, "-n") || text::starts_with(arg, "--dist") || text::starts_with(
            arg,
            "--numprocesses",
        ) {
            proof {
                assert(is_xdist(args[i as int]));
            }
            return true;
        }
        i += 1;
    }
    false
}

// ---------------------------------------------------------------------------
// Watching
// ---------------------------------------------------------------------------

/// A directory whose content is never a source.
pub open spec fn is_noise(part: Seq<char>) -> bool {
    part == ".git"@ || part == "target"@ || part == ".cito"@ || part == "__pycache__"@
}

/// Is a changed file a Python source of the project?
pub open spec fn is_source(path: Seq<Seq<char>>) -> bool {
    &&& (crate::path::name_of(path) matches Some(name) && crate::path::extension(name) == Some(
        "py"@,
    ))
    &&& forall|i: int| 0 <= i < path.len() ==> !is_noise(#[trigger] path[i])
}

fn source_file(path: &FilePath) -> (r: bool)
    ensures
        r == is_source(path@),
{
    if !path.has_extension("py") {
        return false;
    }
    let ghost p = path@;
    let mut i: usize = 0;
    while i < path.parts.len()
        invariant
            i <= path.parts.len(),
            p == path@,
            p == text::deep(path.parts@),
            crate::path::name_of(p) matches Some(name) && crate::path::extension(name) == Some(
                "py"@,
            ),
            forall|j: int| 0 <= j < i ==> !is_noise(#[trigger] p[j]),
        decreases path.parts.len() - i,
    {
        let part: &str = path.parts[i].as_str();
        if same(part, ".git") || same(part, "target") || same(part, ".cito") || same(
            part,
            "__pycache__",
        ) {
            proof {
                assert(is_noise(p[i as int]));
            }
            return false;
        }
        i += 1;
    }
    true
}

/// The sources among the changed files from position `i` on, behind those in
/// `out`.
pub open spec fn sources_from(
    changed: Seq<Seq<Seq<char>>>,
    i: int,
    out: Seq<Seq<Seq<char>>>,
) -> Seq<Seq<Seq<char>>>
    decreases changed.len() - i,
{
    if i < 0 || i >= changed.len() {
        out
    } else {
        sources_from(
            changed,
            i + 1,
            if is_source(changed[i]) {
                out.push(changed[i])
            } else {
                out
            },
        )
    }
}

/// The test files among the sources from position `i` on, behind those in
/// `out`.
pub open spec fn test_sources_from(
    c: ConfigView,
    sources: Seq<Seq<Seq<char>>>,
    i: int,
    out: Seq<Seq<Seq<char>>>,
) -> Seq<Seq<Seq<char>>>
    decreases sources.len() - i,
{
    if i < 0 || i >= sources.len() {
        out
    } else {
        test_sources_from(
            c,
            sources,
            i + 1,
            if crate::config::is_test_path(c, sources[i]) {
                out.push(sources[i])
            } else {
                out
            },
        )
    }
}

/// The pending names with those of the sources from position `i` on.
pub open spec fn with_shown(
    pending: Seq<Seq<char>>,
    sources: Seq<Seq<Seq<char>>>,
    i: int,
) -> Seq<Seq<char>>
    decreases sources.len() - i,
{
    if i < 0 || i >= sources.len() {
        pending
    } else {
        with_shown(pending.push(crate::path::shown(sources[i])), sources, i + 1)
    }
}

/// What a burst of changes asks for.
#[derive(Debug)]
pub struct Reaction {
    /// The files whose modules warm workers must drop before they run again, in
    /// alphabetical order, each once: those of this burst and those that were
    /// pending. Support modules go stale too, not just test files.
    pub purge: Vec<String>,
    /// The test files to run; none where the changes wait for a test file.
    pub tests: Vec<FilePath>,
}

/// Are the names in alphabetical order, each once?
pub open spec fn alphabetical(names: Seq<Seq<char>>) -> bool {
    forall|i: int, j: int|
        0 <= i < j < names.len() ==> text::less(#[trigger] names[i], #[trigger] names[j])
}

fn insert_name(sorted: &mut Vec<String>, s: String)
    requires
        alphabetical(text::deep(old(sorted)@)),
    ensures
        alphabetical(text::deep(final(sorted)@)),
        forall|x: Seq<char>| #[trigger]
            text::deep(final(sorted)@).contains(x) <==> text::deep(old(sorted)@).contains(x) || x
                == s@,
{
    let ghost names = text::deep(sorted@);
    let ghost q = s@;
    let mut i: usize = 0;
    while i < sorted.len() && text::is_less(sorted[i].as_str(), s.as_str())
        invariant
            i <= sorted.len(),
            names == text::deep(sorted@),
            forall|j: int| 0 <= j < i ==> text::less(#[trigger] names[j], s@),
        decreases sorted.len() - i,
    {
        i += 1;
    }
    if i < sorted.len() && same(sorted[i].as_str(), s.as_str()) {
        proof {
            assert(names[i as int] == q);
        }
        return;
    }
    sorted.insert(i, s);
    proof {
        let t = text::deep(sorted@);
        assert(t =~= names.insert(i as int, q));
        assert forall|a: int, b: int| 0 <= a < b < t.len() implies text::less(
            #[trigger] t[a],
            #[trigger] t[b],
        ) by {
            if a < i && b == i {
                assert(t[a] == names[a]);
            } else if a == i {
                assert(t[b] == names[b - 1]);
                text::law_order_is_total(names[i as int], q);
                if i < b - 1 {
                    text::law_order_is_transitive(q, names[i as int], names[b - 1]);
                }
            } else if a < i && b > i {
                assert(t[a] == names[a] && t[b] == names[b - 1]);
            } else if a > i {
                assert(t[a] == names[a - 1] && t[b] == names[b - 1]);
            } else {
                assert(t[a] == names[a] && t[b] == names[b]);
            }
        }
        assert forall|x: Seq<char>| #[trigger] t.contains(x) <==> names.contains(x) || x == q by {
            if t.contains(x) {
                let c = choose|c: int| 0 <= c < t.len() && t[c] == x;
                if c < i {
                    assert(names[c] == x);
                } else if c > i {
                    assert(names[c - 1] == x);
                }
            }
            if names.contains(x) {
                let c = choose|c: int| 0 <= c < names.len() && names[c] == x;
                if c < i {
                    assert(t[c] == x);
                } else {
                    assert(t[c + 1] == x);
                }
            }
            if x == q {
                assert(t[i as int] == x);
            }
        }
    }
}

/// The same names in alphabetical order, each once.
fn sort_names(names: &Vec<String>) -> (r: Vec<String>)
    ensures
        alphabetical(text::deep(r@)),
        forall|x: Seq<char>| #[trigger]
            text::deep(r@).contains(x) <==> text::deep(names@).contains(x),
{
    let ghost all = text::deep(names@);
    let mut out: Vec<String> = Vec::new();
    let mut i: usize = 0;
    proof {
        assert(text::deep(out@).len() == 0);
    }
    while i < names.len()
        invariant
            i <= names.len(),
            all == text::deep(names@),
            alphabetical(text::deep(out@)),
            forall|x: Seq<char>| #[trigger]
                text::deep(out@).contains(x) <==> all.take(i as int).contains(x),
        decreases names.len() - i,
    {
        let ghost before = text::deep(out@);
        insert_name(&mut out, names[i].clone());
        i += 1;
        proof {
            let a = all.take(i - 1);
            let b = all.take(i as int);
            assert(b =~= a.push(all[i - 1]));
            assert forall|x: Seq<char>| #[trigger] b.contains(x) <==> a.contains(x) || x == all[i
                - 1] by {
                if b.contains(x) {
                    let c = choose|c: int| 0 <= c < b.len() && b[c] == x;
                    if c < a.len() {
                        assert(a[c] == x);
                    }
                }
                if a.contains(x) {
                    let c = choose|c: int| 0 <= c < a.len() && a[c] == x;
                    assert(b[c] == x);
                }
                if x == all[i - 1] {
                    assert(b[i - 1] == x);
                }
            }
            assert forall|x: Seq<char>| #[trigger] text::deep(out@).contains(x)
                <==> b.contains(x) by {
                assert(text::deep(out@).contains(x) <==> before.contains(x) || x == all[i - 1]);
                assert(before.contains(x) <==> a.contains(x));
            }
        }
    }
    proof {
        assert(all.take(i as int) =~= all);
    }
    out
}

/// What a burst of changes asks for: `pending` are the files whose modules are
/// stale since earlier bursts, `changed` the files of this one.
pub fn react(pending: &Vec<String>, changed: &Vec<FilePath>, c: &Config) -> (r: Reaction)
    ensures
        ({
            let sources = sources_from(text::deep(changed@), 0, Seq::empty());
            let stale = with_shown(text::deep(pending@), sources, 0);
            &&& text::deep(r.tests@) == test_sources_from(c@, sources, 0, Seq::empty())
            &&& alphabetical(text::deep(r.purge@))
            &&& forall|x: Seq<char>| #[trigger]
                text::deep(r.purge@).contains(x) <==> stale.contains(x)
        }),
{
    let ghost all = text::deep(changed@);
    let mut sources: Vec<FilePath> = Vec::new();
    let mut i: usize = 0;
    while i < changed.len()
        invariant
            i <= changed.len(),
            all == text::deep(changed@),
            sources_from(all, i as int, text::deep(sources@)) == sources_from(
                all,
                0,
                Seq::empty(),
            ),
        decreases changed.len() - i,
    {
        if source_file(&changed[i]) {
            sources.push(changed[i].copy());
        }
        i += 1;
    }
    let ghost ss = text::deep(sources@);
    let ghost before = text::deep(pending@);
    let mut stale: Vec<String> = text::copy_list(pending);
    let mut tests: Vec<FilePath> = Vec::new();
    let mut k: usize = 0;
    while k < sources.len()
        invariant
            k <= sources.len(),
            ss == text::deep(sources@),
            with_shown(text::deep(stale@), ss, k as int) == with_shown(before, ss, 0),
            test_sources_from(c@, ss, k as int, text::deep(tests@)) == test_sources_from(
                c@,
                ss,
                0,
                Seq::empty(),
            ),
        decreases sources.len() - k,
    {
        stale.push(sources[k].display());
        if c.takes_file(&sources[k]) {
            tests.push(sources[k].copy());
        }
        k += 1;
    }
    Reaction { purge: sort_names(&stale), tests }
}

// ---------------------------------------------------------------------------
// Laws
// ---------------------------------------------------------------------------

/// Files with a test that failed run before those without; among these alike,
/// changed files run before unchanged ones; and among those alike, the later
/// modified one runs first.
pub proof fn law_urgent_files_run_first(ranks: Seq<Rank>, n: nat, a: int, b: int)
    requires
        n <= ranks.len(),
        0 <= a < b < n,
    ensures
        ({
            let first = ranks[scheduled(ranks, n)[a]];
            let second = ranks[scheduled(ranks, n)[b]];
            &&& second.failed ==> first.failed
            &&& first.failed == second.failed && second.changed ==> first.changed
            &&& first.failed == second.failed && first.changed == second.changed ==> first.modified
                >= second.modified
        }),
{
    law_schedule(ranks, n);
    let order = scheduled(ranks, n);
    assert(!sooner(ranks[order[b]], ranks[order[a]]));
}

/// The rank of a file says whether one of its tests had failed, whether its path
/// is among the changed ones, and when it was modified.
pub proof fn law_ranks_tell(
    f: FileTestsView,
    previous: Seq<Seq<char>>,
    changed: Seq<Seq<char>>,
    modified: u64,
)
    ensures
        ({
            let r = rank_of(f, previous, changed, modified);
            &&& r.failed <==> exists|i: int|
                0 <= i < f.tests.len() && crate::commands::has_failed(
                    f.path,
                    #[trigger] f.tests[i],
                    previous,
                )
            &&& r.changed <==> changed.contains(f.path)
            &&& r.modified == modified
        }),
{
}

/// All files run, each once.
pub proof fn law_all_files_run(files: Seq<FileTestsView>, ranks: Seq<Rank>, f: FileTestsView)
    requires
        ranks.len() == files.len(),
    ensures
        in_schedule(files, ranks).len() == files.len(),
        in_schedule(files, ranks).contains(f) <==> files.contains(f),
        in_schedule(files, ranks).to_multiset() == files.to_multiset(),
{
    let n = files.len();
    let order = scheduled(ranks, n);
    law_schedule(ranks, n);
    each_has_a_place(ranks, n);
    let out = in_schedule(files, ranks);
    if files.contains(f) {
        let i = files.index_of(f);
        assert(order.contains(i));
        assert(out[order.index_of(i)] == f);
    }
    if out.contains(f) {
        let k = out.index_of(f);
        assert(files[order[k]] == f);
    }
    multisets_agree(files, ranks, n);
    assert(files.take(n as int) =~= files);
    assert(out =~= order.map_values(|i: int| files[i]));
}

proof fn each_has_a_place(ranks: Seq<Rank>, n: nat)
    requires
        n <= ranks.len(),
    ensures
        forall|i: int| 0 <= i < n ==> #[trigger] scheduled(ranks, n).contains(i),
    decreases n,
{
    if n > 0 {
        let m = (n - 1) as nat;
        each_has_a_place(ranks, m);
        law_schedule(ranks, m);
        let order = scheduled(ranks, m);
        let at = place(ranks, order, n - 1, 0);
        place_range(ranks, order, n - 1, 0);
        let next = scheduled(ranks, n);
        assert forall|i: int| 0 <= i < n implies #[trigger] next.contains(i) by {
            if i == n - 1 {
                assert(next[at] == i);
            } else {
                assert(order.contains(i));
                let k = order.index_of(i);
                if k < at {
                    assert(next[k] == i);
                } else {
                    assert(next[k + 1] == i);
                }
            }
        }
    }
}

proof fn multisets_agree(files: Seq<FileTestsView>, ranks: Seq<Rank>, n: nat)
    requires
        n <= ranks.len(),
        n <= files.len(),
    ensures
        scheduled(ranks, n).map_values(|i: int| files[i]).to_multiset() == files.take(
            n as int,
        ).to_multiset(),
    decreases n,
{
    broadcast use vstd::seq_lib::group_to_multiset_ensures;

    let pick = |i: int| files[i];
    if n > 0 {
        let m = (n - 1) as nat;
        multisets_agree(files, ranks, m);
        law_schedule(ranks, m);
        let order = scheduled(ranks, m);
        let at = place(ranks, order, n - 1, 0);
        place_range(ranks, order, n - 1, 0);
        let before = order.map_values(pick);
        assert(order.insert(at, n - 1).map_values(pick) =~= before.insert(at, files[n - 1]));
        assert(files.take(n as int) =~= files.take(m as int).push(files[n - 1]));
    } else {
        assert(scheduled(ranks, n).map_values(pick) =~= files.take(0));
    }
}

/// The number of tests is the sum over the files: that of one more file adds its
/// tests.
pub proof fn law_tests_are_counted(files: Seq<FileTestsView>, f: FileTestsView)
    ensures
        tests_from(Seq::empty(), 0) == 0,
        tests_from(files.push(f), 0) == tests_from(files, 0) + f.tests.len(),
{
    one_more_file(files, f, 0);
}

proof fn one_more_file(files: Seq<FileTestsView>, f: FileTestsView, i: int)
    requires
        0 <= i <= files.len(),
    ensures
        tests_from(files.push(f), i) == tests_from(files, i) + f.tests.len(),
    decreases files.len() - i,
{
    let more = files.push(f);
    if i < files.len() {
        assert(more[i] == files[i]);
        one_more_file(files, f, i + 1);
    } else {
        assert(more[i] == f);
        assert(tests_from(more, i + 1) == 0);
    }
}

/// The files that run are those with tests, in order.
pub proof fn law_files_with_tests_run(files: Seq<FileTestsView>, path: Seq<char>)
    ensures
        running_from(files, 0, Seq::empty()).contains(path) <==> exists|i: int|
            0 <= i < files.len() && (#[trigger] files[i]).path == path && files[i].tests.len() > 0,
{
    running_hold(files, 0, Seq::empty(), path);
}

proof fn running_hold(
    files: Seq<FileTestsView>,
    i: int,
    out: Seq<Seq<char>>,
    path: Seq<char>,
)
    requires
        0 <= i <= files.len(),
    ensures
        running_from(files, i, out).contains(path) <==> out.contains(path) || exists|j: int|
            i <= j < files.len() && (#[trigger] files[j]).path == path && files[j].tests.len() > 0,
    decreases files.len() - i,
{
    if i < files.len() {
        if files[i].tests.len() > 0 {
            let one = files[i].path;
            running_hold(files, i + 1, out.push(one), path);
            assert(out.push(one) =~= out + seq![one]);
            text::law_both_hold(out, seq![one], path);
            assert(seq![one].contains(one)) by {
                assert(seq![one][0] == one);
            }
        } else {
            running_hold(files, i + 1, out, path);
        }
    }
}

/// What is given on the command line counts before what the configuration says.
pub proof fn law_command_line_counts_first(
    v: Seq<char>,
    given: Option<Seq<char>>,
    c: ConfigView,
    flag: Seq<char>,
)
    ensures
        effective(Some(v), c, flag) == Some(v),
        given is None ==> effective(given, c, flag) == crate::config::flag_from(
            c.addopts,
            flag,
            0,
            None,
        ),
{
}

/// Arguments that begin with `-n`, `--dist` or `--numprocesses` start workers.
pub proof fn law_workers_of_the_configuration(c: ConfigView, rest: Seq<char>, i: int)
    requires
        0 <= i < c.addopts.len(),
    ensures
        c.addopts[i] == seq!['-', 'n'] + rest ==> nests_xdist(c),
        c.addopts[i] == "--dist"@ + rest ==> nests_xdist(c),
        c.addopts[i] == "--numprocesses"@ + rest ==> nests_xdist(c),
        (forall|j: int|
            0 <= j < c.addopts.len() ==> (#[trigger] c.addopts[j]).len() == 0 || c.addopts[j][0]
                != '-') ==> !nests_xdist(c),
{
    reveal_strlit("-n");
    reveal_strlit("--dist");
    reveal_strlit("--numprocesses");
    assert("-n"@ =~= seq!['-', 'n']);
    let a = c.addopts[i];
    if a == seq!['-', 'n'] + rest {
        assert(a.subrange(0, 2) =~= "-n"@);
        assert(is_xdist(c.addopts[i]));
    }
    if a == "--dist"@ + rest {
        assert(a.subrange(0, "--dist"@.len() as int) =~= "--dist"@);
        assert(is_xdist(c.addopts[i]));
    }
    if a == "--numprocesses"@ + rest {
        assert(a.subrange(0, "--numprocesses"@.len() as int) =~= "--numprocesses"@);
        assert(is_xdist(c.addopts[i]));
    }
    if forall|j: int|
        0 <= j < c.addopts.len() ==> (#[trigger] c.addopts[j]).len() == 0 || c.addopts[j][0]
            != '-' {
        assert forall|j: int| 0 <= j < c.addopts.len() implies !is_xdist(#[trigger] c.addopts[j]) by {
            let b = c.addopts[j];
            if "-n"@.is_prefix_of(b) {
                assert(b.subrange(0, 2)[0] == '-');
            }
            if "--dist"@.is_prefix_of(b) {
                assert(b.subrange(0, "--dist"@.len() as int)[0] == '-');
            }
            if "--numprocesses"@.is_prefix_of(b) {
                assert(b.subrange(0, "--numprocesses"@.len() as int)[0] == '-');
            }
        }
    }
}

/// A burst of changes makes stale what was stale already and each changed Python
/// source; it runs the changed sources that are test files, and no others.
pub proof fn law_changes_are_reacted_to(
    pending: Seq<Seq<char>>,
    changed: Seq<Seq<Seq<char>>>,
    c: ConfigView,
    name: Seq<char>,
    path: Seq<Seq<char>>,
)
    ensures
        ({
            let sources = sources_from(changed, 0, Seq::empty());
            &&& with_shown(pending, sources, 0).contains(name) <==> pending.contains(name)
                || exists|i: int|
                0 <= i < changed.len() && is_source(#[trigger] changed[i]) && crate::path::shown(
                    changed[i],
                ) == name
            &&& test_sources_from(c, sources, 0, Seq::empty()).contains(path) <==> changed.contains(
                path,
            ) && is_source(path) && crate::config::is_test_path(c, path)
        }),
{
    let sources = sources_from(changed, 0, Seq::empty());
    assert forall|x: Seq<Seq<char>>| #[trigger] sources.contains(x) <==> changed.contains(x)
        && is_source(x) by {
        sources_hold(changed, 0, Seq::empty(), x);
        if changed.contains(x) {
            assert(changed[changed.index_of(x)] == x);
        }
    }
    shown_hold(pending, sources, 0, name);
    test_sources_hold(c, sources, 0, Seq::empty(), path);
    if sources.contains(path) {
        assert(sources[sources.index_of(path)] == path);
    }
    if exists|i: int|
        0 <= i < changed.len() && is_source(#[trigger] changed[i]) && crate::path::shown(
            changed[i],
        ) == name {
        let i = choose|i: int|
            0 <= i < changed.len() && is_source(#[trigger] changed[i]) && crate::path::shown(
                changed[i],
            ) == name;
        assert(sources.contains(changed[i]));
        assert(sources[sources.index_of(changed[i])] == changed[i]);
    }
    if exists|i: int|
        0 <= i < sources.len() && crate::path::shown(#[trigger] sources[i]) == name {
        let i = choose|i: int|
            0 <= i < sources.len() && crate::path::shown(#[trigger] sources[i]) == name;
        assert(sources.contains(sources[i]));
        assert(changed[changed.index_of(sources[i])] == sources[i]);
    }
}

proof fn sources_hold(
    changed: Seq<Seq<Seq<char>>>,
    i: int,
    out: Seq<Seq<Seq<char>>>,
    x: Seq<Seq<char>>,
)
    requires
        0 <= i <= changed.len(),
    ensures
        sources_from(changed, i, out).contains(x) <==> out.contains(x) || (is_source(x) && exists|
            j: int,
        |
            i <= j < changed.len() && #[trigger] changed[j] == x),
    decreases changed.len() - i,
{
    if i < changed.len() {
        if is_source(changed[i]) {
            sources_hold(changed, i + 1, out.push(changed[i]), x);
            one_more_path(out, changed[i], x);
        } else {
            sources_hold(changed, i + 1, out, x);
        }
    }
}

proof fn test_sources_hold(
    c: ConfigView,
    sources: Seq<Seq<Seq<char>>>,
    i: int,
    out: Seq<Seq<Seq<char>>>,
    x: Seq<Seq<char>>,
)
    requires
        0 <= i <= sources.len(),
    ensures
        test_sources_from(c, sources, i, out).contains(x) <==> out.contains(x) || (
        crate::config::is_test_path(c, x) && exists|j: int|
            i <= j < sources.len() && #[trigger] sources[j] == x),
    decreases sources.len() - i,
{
    if i < sources.len() {
        if crate::config::is_test_path(c, sources[i]) {
            test_sources_hold(c, sources, i + 1, out.push(sources[i]), x);
            one_more_path(out, sources[i], x);
        } else {
            test_sources_hold(c, sources, i + 1, out, x);
        }
    }
}

proof fn one_more_path(out: Seq<Seq<Seq<char>>>, p: Seq<Seq<char>>, x: Seq<Seq<char>>)
    ensures
        out.push(p).contains(x) <==> out.contains(x) || p == x,
{
    let next = out.push(p);
    if out.contains(x) {
        assert(next[out.index_of(x)] == x);
    }
    if p == x {
        assert(next[out.len() as int] == x);
    }
    if next.contains(x) && !out.contains(x) {
        assert(next.index_of(x) == out.len());
    }
}

proof fn shown_hold(
    pending: Seq<Seq<char>>,
    sources: Seq<Seq<Seq<char>>>,
    i: int,
    name: Seq<char>,
)
    requires
        0 <= i <= sources.len(),
    ensures
        with_shown(pending, sources, i).contains(name) <==> pending.contains(name) || exists|j: int|
            i <= j < sources.len() && crate::path::shown(#[trigger] sources[j]) == name,
    decreases sources.len() - i,
{
    if i < sources.len() {
        let one = crate::path::shown(sources[i]);
        shown_hold(pending.push(one), sources, i + 1, name);
        assert(pending.push(one) =~= pending + seq![one]);
        text::law_both_hold(pending, seq![one], name);
        assert(seq![one].contains(one)) by {
            assert(seq![one][0] == one);
        }
    }
}

/// A changed file is a source where it is named `*.py` and none of the
/// directories that it lies in is one of `.git`, `target`, `.cito` and
/// `__pycache__`.
pub proof fn law_what_is_a_source(dir: Seq<Seq<char>>, stem: Seq<char>, ext: Seq<char>)
    requires
        stem.len() > 0,
        !ext.contains('.'),
        ext.len() > 0,
    ensures
        ({
            let name = stem + seq!['.'] + ext;
            let p = dir.push(name);
            let noisy = exists|i: int|
                0 <= i < p.len() && (#[trigger] p[i] == ".git"@ || p[i] == "target"@ || p[i]
                    == ".cito"@ || p[i] == "__pycache__"@);
            name != crate::path::root_part() && name != ".."@ ==> (is_source(p) <==> ext == seq![
                'p',
                'y',
            ] && !noisy)
        }),
{
    reveal_strlit("py");
    reveal_strlit(".");
    assert("py"@ =~= seq!['p', 'y']);
    let name = stem + seq!['.'] + ext;
    let p = dir.push(name);
    crate::path::law_extension_is_behind_the_last_dot(stem, ext);
    assert(name != "."@) by {
        assert(name.len() >= 3);
        assert("."@.len() == 1);
    }
    crate::path::law_names_of_paths(dir, name);
    assert((exists|i: int|
        0 <= i < p.len() && (#[trigger] p[i] == ".git"@ || p[i] == "target"@ || p[i] == ".cito"@
            || p[i] == "__pycache__"@)) <==> exists|i: int|
        0 <= i < p.len() && is_noise(#[trigger] p[i]));
}

} // verus!
