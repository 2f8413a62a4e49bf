//! Which files changed since the last run, by the hashes of their contents.

use vstd::prelude::*;

use crate::commands::{lastfailed_text, parse_lastfailed};
use crate::config::Config;
use crate::path::FilePath;
use crate::table::Table;
use crate::text::{self, concat3, same, split_once};

verus! {

broadcast use crate::text::group_deep;

/// The hash of each file's content, by rootdir-relative path.
pub type Hashes = Table<String>;

/// Where the hashes are kept.
pub fn hashes_path(c: &Config) -> (r: FilePath)
    ensures
        r@ == crate::path::child(crate::path::child(c@.rootdir, ".cito"@), "hashes"@),
{
    c.rootdir.child(".cito").child("hashes")
}

// ---------------------------------------------------------------------------
// The file
// ---------------------------------------------------------------------------

/// The lines that keep hashes: a hash, a space, and the path.
pub open spec fn hash_lines(t: Seq<(Seq<char>, Seq<char>)>) -> Seq<Seq<char>> {
    Seq::new(t.len(), |i: int| t[i].1 + " "@ + t[i].0)
}

/// The hashes in `out` with those that the lines from position `i` on keep.
pub open spec fn with_lines(
    lines: Seq<Seq<char>>,
    i: int,
    out: Seq<(Seq<char>, Seq<char>)>,
) -> Seq<(Seq<char>, Seq<char>)>
    decreases lines.len() - i,
{
    if i < 0 || i >= lines.len() {
        out
    } else {
        with_lines(
            lines,
            i + 1,
            match text::split_at(lines[i], " "@) {
                Some((hash, path)) => crate::table::put(out, path, hash),
                None => out,
            },
        )
    }
}

/// The hashes that a text keeps.
pub open spec fn hashes_of(text: Seq<char>) -> Seq<(Seq<char>, Seq<char>)> {
    with_lines(crate::commands::recorded(text), 0, Seq::empty())
}

/// The hashes that the text of the file keeps.
pub fn parse_hashes(text: &str) -> (r: Hashes)
    ensures
        r@ == hashes_of(text@),
{
    let lines: Vec<String> = parse_lastfailed(text);
    let ghost ls = text::deep(lines@);
    let mut out: Hashes = Table::new();
    let mut i: usize = 0;
    while i < lines.len()
        invariant
            i <= lines.len(),
            ls == text::deep(lines@),
            with_lines(ls, i as int, out@) == with_lines(ls, 0, Seq::empty()),
        decreases lines.len() - i,
    {
        match split_once(lines[i].as_str(), " ") {
            Some((hash, path)) => {
                out.insert(path, hash);
            },
            None => {},
        }
        i += 1;
    }
    out
}

/// The text of the file that keeps hashes.
pub fn hashes_text(hashes: &Hashes) -> (r: String)
    ensures
        r@ == crate::commands::cache_text(hash_lines(hashes@)),
{
    let mut lines: Vec<String> = Vec::new();
    let mut i: usize = 0;
    while i < hashes.entries.len()
        invariant
            i <= hashes.entries.len(),
            lines.len() == i,
            forall|j: int| 0 <= j < i ==> (#[trigger] lines@[j])@ == hash_lines(hashes@)[j],
        decreases hashes.entries.len() - i,
    {
        let line: String = concat3(
            hashes.entries[i].1.as_str(),
            " ",
            hashes.entries[i].0.as_str(),
        );
        lines.push(line);
        i += 1;
    }
    proof {
        assert(text::deep(lines@) =~= hash_lines(hashes@));
    }
    lastfailed_text(&lines)
}

// ---------------------------------------------------------------------------
// Changes
// ---------------------------------------------------------------------------

/// The files from position `i` on whose content is not the one that was
/// recorded, behind those in `out`.
pub open spec fn changed_from(
    previous: Seq<(Seq<char>, Seq<char>)>,
    current: Seq<(Seq<char>, Seq<char>)>,
    i: int,
    out: Seq<Seq<char>>,
) -> Seq<Seq<char>>
    decreases current.len() - i,
{
    if i < 0 || i >= current.len() {
        out
    } else {
        changed_from(
            previous,
            current,
            i + 1,
            if crate::table::find(previous, current[i].0) == Some(current[i].1) {
                out
            } else {
                out.push(current[i].0)
            },
        )
    }
}

/// The files from position `i` on that are missing and were recorded, behind
/// those in `out`.
pub open spec fn vanished_from(
    previous: Seq<(Seq<char>, Seq<char>)>,
    current: Seq<(Seq<char>, Seq<char>)>,
    missing: Seq<Seq<char>>,
    i: int,
    out: Seq<Seq<char>>,
) -> Seq<Seq<char>>
    decreases missing.len() - i,
{
    if i < 0 || i >= missing.len() {
        out
    } else {
        vanished_from(
            previous,
            current,
            missing,
            i + 1,
            if crate::table::find(previous, missing[i]) is Some && crate::table::find(
                current,
                missing[i],
            ) is None {
                out.push(missing[i])
            } else {
                out
            },
        )
    }
}

/// The files that changed since the last run.
pub open spec fn changes_since(
    previous: Seq<(Seq<char>, Seq<char>)>,
    current: Seq<(Seq<char>, Seq<char>)>,
    missing: Seq<Seq<char>>,
) -> Seq<Seq<char>> {
    vanished_from(
        previous,
        current,
        missing,
        0,
        changed_from(previous, current, 0, Seq::empty()),
    )
}

/// The files that changed: the content is not the one that was recorded, or
/// none was, or there was a file and it is missing.
pub fn changed_files(previous: &Hashes, current: &Hashes, missing: &Vec<String>) -> (r: Vec<
    String,
>)
    ensures
        text::deep(r@) == changes_since(previous@, current@, text::deep(missing@)),
{
    let mut out: Vec<String> = Vec::new();
    let mut i: usize = 0;
    while i < current.entries.len()
        invariant
            i <= current.entries.len(),
            changed_from(previous@, current@, i as int, text::deep(out@)) == changed_from(
                previous@,
                current@,
                0,
                Seq::empty(),
            ),
        decreases current.entries.len() - i,
    {
        let known: bool = match previous.get(current.entries[i].0.as_str()) {
            Some(hash) => same(hash.as_str(), current.entries[i].1.as_str()),
            None => false,
        };
        if !known {
            out.push(current.entries[i].0.clone());
        }
        i += 1;
    }
    let ghost first = text::deep(out@);
    let ghost ms = text::deep(missing@);
    let mut j: usize = 0;
    while j < missing.len()
        invariant
            j <= missing.len(),
            ms == text::deep(missing@),
            vanished_from(previous@, current@, ms, j as int, text::deep(out@))
                == vanished_from(previous@, current@, ms, 0, first),
        decreases missing.len() - j,
    {
        if previous.has(missing[j].as_str()) && !current.has(missing[j].as_str()) {
            out.push(missing[j].clone());
        }
        j += 1;
    }
    out
}

/// The recorded hashes without those of the files from position `i` on.
pub open spec fn without_all(
    previous: Seq<(Seq<char>, Seq<char>)>,
    missing: Seq<Seq<char>>,
    i: int,
) -> Seq<(Seq<char>, Seq<char>)>
    decreases missing.len() - i,
{
    if i < 0 || i >= missing.len() {
        previous
    } else {
        without_all(crate::table::without(previous, missing[i]), missing, i + 1)
    }
}

/// The recorded hashes with those from position `i` on put over them.
pub open spec fn put_over(
    previous: Seq<(Seq<char>, Seq<char>)>,
    current: Seq<(Seq<char>, Seq<char>)>,
    i: int,
) -> Seq<(Seq<char>, Seq<char>)>
    decreases current.len() - i,
{
    if i < 0 || i >= current.len() {
        previous
    } else {
        put_over(crate::table::put(previous, current[i].0, current[i].1), current, i + 1)
    }
}

/// The hashes that are recorded after a run.
pub open spec fn recorded_after(
    previous: Seq<(Seq<char>, Seq<char>)>,
    current: Seq<(Seq<char>, Seq<char>)>,
    missing: Seq<Seq<char>>,
) -> Seq<(Seq<char>, Seq<char>)> {
    put_over(without_all(previous, missing, 0), current, 0)
}

/// Records the hashes of a run: those of files that it did not look at stay,
/// unless they are missing.
pub fn record(previous: &mut Hashes, current: &Hashes, missing: &Vec<String>)
    ensures
        final(previous)@ == recorded_after(old(previous)@, current@, text::deep(missing@)),
{
    let ghost before = previous@;
    let ghost ms = text::deep(missing@);
    let mut j: usize = 0;
    while j < missing.len()
        invariant
            j <= missing.len(),
            ms == text::deep(missing@),
            without_all(previous@, ms, j as int) == without_all(before, ms, 0),
        decreases missing.len() - j,
    {
        previous.remove(missing[j].as_str());
        j += 1;
    }
    let ghost start = previous@;
    let mut i: usize = 0;
    while i < current.entries.len()
        invariant
            i <= current.entries.len(),
            put_over(previous@, current@, i as int) == put_over(start, current@, 0),
        decreases current.entries.len() - i,
    {
        previous.insert(current.entries[i].0.clone(), current.entries[i].1.clone());
        i += 1;
    }
}

// ---------------------------------------------------------------------------
// Laws
// ---------------------------------------------------------------------------

/// Where nothing is touched after a run, nothing has changed.
pub proof fn law_untouched_is_unchanged(
    previous: Seq<(Seq<char>, Seq<char>)>,
    current: Seq<(Seq<char>, Seq<char>)>,
    missing: Seq<Seq<char>>,
)
    requires
        crate::table::sorted(current),
    ensures
        changes_since(
            recorded_after(previous, current, missing),
            current,
            missing,
        ).len() == 0,
{
    let left = without_all(previous, missing, 0);
    none_changed(left, current, 0);
    none_vanished(left, current, missing, 0, previous);
    assert(changed_from(put_over(left, current, 0), current, 0, Seq::empty()) =~= Seq::empty());
}

proof fn none_vanished(
    left: Seq<(Seq<char>, Seq<char>)>,
    current: Seq<(Seq<char>, Seq<char>)>,
    missing: Seq<Seq<char>>,
    i: int,
    previous: Seq<(Seq<char>, Seq<char>)>,
)
    requires
        0 <= i,
        left == without_all(previous, missing, 0),
    ensures
        vanished_from(put_over(left, current, 0), current, missing, i, Seq::empty()).len() == 0,
    decreases missing.len() - i,
{
    if i < missing.len() {
        let file = missing[i];
        if crate::table::find(current, file) is None {
            removed_stays_out(previous, missing, 0, file, i);
            put_over_adds_nothing(left, current, 0, file);
        }
        none_vanished(left, current, missing, i + 1, previous);
    }
}

proof fn removed_stays_out(
    s: Seq<(Seq<char>, Seq<char>)>,
    missing: Seq<Seq<char>>,
    i: int,
    file: Seq<char>,
    at: int,
)
    requires
        0 <= i <= missing.len(),
        crate::table::find(s, file) is None || (i <= at < missing.len() && missing[at] == file),
    ensures
        crate::table::find(without_all(s, missing, i), file) is None,
    decreases missing.len() - i,
{
    if i < missing.len() {
        crate::table::law_find_after_remove(s, missing[i], file);
        removed_stays_out(crate::table::without(s, missing[i]), missing, i + 1, file, at);
    }
}

proof fn put_over_adds_nothing(
    s: Seq<(Seq<char>, Seq<char>)>,
    current: Seq<(Seq<char>, Seq<char>)>,
    i: int,
    file: Seq<char>,
)
    requires
        0 <= i,
        crate::table::find_from(current, file, i) is None,
    ensures
        crate::table::find(put_over(s, current, i), file) == crate::table::find(s, file),
    decreases current.len() - i,
{
    if i < current.len() {
        let (key, hash) = current[i];
        crate::table::law_find_after_put(s, key, hash, file);
        put_over_adds_nothing(crate::table::put(s, key, hash), current, i + 1, file);
    }
}

/// A file whose content is not the recorded one has changed, and so has one that
/// was recorded and is missing; no other file has.
pub proof fn law_changes_are_found(
    previous: Seq<(Seq<char>, Seq<char>)>,
    current: Seq<(Seq<char>, Seq<char>)>,
    missing: Seq<Seq<char>>,
    file: Seq<char>,
)
    requires
        crate::table::sorted(current),
    ensures
        changes_since(previous, current, missing).contains(file) <==> (match (
            crate::table::find(current, file),
            crate::table::find(previous, file),
        ) {
            (Some(now), Some(before)) => now != before,
            (Some(_), None) => true,
            (None, Some(_)) => missing.contains(file),
            (None, None) => false,
        }),
{
    changed_holds(previous, current, 0, Seq::empty(), file);
    let first = changed_from(previous, current, 0, Seq::empty());
    vanished_holds(previous, current, missing, 0, first, file);
    assert(missing.skip(0) =~= missing);
}

proof fn vanished_holds(
    previous: Seq<(Seq<char>, Seq<char>)>,
    current: Seq<(Seq<char>, Seq<char>)>,
    missing: Seq<Seq<char>>,
    i: int,
    out: Seq<Seq<char>>,
    file: Seq<char>,
)
    requires
        0 <= i <= missing.len(),
    ensures
        vanished_from(previous, current, missing, i, out).contains(file) <==> out.contains(file)
            || (missing.skip(i).contains(file) && crate::table::find(previous, file) is Some
            && crate::table::find(current, file) is None),
    decreases missing.len() - i,
{
    if i < missing.len() {
        let one = missing[i];
        let next = if crate::table::find(previous, one) is Some && crate::table::find(
            current,
            one,
        ) is None {
            out.push(one)
        } else {
            out
        };
        vanished_holds(previous, current, missing, i + 1, next, file);
        let rest = missing.skip(i);
        let tail = missing.skip(i + 1);
        assert(rest[0] == one);
        if tail.contains(file) {
            assert(rest[tail.index_of(file) + 1] == file);
        }
        if rest.contains(file) && file != one {
            assert(tail[rest.index_of(file) - 1] == file);
        }
        if out.contains(file) {
            assert(next[out.index_of(file)] == file);
        }
        if next.len() > out.len() {
            assert(next[out.len() as int] == one);
        }
    }
}

proof fn changed_holds(
    previous: Seq<(Seq<char>, Seq<char>)>,
    current: Seq<(Seq<char>, Seq<char>)>,
    i: int,
    out: Seq<Seq<char>>,
    file: Seq<char>,
)
    requires
        0 <= i <= current.len(),
        crate::table::sorted(current),
    ensures
        changed_from(previous, current, i, out).contains(file) <==> out.contains(file) || (
        crate::table::find_from(current, file, i) is Some && crate::table::find_from(
            current,
            file,
            i,
        ) != crate::table::find(previous, file)),
    decreases current.len() - i,
{
    if i < current.len() {
        let (key, hash) = current[i];
        let same = crate::table::find(previous, key) == Some(hash);
        let next = if same {
            out
        } else {
            out.push(key)
        };
        changed_holds(previous, current, i + 1, next, file);
        if file == key {
            found_nowhere(current, key, i + 1);
        }
        if !same {
            if out.contains(file) {
                assert(next[out.index_of(file)] == file);
            }
            assert(next[out.len() as int] == key);
        }
    }
}

proof fn found_nowhere(t: Seq<(Seq<char>, Seq<char>)>, key: Seq<char>, i: int)
    requires
        0 < i <= t.len(),
        crate::table::sorted(t),
        t[i - 1].0 == key || text::less(key, t[i - 1].0),
    ensures
        crate::table::find_from(t, key, i) is None,
    decreases t.len() - i,
{
    if i < t.len() {
        let last = t[i - 1].0;
        let next = t[i].0;
        assert(text::less(last, next));
        if last != key {
            text::law_order_is_transitive(key, last, next);
        }
        text::law_order_is_total(key, next);
        found_nowhere(t, key, i + 1);
    }
}

proof fn none_changed(
    previous: Seq<(Seq<char>, Seq<char>)>,
    current: Seq<(Seq<char>, Seq<char>)>,
    i: int,
)
    requires
        0 <= i <= current.len(),
        crate::table::sorted(current),
    ensures
        changed_from(put_over(previous, current, 0), current, i, Seq::empty()).len() == 0,
    decreases current.len() - i,
{
    if i < current.len() {
        put_over_finds(previous, current, 0, i);
        none_changed(previous, current, i + 1);
    }
}

proof fn put_over_finds(
    s: Seq<(Seq<char>, Seq<char>)>,
    current: Seq<(Seq<char>, Seq<char>)>,
    i: int,
    j: int,
)
    requires
        0 <= i <= current.len(),
        0 <= j < current.len(),
        crate::table::sorted(current),
        j < i ==> crate::table::find(s, current[j].0) == Some(current[j].1),
    ensures
        crate::table::find(put_over(s, current, i), current[j].0) == Some(current[j].1),
    decreases current.len() - i,
{
    if i < current.len() {
        let key = current[j].0;
        crate::table::law_find_after_put(s, current[i].0, current[i].1, key);
        if i != j {
            text::law_order_is_total(current[i].0, key);
            if i < j {
                assert(text::less(current[i].0, current[j].0));
            } else {
                assert(text::less(current[j].0, current[i].0));
            }
        }
        put_over_finds(
            crate::table::put(s, current[i].0, current[i].1),
            current,
            i + 1,
            j,
        );
    }
}

/// Can the file keep the hash of a path? The hash holds no space, and the two
/// make a line.
pub open spec fn storable(path: Seq<char>, hash: Seq<char>) -> bool {
    !hash.contains(' ') && crate::commands::recordable(hash + " "@ + path)
}

/// Reading the file gives back the hashes that were written to it.
pub proof fn law_hashes_round_trip(t: Seq<(Seq<char>, Seq<char>)>)
    requires
        crate::table::sorted(t),
        forall|i: int| 0 <= i < t.len() ==> storable(#[trigger] t[i].0, t[i].1),
    ensures
        hashes_of(crate::commands::cache_text(hash_lines(t))) == t,
{
    let ls = hash_lines(t);
    assert forall|i: int| 0 <= i < ls.len() implies crate::commands::recordable(
        #[trigger] ls[i],
    ) by {
        assert(storable(t[i].0, t[i].1));
    }
    crate::commands::law_cache_round_trip(ls);
    read_hashes(t, 0);
    assert(t.take(0) =~= Seq::empty());
}

proof fn read_hashes(t: Seq<(Seq<char>, Seq<char>)>, i: int)
    requires
        0 <= i <= t.len(),
        crate::table::sorted(t),
        forall|i: int| 0 <= i < t.len() ==> storable(#[trigger] t[i].0, t[i].1),
    ensures
        with_lines(hash_lines(t), i, t.take(i)) == t,
    decreases t.len() - i,
{
    if i < t.len() {
        reveal_strlit(" ");
        let (path, hash) = t[i];
        let line = hash + " "@ + path;
        assert(storable(t[i].0, t[i].1));
        assert(line.take(hash.len() as int) =~= hash);
        first_space(line, hash, 0);
        assert(line.subrange(0, hash.len() as int) =~= hash);
        assert(line.subrange(hash.len() as int + 1, line.len() as int) =~= path);
        put_last(t, i, 0);
        assert(t.take(i + 1) =~= t.take(i).push(t[i]));
        assert(t.take(i).insert(i, t[i]) =~= t.take(i + 1));
        read_hashes(t, i + 1);
    } else {
        assert(t.take(i) =~= t);
    }
}

proof fn first_space(line: Seq<char>, hash: Seq<char>, at: int)
    requires
        0 <= at <= hash.len() < line.len(),
        line.take(hash.len() as int) == hash,
        line[hash.len() as int] == ' ',
        !hash.contains(' '),
    ensures
        text::first_at(line, " "@, at) == Some(hash.len() as int),
    decreases hash.len() - at,
{
    reveal_strlit(" ");
    if at < hash.len() {
        assert(line.take(hash.len() as int)[at] == hash[at]);
        assert(hash.contains(hash[at]));
        assert(line.subrange(at, at + 1)[0] == line[at]);
        first_space(line, hash, at + 1);
    } else {
        assert(line.subrange(at, at + 1) =~= " "@);
    }
}

proof fn put_last(t: Seq<(Seq<char>, Seq<char>)>, n: int, i: int)
    requires
        0 <= i <= n < t.len(),
        crate::table::sorted(t),
    ensures
        crate::table::slot(t.take(n), t[n].0, i) == n,
    decreases n - i,
{
    if i < n {
        assert(text::less(t[i].0, t[n].0));
        text::law_order_is_total(t[i].0, t[n].0);
        put_last(t, n, i + 1);
    }
}

/// After a run the hash of a file that was looked at is the one it has now; that
/// of a missing file is forgotten, and every other one stays.
pub proof fn law_hashes_after_a_run(
    previous: Seq<(Seq<char>, Seq<char>)>,
    current: Seq<(Seq<char>, Seq<char>)>,
    missing: Seq<Seq<char>>,
    path: Seq<char>,
)
    requires
        crate::table::sorted(current),
    ensures
        crate::table::find(recorded_after(previous, current, missing), path)
            == match crate::table::find(current, path) {
            Some(hash) => Some(hash),
            None => if missing.contains(path) {
                None
            } else {
                crate::table::find(previous, path)
            },
        },
{
    missing_are_gone(previous, missing, 0, path);
    current_are_put(without_all(previous, missing, 0), current, 0, path);
    if missing.contains(path) {
        assert(missing[missing.index_of(path)] == path);
    }
}

proof fn missing_are_gone(
    previous: Seq<(Seq<char>, Seq<char>)>,
    missing: Seq<Seq<char>>,
    i: int,
    path: Seq<char>,
)
    requires
        0 <= i <= missing.len(),
    ensures
        crate::table::find(without_all(previous, missing, i), path) == if exists|j: int|
            i <= j < missing.len() && #[trigger] missing[j] == path {
            None
        } else {
            crate::table::find(previous, path)
        },
    decreases missing.len() - i,
{
    if i < missing.len() {
        crate::table::law_find_after_remove(previous, missing[i], path);
        missing_are_gone(crate::table::without(previous, missing[i]), missing, i + 1, path);
    }
}

proof fn current_are_put(
    previous: Seq<(Seq<char>, Seq<char>)>,
    current: Seq<(Seq<char>, Seq<char>)>,
    i: int,
    path: Seq<char>,
)
    requires
        0 <= i <= current.len(),
        crate::table::sorted(current),
    ensures
        crate::table::find(put_over(previous, current, i), path) == match crate::table::find_from(
            current,
            path,
            i,
        ) {
            Some(hash) => Some(hash),
            None => crate::table::find(previous, path),
        },
    decreases current.len() - i,
{
    if i < current.len() {
        let next = crate::table::put(previous, current[i].0, current[i].1);
        crate::table::law_find_after_put(previous, current[i].0, current[i].1, path);
        current_are_put(next, current, i + 1, path);
        if current[i].0 == path {
            assert forall|j: int| i < j < current.len() implies (#[trigger] current[j]).0
                != path by {
                text::law_order_is_total(current[i].0, current[j].0);
                assert(text::less(current[i].0, current[j].0));
            }
            none_behind(current, path, i + 1);
        }
    }
}

proof fn none_behind(t: Seq<(Seq<char>, Seq<char>)>, path: Seq<char>, i: int)
    requires
        0 <= i <= t.len(),
        forall|j: int| i <= j < t.len() ==> (#[trigger] t[j]).0 != path,
    ensures
        crate::table::find_from(t, path, i) is None,
    decreases t.len() - i,
{
    if i < t.len() {
        none_behind(t, path, i + 1);
    }
}

} // verus!
