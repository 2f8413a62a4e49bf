//! What can be reached from some names by following edges.

use vstd::prelude::*;

use crate::text;

verus! {

broadcast use crate::text::group_deep;

/// Names with edges between them. Only finitely many names have an edge to
/// them.
pub trait Graph {
    /// The names that each name has an edge to.
    spec fn edges(&self) -> spec_fn(Seq<char>) -> Seq<Seq<char>>;

    /// Names among which all are that an edge leads to.
    spec fn targets(&self) -> Seq<Seq<char>>;

    proof fn edges_lead_to_targets(&self, name: Seq<char>)
        ensures
            forall|m: Seq<char>| #[trigger]
                (self.edges())(name).contains(m) ==> self.targets().contains(m),
    ;

    /// The names that `name` has an edge to.
    fn successors(&self, name: &str) -> (r: Vec<String>)
        ensures
            text::deep(r@) == (self.edges())(name@),
    ;
}

/// `path` begins with one of the names in `start` and follows edges.
pub open spec fn is_path(e: spec_fn(Seq<char>) -> Seq<Seq<char>>, start: Seq<Seq<char>>, path: Seq<Seq<char>>) -> bool {
    &&& path.len() > 0
    &&& start.contains(path[0])
    &&& forall|i: int|
        0 <= i < path.len() - 1 ==> #[trigger] e(path[i]).contains(path[i + 1])
}

/// Some path leads from `start` to `name`.
pub open spec fn reaches(e: spec_fn(Seq<char>) -> Seq<Seq<char>>, start: Seq<Seq<char>>, name: Seq<char>) -> bool {
    exists|path: Seq<Seq<char>>| #[trigger] is_path(e, start, path) && path.last() == name
}

proof fn reaches_start(e: spec_fn(Seq<char>) -> Seq<Seq<char>>, start: Seq<Seq<char>>, name: Seq<char>)
    requires
        start.contains(name),
    ensures
        reaches(e, start, name),
{
    let path = seq![name];
    assert(is_path(e, start, path));
}

proof fn reaches_next(e: spec_fn(Seq<char>) -> Seq<Seq<char>>, start: Seq<Seq<char>>, a: Seq<char>, b: Seq<char>)
    requires
        reaches(e, start, a),
        e(a).contains(b),
    ensures
        reaches(e, start, b),
{
    let path = choose|path: Seq<Seq<char>>| #[trigger]
        is_path(e, start, path) && path.last() == a;
    let longer = path.push(b);
    assert forall|i: int| 0 <= i < longer.len() - 1 implies #[trigger] e(longer[i]).contains(
        longer[i + 1],
    ) by {
        if i < path.len() - 1 {
            assert(e(path[i]).contains(path[i + 1]));
        }
    }
    assert(is_path(e, start, longer));
}

proof fn path_stays(
    e: spec_fn(Seq<char>) -> Seq<Seq<char>>,
    start: Seq<Seq<char>>,
    inside: Seq<Seq<char>>,
    path: Seq<Seq<char>>,
    i: int,
)
    requires
        is_path(e, start, path),
        0 <= i < path.len(),
        forall|n: Seq<char>| #[trigger] start.contains(n) ==> inside.contains(n),
        forall|a: Seq<char>, b: Seq<char>|
            inside.contains(a) && #[trigger] e(a).contains(b) ==> inside.contains(b),
    ensures
        inside.contains(path[i]),
    decreases i,
{
    if i > 0 {
        path_stays(e, start, inside, path, i - 1);
        assert(e(path[i - 1]).contains(path[i - 1 + 1]));
    }
}

/// What holds of all names in `start`, and is handed on by every edge, holds of
/// all names that are reached.
proof fn reached_stays(
    e: spec_fn(Seq<char>) -> Seq<Seq<char>>,
    start: Seq<Seq<char>>,
    inside: Seq<Seq<char>>,
    name: Seq<char>,
)
    requires
        reaches(e, start, name),
        forall|n: Seq<char>| #[trigger] start.contains(n) ==> inside.contains(n),
        forall|a: Seq<char>, b: Seq<char>|
            inside.contains(a) && #[trigger] e(a).contains(b) ==> inside.contains(b),
    ensures
        inside.contains(name),
{
    let path = choose|path: Seq<Seq<char>>| #[trigger]
        is_path(e, start, path) && path.last() == name;
    path_stays(e, start, inside, path, path.len() - 1);
}

/// Distinct names, all of them among `all`, are no more than those.
proof fn distinct_bound(seen: Seq<Seq<char>>, all: Seq<Seq<char>>)
    requires
        seen.no_duplicates(),
        forall|n: Seq<char>| #[trigger] seen.contains(n) ==> all.contains(n),
    ensures
        seen.len() <= all.len(),
{
    seen.unique_seq_to_set();
    all.lemma_cardinality_of_set();
    assert(seen.to_set().subset_of(all.to_set()));
    vstd::set_lib::lemma_len_subset(seen.to_set(), all.to_set());
}

/// Everything that can be reached from the names in `start`, each name once.
pub fn closure<G: Graph>(g: &G, start: &Vec<String>) -> (r: Vec<String>)
    ensures
        text::deep(r@).no_duplicates(),
        forall|n: Seq<char>| #[trigger]
            text::deep(r@).contains(n) <==> reaches(g.edges(), text::deep(start@), n),
{
    let ghost e = g.edges();
    let ghost from = text::deep(start@);
    let ghost all = from + g.targets();
    let mut seen: Vec<String> = Vec::new();
    let mut queue: Vec<String> = text::copy_list(start);
    proof {
        assert forall|n: Seq<char>| #[trigger] text::deep(queue@).contains(n) implies reaches(
            e,
            from,
            n,
        ) && all.contains(n) by {
            reaches_start(e, from, n);
            let k = choose|k: int| 0 <= k < from.len() && from[k] == n;
            assert(all[k] == n);
        }
        assert forall|n: Seq<char>| #[trigger] from.contains(n) implies text::deep(
            seen@,
        ).contains(n) || text::deep(queue@).contains(n) by {}
        distinct_bound(text::deep(seen@), all);
    }
    while queue.len() > 0
        invariant
            e == g.edges(),
            from == text::deep(start@),
            all == from + g.targets(),
            text::deep(seen@).no_duplicates(),
            text::deep(seen@).len() <= all.len(),
            forall|n: Seq<char>| #[trigger]
                text::deep(seen@).contains(n) ==> reaches(e, from, n) && all.contains(n),
            forall|n: Seq<char>| #[trigger]
                text::deep(queue@).contains(n) ==> reaches(e, from, n) && all.contains(n),
            forall|n: Seq<char>| #[trigger]
                from.contains(n) ==> text::deep(seen@).contains(n) || text::deep(queue@).contains(
                    n,
                ),
            forall|a: Seq<char>, b: Seq<char>|
                text::deep(seen@).contains(a) && #[trigger] e(a).contains(b) ==> text::deep(
                    seen@,
                ).contains(b) || text::deep(queue@).contains(b),
        decreases all.len() - seen@.len(), queue@.len(),
    {
        let ghost q0 = text::deep(queue@);
        let ghost s0 = text::deep(seen@);
        let name: String = match queue.pop() {
            Some(n) => n,
            None => {
                return seen;
            },
        };
        let ghost q1 = text::deep(queue@);
        proof {
            assert(q0 =~= q1.push(name@));
            assert(q0.contains(name@)) by {
                assert(q0[q0.len() - 1] == name@);
            }
            assert forall|n: Seq<char>| #[trigger] q1.contains(n) implies q0.contains(n) by {
                let k = choose|k: int| 0 <= k < q1.len() && q1[k] == n;
                assert(q0[k] == n);
            }
            assert forall|n: Seq<char>| #[trigger] q0.contains(n) implies q1.contains(n) || n
                == name@ by {
                let k = choose|k: int| 0 <= k < q0.len() && q0[k] == n;
                if k < q1.len() {
                    assert(q1[k] == n);
                }
            }
        }
        if text::is_in(&seen, name.as_str()) {
            proof {
                assert forall|n: Seq<char>| #[trigger] from.contains(n) implies s0.contains(n)
                    || q1.contains(n) by {
                    assert(s0.contains(n) || q0.contains(n));
                }
                assert forall|a: Seq<char>, b: Seq<char>|
                    s0.contains(a) && #[trigger] e(a).contains(b) implies s0.contains(b)
                    || q1.contains(b) by {
                    assert(s0.contains(b) || q0.contains(b));
                }
            }
        } else {
            let more: Vec<String> = g.successors(name.as_str());
            text::extend(&mut queue, &more);
            let ghost q2 = text::deep(queue@);
            let ghost ms = e(name@);
            seen.push(name);
            let ghost s1 = text::deep(seen@);
            proof {
                assert(q2 =~= q1 + ms);
                assert(s1 =~= s0.push(name@));
                assert(s1[s0.len() as int] == name@);
                assert forall|n: Seq<char>| #[trigger] s1.contains(n) implies s0.contains(n) || n
                    == name@ by {
                    let k = choose|k: int| 0 <= k < s1.len() && s1[k] == n;
                    if k < s0.len() {
                        assert(s0[k] == n);
                    }
                }
                assert forall|n: Seq<char>| #[trigger] s0.contains(n) implies s1.contains(n) by {
                    let k = choose|k: int| 0 <= k < s0.len() && s0[k] == n;
                    assert(s1[k] == n);
                }
                assert forall|n: Seq<char>| #[trigger] q1.contains(n) implies q2.contains(n) by {
                    let k = choose|k: int| 0 <= k < q1.len() && q1[k] == n;
                    assert(q2[k] == n);
                }
                assert forall|n: Seq<char>| #[trigger] ms.contains(n) implies q2.contains(n) by {
                    let k = choose|k: int| 0 <= k < ms.len() && ms[k] == n;
                    assert(q2[q1.len() + k] == n);
                }
                assert forall|n: Seq<char>| #[trigger] q2.contains(n) implies q1.contains(n)
                    || ms.contains(n) by {
                    let k = choose|k: int| 0 <= k < q2.len() && q2[k] == n;
                    if k < q1.len() {
                        assert(q1[k] == n);
                    } else {
                        assert(ms[k - q1.len()] == n);
                    }
                }
                assert(s1.no_duplicates()) by {
                    assert forall|i: int, j: int|
                        0 <= i < s1.len() && 0 <= j < s1.len() && i != j implies s1[i] != s1[j] by {
                        if i == s0.len() {
                            assert(s0[j] == s1[j]);
                            assert(s0.contains(s0[j]));
                        } else if j == s0.len() {
                            assert(s0[i] == s1[i]);
                            assert(s0.contains(s0[i]));
                        } else {
                            assert(s0[i] == s1[i] && s0[j] == s1[j]);
                        }
                    }
                }
                g.edges_lead_to_targets(name@);
                assert forall|n: Seq<char>| #[trigger] q2.contains(n) implies reaches(e, from, n)
                    && all.contains(n) by {
                    if q1.contains(n) {
                        assert(q0.contains(n));
                    } else {
                        assert(ms.contains(n));
                        reaches_next(e, from, name@, n);
                        let ts = g.targets();
                        assert(ts.contains(n));
                        let k = choose|k: int| 0 <= k < ts.len() && ts[k] == n;
                        assert(all[from.len() + k] == n);
                    }
                }
                assert forall|n: Seq<char>| #[trigger] from.contains(n) implies s1.contains(n)
                    || q2.contains(n) by {
                    assert(s0.contains(n) || q0.contains(n));
                }
                assert forall|a: Seq<char>, b: Seq<char>|
                    s1.contains(a) && #[trigger] e(a).contains(b) implies s1.contains(b)
                    || q2.contains(b) by {
                    if s0.contains(a) {
                        assert(s0.contains(b) || q0.contains(b));
                    }
                }
                distinct_bound(s1, all);
            }
        }
    }
    proof {
        let s = text::deep(seen@);
        assert(text::deep(queue@).len() == 0);
        assert forall|n: Seq<char>| #[trigger] s.contains(n) <==> reaches(e, from, n) by {
            if reaches(e, from, n) {
                reached_stays(e, from, s, n);
            }
        }
    }
    seen
}

// ---------------------------------------------------------------------------
// Laws
// ---------------------------------------------------------------------------

/// What one starts from is reached.
pub proof fn law_start_is_reached(e: spec_fn(Seq<char>) -> Seq<Seq<char>>, start: Seq<Seq<char>>, name: Seq<char>)
    requires
        start.contains(name),
    ensures
        reaches(e, start, name),
{
    reaches_start(e, start, name);
}

/// Reaching is transitive: what a reached name reaches is reached.
pub proof fn law_reaching_is_transitive(
    e: spec_fn(Seq<char>) -> Seq<Seq<char>>,
    start: Seq<Seq<char>>,
    a: Seq<char>,
    b: Seq<char>,
)
    requires
        reaches(e, start, a),
        reaches(e, seq![a], b),
    ensures
        reaches(e, start, b),
{
    let path = choose|path: Seq<Seq<char>>| #[trigger]
        is_path(e, seq![a], path) && path.last() == b;
    let k = choose|k: int| 0 <= k < seq![a].len() && seq![a][k] == path[0];
    assert(path[0] == a);
    reached_along(e, start, path, path.len() - 1);
}

proof fn reached_along(e: spec_fn(Seq<char>) -> Seq<Seq<char>>, start: Seq<Seq<char>>, path: Seq<Seq<char>>, i: int)
    requires
        0 <= i < path.len(),
        reaches(e, start, path[0]),
        forall|i: int|
            0 <= i < path.len() - 1 ==> #[trigger] e(path[i]).contains(path[i + 1]),
    ensures
        reaches(e, start, path[i]),
    decreases i,
{
    if i > 0 {
        reached_along(e, start, path, i - 1);
        assert(e(path[i - 1]).contains(path[i - 1 + 1]));
        reaches_next(e, start, path[i - 1], path[i]);
    }
}

/// Starting from more names, no fewer are reached.
pub proof fn law_reaching_is_monotone(
    e: spec_fn(Seq<char>) -> Seq<Seq<char>>,
    start: Seq<Seq<char>>,
    more: Seq<Seq<char>>,
    name: Seq<char>,
)
    requires
        reaches(e, start, name),
        forall|n: Seq<char>| #[trigger] start.contains(n) ==> more.contains(n),
    ensures
        reaches(e, more, name),
{
    let path = choose|path: Seq<Seq<char>>| #[trigger]
        is_path(e, start, path) && path.last() == name;
    assert(is_path(e, more, path));
}

} // verus!
