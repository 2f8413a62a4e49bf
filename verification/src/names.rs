//! Lists of named things, and what shadowing and deletion do to them.

use vstd::prelude::*;

use crate::model::{ClassItem, ClassItemView, TopItem, TopItemView};
use crate::text::{self, same};

verus! {

broadcast use crate::text::group_deep;

/// A thing that a Python name is bound to.
pub trait Named: View {
    /// The name that a thing is bound to.
    spec fn name_of(v: Self::V) -> Seq<char>;

    /// The name that this thing is bound to.
    fn name(&self) -> (r: &str)
        ensures
            r@ == Self::name_of(self@),
    ;
}

impl Named for String {
    open spec fn name_of(v: Seq<char>) -> Seq<char> {
        v
    }

    fn name(&self) -> (r: &str) {
        self.as_str()
    }
}

impl Named for TopItem {
    open spec fn name_of(v: TopItemView) -> Seq<char> {
        match v {
            TopItemView::Func(d) => d.name,
            TopItemView::Class(n) => n,
        }
    }

    fn name(&self) -> (r: &str) {
        match self {
            TopItem::Func(d) => d.name.as_str(),
            TopItem::Class(n) => n.as_str(),
        }
    }
}

impl Named for ClassItem {
    open spec fn name_of(v: ClassItemView) -> Seq<char> {
        match v {
            ClassItemView::Method(d) => d.name,
            ClassItemView::Nested(n, _) => n,
        }
    }

    fn name(&self) -> (r: &str) {
        match self {
            ClassItem::Method(d) => d.name.as_str(),
            ClassItem::Nested(n, _) => n.as_str(),
        }
    }
}

/// Does the name at position `i` occur again behind it?
pub open spec fn shadowed<T: Named>(s: Seq<T::V>, i: int) -> bool {
    exists|j: int| i < j < s.len() && T::name_of(#[trigger] s[j]) == T::name_of(s[i])
}

/// The things from position `i` on that are not shadowed, behind those in
/// `out`.
pub open spec fn surviving<T: Named>(s: Seq<T::V>, i: int, out: Seq<T::V>) -> Seq<T::V>
    decreases s.len() - i,
{
    if i < 0 || i >= s.len() {
        out
    } else {
        surviving::<T>(
            s,
            i + 1,
            if shadowed::<T>(s, i) {
                out
            } else {
                out.push(s[i])
            },
        )
    }
}

/// The last thing of each name, in order.
pub open spec fn keep_last<T: Named>(s: Seq<T::V>) -> Seq<T::V> {
    surviving::<T>(s, 0, Seq::empty())
}

/// The things from position `i` on that are not named `name`, behind those in
/// `out`.
pub open spec fn others_from<T: Named>(
    s: Seq<T::V>,
    name: Seq<char>,
    i: int,
    out: Seq<T::V>,
) -> Seq<T::V>
    decreases s.len() - i,
{
    if i < 0 || i >= s.len() {
        out
    } else {
        others_from::<T>(
            s,
            name,
            i + 1,
            if T::name_of(s[i]) == name {
                out
            } else {
                out.push(s[i])
            },
        )
    }
}

/// The things that are not named `name`, in order.
pub open spec fn others<T: Named>(s: Seq<T::V>, name: Seq<char>) -> Seq<T::V> {
    others_from::<T>(s, name, 0, Seq::empty())
}

/// Python shadowing: a later `def` or `class` with the same name replaces the
/// earlier one; pytest collects only the surviving object, located at its last
/// definition site. Keeps the last occurrence of each name.
pub fn dedupe_keep_last<T: Named>(items: Vec<T>) -> (r: Vec<T>)
    ensures
        text::deep(r@) == keep_last::<T>(text::deep(items@)),
{
    let ghost all = text::deep(items@);
    let ghost mut seen: int = 0;
    let ghost mut kept: Seq<T::V> = Seq::empty();
    let mut out: Vec<T> = items;
    let mut i: usize = 0;
    proof {
        assert(text::deep(out@) =~= kept + all.skip(0));
    }
    while i < out.len()
        invariant
            i == kept.len(),
            0 <= seen <= all.len(),
            i + all.len() - seen == out.len(),
            text::deep(out@) == kept + all.skip(seen),
            surviving::<T>(all, seen, kept) == keep_last::<T>(all),
        decreases out.len() - i,
    {
        let ghost before = text::deep(out@);
        proof {
            assert(before[i as int] == all[seen]);
        }
        let mut again: bool = false;
        let mut j: usize = i + 1;
        while j < out.len()
            invariant
                i < j <= out.len(),
                i == kept.len(),
                0 <= seen < all.len(),
                i + all.len() - seen == out.len(),
                before == text::deep(out@),
                before == kept + all.skip(seen),
                before[i as int] == all[seen],
                again ==> shadowed::<T>(all, seen),
                !again ==> forall|k: int|
                    seen < k < seen + (j - i) ==> T::name_of(#[trigger] all[k]) != T::name_of(
                        all[seen],
                    ),
            decreases out.len() - j,
        {
            proof {
                assert(before[j as int] == all[seen + (j - i)]);
            }
            if same(out[j].name(), out[i].name()) {
                again = true;
            }
            j += 1;
        }
        proof {
            assert(again == shadowed::<T>(all, seen));
        }
        if again {
            out.remove(i);
            proof {
                assert(text::deep(out@) =~= before.remove(i as int));
                assert(before.remove(i as int) =~= kept + all.skip(seen + 1));
                seen = seen + 1;
            }
        } else {
            i += 1;
            proof {
                assert(before =~= kept.push(all[seen]) + all.skip(seen + 1));
                kept = kept.push(all[seen]);
                seen = seen + 1;
            }
        }
    }
    proof {
        assert(text::deep(out@) =~= kept);
    }
    out
}

/// Takes out everything named `name`.
pub fn drop_named<T: Named>(items: &mut Vec<T>, name: &str)
    ensures
        text::deep(final(items)@) == others::<T>(text::deep(old(items)@), name@),
{
    let ghost all = text::deep(items@);
    let ghost mut seen: int = 0;
    let ghost mut kept: Seq<T::V> = Seq::empty();
    let mut i: usize = 0;
    proof {
        assert(text::deep(items@) =~= kept + all.skip(0));
    }
    while i < items.len()
        invariant
            i == kept.len(),
            0 <= seen <= all.len(),
            i + all.len() - seen == items.len(),
            text::deep(items@) == kept + all.skip(seen),
            others_from::<T>(all, name@, seen, kept) == others::<T>(all, name@),
        decreases items.len() - i,
    {
        let ghost before = text::deep(items@);
        proof {
            assert(before[i as int] == all[seen]);
        }
        if same(items[i].name(), name) {
            items.remove(i);
            proof {
                assert(text::deep(items@) =~= before.remove(i as int));
                assert(before.remove(i as int) =~= kept + all.skip(seen + 1));
                seen = seen + 1;
            }
        } else {
            i += 1;
            proof {
                assert(before =~= kept.push(all[seen]) + all.skip(seen + 1));
                kept = kept.push(all[seen]);
                seen = seen + 1;
            }
        }
    }
    proof {
        assert(text::deep(items@) =~= kept);
    }
}

/// The list with `s` at its end, unless it holds `s` already.
pub open spec fn with_name(list: Seq<Seq<char>>, s: Seq<char>) -> Seq<Seq<char>> {
    if list.contains(s) {
        list
    } else {
        list.push(s)
    }
}

/// Puts `s` at the end of the list, unless it is there already.
pub fn add_name(list: &mut Vec<String>, s: &str)
    ensures
        text::deep(final(list)@) == with_name(text::deep(old(list)@), s@),
{
    if !text::is_in(list, s) {
        list.push(s.to_owned());
    }
}

// ---------------------------------------------------------------------------
// Laws
// ---------------------------------------------------------------------------

proof fn survivors<T: Named>(s: Seq<T::V>, i: int, out: Seq<T::V>)
    requires
        0 <= i <= s.len(),
        forall|a: int, b: int|
            0 <= a < b < out.len() ==> T::name_of(#[trigger] out[a]) != T::name_of(
                #[trigger] out[b],
            ),
        forall|a: int, k: int|
            0 <= a < out.len() && i <= k < s.len() ==> T::name_of(#[trigger] out[a]) != T::name_of(
                #[trigger] s[k],
            ),
    ensures
        ({
            let r = surviving::<T>(s, i, out);
            &&& out.len() <= r.len()
            &&& forall|a: int| 0 <= a < out.len() ==> r[a] == out[a]
            &&& forall|a: int, b: int|
                0 <= a < b < r.len() ==> T::name_of(#[trigger] r[a]) != T::name_of(#[trigger] r[b])
            &&& forall|k: int|
                i <= k < s.len() && !shadowed::<T>(s, k) ==> r.contains(#[trigger] s[k])
            &&& forall|a: int|
                out.len() <= a < r.len() ==> exists|k: int|
                    i <= k < s.len() && !shadowed::<T>(s, k) && s[k] == #[trigger] r[a]
        }),
    decreases s.len() - i,
{
    if i < s.len() {
        if shadowed::<T>(s, i) {
            survivors::<T>(s, i + 1, out);
        } else {
            let next = out.push(s[i]);
            assert forall|a: int, k: int| 0 <= a < next.len() && i + 1 <= k < s.len() implies
                T::name_of(#[trigger] next[a]) != T::name_of(#[trigger] s[k]) by {
                if a == out.len() {
                    assert(next[a] == s[i]);
                } else {
                    assert(next[a] == out[a]);
                }
            }
            assert forall|a: int, b: int| 0 <= a < b < next.len() implies T::name_of(
                #[trigger] next[a],
            ) != T::name_of(#[trigger] next[b]) by {
                if b == out.len() {
                    assert(next[a] == out[a] && next[b] == s[i]);
                }
            }
            survivors::<T>(s, i + 1, next);
            let r = surviving::<T>(s, i, out);
            assert(r[out.len() as int] == next[out.len() as int]);
            assert forall|k: int| i <= k < s.len() && !shadowed::<T>(s, k) implies r.contains(
                #[trigger] s[k],
            ) by {
                if k == i {
                    assert(r[out.len() as int] == s[i]);
                }
            }
        }
    }
}

/// Of several definitions of one name exactly the last survives: no name is
/// left twice, what is left was defined and is not shadowed, and nothing that
/// is not shadowed is lost.
pub proof fn law_last_definition_survives<T: Named>(s: Seq<T::V>)
    ensures
        forall|a: int, b: int|
            0 <= a < b < keep_last::<T>(s).len() ==> T::name_of(#[trigger] keep_last::<T>(s)[a])
                != T::name_of(#[trigger] keep_last::<T>(s)[b]),
        forall|x: T::V|
            keep_last::<T>(s).contains(x) <==> exists|k: int|
                0 <= k < s.len() && !shadowed::<T>(s, k) && #[trigger] s[k] == x,
{
    survivors::<T>(s, 0, Seq::empty());
    let r = keep_last::<T>(s);
    assert forall|x: T::V| r.contains(x) implies exists|k: int|
        0 <= k < s.len() && !shadowed::<T>(s, k) && #[trigger] s[k] == x by {
        let a = choose|a: int| 0 <= a < r.len() && r[a] == x;
        assert(r[a] == x);
    }
}

proof fn others_hold<T: Named>(s: Seq<T::V>, name: Seq<char>, i: int, out: Seq<T::V>)
    requires
        0 <= i <= s.len(),
        forall|a: int| 0 <= a < out.len() ==> T::name_of(#[trigger] out[a]) != name,
    ensures
        ({
            let r = others_from::<T>(s, name, i, out);
            forall|a: int| 0 <= a < r.len() ==> T::name_of(#[trigger] r[a]) != name
        }),
    decreases s.len() - i,
{
    if i < s.len() {
        let next = if T::name_of(s[i]) == name {
            out
        } else {
            out.push(s[i])
        };
        assert forall|a: int| 0 <= a < next.len() implies T::name_of(#[trigger] next[a]) != name by {
            if a < out.len() {
                assert(next[a] == out[a]);
            }
        }
        others_hold::<T>(s, name, i + 1, next);
        assert(others_from::<T>(s, name, i, out) == others_from::<T>(s, name, i + 1, next));
    } else {
        assert(others_from::<T>(s, name, i, out) == out);
    }
}

/// After `del name` nothing in a list is bound to that name any more.
pub proof fn law_deleted_name_is_gone<T: Named>(s: Seq<T::V>, name: Seq<char>, a: int)
    requires
        0 <= a < others::<T>(s, name).len(),
    ensures
        T::name_of(others::<T>(s, name)[a]) != name,
{
    others_hold::<T>(s, name, 0, Seq::empty());
}

/// After `del name` everything else is still there.
pub proof fn law_others_stay<T: Named>(s: Seq<T::V>, name: Seq<char>, x: T::V)
    ensures
        others::<T>(s, name).contains(x) <==> s.contains(x) && T::name_of(x) != name,
{
    others_stay::<T>(s, name, 0, Seq::empty(), x);
    if s.contains(x) {
        let k = choose|k: int| 0 <= k < s.len() && s[k] == x;
        assert(s[k] == x);
    }
}

proof fn others_stay<T: Named>(
    s: Seq<T::V>,
    name: Seq<char>,
    i: int,
    out: Seq<T::V>,
    x: T::V,
)
    requires
        0 <= i <= s.len(),
    ensures
        others_from::<T>(s, name, i, out).contains(x) <==> out.contains(x) || (T::name_of(x) != name
            && exists|k: int| i <= k < s.len() && #[trigger] s[k] == x),
    decreases s.len() - i,
{
    if i < s.len() {
        let gone = T::name_of(s[i]) == name;
        let next = if gone {
            out
        } else {
            out.push(s[i])
        };
        others_stay::<T>(s, name, i + 1, next, x);
        if !gone {
            if out.contains(x) {
                let k = choose|k: int| 0 <= k < out.len() && out[k] == x;
                assert(next[k] == x);
            }
            if s[i] == x {
                assert(next[out.len() as int] == x);
            }
            if next.contains(x) && s[i] != x {
                let k = choose|k: int| 0 <= k < next.len() && next[k] == x;
                assert(out[k] == x);
            }
        }
        assert(others_from::<T>(s, name, i, out) == others_from::<T>(s, name, i + 1, next));
    } else {
        assert(others_from::<T>(s, name, i, out) == out);
    }
}

/// What survives stays in the order in which it was defined.
pub proof fn law_survivors_keep_their_order<T: Named>(s: Seq<T::V>, i: int, j: int)
    requires
        0 <= i < j < s.len(),
        !shadowed::<T>(s, i),
        !shadowed::<T>(s, j),
    ensures
        exists|a: int, b: int|
            0 <= a < b < keep_last::<T>(s).len() && #[trigger] keep_last::<T>(s)[a] == s[i]
                && #[trigger] keep_last::<T>(s)[b] == s[j],
{
    let none = Seq::<T::V>::empty();
    let a = survivor_place::<T>(s, 0, none, i);
    let b = survivor_place::<T>(s, 0, none, j);
    later_is_behind::<T>(s, 0, i, j);
    assert(keep_last::<T>(s)[a] == s[i] && keep_last::<T>(s)[b] == s[j]);
}

/// How many of the things before position `n` survive, from position `i` on.
spec fn survivors_before<T: Named>(s: Seq<T::V>, i: int, n: int) -> nat
    decreases n - i,
{
    if i >= n {
        0
    } else {
        (if shadowed::<T>(s, i) {
            0nat
        } else {
            1nat
        }) + survivors_before::<T>(s, i + 1, n)
    }
}

proof fn survivor_place<T: Named>(s: Seq<T::V>, i: int, out: Seq<T::V>, n: int) -> (a: int)
    requires
        0 <= i <= n < s.len(),
        !shadowed::<T>(s, n),
    ensures
        a == out.len() + survivors_before::<T>(s, i, n),
        0 <= a < surviving::<T>(s, i, out).len(),
        surviving::<T>(s, i, out)[a] == s[n],
    decreases n - i,
{
    let next = if shadowed::<T>(s, i) {
        out
    } else {
        out.push(s[i])
    };
    assert(surviving::<T>(s, i, out) == surviving::<T>(s, i + 1, next));
    if i < n {
        survivor_place::<T>(s, i + 1, next, n)
    } else {
        surviving_grows::<T>(s, i + 1, next);
        let all = surviving::<T>(s, i, out);
        assert(all.subrange(0, next.len() as int)[out.len() as int] == next[out.len() as int]);
        out.len() as int
    }
}

proof fn surviving_grows<T: Named>(s: Seq<T::V>, i: int, out: Seq<T::V>)
    requires
        0 <= i <= s.len(),
    ensures
        out.len() <= surviving::<T>(s, i, out).len(),
        surviving::<T>(s, i, out).subrange(0, out.len() as int) == out,
    decreases s.len() - i,
{
    if i < s.len() {
        let next = if shadowed::<T>(s, i) {
            out
        } else {
            out.push(s[i])
        };
        surviving_grows::<T>(s, i + 1, next);
        let all = surviving::<T>(s, i, out);
        assert(all == surviving::<T>(s, i + 1, next));
        assert(all.subrange(0, out.len() as int) =~= out) by {
            assert forall|q: int| 0 <= q < out.len() implies all[q] == out[q] by {
                assert(all.subrange(0, next.len() as int)[q] == next[q]);
            }
        }
    } else {
        assert(surviving::<T>(s, i, out) == out);
        assert(out.subrange(0, out.len() as int) =~= out);
    }
}

proof fn later_is_behind<T: Named>(s: Seq<T::V>, k: int, i: int, j: int)
    requires
        0 <= k <= i < j < s.len(),
        !shadowed::<T>(s, i),
    ensures
        survivors_before::<T>(s, k, i) < survivors_before::<T>(s, k, j),
    decreases i - k,
{
    if k < i {
        later_is_behind::<T>(s, k + 1, i, j);
    }
}

} // verus!
