//! A small ordered dictionary with string keys.

use vstd::prelude::*;

use crate::text::{self, is_less, same};

verus! {

broadcast use crate::text::group_deep;

/// A dictionary whose keys stand in alphabetical order. A key that is put in
/// again takes the new value.
#[derive(Debug)]
pub struct Table<V> {
    pub entries: Vec<(String, V)>,
}

impl<V: View> View for Table<V> {
    type V = Seq<(Seq<char>, V::V)>;

    open spec fn view(&self) -> Seq<(Seq<char>, V::V)> {
        text::deep(self.entries@)
    }
}

/// The value of the first entry with the key `k`, from position `i` on.
pub open spec fn find_from<T>(s: Seq<(Seq<char>, T)>, k: Seq<char>, i: int) -> Option<T>
    decreases s.len() - i,
{
    if i < 0 || i >= s.len() {
        None
    } else if s[i].0 == k {
        Some(s[i].1)
    } else {
        find_from(s, k, i + 1)
    }
}

/// The value that a dictionary has under the key `k`.
pub open spec fn find<T>(s: Seq<(Seq<char>, T)>, k: Seq<char>) -> Option<T> {
    find_from(s, k, 0)
}

/// Where the key `k` stands or has to stand, from position `i` on.
pub open spec fn slot<T>(s: Seq<(Seq<char>, T)>, k: Seq<char>, i: int) -> int
    decreases s.len() - i,
{
    if i < 0 || i >= s.len() || s[i].0 == k || text::less(k, s[i].0) {
        i
    } else {
        slot(s, k, i + 1)
    }
}

/// The dictionary with the value `v` under the key `k`.
pub open spec fn put<T>(s: Seq<(Seq<char>, T)>, k: Seq<char>, v: T) -> Seq<(Seq<char>, T)> {
    let i = slot(s, k, 0);
    if i < s.len() && s[i].0 == k {
        s.update(i, (k, v))
    } else {
        s.insert(i, (k, v))
    }
}

/// The entries from position `i` on whose key is not `k`.
pub open spec fn without_from<T>(
    s: Seq<(Seq<char>, T)>,
    k: Seq<char>,
    i: int,
    out: Seq<(Seq<char>, T)>,
) -> Seq<(Seq<char>, T)>
    decreases s.len() - i,
{
    if i < 0 || i >= s.len() {
        out
    } else {
        without_from(
            s,
            k,
            i + 1,
            if s[i].0 == k {
                out
            } else {
                out.push(s[i])
            },
        )
    }
}

/// The dictionary without the key `k`.
pub open spec fn without<T>(s: Seq<(Seq<char>, T)>, k: Seq<char>) -> Seq<(Seq<char>, T)> {
    without_from(s, k, 0, Seq::empty())
}

proof fn slot_range<T>(s: Seq<(Seq<char>, T)>, k: Seq<char>, i: int)
    requires
        0 <= i <= s.len(),
    ensures
        i <= slot(s, k, i) <= s.len(),
    decreases s.len() - i,
{
    if i < s.len() && s[i].0 != k && !text::less(k, s[i].0) {
        slot_range(s, k, i + 1);
    }
}

proof fn find_after_slot<T>(s: Seq<(Seq<char>, T)>, k: Seq<char>, v: T, key: Seq<char>, i: int)
    requires
        0 <= i <= slot(s, k, 0),
        slot(s, k, i) == slot(s, k, 0),
    ensures
        key != k ==> find_from(put(s, k, v), key, i) == find_from(s, key, i),
        key == k ==> find_from(put(s, k, v), key, i) == Some(v),
    decreases s.len() - i,
{
    slot_range(s, k, 0);
    slot_range(s, k, i);
    let at = slot(s, k, 0);
    let t = put(s, k, v);
    if i < at {
        assert(t[i] == s[i]);
        find_after_slot(s, k, v, key, i + 1);
    } else if at < s.len() && s[at].0 == k {
        find_tail_same(s, t, key, at + 1, at + 1);
    } else {
        assert(t[at] == (k, v));
        find_tail_same(s, t, key, at, at + 1);
    }
}

proof fn find_tail_same<T>(
    s: Seq<(Seq<char>, T)>,
    t: Seq<(Seq<char>, T)>,
    key: Seq<char>,
    i: int,
    j: int,
)
    requires
        0 <= i <= s.len(),
        0 <= j <= t.len(),
        s.len() - i == t.len() - j,
        forall|d: int| 0 <= d < s.len() - i ==> s[i + d] == #[trigger] t[j + d],
    ensures
        find_from(t, key, j) == find_from(s, key, i),
    decreases s.len() - i,
{
    if i < s.len() {
        assert(s[i + 0] == t[j + 0]);
        assert forall|d: int| 0 <= d < s.len() - (i + 1) implies s[(i + 1) + d] == #[trigger] t[(j
            + 1) + d] by {
            assert(s[i + (d + 1)] == t[j + (d + 1)]);
        }
        find_tail_same(s, t, key, i + 1, j + 1);
    }
}

/// A dictionary gives back, under a key, the value that was put in last, and
/// putting a value in changes nothing under the other keys.
pub proof fn law_find_after_put<T>(s: Seq<(Seq<char>, T)>, k: Seq<char>, v: T, key: Seq<char>)
    ensures
        find(put(s, k, v), key) == (if key == k {
            Some(v)
        } else {
            find(s, key)
        }),
{
    slot_range(s, k, 0);
    find_after_slot(s, k, v, key, 0);
}

/// Do the keys stand in alphabetical order, each once?
pub open spec fn sorted<T>(s: Seq<(Seq<char>, T)>) -> bool {
    forall|i: int, j: int|
        0 <= i < j < s.len() ==> text::less(#[trigger] s[i].0, #[trigger] s[j].0)
}

proof fn slot_splits<T>(s: Seq<(Seq<char>, T)>, k: Seq<char>, i: int)
    requires
        0 <= i <= s.len(),
    ensures
        forall|j: int| i <= j < slot(s, k, i) ==> text::less((#[trigger] s[j]).0, k),
        slot(s, k, i) < s.len() ==> s[slot(s, k, i)].0 == k || text::less(
            k,
            s[slot(s, k, i)].0,
        ),
    decreases s.len() - i,
{
    if i < s.len() && s[i].0 != k && !text::less(k, s[i].0) {
        text::law_order_is_total(k, s[i].0);
        slot_splits(s, k, i + 1);
    }
}

/// Putting a value in keeps the keys in alphabetical order, each once.
pub proof fn law_put_keeps_order<T>(s: Seq<(Seq<char>, T)>, k: Seq<char>, v: T)
    requires
        sorted(s),
    ensures
        sorted(put(s, k, v)),
{
    slot_range(s, k, 0);
    slot_splits(s, k, 0);
    let at = slot(s, k, 0);
    let t = put(s, k, v);
    if at < s.len() && s[at].0 == k {
        assert forall|i: int, j: int| 0 <= i < j < t.len() implies text::less(
            #[trigger] t[i].0,
            #[trigger] t[j].0,
        ) by {
            assert(t[i].0 == s[i].0 && t[j].0 == s[j].0);
        }
    } else {
        assert forall|i: int, j: int| 0 <= i < j < t.len() implies text::less(
            #[trigger] t[i].0,
            #[trigger] t[j].0,
        ) by {
            if i < at && j == at {
                assert(t[i] == s[i]);
            } else if i == at {
                assert(t[j] == s[j - 1]);
                if at < j - 1 {
                    text::law_order_is_transitive(k, s[at].0, s[j - 1].0);
                }
            } else if i < at && j > at {
                assert(t[i] == s[i] && t[j] == s[j - 1]);
            } else if i > at {
                assert(t[i] == s[i - 1] && t[j] == s[j - 1]);
            } else {
                assert(t[i] == s[i] && t[j] == s[j]);
            }
        }
    }
}

proof fn without_of<T>(
    s: Seq<(Seq<char>, T)>,
    k: Seq<char>,
    key: Seq<char>,
    i: int,
    out: Seq<(Seq<char>, T)>,
)
    requires
        0 <= i <= s.len(),
        forall|j: int| 0 <= j < out.len() ==> (#[trigger] out[j]).0 != k,
    ensures
        find(without_from(s, k, i, out), key) == (match find(out, key) {
            Some(v) => Some(v),
            None => if key == k {
                None
            } else {
                find_from(s, key, i)
            },
        }),
    decreases s.len() - i,
{
    if i < s.len() {
        if s[i].0 == k {
            without_of(s, k, key, i + 1, out);
            if key == k {
                no_such_key(out, k, 0);
            }
        } else {
            let next = out.push(s[i]);
            find_after_push(out, s[i], key, 0);
            without_of(s, k, key, i + 1, next);
            if key == k {
                no_such_key(out, k, 0);
            }
        }
    } else if key == k {
        no_such_key(out, k, 0);
    }
}

proof fn no_such_key<T>(s: Seq<(Seq<char>, T)>, k: Seq<char>, i: int)
    requires
        0 <= i <= s.len(),
        forall|j: int| 0 <= j < s.len() ==> (#[trigger] s[j]).0 != k,
    ensures
        find_from(s, k, i) is None,
    decreases s.len() - i,
{
    if i < s.len() {
        no_such_key(s, k, i + 1);
    }
}

proof fn find_after_push<T>(
    s: Seq<(Seq<char>, T)>,
    e: (Seq<char>, T),
    key: Seq<char>,
    i: int,
)
    requires
        0 <= i <= s.len(),
    ensures
        find_from(s.push(e), key, i) == (match find_from(s, key, i) {
            Some(v) => Some(v),
            None => if e.0 == key {
                Some(e.1)
            } else {
                None
            },
        }),
    decreases s.len() - i,
{
    let t = s.push(e);
    if i < s.len() {
        assert(t[i] == s[i]);
        find_after_push(s, e, key, i + 1);
    } else {
        assert(t[i] == e);
        assert(find_from(t, key, i + 1) is None);
    }
}

/// A dictionary has nothing under a key that was taken out, and taking it out
/// changes nothing under the other keys.
pub proof fn law_find_after_remove<T>(s: Seq<(Seq<char>, T)>, k: Seq<char>, key: Seq<char>)
    ensures
        find(without(s, k), key) == (if key == k {
            None
        } else {
            find(s, key)
        }),
{
    without_of(s, k, key, 0, Seq::empty());
}

impl<V: View> Table<V> {
    /// A dictionary without entries.
    pub fn new() -> (r: Table<V>)
        ensures
            r@ == Seq::<(Seq<char>, V::V)>::empty(),
    {
        Table { entries: Vec::new() }
    }

    /// The value under `key`.
    pub fn get(&self, key: &str) -> (r: Option<&V>)
        ensures
            text::opt(r) == find(self@, key@),
    {
        let mut i: usize = 0;
        while i < self.entries.len()
            invariant
                i <= self.entries.len(),
                find_from(self@, key@, i as int) == find(self@, key@),
            decreases self.entries.len() - i,
        {
            if same(self.entries[i].0.as_str(), key) {
                return Some(&self.entries[i].1);
            }
            i += 1;
        }
        None
    }

    /// Does `key` have a value?
    pub fn has(&self, key: &str) -> (r: bool)
        ensures
            r == find(self@, key@) is Some,
    {
        self.get(key).is_some()
    }

    /// Puts `value` in under `key`.
    pub fn insert(&mut self, key: String, value: V)
        ensures
            final(self)@ == put(old(self)@, key@, value@),
    {
        let mut i: usize = 0;
        while i < self.entries.len() && !same(self.entries[i].0.as_str(), key.as_str()) && !is_less(
            key.as_str(),
            self.entries[i].0.as_str(),
        )
            invariant
                i <= self.entries.len(),
                *self == *old(self),
                slot(self@, key@, i as int) == slot(self@, key@, 0),
            decreases self.entries.len() - i,
        {
            i += 1;
        }
        if i < self.entries.len() && same(self.entries[i].0.as_str(), key.as_str()) {
            self.entries.set(i, (key, value));
        } else {
            self.entries.insert(i, (key, value));
        }
        proof {
            assert(self@ =~= put(old(self)@, key@, value@));
        }
    }

    /// Takes the entry of `key` out, if there is one.
    pub fn remove(&mut self, key: &str)
        ensures
            final(self)@ == without(old(self)@, key@),
    {
        let ghost all = self@;
        let ghost mut seen: int = 0;
        let ghost mut kept: Seq<(Seq<char>, V::V)> = Seq::empty();
        let mut i: usize = 0;
        proof {
            assert(self@ =~= kept + all.skip(0));
        }
        while i < self.entries.len()
            invariant
                i == kept.len(),
                0 <= seen <= all.len(),
                i + all.len() - seen == self.entries.len(),
                self@ == kept + all.skip(seen),
                without_from(all, key@, seen, kept) == without(all, key@),
            decreases self.entries.len() - i,
        {
            let ghost before = self@;
            proof {
                assert(self@[i as int] == all[seen]);
            }
            if same(self.entries[i].0.as_str(), key) {
                self.entries.remove(i);
                proof {
                    assert(self@ =~= before.remove(i as int));
                    assert(before.remove(i as int) =~= kept + all.skip(seen + 1));
                    seen = seen + 1;
                }
            } else {
                i += 1;
                proof {
                    assert(before =~= kept.push(all[seen]) + all.skip(seen + 1));
                    kept = kept.push(all[seen]);
                    seen = seen + 1;
                }
            }
        }
        proof {
            assert(self@ =~= kept);
        }
    }
}

} // verus!
