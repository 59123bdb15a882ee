//! The frontier of a best-first search: a priority queue of lanes that hands out
//! the lane of least cost first, and of two lanes of equal cost the one with the
//! lower number.

use vstd::multiset::Multiset;
use vstd::prelude::*;

verus! {

/// A lane waiting in the frontier: the cost at which it was reached, and its
/// number.
pub type Entry = (u64, usize);

/// The order in which entries leave the frontier: by cost, then by lane.
pub open spec fn entry_le(a: Entry, b: Entry) -> bool {
    a.0 < b.0 || (a.0 == b.0 && a.1 <= b.1)
}

/// The entry is in the frontier, and no entry of the frontier comes before it.
pub open spec fn is_least(q: Multiset<Entry>, e: Entry) -> bool {
    &&& q.count(e) > 0
    &&& forall|o: Entry| q.count(o) > 0 ==> entry_le(e, o)
}

/// The entry that leaves the frontier next.
pub open spec fn least(q: Multiset<Entry>) -> Entry {
    choose|e: Entry| is_least(q, e)
}

/// Only one entry can be the least.
pub proof fn lemma_least_unique(q: Multiset<Entry>, e: Entry)
    requires
        is_least(q, e),
    ensures
        least(q) == e,
{
    let c = least(q);
    assert(is_least(q, c));
    assert(entry_le(c, e) && entry_le(e, c));
}

/// The place above a place of the heap.
spec fn above(i: int) -> int {
    (i - 1) / 2
}

/// The entry at place `c` comes no earlier than the one above it.
spec fn edge_ok(s: Seq<Entry>, c: int) -> bool {
    c >= 1 ==> entry_le(s[above(c)], s[c])
}

/// The entry at place `c` comes no earlier than the one two places above it.
spec fn skip_ok(s: Seq<Entry>, c: int) -> bool {
    entry_le(s[above(above(c))], s[c])
}

/// The entries are in heap order but for the entry at `hole`, which may come
/// before the one above it.
spec fn heap_but_above(s: Seq<Entry>, hole: int) -> bool {
    forall|c: int| 0 <= c < s.len() && c != hole ==> #[trigger] edge_ok(s, c)
}

/// The entries are in heap order but for the entry at `hole`, which may come
/// after those below it.
spec fn heap_but_below(s: Seq<Entry>, hole: int) -> bool {
    forall|c: int| 1 <= c < s.len() && above(c) != hole ==> #[trigger] edge_ok(s, c)
}

/// The entry above `hole` comes no later than those below it.
spec fn bridged(s: Seq<Entry>, hole: int) -> bool {
    hole > 0 ==> forall|c: int| 1 <= c < s.len() && above(c) == hole ==> #[trigger] skip_ok(s, c)
}

/// In heap order the first entry comes before every other.
proof fn lemma_root_least(s: Seq<Entry>, i: int)
    requires
        heap_but_above(s, 0),
        0 <= i < s.len(),
    ensures
        entry_le(s[0], s[i]),
    decreases i,
{
    if i > 0 {
        lemma_root_least(s, above(i));
        assert(edge_ok(s, i));
    }
}

/// Whether an entry leaves the frontier no later than another.
fn le(a: Entry, b: Entry) -> (r: bool)
    ensures
        r == entry_le(a, b),
{
    a.0 < b.0 || (a.0 == b.0 && a.1 <= b.1)
}

/// Lets two entries change places.
fn swap(entries: &mut Vec<Entry>, i: usize, j: usize)
    requires
        i < old(entries)@.len(),
        j < old(entries)@.len(),
    ensures
        final(entries)@ == old(entries)@.update(i as int, old(entries)@[j as int]).update(
            j as int,
            old(entries)@[i as int],
        ),
        final(entries)@.to_multiset() == old(entries)@.to_multiset(),
{
    let a = entries[i];
    let b = entries[j];
    entries.set(i, b);
    entries.set(j, a);
    proof {
        broadcast use vstd::multiset::group_multiset_axioms;

        broadcast use vstd::seq_lib::group_to_multiset_ensures;

        let s = old(entries)@;
        let s1 = s.update(i as int, b);
        assert(s.contains(a));
        assert(s.contains(b));
        vstd::seq_lib::to_multiset_update(s, i as int, b);
        vstd::seq_lib::to_multiset_update(s1, j as int, a);
        assert(s1[j as int] == b);
        assert(entries@.to_multiset() =~= s.to_multiset());
    }
}

/// The frontier: a heap in a row, each entry coming no later than the two that
/// stand at twice its place and after.
pub struct Frontier {
    entries: Vec<Entry>,
}

impl View for Frontier {
    type V = Multiset<Entry>;

    closed spec fn view(&self) -> Multiset<Entry> {
        self.entries@.to_multiset()
    }
}

impl Frontier {
    /// The entries are in heap order.
    pub closed spec fn wf(&self) -> bool {
        heap_but_above(self.entries@, 0)
    }

    /// An empty frontier.
    pub fn new() -> (q: Frontier)
        ensures
            q.wf(),
            q@ == Multiset::<Entry>::empty(),
    {
        let q = Frontier { entries: Vec::new() };
        proof {
            broadcast use vstd::seq_lib::group_to_multiset_ensures;

            assert(q.entries@.to_multiset().len() == 0);
            assert(q@ =~= Multiset::<Entry>::empty());
        }
        q
    }

    /// Whether no lane is waiting.
    pub fn is_empty(&self) -> (b: bool)
        ensures
            b == (self@.len() == 0),
    {
        proof {
            broadcast use vstd::seq_lib::group_to_multiset_ensures;

        }
        self.entries.len() == 0
    }

    /// Adds a lane with the cost at which it was reached.
    pub fn push(&mut self, cost: u64, lane: usize)
        requires
            old(self).wf(),
        ensures
            final(self).wf(),
            final(self)@ == old(self)@.insert((cost, lane)),
    {
        proof {
            broadcast use vstd::seq_lib::group_to_multiset_ensures;

        }
        self.entries.push((cost, lane));
        let mut i: usize = self.entries.len() - 1;
        proof {
            assert forall|c: int|
                0 <= c < self.entries@.len() && c != i implies #[trigger] edge_ok(
                self.entries@,
                c,
            ) by {
                assert(edge_ok(old(self).entries@, c));
            }
        }
        while i > 0
            invariant
                i < self.entries@.len(),
                self.entries@.to_multiset() == old(self)@.insert((cost, lane)),
                heap_but_above(self.entries@, i as int),
                bridged(self.entries@, i as int),
            ensures
                self.entries@.to_multiset() == old(self)@.insert((cost, lane)),
                heap_but_above(self.entries@, 0),
            decreases i,
        {
            let up = (i - 1) / 2;
            if le(self.entries[up], self.entries[i]) {
                proof {
                    assert forall|c: int| 0 <= c < self.entries@.len() implies #[trigger] edge_ok(
                        self.entries@,
                        c,
                    ) by {}
                }
                break;
            }
            let ghost before = self.entries@;
            swap(&mut self.entries, up, i);
            proof {
                let now = self.entries@;
                assert forall|c: int| 0 <= c < now.len() && c != up implies #[trigger] edge_ok(
                    now,
                    c,
                ) by {
                    if c != i && c >= 1 {
                        assert(edge_ok(before, c));
                        if above(c) == i {
                            assert(skip_ok(before, c));
                        }
                    }
                }
                if up > 0 {
                    assert forall|c: int|
                        1 <= c < now.len() && above(c) == up implies #[trigger] skip_ok(now, c) by {
                        assert(edge_ok(before, up as int));
                        if c != i {
                            assert(edge_ok(before, c));
                        }
                    }
                }
            }
            i = up;
        }
    }

    /// Takes out the lane of least cost; of several, the one with the lowest
    /// number.
    pub fn pop(&mut self) -> (res: Option<Entry>)
        requires
            old(self).wf(),
        ensures
            final(self).wf(),
            match res {
                None => old(self)@.len() == 0 && final(self)@ == old(self)@,
                Some(e) => is_least(old(self)@, e) && final(self)@ == old(self)@.remove(e),
            },
    {
        proof {
            broadcast use vstd::seq_lib::group_to_multiset_ensures;

        }
        if self.entries.len() == 0 {
            return None;
        }
        let e = self.entries[0];
        let last = self.entries.pop().unwrap();
        proof {
            broadcast use vstd::multiset::group_multiset_axioms;

            let s = old(self).entries@;
            assert(s.contains(e));
            assert forall|o: Entry| s.to_multiset().count(o) > 0 implies entry_le(e, o) by {
                assert(s.contains(o));
                let j = choose|j: int| 0 <= j < s.len() && s[j] == o;
                lemma_root_least(s, j);
            }
            vstd::seq_lib::to_multiset_remove(s, s.len() - 1);
            assert(s.remove(s.len() - 1) =~= self.entries@);
        }
        if self.entries.len() == 0 {
            return Some(e);
        }
        let ghost shorter = self.entries@;
        self.entries.set(0, last);
        proof {
            broadcast use vstd::multiset::group_multiset_axioms;

            vstd::seq_lib::to_multiset_update(shorter, 0, last);
            assert(self.entries@.to_multiset() =~= old(self)@.remove(e));
            assert forall|c: int|
                1 <= c < self.entries@.len() && above(c) != 0 implies #[trigger] edge_ok(
                self.entries@,
                c,
            ) by {
                assert(edge_ok(old(self).entries@, c));
            }
        }
        let n = self.entries.len();
        let mut i: usize = 0;
        loop
            invariant
                n == self.entries@.len(),
                i < n,
                self.entries@.to_multiset() == old(self)@.remove(e),
                heap_but_below(self.entries@, i as int),
                bridged(self.entries@, i as int),
            ensures
                heap_but_above(self.entries@, 0),
                self.entries@.to_multiset() == old(self)@.remove(e),
            decreases n - i,
        {
            let mut least = i;
            if i < n / 2 {
                let left = 2 * i + 1;
                if left < n && !le(self.entries[least], self.entries[left]) {
                    least = left;
                }
                if left + 1 < n && !le(self.entries[least], self.entries[left + 1]) {
                    least = left + 1;
                }
            }
            if least == i {
                proof {
                    let s = self.entries@;
                    assert forall|c: int| 0 <= c < s.len() implies #[trigger] edge_ok(s, c) by {
                        if c >= 1 && above(c) == i {
                            assert(c == 2 * i + 1 || c == 2 * i + 2);
                        }
                    }
                }
                break;
            }
            let ghost before = self.entries@;
            swap(&mut self.entries, i, least);
            proof {
                let now = self.entries@;
                assert forall|c: int|
                    1 <= c < now.len() && above(c) != least implies #[trigger] edge_ok(now, c) by {
                    if above(c) == i {
                        assert(c == 2 * i + 1 || c == 2 * i + 2);
                    } else if c == i {
                        assert(skip_ok(before, least as int));
                    } else {
                        assert(edge_ok(before, c));
                    }
                }
                assert forall|c: int|
                    1 <= c < now.len() && above(c) == least implies #[trigger] skip_ok(now, c) by {
                    assert(edge_ok(before, c));
                }
            }
            i = least;
        }
        Some(e)
    }
}

} // verus!
