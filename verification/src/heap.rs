use crate::event::EventEntry;
use crate::keys::Key;
use vstd::prelude::*;

verus! {

/// The position above `i` in the implicit binary tree.
spec fn parent(i: int) -> int {
    (i - 1) / 2
}

/// The entry at `i` is due no sooner than the entry above it.
spec fn above_parent(s: Seq<EventEntry>, i: int) -> bool {
    s[parent(i)].due() <= s[i].due()
}

/// The entry at `i` is due no sooner than the entry two levels above it.
spec fn above_grandparent(s: Seq<EventEntry>, i: int) -> bool {
    s[parent(parent(i))].due() <= s[i].due()
}

/// Heap order: no entry is due sooner than the entry above it.
spec fn heap_ordered(s: Seq<EventEntry>) -> bool {
    forall|i: int| 0 < i < s.len() ==> #[trigger] above_parent(s, i)
}

/// No task owns two entries.
spec fn distinct_owners(s: Seq<EventEntry>) -> bool {
    forall|i: int, j: int| 0 <= i < j < s.len() ==> s[i].owner() != s[j].owner()
}

/// Some entry belongs to `k`.
spec fn holds(s: Seq<EventEntry>, k: Key) -> bool {
    exists|i: int| 0 <= i < s.len() && (#[trigger] s[i]).owner() == k
}

/// A position at which an entry of `k` stands, where there is one.
spec fn slot_of(s: Seq<EventEntry>, k: Key) -> int {
    choose|i: int| 0 <= i < s.len() && (#[trigger] s[i]).owner() == k
}

/// The entries as a map from each task to the time at which it is due.
spec fn pending_of(s: Seq<EventEntry>) -> Map<Key, nat> {
    Map::new(|k: Key| holds(s, k), |k: Key| s[slot_of(s, k)].due())
}

/// `s` with the entries at `a` and `b` exchanged.
spec fn swapped(s: Seq<EventEntry>, a: int, b: int) -> Seq<EventEntry> {
    s.update(a, s[b]).update(b, s[a])
}

/// Heap order holds except that the entry at `p` may be due sooner than the
/// entries above it.
spec fn ordered_but_up(s: Seq<EventEntry>, p: int) -> bool {
    &&& forall|i: int| 0 < i < s.len() && i != p ==> #[trigger] above_parent(s, i)
    &&& forall|c: int|
        0 < c < s.len() && parent(c) == p && p > 0 ==> #[trigger] above_grandparent(s, c)
}

/// Heap order holds except that the entry at `p` may be due later than the
/// entries below it.
spec fn ordered_but_down(s: Seq<EventEntry>, p: int) -> bool {
    &&& forall|i: int| 0 < i < s.len() && parent(i) != p ==> #[trigger] above_parent(s, i)
    &&& forall|c: int|
        0 < c < s.len() && parent(c) == p && p > 0 ==> #[trigger] above_grandparent(s, c)
}

/// With distinct owners, the entry at `i` is the one its owner is mapped to.
proof fn lemma_slot(s: Seq<EventEntry>, i: int)
    requires
        distinct_owners(s),
        0 <= i < s.len(),
    ensures
        holds(s, s[i].owner()),
        slot_of(s, s[i].owner()) == i,
        pending_of(s).contains_key(s[i].owner()),
        pending_of(s)[s[i].owner()] == s[i].due(),
{
    let k = s[i].owner();
    assert(holds(s, k));
    let j = slot_of(s, k);
    assert(0 <= j < s.len() && s[j].owner() == k);
    if j < i {
        assert(s[j].owner() != s[i].owner());
    }
    if i < j {
        assert(s[i].owner() != s[j].owner());
    }
}

/// A map that agrees with every entry, and has no other key, is the map of
/// the entries.
proof fn lemma_pending_is(s: Seq<EventEntry>, m: Map<Key, nat>)
    requires
        distinct_owners(s),
        forall|i: int|
            0 <= i < s.len() ==> m.contains_key((#[trigger] s[i]).owner()) && m[s[i].owner()]
                == s[i].due(),
        forall|k: Key| m.contains_key(k) ==> holds(s, k),
    ensures
        pending_of(s) == m,
{
    assert forall|k: Key| pending_of(s).contains_key(k) implies m.contains_key(k) by {
        let j = slot_of(s, k);
        assert(s[j].owner() == k);
    }
    assert forall|k: Key| pending_of(s).contains_key(k) implies pending_of(s)[k] == m[k] by {
        let j = slot_of(s, k);
        assert(s[j].owner() == k);
    }
    assert(pending_of(s) =~= m);
}

/// In heap order the first entry is due no later than any other.
proof fn lemma_root_is_least(s: Seq<EventEntry>, i: int)
    requires
        heap_ordered(s),
        0 <= i < s.len(),
    ensures
        s[0].due() <= s[i].due(),
    decreases i,
{
    if i > 0 {
        assert(above_parent(s, i));
        lemma_root_is_least(s, parent(i));
    }
}

/// Exchanging two entries changes neither their owners' distinctness nor the
/// map they stand for.
proof fn lemma_swap_keeps_pending(s: Seq<EventEntry>, a: int, b: int)
    requires
        distinct_owners(s),
        0 <= a < s.len(),
        0 <= b < s.len(),
    ensures
        distinct_owners(swapped(s, a, b)),
        pending_of(swapped(s, a, b)) == pending_of(s),
{
    let t = swapped(s, a, b);
    let back = |i: int|
        if i == a {
            b
        } else if i == b {
            a
        } else {
            i
        };
    assert forall|i: int| 0 <= i < t.len() implies t[i] == s[back(i)] by {}
    assert forall|i: int, j: int| 0 <= i < j < t.len() implies t[i].owner() != t[j].owner() by {
        let x = back(i);
        let y = back(j);
        if x < y {
            assert(s[x].owner() != s[y].owner());
        } else {
            assert(s[y].owner() != s[x].owner());
        }
    }
    let m = pending_of(s);
    assert forall|i: int| 0 <= i < t.len() implies m.contains_key((#[trigger] t[i]).owner())
        && m[t[i].owner()] == t[i].due() by {
        lemma_slot(s, back(i));
    }
    assert forall|k: Key| m.contains_key(k) implies holds(t, k) by {
        let j = slot_of(s, k);
        assert(s[j].owner() == k);
        assert(t[back(j)].owner() == k);
    }
    lemma_pending_is(t, m);
}

/// Appending an entry of a task that owns none adds that task to the map.
proof fn lemma_push_adds(s: Seq<EventEntry>, e: EventEntry)
    requires
        distinct_owners(s),
        !holds(s, e.owner()),
    ensures
        distinct_owners(s.push(e)),
        pending_of(s.push(e)) == pending_of(s).insert(e.owner(), e.due()),
{
    let t = s.push(e);
    assert forall|i: int, j: int| 0 <= i < j < t.len() implies t[i].owner() != t[j].owner() by {
        if j == s.len() {
            assert(s[i].owner() != e.owner());
        } else {
            assert(s[i].owner() != s[j].owner());
        }
    }
    let m = pending_of(s).insert(e.owner(), e.due());
    assert forall|i: int| 0 <= i < t.len() implies m.contains_key((#[trigger] t[i]).owner())
        && m[t[i].owner()] == t[i].due() by {
        if i < s.len() {
            lemma_slot(s, i);
            assert(s[i].owner() != e.owner());
        }
    }
    assert forall|k: Key| m.contains_key(k) implies holds(t, k) by {
        if k == e.owner() {
            assert(t[s.len() as int].owner() == k);
        } else {
            let j = slot_of(s, k);
            assert(s[j].owner() == k);
            assert(t[j].owner() == k);
        }
    }
    lemma_pending_is(t, m);
}

/// Overwriting the entry at `i` with the last one and dropping the last
/// position removes the owner of the entry at `i` from the map.
proof fn lemma_swap_remove_drops(s: Seq<EventEntry>, i: int)
    requires
        distinct_owners(s),
        0 <= i < s.len(),
    ensures
        distinct_owners(s.update(i, s.last()).drop_last()),
        pending_of(s.update(i, s.last()).drop_last()) == pending_of(s).remove(s[i].owner()),
{
    let t = s.update(i, s.last()).drop_last();
    let last = s.len() - 1;
    let back = |j: int|
        if j == i {
            last
        } else {
            j
        };
    assert forall|j: int| 0 <= j < t.len() implies t[j] == s[back(j)] && back(j) != i by {}
    assert forall|a: int, b: int| 0 <= a < b < t.len() implies t[a].owner() != t[b].owner() by {
        let x = back(a);
        let y = back(b);
        if x < y {
            assert(s[x].owner() != s[y].owner());
        } else {
            assert(s[y].owner() != s[x].owner());
        }
    }
    let m = pending_of(s).remove(s[i].owner());
    assert forall|j: int| 0 <= j < t.len() implies m.contains_key((#[trigger] t[j]).owner())
        && m[t[j].owner()] == t[j].due() by {
        let x = back(j);
        lemma_slot(s, x);
        if x < i {
            assert(s[x].owner() != s[i].owner());
        } else {
            assert(s[i].owner() != s[x].owner());
        }
    }
    assert forall|k: Key| m.contains_key(k) implies holds(t, k) by {
        let j = slot_of(s, k);
        assert(s[j].owner() == k);
        assert(j != i);
        if j == last {
            assert(t[i].owner() == k);
        } else {
            assert(t[j].owner() == k);
        }
    }
    lemma_pending_is(t, m);
}

/// Moving the entry at `p` one level up, where it is due sooner than the
/// entry above it, leaves heap order broken at most at the new position.
proof fn lemma_step_up(s: Seq<EventEntry>, p: int)
    requires
        0 < p < s.len(),
        ordered_but_up(s, p),
        s[p].due() < s[parent(p)].due(),
    ensures
        ordered_but_up(swapped(s, p, parent(p)), parent(p)),
{
    let q = parent(p);
    let t = swapped(s, p, q);
    assert forall|i: int| 0 < i < t.len() && i != q implies #[trigger] above_parent(t, i) by {
        if i == p {
        } else if parent(i) == p {
            assert(above_grandparent(s, i));
        } else {
            assert(above_parent(s, i));
        }
    }
    assert forall|c: int| 0 < c < t.len() && parent(c) == q && q > 0 implies #[trigger]
        above_grandparent(t, c) by {
        assert(above_parent(s, q));
        if c != p {
            assert(above_parent(s, c));
        }
    }
}

/// Moving the entry at `p` one level down, below its child `m` that is due
/// soonest, leaves heap order broken at most at the new position.
proof fn lemma_step_down(s: Seq<EventEntry>, p: int, m: int)
    requires
        0 <= p < m < s.len(),
        parent(m) == p,
        ordered_but_down(s, p),
        s[m].due() < s[p].due(),
        forall|c: int| 0 < c < s.len() && parent(c) == p ==> s[m].due() <= (#[trigger] s[c]).due(),
    ensures
        ordered_but_down(swapped(s, p, m), m),
{
    let t = swapped(s, p, m);
    assert forall|i: int| 0 < i < t.len() && parent(i) != m implies #[trigger] above_parent(
        t,
        i,
    ) by {
        if i == m {
        } else if parent(i) == p {
            assert(s[m].due() <= s[i].due());
        } else if i == p {
            assert(above_grandparent(s, m));
        } else {
            assert(above_parent(s, i));
        }
    }
    assert forall|c: int| 0 < c < t.len() && parent(c) == m && m > 0 implies #[trigger]
        above_grandparent(t, c) by {
        assert(above_parent(s, c));
    }
}

/// A binary min-heap of pending events, keyed by the time at which each is
/// due, in which every task owns at most one entry.
///
/// Seen from outside it is a map from each task with a pending event to the
/// time at which that event is due.
pub struct EventHeap {
    entries: Vec<EventEntry>,
}

impl View for EventHeap {
    type V = Map<Key, nat>;

    closed spec fn view(&self) -> Map<Key, nat> {
        pending_of(self.entries@)
    }
}

/// Exchanges the entries at `a` and `b`.
fn swap_entries(v: &mut Vec<EventEntry>, a: usize, b: usize)
    requires
        a < old(v)@.len(),
        b < old(v)@.len(),
    ensures
        final(v)@ == swapped(old(v)@, a as int, b as int),
{
    let x = v[a];
    let y = v[b];
    v.set(a, y);
    v.set(b, x);
}

/// Restores heap order by moving the entry at `start` up as far as it must go.
fn sift_up(v: &mut Vec<EventEntry>, start: usize)
    requires
        start < old(v)@.len(),
        distinct_owners(old(v)@),
        ordered_but_up(old(v)@, start as int),
    ensures
        heap_ordered(final(v)@),
        distinct_owners(final(v)@),
        pending_of(final(v)@) == pending_of(old(v)@),
        final(v)@.len() == old(v)@.len(),
{
    let ghost before = v@;
    let mut pos = start;
    while pos > 0
        invariant_except_break
            pos < v@.len(),
            ordered_but_up(v@, pos as int),
        invariant
            v@.len() == before.len(),
            distinct_owners(v@),
            pending_of(v@) == pending_of(before),
        ensures
            heap_ordered(v@),
        decreases pos,
    {
        let up = (pos - 1) / 2;
        if v[pos].before(&v[up]) {
            proof {
                lemma_step_up(v@, pos as int);
                lemma_swap_keeps_pending(v@, pos as int, up as int);
            }
            swap_entries(v, pos, up);
            pos = up;
        } else {
            proof {
                assert forall|i: int| 0 < i < v@.len() implies #[trigger] above_parent(v@, i) by {
                    if i != pos {
                        assert(above_parent(v@, i));
                    }
                }
            }
            break ;
        }
    }
}

/// Restores heap order by moving the entry at `start` down as far as it must
/// go.
fn sift_down(v: &mut Vec<EventEntry>, start: usize)
    requires
        start < old(v)@.len(),
        distinct_owners(old(v)@),
        ordered_but_down(old(v)@, start as int),
    ensures
        heap_ordered(final(v)@),
        distinct_owners(final(v)@),
        pending_of(final(v)@) == pending_of(old(v)@),
        final(v)@.len() == old(v)@.len(),
{
    let ghost before = v@;
    let n = v.len();
    let mut pos = start;
    loop
        invariant_except_break
            pos < n,
            ordered_but_down(v@, pos as int),
        invariant
            n == v@.len(),
            v@.len() == before.len(),
            distinct_owners(v@),
            pending_of(v@) == pending_of(before),
        ensures
            heap_ordered(v@),
        decreases n - pos,
    {
        if pos >= n / 2 {
            proof {
                assert forall|i: int| 0 < i < v@.len() implies #[trigger] above_parent(v@, i) by {
                    assert(parent(i) != pos);
                }
            }
            break ;
        }
        let left = 2 * pos + 1;
        let right = left + 1;
        let mut least = left;
        if right < n && v[right].before(&v[left]) {
            least = right;
        }
        if v[least].before(&v[pos]) {
            proof {
                assert forall|c: int| 0 < c < v@.len() && parent(c) == pos implies v@[least as int].due()
                    <= (#[trigger] v@[c]).due() by {
                    assert(c == left || c == right);
                }
                lemma_step_down(v@, pos as int, least as int);
                lemma_swap_keeps_pending(v@, pos as int, least as int);
            }
            swap_entries(v, pos, least);
            pos = least;
        } else {
            proof {
                assert forall|i: int| 0 < i < v@.len() implies #[trigger] above_parent(v@, i) by {
                    if parent(i) == pos {
                        assert(i == left || i == right);
                    } else {
                        assert(above_parent(v@, i));
                    }
                }
            }
            break ;
        }
    }
}

impl EventHeap {
    /// The entries are in heap order and no task owns two of them.
    pub closed spec fn wf(&self) -> bool {
        &&& heap_ordered(self.entries@)
        &&& distinct_owners(self.entries@)
    }

    /// A heap without entries.
    pub fn new() -> (heap: EventHeap)
        ensures
            heap.wf(),
            heap@ == Map::<Key, nat>::empty(),
    {
        let heap = EventHeap { entries: Vec::new() };
        proof {
            lemma_pending_is(heap.entries@, Map::<Key, nat>::empty());
        }
        heap
    }

    /// Whether no event is pending.
    pub fn is_empty(&self) -> (r: bool)
        requires
            self.wf(),
        ensures
            r == (self@ == Map::<Key, nat>::empty()),
    {
        proof {
            if self.entries@.len() > 0 {
                lemma_slot(self.entries@, 0);
            } else {
                lemma_pending_is(self.entries@, Map::<Key, nat>::empty());
            }
        }
        self.entries.len() == 0
    }

    /// The position of the entry that `key` owns, if it owns one.
    fn position(&self, key: Key) -> (r: Option<usize>)
        requires
            self.wf(),
        ensures
            match r {
                Some(i) => i < self.entries@.len() && self.entries@[i as int].owner() == key,
                None => !holds(self.entries@, key),
            },
    {
        let mut i: usize = 0;
        while i < self.entries.len()
            invariant
                i <= self.entries@.len(),
                forall|j: int| 0 <= j < i ==> (#[trigger] self.entries@[j]).owner() != key,
            decreases self.entries@.len() - i,
        {
            if self.entries[i].key() == key {
                return Some(i);
            }
            i += 1;
        }
        None
    }

    /// Whether `key` owns a pending event.
    pub fn contains(&self, key: Key) -> (r: bool)
        requires
            self.wf(),
        ensures
            r == self@.contains_key(key),
    {
        self.position(key).is_some()
    }

    /// Adds `entry`, whose owner has no pending event yet.
    pub fn push(&mut self, entry: EventEntry)
        requires
            old(self).wf(),
            !old(self)@.contains_key(entry.owner()),
        ensures
            final(self).wf(),
            final(self)@ == old(self)@.insert(entry.owner(), entry.due()),
    {
        proof {
            lemma_push_adds(self.entries@, entry);
        }
        self.entries.push(entry);
        let last = self.entries.len() - 1;
        proof {
            let s = self.entries@;
            assert forall|i: int| 0 < i < s.len() && i != last implies #[trigger] above_parent(
                s,
                i,
            ) by {
                assert(above_parent(old(self).entries@, i));
            }
        }
        sift_up(&mut self.entries, last);
    }

    /// Takes out the entry at position `i` and restores heap order.
    fn remove_at(&mut self, i: usize) -> (entry: EventEntry)
        requires
            old(self).wf(),
            i < old(self).entries@.len(),
        ensures
            final(self).wf(),
            entry == old(self).entries@[i as int],
            final(self)@ == old(self)@.remove(entry.owner()),
    {
        let ghost s = self.entries@;
        proof {
            lemma_swap_remove_drops(s, i as int);
        }
        let entry = self.entries.swap_remove(i);
        if i < self.entries.len() {
            let ghost t = self.entries@;
            proof {
                assert forall|j: int| 0 < j < t.len() && j != i && parent(j) != i implies #[trigger]
                    above_parent(t, j) by {
                    assert(above_parent(s, j));
                }
                assert forall|c: int| 0 < c < t.len() && parent(c) == i implies s[i as int].due()
                    <= (#[trigger] t[c]).due() by {
                    assert(above_parent(s, c));
                }
                if i > 0 {
                    assert(above_parent(s, i as int));
                }
            }
            if i > 0 && self.entries[i].before(&self.entries[(i - 1) / 2]) {
                proof {
                    assert forall|j: int| 0 < j < t.len() && j != i implies #[trigger] above_parent(
                        t,
                        j,
                    ) by {
                        if parent(j) == i {
                            assert(s[i as int].due() <= t[j].due());
                        }
                    }
                    assert forall|c: int| 0 < c < t.len() && parent(c) == i && i > 0 implies #[trigger]
                        above_grandparent(t, c) by {
                        assert(s[i as int].due() <= t[c].due());
                    }
                }
                sift_up(&mut self.entries, i);
            } else {
                proof {
                    assert forall|j: int| 0 < j < t.len() && parent(j) != i implies #[trigger]
                        above_parent(t, j) by {
                        if j != i {
                            assert(above_parent(t, j));
                        }
                    }
                    assert forall|c: int| 0 < c < t.len() && parent(c) == i && i > 0 implies #[trigger]
                        above_grandparent(t, c) by {
                        assert(s[i as int].due() <= t[c].due());
                    }
                }
                sift_down(&mut self.entries, i);
            }
        } else {
            proof {
                let t = self.entries@;
                assert forall|j: int| 0 < j < t.len() implies #[trigger] above_parent(t, j) by {
                    assert(above_parent(s, j));
                }
            }
        }
        entry
    }

    /// Takes out an event that is due soonest, if any is pending.
    pub fn pop(&mut self) -> (r: Option<EventEntry>)
        requires
            old(self).wf(),
        ensures
            final(self).wf(),
            match r {
                Some(entry) => {
                    &&& old(self)@.contains_key(entry.owner())
                    &&& old(self)@[entry.owner()] == entry.due()
                    &&& forall|k: Key| #[trigger]
                        old(self)@.contains_key(k) ==> entry.due() <= old(self)@[k]
                    &&& final(self)@ == old(self)@.remove(entry.owner())
                },
                None => old(self)@ == Map::<Key, nat>::empty() && final(self)@ == old(self)@,
            },
    {
        if self.entries.len() == 0 {
            proof {
                lemma_pending_is(self.entries@, Map::<Key, nat>::empty());
            }
            return None;
        }
        proof {
            let s = self.entries@;
            lemma_slot(s, 0);
            assert forall|k: Key| #[trigger] self@.contains_key(k) implies s[0].due() <= self@[k] by {
                let j = slot_of(s, k);
                assert(s[j].owner() == k);
                lemma_root_is_least(s, j);
            }
        }
        Some(self.remove_at(0))
    }

    /// Takes out the event that `key` owns. Returns whether it owned one.
    pub fn remove(&mut self, key: Key) -> (r: bool)
        requires
            old(self).wf(),
        ensures
            final(self).wf(),
            r == old(self)@.contains_key(key),
            final(self)@ == old(self)@.remove(key),
    {
        match self.position(key) {
            Some(i) => {
                self.remove_at(i);
                true
            },
            None => {
                assert(self@.remove(key) =~= self@);
                false
            },
        }
    }
}

} // verus!
