//! A min-priority queue that several handles can share.
//!
//! The queues live in a [`HeapArena`]; a [`Heap`] is a handle to one of
//! them. A handle is copied freely, and every copy names the same queue:
//! what is pushed through one copy is popped through any other.
//!
//! Each queue is kept as a binary heap, so that an entry is put in and
//! taken out in a number of steps that grows with the logarithm of the
//! queue's length.

use vstd::multiset::Multiset;
use vstd::prelude::*;
use vstd::string::StringExecFns;
use crate::text::lemma_text_less_irreflexive;
use crate::text::lemma_text_less_total;
use crate::text::lemma_text_less_transitive;
use crate::text::text_less;
use crate::text::text_lt;

verus! {

/// What a queue holds for one push: the priority and the item.
pub type Entry = (i32, Seq<char>);

/// `a` leaves the queue before `b`: it has the lower priority, or the
/// same priority and the item that comes later in the order of strings.
pub open spec fn pops_before(a: Entry, b: Entry) -> bool {
    a.0 < b.0 || (a.0 == b.0 && text_less(b.1, a.1))
}

/// No entry leaves before itself, and of two entries at most one leaves
/// before the other.
pub proof fn lemma_pops_before_asymmetric(a: Entry, b: Entry)
    ensures
        !(pops_before(a, b) && pops_before(b, a)),
{
    if pops_before(a, b) && pops_before(b, a) {
        lemma_text_less_transitive(a.1, b.1, a.1);
        lemma_text_less_irreflexive(a.1);
    }
}

/// The order in which entries leave is transitive.
pub proof fn lemma_pops_before_transitive(a: Entry, b: Entry, c: Entry)
    requires
        pops_before(a, b),
        pops_before(b, c),
    ensures
        pops_before(a, c),
{
    if a.0 == b.0 && b.0 == c.0 {
        lemma_text_less_transitive(c.1, b.1, a.1);
    }
}

/// Of two different entries one leaves before the other.
pub proof fn lemma_pops_before_total(a: Entry, b: Entry)
    ensures
        pops_before(a, b) || pops_before(b, a) || a == b,
{
    lemma_text_less_total(a.1, b.1);
}

/// One entry as a queue stores it.
struct Slot {
    priority: i32,
    item: String,
}

impl View for Slot {
    type V = Entry;

    closed spec fn view(&self) -> Entry {
        (self.priority, self.item@)
    }
}

/// The entries that a stored queue holds, in storage order.
spec fn entries_of(slots: Seq<Slot>) -> Seq<Entry> {
    slots.map_values(|slot: Slot| slot@)
}

/// The position above position `i` in the tree that a stored queue is
/// laid out as: the slot at `0` is the root, and the slots at `2 * i + 1`
/// and `2 * i + 2` stand below the slot at `i`.
spec fn parent(i: int) -> int {
    (i - 1) / 2
}

/// No slot leaves before the slot above it.
spec fn heap_ordered(slots: Seq<Slot>) -> bool {
    forall|i: int| 0 < i < slots.len() ==> !pops_before(#[trigger] slots[i]@, slots[parent(i)]@)
}

/// No slot leaves before the slot above it, unless it is the slot at
/// `at`.
spec fn ordered_but_at(slots: Seq<Slot>, at: int) -> bool {
    forall|i: int|
        0 < i < slots.len() && i != at ==> !pops_before(#[trigger] slots[i]@, slots[parent(i)]@)
}

/// No slot leaves before the slot above it, unless that is the slot at
/// `at`.
spec fn ordered_but_below(slots: Seq<Slot>, at: int) -> bool {
    forall|i: int|
        0 < i < slots.len() && parent(i) != at ==> !pops_before(
            #[trigger] slots[i]@,
            slots[parent(i)]@,
        )
}

/// The slots below the slot at `at` do not leave before the slot above
/// it.
spec fn below_keeps_to_above(slots: Seq<Slot>, at: int) -> bool {
    at > 0 ==> forall|c: int|
        0 < c < slots.len() && parent(c) == at ==> !pops_before(
            #[trigger] slots[c]@,
            slots[parent(at)]@,
        )
}

/// Where `a` leaves no later than `b`, and `b` no later than `c`, `a`
/// leaves no later than `c`.
proof fn lemma_no_later_transitive(a: Entry, b: Entry, c: Entry)
    requires
        !pops_before(b, a),
        !pops_before(c, b),
    ensures
        !pops_before(c, a),
{
    lemma_pops_before_total(a, b);
    lemma_pops_before_total(b, c);
    if pops_before(c, a) {
        if a == b {
        } else if b == c {
        } else {
            lemma_pops_before_transitive(c, a, b);
        }
    }
}

/// In an ordered queue nothing leaves before the root.
proof fn lemma_root_leaves_first(slots: Seq<Slot>, i: int)
    requires
        heap_ordered(slots),
        0 <= i < slots.len(),
    ensures
        !pops_before(slots[i]@, slots[0]@),
    decreases i,
{
    if i > 0 {
        lemma_root_leaves_first(slots, parent(i));
        lemma_no_later_transitive(slots[0]@, slots[parent(i)]@, slots[i]@);
    } else {
        lemma_pops_before_asymmetric(slots[0]@, slots[0]@);
    }
}

/// `slots` with the slots at `i` and `j` exchanged.
spec fn exchanged(slots: Seq<Slot>, i: int, j: int) -> Seq<Slot> {
    slots.update(i, slots[j]).update(j, slots[i])
}

/// Exchanging two slots changes nothing in what a queue holds.
proof fn lemma_exchange_keeps_entries(slots: Seq<Slot>, i: int, j: int)
    requires
        0 <= i < slots.len(),
        0 <= j < slots.len(),
    ensures
        entries_of(exchanged(slots, i, j)).to_multiset() == entries_of(slots).to_multiset(),
{
    let entries = entries_of(slots);
    let first = entries.update(i, entries[j]);
    let both = first.update(j, entries[i]);
    assert(entries_of(exchanged(slots, i, j)) =~= both);
    vstd::seq_lib::to_multiset_update(entries, i, entries[j]);
    vstd::seq_lib::to_multiset_update(first, j, entries[i]);
    entries.to_multiset_ensures();
    assert(entries.contains(entries[i]) && entries.contains(entries[j]));
    assert(both.to_multiset() =~= entries.to_multiset());
}

/// Whether `a` leaves before `b`.
fn slot_before(a: &Slot, b: &Slot) -> (r: bool)
    ensures
        r == pops_before(a@, b@),
{
    a.priority < b.priority || (a.priority == b.priority && text_lt(
        b.item.as_str(),
        a.item.as_str(),
    ))
}

/// Exchanges the slots at `i` and `j`.
fn exchange(queue: &mut Vec<Slot>, i: usize, j: usize)
    requires
        i < old(queue)@.len(),
        j < old(queue)@.len(),
    ensures
        final(queue)@ == exchanged(old(queue)@, i as int, j as int),
{
    if i == j {
        assert(queue@ =~= exchanged(old(queue)@, i as int, j as int));
        return;
    }
    let mut held = Slot { priority: 0, item: String::new() };
    std::mem::swap(&mut queue[i], &mut held);
    std::mem::swap(&mut queue[j], &mut held);
    std::mem::swap(&mut queue[i], &mut held);
    assert(queue@ =~= exchanged(old(queue)@, i as int, j as int));
}

/// Moves the slot at `start` up to where it leaves no earlier than the
/// slot above it.
fn sift_up(queue: &mut Vec<Slot>, start: usize)
    requires
        start < old(queue)@.len(),
        ordered_but_at(old(queue)@, start as int),
        below_keeps_to_above(old(queue)@, start as int),
    ensures
        heap_ordered(final(queue)@),
        entries_of(final(queue)@).to_multiset() == entries_of(old(queue)@).to_multiset(),
{
    let mut at: usize = start;
    while at > 0
        invariant
            at < queue@.len(),
            ordered_but_at(queue@, at as int),
            below_keeps_to_above(queue@, at as int),
            entries_of(queue@).to_multiset() == entries_of(old(queue)@).to_multiset(),
        ensures
            heap_ordered(queue@),
            entries_of(queue@).to_multiset() == entries_of(old(queue)@).to_multiset(),
        decreases at,
    {
        let above: usize = (at - 1) / 2;
        if !slot_before(&queue[at], &queue[above]) {
            break;
        }
        let ghost before = queue@;
        exchange(queue, at, above);
        proof {
            lemma_exchange_keeps_entries(before, at as int, above as int);
            lemma_pops_before_asymmetric(before[at as int]@, before[above as int]@);
            assert forall|i: int| 0 < i < queue@.len() && i != above implies !pops_before(
                #[trigger] queue@[i]@,
                queue@[parent(i)]@,
            ) by {
                if i == at {
                } else if parent(i) == at {
                    assert(!pops_before(before[i]@, before[parent(at as int)]@));
                } else if parent(i) == above {
                    assert(!pops_before(before[i]@, before[above as int]@));
                    if pops_before(before[i]@, before[at as int]@) {
                        lemma_pops_before_transitive(
                            before[i]@,
                            before[at as int]@,
                            before[above as int]@,
                        );
                    }
                } else {
                    assert(!pops_before(before[i]@, before[parent(i)]@));
                }
            }
            if above > 0 {
                assert forall|c: int| 0 < c < queue@.len() && parent(c) == above implies !pops_before(
                    #[trigger] queue@[c]@,
                    queue@[parent(above as int)]@,
                ) by {
                    assert(!pops_before(before[above as int]@, before[parent(above as int)]@));
                    if c != at {
                        assert(!pops_before(before[c]@, before[above as int]@));
                        lemma_no_later_transitive(
                            before[parent(above as int)]@,
                            before[above as int]@,
                            before[c]@,
                        );
                    }
                }
            }
        }
        at = above;
    }
}

/// Moves the root down to where nothing below it leaves before it.
fn sift_down(queue: &mut Vec<Slot>)
    requires
        ordered_but_below(old(queue)@, 0),
    ensures
        heap_ordered(final(queue)@),
        entries_of(final(queue)@).to_multiset() == entries_of(old(queue)@).to_multiset(),
{
    let len: usize = queue.len();
    let mut at: usize = 0;
    loop
        invariant
            len == queue@.len(),
            at < len || len == 0,
            ordered_but_below(queue@, at as int),
            below_keeps_to_above(queue@, at as int),
            entries_of(queue@).to_multiset() == entries_of(old(queue)@).to_multiset(),
        ensures
            heap_ordered(queue@),
            entries_of(queue@).to_multiset() == entries_of(old(queue)@).to_multiset(),
        decreases len - at,
    {
        if len < 2 || at > (len - 2) / 2 {
            // no slot stands below this one
            assert forall|i: int| 0 < i < queue@.len() implies parent(i) != at by {}
            break;
        }
        let left: usize = 2 * at + 1;
        let right: usize = left + 1;
        let least: usize = if right < len && slot_before(&queue[right], &queue[left]) {
            right
        } else {
            left
        };
        let ghost other: int = if least == left { right as int } else { left as int };
        proof {
            if other < len {
                lemma_pops_before_asymmetric(queue@[left as int]@, queue@[right as int]@);
                assert(!pops_before(queue@[other]@, queue@[least as int]@));
            }
            assert forall|i: int| 0 < i < queue@.len() && parent(i) == at implies i == least || i
                == other by {}
        }
        if !slot_before(&queue[least], &queue[at]) {
            proof {
                if other < len {
                    lemma_no_later_transitive(
                        queue@[at as int]@,
                        queue@[least as int]@,
                        queue@[other]@,
                    );
                }
            }
            break;
        }
        let ghost before = queue@;
        exchange(queue, at, least);
        proof {
            lemma_exchange_keeps_entries(before, at as int, least as int);
            lemma_pops_before_asymmetric(before[least as int]@, before[at as int]@);
            assert forall|i: int| 0 < i < queue@.len() && parent(i) != least implies !pops_before(
                #[trigger] queue@[i]@,
                queue@[parent(i)]@,
            ) by {
                if i == least {
                } else if i == other {
                } else if i == at {
                    assert(!pops_before(before[least as int]@, before[parent(at as int)]@));
                } else {
                    assert(parent(i) != at);
                    assert(!pops_before(before[i]@, before[parent(i)]@));
                }
            }
            assert forall|c: int| 0 < c < queue@.len() && parent(c) == least implies !pops_before(
                #[trigger] queue@[c]@,
                queue@[parent(least as int)]@,
            ) by {
                assert(!pops_before(before[c]@, before[least as int]@));
            }
        }
        at = least;
    }
}

/// A handle to a queue in a [`HeapArena`]. Copies of a handle name the
/// same queue.
#[derive(Clone, Copy, Debug, PartialEq, Eq)]
pub struct Heap {
    slot: usize,
}

/// The queues of one execution context.
pub struct HeapArena {
    queues: Vec<Vec<Slot>>,
}

impl HeapArena {
    #[verifier::type_invariant]
    spec fn every_queue_ordered(self) -> bool {
        forall|q: int| 0 <= q < self.queues@.len() ==> heap_ordered(#[trigger] self.queues@[q]@)
    }

    /// Whether `h` names a queue of this arena.
    pub closed spec fn owns(&self, h: Heap) -> bool {
        h.slot < self.queues@.len()
    }

    /// The entries of the queue that `h` names.
    pub closed spec fn contents(&self, h: Heap) -> Multiset<Entry> {
        entries_of(self.queues@[h.slot as int]@).to_multiset()
    }

    /// The number of queues in the arena.
    pub closed spec fn count(&self) -> nat {
        self.queues@.len()
    }

    /// An arena without queues.
    pub fn new() -> (arena: HeapArena)
        ensures
            arena.count() == 0,
            forall|h: Heap| !arena.owns(h),
    {
        HeapArena { queues: Vec::new() }
    }

    /// Whether `h` names a queue of this arena, computed.
    pub fn has(&self, h: Heap) -> (r: bool)
        ensures
            r == self.owns(h),
    {
        h.slot < self.queues.len()
    }
}

/// `later` differs from `earlier` at most in the queue that `h` names:
/// it owns the same handles, and every other queue holds what it held.
pub open spec fn only_changes(earlier: HeapArena, later: HeapArena, h: Heap) -> bool {
    &&& later.count() == earlier.count()
    &&& forall|other: Heap| earlier.owns(other) == later.owns(other)
    &&& forall|other: Heap|
        earlier.owns(other) && other != h ==> #[trigger] later.contents(other) == earlier.contents(
            other,
        )
}

/// `m` holds `first`, and nothing in `m` leaves before it.
pub open spec fn leaves_first(m: Multiset<Entry>, first: Entry) -> bool {
    &&& m.count(first) > 0
    &&& forall|e: Entry| #[trigger] m.count(e) > 0 ==> !pops_before(e, first)
}

/// At most one entry leaves first: the order decides between any two.
pub proof fn lemma_leaves_first_unique(m: Multiset<Entry>, a: Entry, b: Entry)
    requires
        leaves_first(m, a),
        leaves_first(m, b),
    ensures
        a == b,
{
    lemma_pops_before_total(a, b);
}

/// Entries leave in ascending order of priority: what leaves next has no
/// lower priority than what left before it.
pub proof fn lemma_pop_order(m: Multiset<Entry>, first: Entry, second: Entry)
    requires
        leaves_first(m, first),
        leaves_first(m.remove(first), second),
    ensures
        first.0 <= second.0,
        !pops_before(second, first),
{
    assert(m.count(second) > 0);
}

/// A new, empty queue, and the first handle to it.
pub fn heap_new(arena: &mut HeapArena) -> (h: Heap)
    ensures
        !old(arena).owns(h),
        final(arena).owns(h),
        final(arena).contents(h) == Multiset::<Entry>::empty(),
        final(arena).count() == old(arena).count() + 1,
        forall|other: Heap| old(arena).owns(other) ==> final(arena).owns(other),
        forall|other: Heap|
            old(arena).owns(other) ==> #[trigger] final(arena).contents(other) == old(
                arena,
            ).contents(other),
{
    proof {
        use_type_invariant(&*arena);
    }
    let mut queues: Vec<Vec<Slot>> = Vec::new();
    std::mem::swap(&mut arena.queues, &mut queues);
    let slot: usize = queues.len();
    queues.push(Vec::new());
    std::mem::swap(&mut arena.queues, &mut queues);
    let h = Heap { slot };
    assert(arena.queues@[slot as int]@ =~= Seq::<Slot>::empty());
    proof {
        let entries = entries_of(arena.queues@[slot as int]@);
        assert(entries =~= Seq::<Entry>::empty());
        entries.to_multiset_ensures();
        vstd::multiset::lemma_multiset_empty_len(entries.to_multiset());
        assert(entries.to_multiset() =~= Multiset::<Entry>::empty());
    }
    h
}

/// Puts `item` into the queue that `h` names, under `priority`.
pub fn heap_push(arena: &mut HeapArena, h: Heap, priority: i32, item: &str)
    requires
        old(arena).owns(h),
    ensures
        final(arena).contents(h) == old(arena).contents(h).insert((priority, item@)),
        only_changes(*old(arena), *final(arena), h),
{
    proof {
        use_type_invariant(&*arena);
    }
    let mut queues: Vec<Vec<Slot>> = Vec::new();
    std::mem::swap(&mut arena.queues, &mut queues);
    let ghost all_before = queues@;
    let mut queue: Vec<Slot> = Vec::new();
    std::mem::swap(&mut queues[h.slot], &mut queue);
    let ghost before = queue@;
    assert(before == all_before[h.slot as int]@);
    let ghost entry: Entry = (priority, item@);
    let slot = Slot { priority, item: String::from_str(item) };
    queue.push(slot);
    proof {
        assert(slot@ == entry);
        assert(entries_of(queue@) =~= entries_of(before).push(entry));
        vstd::seq_lib::to_multiset_build(entries_of(before), entry);
        assert forall|i: int| 0 < i < queue@.len() && i != before.len() implies !pops_before(
            #[trigger] queue@[i]@,
            queue@[parent(i)]@,
        ) by {
            assert(!pops_before(before[i]@, before[parent(i)]@));
        }
    }
    let last: usize = queue.len() - 1;
    sift_up(&mut queue, last);
    let ghost after = queue@;
    std::mem::swap(&mut queues[h.slot], &mut queue);
    assert(queues@ == all_before.update(h.slot as int, queues@[h.slot as int]));
    assert(queues@[h.slot as int]@ == after);
    std::mem::swap(&mut arena.queues, &mut queues);
}

/// Takes out of the queue that `h` names the entry that leaves first:
/// one with the lowest priority, and among those the one whose item comes
/// last in the order of strings. `None` where the queue is empty.
pub fn heap_pop(arena: &mut HeapArena, h: Heap) -> (r: Option<(i32, String)>)
    requires
        old(arena).owns(h),
    ensures
        r is None <==> old(arena).contents(h).len() == 0,
        match r {
            Some((priority, item)) => {
                &&& leaves_first(old(arena).contents(h), (priority, item@))
                &&& final(arena).contents(h) == old(arena).contents(h).remove((priority, item@))
            },
            None => final(arena).contents(h) == old(arena).contents(h),
        },
        only_changes(*old(arena), *final(arena), h),
{
    proof {
        use_type_invariant(&*arena);
    }
    let mut queues: Vec<Vec<Slot>> = Vec::new();
    std::mem::swap(&mut arena.queues, &mut queues);
    let ghost all_before = queues@;
    let mut queue: Vec<Slot> = Vec::new();
    std::mem::swap(&mut queues[h.slot], &mut queue);
    let ghost before = queue@;
    assert(before == all_before[h.slot as int]@);
    proof {
        entries_of(before).to_multiset_ensures();
    }
    let len: usize = queue.len();
    let r = if len == 0 {
        None
    } else {
        exchange(&mut queue, 0, len - 1);
        let ghost turned = queue@;
        match queue.pop() {
            Some(slot) => {
                proof {
                    let last = before.len() - 1;
                    assert(slot == before[0]);
                    lemma_exchange_keeps_entries(before, 0, last);
                    assert(entries_of(queue@) =~= entries_of(turned).remove(last));
                    vstd::seq_lib::to_multiset_remove(entries_of(turned), last);
                    assert(entries_of(turned)[last] == slot@);
                    assert forall|e: Entry|
                        #[trigger] entries_of(before).to_multiset().count(e) > 0 implies !pops_before(
                        e,
                        slot@,
                    ) by {
                        let i = choose|i: int| 0 <= i < before.len() && entries_of(before)[i] == e;
                        lemma_root_leaves_first(before, i);
                    }
                    assert forall|i: int| 0 < i < queue@.len() && parent(i) != 0 implies !pops_before(
                        #[trigger] queue@[i]@,
                        queue@[parent(i)]@,
                    ) by {
                        assert(!pops_before(before[i]@, before[parent(i)]@));
                    }
                }
                sift_down(&mut queue);
                proof {
                    assert(entries_of(before)[0] == slot@);
                    assert(entries_of(before).contains(slot@));
                }
                Some((slot.priority, slot.item))
            },
            None => None,
        }
    };
    let ghost after = queue@;
    std::mem::swap(&mut queues[h.slot], &mut queue);
    assert(queues@ == all_before.update(h.slot as int, queues@[h.slot as int]));
    assert(queues@[h.slot as int]@ == after);
    std::mem::swap(&mut arena.queues, &mut queues);
    r
}

/// The number of entries in the queue that `h` names.
pub fn heap_len(arena: &HeapArena, h: Heap) -> (n: i32)
    requires
        arena.owns(h),
    ensures
        n == arena.contents(h).len() as i32,
{
    proof {
        entries_of(arena.queues@[h.slot as int]@).to_multiset_ensures();
    }
    #[verifier::truncate]
    (arena.queues[h.slot].len() as i32)
}

/// Whether the queue that `h` names holds nothing.
pub fn heap_is_empty(arena: &HeapArena, h: Heap) -> (r: bool)
    requires
        arena.owns(h),
    ensures
        r == (arena.contents(h).len() == 0),
{
    proof {
        entries_of(arena.queues@[h.slot as int]@).to_multiset_ensures();
    }
    arena.queues[h.slot].len() == 0
}

} // verus!
