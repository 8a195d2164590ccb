use vstd::prelude::*;
use crate::syscall::{sbrk, lemma_sbrk_zero_keeps_break, lemma_u64_as_i64};

verus! {

/// Size of the bookkeeping record that sits just below every allocation's position.
pub const RECORD_SIZE: usize = 32;

/// Bookkeeping of one slot of the heap. The record of the slot at position `p` lives in
/// the `RECORD_SIZE` bytes below `p`; the slot's data starts at `p`.
#[derive(Clone, Copy, Debug)]
pub struct Record {
    /// Number of records below this one.
    pub index: usize,
    /// Position of the slot below (0 for the first slot).
    pub previous: u64,
    /// Whether the slot's data is handed out.
    pub in_use: bool,
    /// Position of the slot above, once one has been laid down.
    pub next: u64,
}

/// A heap that grows and shrinks the program break: a stack of slots, one record each,
/// with the topmost slot starting at the current break. The records are kept here, as
/// plain values, rather than in the memory below each slot; the caller moves the actual
/// break to `brk()` after each operation. A slot that `malloc` lays down starts free and
/// unlinked, as a record on the zero-filled memory that the kernel hands out would.
pub struct Heap {
    brk: u64,
    records: Vec<Record>,
}

/// The position of slot `k`: the break for the topmost slot, otherwise the position that
/// the record above it names as its predecessor.
pub open spec fn position(records: Seq<Record>, brk: u64, k: int) -> u64 {
    if k == records.len() - 1 {
        brk
    } else {
        records[k + 1].previous
    }
}

/// The layout that the heap keeps: records numbered from the bottom, each one lying above
/// the slot below it, and every record but the topmost linked to the slot above.
pub open spec fn heap_wf(records: Seq<Record>, brk: u64) -> bool {
    &&& records.len() >= 1
    &&& brk <= i64::MAX
    &&& records[0].previous == 0
    &&& position(records, brk, 0) >= RECORD_SIZE
    &&& forall|k: int| 0 <= k < records.len() ==> #[trigger] records[k].index == k
    &&& forall|k: int|
        0 < k < records.len() ==> records[k].previous + RECORD_SIZE <= #[trigger] position(
            records,
            brk,
            k,
        )
    &&& forall|k: int|
        0 <= k < records.len() - 1 ==> #[trigger] records[k].next == position(
            records,
            brk,
            k + 1,
        )
}

/// The slot down to which freed slots are given back: walking down from the top, the
/// first slot that is in use or is the bottom slot.
pub open spec fn clean_level(records: Seq<Record>) -> int
    decreases records.len(),
{
    if records.len() <= 1 {
        0
    } else if records.last().in_use {
        records.len() - 1
    } else {
        clean_level(records.drop_last())
    }
}

/// The record of a slot that `malloc` lays down at the new break.
pub open spec fn fresh_record(index: int, previous: u64) -> Record {
    Record { index: index as usize, previous, in_use: false, next: 0 }
}

/// The unique slot whose position is `v`.
pub open spec fn slot_of(records: Seq<Record>, brk: u64, v: u64) -> int {
    choose|k: int| 0 <= k < records.len() && position(records, brk, k) == v
}

/// Some slot of the heap starts at `v`.
pub open spec fn has_slot_at(records: Seq<Record>, brk: u64, v: u64) -> bool {
    exists|k: int| 0 <= k < records.len() && position(records, brk, k) == v
}

/// The records after the slot of `v` is marked free.
pub open spec fn marked_free(records: Seq<Record>, brk: u64, v: u64) -> Seq<Record> {
    let k = slot_of(records, brk, v);
    records.update(k, Record { in_use: false, ..records[k] })
}

/// The records after `malloc(amount)` at break `brk`: the topmost slot handed out and
/// linked to the new break, and a fresh slot laid down there.
pub open spec fn grown_records(records: Seq<Record>, brk: u64, amount: usize) -> Seq<Record> {
    let top = records.len() - 1;
    records.update(
        top,
        Record { in_use: true, next: (brk + amount + RECORD_SIZE) as u64, ..records[top] },
    ).push(fresh_record(top + 1, brk))
}

/// The records left after `free(v)`: the slot of `v` marked free, then the freed slots at
/// the top given back.
pub open spec fn freed_records(records: Seq<Record>, brk: u64, v: u64) -> Seq<Record> {
    let m = marked_free(records, brk, v);
    m.take(clean_level(m) + 1)
}

/// The break after `free(v)`: the position of the slot down to which freed slots are given
/// back.
pub open spec fn freed_brk(records: Seq<Record>, brk: u64, v: u64) -> u64 {
    let m = marked_free(records, brk, v);
    position(m, brk, clean_level(m))
}

proof fn lemma_position_increasing(records: Seq<Record>, brk: u64, j: int, k: int)
    requires
        0 <= j < k < records.len(),
        forall|i: int|
            0 < i < records.len() ==> #[trigger] records[i].previous + RECORD_SIZE <= position(
                records,
                brk,
                i,
            ),
    ensures
        position(records, brk, j) + RECORD_SIZE <= position(records, brk, k),
    decreases k - j,
{
    assert(records[k].previous + RECORD_SIZE <= position(records, brk, k));
    if j < k - 1 {
        lemma_position_increasing(records, brk, j, k - 1);
    }
}

/// Positions of distinct slots differ, so `slot_of` names the one slot at a position.
pub proof fn lemma_slot_unique(records: Seq<Record>, brk: u64, v: u64, k: int)
    requires
        heap_wf(records, brk),
        0 <= k < records.len(),
        position(records, brk, k) == v,
    ensures
        slot_of(records, brk, v) == k,
{
    let c = slot_of(records, brk, v);
    assert(0 <= c < records.len() && position(records, brk, c) == v);
    if c < k {
        lemma_position_increasing(records, brk, c, k);
    } else if k < c {
        lemma_position_increasing(records, brk, k, c);
    }
}

proof fn lemma_clean_level_bounds(records: Seq<Record>)
    requires
        records.len() >= 1,
    ensures
        0 <= clean_level(records) < records.len(),
        clean_level(records) == 0 || records[clean_level(records)].in_use,
        forall|j: int| clean_level(records) < j < records.len() ==> !#[trigger] records[j].in_use,
    decreases records.len(),
{
    if records.len() > 1 && !records.last().in_use {
        let shorter = records.drop_last();
        lemma_clean_level_bounds(shorter);
        assert forall|j: int| clean_level(records) < j < records.len() implies !#[trigger] records[j].in_use by {
            if j < records.len() - 1 {
                assert(records[j] == shorter[j]);
            }
        }
    }
}

proof fn lemma_take_keeps_wf(records: Seq<Record>, brk: u64, level: int)
    requires
        heap_wf(records, brk),
        0 <= level < records.len(),
    ensures
        heap_wf(records.take(level + 1), position(records, brk, level)),
        forall|j: int| 0 <= j <= level ==> position(records.take(level + 1), position(records, brk, level), j)
            == position(records, brk, j),
{
    let kept = records.take(level + 1);
    let top = position(records, brk, level);
    assert forall|j: int| 0 <= j <= level implies position(kept, top, j) == position(records, brk, j) by {}
    if level > 0 {
        lemma_position_increasing(records, brk, 0, level);
    }
    if level < records.len() - 1 {
        lemma_position_increasing(records, brk, level, records.len() - 1);
    }
    assert(kept[0] == records[0]);
    assert forall|k: int| 0 < k < kept.len() implies #[trigger] kept[k].previous + RECORD_SIZE
        <= position(kept, top, k) by {
        assert(records[k].previous + RECORD_SIZE <= position(records, brk, k));
    }
    assert forall|k: int| 0 <= k < kept.len() - 1 implies #[trigger] kept[k].next == position(
        kept,
        top,
        k + 1,
    ) by {
        assert(records[k].next == position(records, brk, k + 1));
    }
    assert forall|k: int| 0 <= k < kept.len() implies #[trigger] kept[k].index == k by {
        assert(records[k].index == k);
    }
}

impl Heap {
    /// Well-formedness of the heap.
    pub open spec fn wf(&self) -> bool {
        heap_wf(self.spec_records(), self.spec_brk())
    }

    /// The records of the slots, from the bottom up.
    pub closed spec fn spec_records(&self) -> Seq<Record> {
        self.records@
    }

    /// The current program break.
    pub closed spec fn spec_brk(&self) -> u64 {
        self.brk
    }

    /// Lays down the first record, growing the break by `RECORD_SIZE` from
    /// `initial_break`.
    pub fn setup(initial_break: u64) -> (heap: Heap)
        requires
            initial_break + RECORD_SIZE <= i64::MAX,
        ensures
            heap.wf(),
            heap.spec_brk() == initial_break + RECORD_SIZE,
            heap.spec_records() == seq![fresh_record(0, 0)],
    {
        let current_position = sbrk(initial_break, 32);
        let first = Record { index: 0, previous: 0, in_use: false, next: 0 };
        let mut records: Vec<Record> = Vec::new();
        records.push(first);
        let heap = Heap { brk: current_position, records };
        assert(heap.records@[0].index == 0);
        heap
    }

    /// The current program break.
    pub fn brk(&self) -> (b: u64)
        ensures
            b == self.spec_brk(),
    {
        self.brk
    }

    /// The number of slots, the topmost included.
    pub fn slot_count(&self) -> (n: usize)
        ensures
            n == self.spec_records().len(),
    {
        self.records.len()
    }

    /// The record of slot `k`.
    pub fn record(&self, k: usize) -> (r: Record)
        requires
            k < self.spec_records().len(),
        ensures
            r == self.spec_records()[k as int],
    {
        self.records[k]
    }

    /// Whether some slot of the heap starts at `v`, walking down from the topmost slot.
    pub fn contains_position(&self, v: u64) -> (found: bool)
        requires
            self.wf(),
        ensures
            found == has_slot_at(self.spec_records(), self.spec_brk(), v),
    {
        let ghost o = self.records@;
        let ghost b = self.brk;
        let mut current_position = self.brk;
        let mut k = self.records.len() - 1;
        loop
            invariant
                o == self.records@,
                b == self.brk,
                heap_wf(o, b),
                k < o.len(),
                current_position == position(o, b, k as int),
                forall|j: int| k < j < o.len() ==> position(o, b, j) != v,
            decreases k,
        {
            if current_position == v {
                return true;
            }
            let record = self.records[k];
            proof {
                assert(o[k as int].index == k);
            }
            if record.index == 0 {
                proof {
                    lemma_no_slot_at(o, b, v);
                }
                return false;
            }
            current_position = record.previous;
            k = k - 1;
        }
    }

    /// Hands out `amount` bytes at the current break: the topmost slot becomes in use,
    /// the break grows by `amount` plus room for the record of a new topmost slot, and the
    /// old break is returned.
    pub fn malloc(&mut self, amount: usize) -> (data: u64)
        requires
            old(self).wf(),
            amount + RECORD_SIZE <= usize::MAX,
            old(self).spec_brk() + amount + RECORD_SIZE <= i64::MAX,
        ensures
            final(self).wf(),
            data == old(self).spec_brk(),
            final(self).spec_brk() == old(self).spec_brk() + amount + RECORD_SIZE,
            final(self).spec_records() == grown_records(old(self).spec_records(), old(self).spec_brk(), amount),
    {
        proof {
            lemma_sbrk_zero_keeps_break(self.brk);
        }
        let current_position = sbrk(self.brk, 0);
        let top = self.records.len() - 1;
        let current_record = self.records[top];
        let next_position = sbrk(self.brk, (amount + RECORD_SIZE) as i64);
        let next_record = Record {
            index: current_record.index + 1,
            previous: current_position,
            in_use: false,
            next: 0,
        };
        self.records[top] = Record { in_use: true, next: next_position, ..current_record };
        self.records.push(next_record);
        self.brk = next_position;
        proof {
            let r = self.records@;
            let o = old(self).records@;
            assert(r[top as int + 1].index == top + 1);
            assert forall|k: int| 0 <= k < r.len() implies #[trigger] r[k].index == k by {
                if k < top {
                    assert(o[k].index == k);
                }
            }
            assert forall|k: int| 0 < k < r.len() implies #[trigger] r[k].previous + RECORD_SIZE
                <= position(r, self.brk, k) by {
                if k < top {
                    assert(o[k].previous + RECORD_SIZE <= position(o, old(self).brk, k));
                    assert(position(r, self.brk, k) == position(o, old(self).brk, k));
                } else if k == top {
                    assert(o[k].previous + RECORD_SIZE <= position(o, old(self).brk, k));
                }
            }
            assert forall|k: int| 0 <= k < r.len() - 1 implies #[trigger] r[k].next == position(
                r,
                self.brk,
                k + 1,
            ) by {
                if k < top {
                    assert(o[k].next == position(o, old(self).brk, k + 1));
                }
            }
            if top > 0 {
                assert(position(r, self.brk, 0) == position(o, old(self).brk, 0));
            }
        }
        current_position
    }

    /// Gives back to the system the freed slots at the top: while the topmost slot is not
    /// in use and is not the bottom slot, the break moves down to the slot below.
    pub fn clean_freed_records(&mut self)
        requires
            old(self).wf(),
        ensures
            final(self).wf(),
            ({
                let o = old(self).spec_records();
                let level = clean_level(o);
                &&& final(self).spec_records() == o.take(level + 1)
                &&& final(self).spec_brk() == position(o, old(self).spec_brk(), level)
            }),
    {
        let ghost o = self.records@;
        let ghost ob = self.brk;
        proof {
            lemma_clean_level_bounds(o);
            assert(o.take(o.len() as int) =~= o);
        }
        loop
            invariant
                heap_wf(o, ob),
                0 <= clean_level(o) < self.records@.len() <= o.len(),
                self.records@ == o.take(self.records@.len() as int),
                self.brk == position(o, ob, self.records@.len() - 1),
            ensures
                clean_level(o) == self.records@.len() - 1,
            decreases self.records@.len(),
        {
            let top = self.records.len() - 1;
            let current_record = self.records[top];
            proof {
                assert(current_record == o[top as int]);
                assert(o[top as int].index == top);
                lemma_clean_level_take(o, top + 1);
            }
            if current_record.in_use == false && current_record.index != 0 {
                proof {
                    assert(o[top as int].previous + RECORD_SIZE <= position(o, ob, top as int));
                    lemma_position_bounded(o, ob, top as int);
                    lemma_u64_as_i64(current_record.previous);
                    lemma_u64_as_i64(self.brk);
                    lemma_clean_level_bounds(o.take(top as int));
                    assert(o.take(top + 1).drop_last() =~= o.take(top as int));
                }
                let delta = current_record.previous as i64 - self.brk as i64;
                self.brk = sbrk(self.brk, delta);
                self.records.pop();
                proof {
                    assert(self.records@ =~= o.take(top as int));
                }
            } else {
                break;
            }
        }
        proof {
            lemma_take_keeps_wf(o, ob, clean_level(o));
        }
    }
}

impl Heap {
    /// Marks the slot that starts at `v` as free, then gives back the freed slots at the
    /// top. The walk goes down from the topmost slot by the `previous` links.
    pub fn free(&mut self, v: u64)
        requires
            old(self).wf(),
            has_slot_at(old(self).spec_records(), old(self).spec_brk(), v),
        ensures
            final(self).wf(),
            final(self).spec_records() == freed_records(old(self).spec_records(), old(self).spec_brk(), v),
            final(self).spec_brk() == freed_brk(old(self).spec_records(), old(self).spec_brk(), v),
    {
        let ghost o = self.records@;
        let ghost ob = self.brk;
        proof {
            lemma_sbrk_zero_keeps_break(self.brk);
        }
        let mut current_position = sbrk(self.brk, 0);
        let mut k = self.records.len() - 1;
        while current_position != v
            invariant
                self.records@ == o,
                self.brk == ob,
                heap_wf(o, ob),
                k < o.len(),
                current_position == position(o, ob, k as int),
                exists|j: int| 0 <= j <= k && position(o, ob, j) == v,
            decreases k,
        {
            let current_record = self.records[k];
            proof {
                if k == 0 {
                    assert(false);
                }
            }
            current_position = current_record.previous;
            k = k - 1;
            proof {
                let w = choose|j: int| 0 <= j <= k + 1 && position(o, ob, j) == v;
                assert(w != k + 1);
            }
        }
        proof {
            lemma_slot_unique(o, ob, v, k as int);
        }
        let current_record = self.records[k];
        self.records[k] = Record { in_use: false, ..current_record };
        proof {
            assert(self.records@ == marked_free(o, ob, v));
            lemma_marked_free_wf(o, ob, v);
        }
        self.clean_freed_records();
    }
}

proof fn lemma_position_bounded(records: Seq<Record>, brk: u64, k: int)
    requires
        heap_wf(records, brk),
        0 <= k < records.len(),
    ensures
        position(records, brk, k) <= brk,
{
    if k < records.len() - 1 {
        lemma_position_increasing(records, brk, k, records.len() - 1);
    }
}

proof fn lemma_clean_level_take(records: Seq<Record>, n: int)
    requires
        1 <= n <= records.len(),
        clean_level(records) < n,
    ensures
        clean_level(records.take(n)) == clean_level(records),
    decreases records.len() - n,
{
    if n == records.len() {
        assert(records.take(n) =~= records);
    } else {
        lemma_clean_level_bounds(records);
        assert(!records.last().in_use);
        let shorter = records.drop_last();
        assert(shorter.take(n) =~= records.take(n));
        lemma_clean_level_take(shorter, n);
    }
}

proof fn lemma_marked_free_wf(records: Seq<Record>, brk: u64, v: u64)
    requires
        heap_wf(records, brk),
        has_slot_at(records, brk, v),
    ensures
        heap_wf(marked_free(records, brk, v), brk),
        marked_free(records, brk, v).len() == records.len(),
        forall|i: int|
            0 <= i < records.len() ==> position(marked_free(records, brk, v), brk, i) == position(
                records,
                brk,
                i,
            ),
{
    let m = marked_free(records, brk, v);
    let k = slot_of(records, brk, v);
    assert(0 <= k < records.len());
    assert forall|i: int| 0 <= i < m.len() implies position(m, brk, i) == position(records, brk, i) by {}
    assert forall|i: int| 0 <= i < m.len() implies #[trigger] m[i].index == i by {
        assert(records[i].index == i);
    }
    assert forall|i: int| 0 < i < m.len() implies #[trigger] m[i].previous + RECORD_SIZE <= position(
        m,
        brk,
        i,
    ) by {
        assert(records[i].previous + RECORD_SIZE <= position(records, brk, i));
    }
    assert forall|i: int| 0 <= i < m.len() - 1 implies #[trigger] m[i].next == position(
        m,
        brk,
        i + 1,
    ) by {
        assert(records[i].next == position(records, brk, i + 1));
    }
}

/// Freeing one allocation never takes the bookkeeping of another one that is still in use:
/// its record stays on the heap, unchanged, at the same position.
pub proof fn lemma_free_keeps_live_slots(records: Seq<Record>, brk: u64, v: u64, j: int)
    requires
        heap_wf(records, brk),
        has_slot_at(records, brk, v),
        0 <= j < records.len(),
        j != slot_of(records, brk, v),
        records[j].in_use,
    ensures
        j < freed_records(records, brk, v).len(),
        freed_records(records, brk, v)[j] == records[j],
        position(freed_records(records, brk, v), freed_brk(records, brk, v), j) == position(
            records,
            brk,
            j,
        ),
{
    let m = marked_free(records, brk, v);
    lemma_marked_free_wf(records, brk, v);
    lemma_clean_level_bounds(m);
    assert(m[j] == records[j]);
    let level = clean_level(m);
    assert(j <= level);
    lemma_take_keeps_wf(m, brk, level);
}

/// Freeing the last allocation that is in use gives everything back: only the bottom slot
/// is left, and the break is back at its position.
pub proof fn lemma_free_last_live_resets(records: Seq<Record>, brk: u64, v: u64)
    requires
        heap_wf(records, brk),
        has_slot_at(records, brk, v),
        forall|j: int|
            0 <= j < records.len() && j != slot_of(records, brk, v) ==> !#[trigger] records[j].in_use,
    ensures
        freed_records(records, brk, v).len() == 1,
        freed_brk(records, brk, v) == position(records, brk, 0),
{
    let m = marked_free(records, brk, v);
    lemma_marked_free_wf(records, brk, v);
    lemma_clean_level_bounds(m);
    let level = clean_level(m);
    if level != 0 {
        assert(m[level].in_use);
        assert(!records[level].in_use);
    }
}

/// The bottom slot never moves: `malloc` and `free` keep its position, which is the break
/// that `setup` left.
pub proof fn lemma_bottom_slot_stays(records: Seq<Record>, brk: u64, amount: usize, v: u64)
    requires
        heap_wf(records, brk),
        brk + amount + RECORD_SIZE <= i64::MAX,
    ensures
        position(grown_records(records, brk, amount), (brk + amount + RECORD_SIZE) as u64, 0)
            == position(records, brk, 0),
        has_slot_at(records, brk, v) ==> position(
            freed_records(records, brk, v),
            freed_brk(records, brk, v),
            0,
        ) == position(records, brk, 0),
{
    if has_slot_at(records, brk, v) {
        let m = marked_free(records, brk, v);
        lemma_marked_free_wf(records, brk, v);
        lemma_clean_level_bounds(m);
        lemma_take_keeps_wf(m, brk, clean_level(m));
    }
}

proof fn lemma_no_slot_at(records: Seq<Record>, brk: u64, v: u64)
    requires
        forall|j: int| 0 <= j < records.len() ==> position(records, brk, j) != v,
    ensures
        !has_slot_at(records, brk, v),
{
}

/// The positions of the slots that are in use.
pub open spec fn live_positions(records: Seq<Record>, brk: u64) -> Set<u64> {
    Set::new(
        |p: u64|
            exists|k: int|
                0 <= k < records.len() && #[trigger] records[k].in_use && position(records, brk, k)
                    == p,
    )
}

/// The heap after freeing the positions `vs`, one after the other.
pub open spec fn free_each(records: Seq<Record>, brk: u64, vs: Seq<u64>) -> (Seq<Record>, u64)
    decreases vs.len(),
{
    if vs.len() == 0 {
        (records, brk)
    } else {
        free_each(
            freed_records(records, brk, vs[0]),
            freed_brk(records, brk, vs[0]),
            vs.drop_first(),
        )
    }
}

proof fn lemma_free_step(records: Seq<Record>, brk: u64, v: u64)
    requires
        heap_wf(records, brk),
        has_slot_at(records, brk, v),
    ensures
        heap_wf(freed_records(records, brk, v), freed_brk(records, brk, v)),
        position(freed_records(records, brk, v), freed_brk(records, brk, v), 0) == position(
            records,
            brk,
            0,
        ),
        live_positions(freed_records(records, brk, v), freed_brk(records, brk, v))
            == live_positions(records, brk).remove(v),
{
    let m = marked_free(records, brk, v);
    let k = slot_of(records, brk, v);
    lemma_marked_free_wf(records, brk, v);
    lemma_clean_level_bounds(m);
    let level = clean_level(m);
    lemma_take_keeps_wf(m, brk, level);
    let f = freed_records(records, brk, v);
    let fb = freed_brk(records, brk, v);
    let before = live_positions(records, brk);
    let after = live_positions(f, fb);
    assert forall|p: u64| after.contains(p) implies before.remove(v).contains(p) by {
        let j = choose|j: int| 0 <= j < f.len() && #[trigger] f[j].in_use && position(f, fb, j) == p;
        assert(f[j] == m[j]);
        assert(j != k);
        assert(records[j].in_use);
        assert(position(records, brk, j) == p);
        if p == v {
            lemma_slot_unique(records, brk, v, j);
        }
    }
    assert forall|p: u64| before.remove(v).contains(p) implies after.contains(p) by {
        let j = choose|j: int|
            0 <= j < records.len() && #[trigger] records[j].in_use && position(records, brk, j) == p;
        if j == k {
            assert(position(records, brk, k) == v);
        }
        lemma_free_keeps_live_slots(records, brk, v, j);
        assert(f[j].in_use);
    }
    assert(after =~= before.remove(v));
}

/// Freeing every allocation that is in use, in any order, gives everything back: only the
/// bottom slot is left, and the break is back at its position, where `setup` left it.
pub proof fn lemma_free_all_resets(records: Seq<Record>, brk: u64, vs: Seq<u64>)
    requires
        heap_wf(records, brk),
        vs.len() > 0,
        vs.no_duplicates(),
        vs.to_set() == live_positions(records, brk),
    ensures
        free_each(records, brk, vs).0.len() == 1,
        free_each(records, brk, vs).1 == position(records, brk, 0),
    decreases vs.len(),
{
    let v = vs[0];
    assert(vs.to_set().contains(v));
    assert(live_positions(records, brk).contains(v));
    let kv = choose|kv: int|
        0 <= kv < records.len() && #[trigger] records[kv].in_use && position(records, brk, kv) == v;
    assert(has_slot_at(records, brk, v));
    lemma_free_step(records, brk, v);
    let f = freed_records(records, brk, v);
    let fb = freed_brk(records, brk, v);
    if vs.len() == 1 {
        lemma_slot_unique(records, brk, v, kv);
        assert forall|j: int|
            0 <= j < records.len() && j != slot_of(records, brk, v) implies !#[trigger] records[j].in_use by {
            if records[j].in_use {
                let p = position(records, brk, j);
                assert(live_positions(records, brk).contains(p));
                assert(vs.to_set().contains(p));
                assert(p == v);
                lemma_slot_unique(records, brk, v, j);
            }
        }
        lemma_free_last_live_resets(records, brk, v);
        assert(free_each(f, fb, vs.drop_first()) == (f, fb));
    } else {
        let rest = vs.drop_first();
        assert(rest.to_set() =~= vs.to_set().remove(v)) by {
            assert forall|p: u64| rest.to_set().contains(p) implies vs.to_set().remove(v).contains(p) by {
                let i = choose|i: int| 0 <= i < rest.len() && rest[i] == p;
                assert(vs[i + 1] == p);
            }
            assert forall|p: u64| vs.to_set().remove(v).contains(p) implies rest.to_set().contains(p) by {
                let i = choose|i: int| 0 <= i < vs.len() && vs[i] == p;
                assert(i != 0);
                assert(rest[i - 1] == p);
            }
        }
        lemma_free_all_resets(f, fb, rest);
    }
}

/// The slot down to which freed slots are given back is the highest slot in use, or the
/// bottom slot when none is: every slot above it is free.
pub proof fn lemma_clean_level_is_highest_in_use(records: Seq<Record>)
    requires
        records.len() >= 1,
    ensures
        0 <= clean_level(records) < records.len(),
        clean_level(records) == 0 || records[clean_level(records)].in_use,
        forall|j: int| clean_level(records) < j < records.len() ==> !#[trigger] records[j].in_use,
{
    lemma_clean_level_bounds(records);
}

/// `malloc` hands out the topmost slot: it is now in use, starts at the old break and is
/// linked to the new one; a fresh free slot starts at the new break; the slots below are
/// untouched.
pub proof fn lemma_malloc_hands_out_top(records: Seq<Record>, brk: u64, amount: usize)
    requires
        heap_wf(records, brk),
        brk + amount + RECORD_SIZE <= i64::MAX,
    ensures
        ({
            let grown = grown_records(records, brk, amount);
            let new_brk = (brk + amount + RECORD_SIZE) as u64;
            let top = records.len() - 1;
            &&& grown.len() == records.len() + 1
            &&& grown[top].in_use
            &&& grown[top].index == records[top].index
            &&& grown[top].previous == records[top].previous
            &&& position(grown, new_brk, top) == brk
            &&& grown[top].next == new_brk
            &&& !grown[top + 1].in_use
            &&& position(grown, new_brk, top + 1) == new_brk
            &&& forall|j: int| 0 <= j < top ==> grown[j] == records[j]
        }),
{
}

} // verus!
