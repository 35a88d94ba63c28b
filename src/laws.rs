//! Properties that hold across the engine's operations.

use vstd::prelude::*;

use crate::program::{
    moved_on_delete, moved_on_insert, slots_of, Category, Entry, ProgramView, Slot,
};

verus! {

impl<T> ProgramView<T> {
    /// Every reference resolves to a record or is negative: demo indices and
    /// AI child slots below the number of records, BehaviorIdx slots of AI and
    /// Action records below it once counted from the Behavior offset.
    pub open spec fn references_resolve(self) -> bool {
        &&& forall|j: int|
            0 <= j < self.demos.len() ==> (#[trigger] self.demos[j]).value < 0 || self.demos[j].value
                < self.total()
        &&& forall|i: int, j: int|
            0 <= i < self.actions_offset() && 0 <= j < slots_of(self.items[i].child_idx).len() ==> (
            #[trigger] slots_of(self.items[i].child_idx)[j]).value < 0 || slots_of(
                self.items[i].child_idx,
            )[j].value < self.total()
        &&& forall|i: int, j: int|
            0 <= i < self.behaviors_offset() && 0 <= j < slots_of(self.items[i].behavior_idx).len()
                ==> (#[trigger] slots_of(self.items[i].behavior_idx)[j]).value < 0
                || self.behaviors_offset() + slots_of(self.items[i].behavior_idx)[j].value < self.total()
    }
}

/// The segment offsets never decrease: `0 <= actions <= behaviors <= queries <= total`.
pub proof fn lemma_offsets_ordered<T>(p: ProgramView<T>)
    requires
        p.wf(),
    ensures
        0 <= p.actions_offset() <= p.behaviors_offset() <= p.queries_offset() <= p.total(),
{
}

/// A value that resolves keeps resolving after an insertion, and a removal
/// at the same place gives it back.
proof fn lemma_value_round_trip(v: i32, b: int, b2: int, at: int, n: int)
    requires
        0 <= b <= n,
        n <= i32::MAX,
        at <= n,
        b2 == b || (b2 == b + 1 && at <= b),
        v < 0 || b + v < n,
    ensures
        moved_on_insert(v, b, b2, at, n) < 0 || b2 + moved_on_insert(v, b, b2, at, n) < n + 1,
        moved_on_delete(moved_on_insert(v, b, b2, at, n), b2, b, at, n + 1) == v,
{
}

/// Inserting a record into a segment and then deleting that same record gives
/// every other record back its global index and every reference its value.
/// The slot names of that segment are renumbered, so only keys may differ, and
/// only inside the segment.
pub proof fn lemma_insert_delete_round_trip<T>(
    p: ProgramView<T>,
    c: Category,
    e: Entry<T>,
    mid: ProgramView<T>,
    fin: ProgramView<T>,
)
    requires
        p.wf(),
        p.total() <= i32::MAX,
        p.references_resolve(),
        p.after_insert(c, e, mid),
        mid.after_delete(p.insertion_point(c) as int, fin),
    ensures
        fin.total() == p.total(),
        fin.n_ais == p.n_ais,
        fin.n_actions == p.n_actions,
        fin.n_behaviors == p.n_behaviors,
        fin.demos == p.demos,
        forall|i: int|
            0 <= i < p.total() ==> {
                let a = p.items[i];
                let z = #[trigger] fin.items[i];
                &&& z.def == a.def
                &&& z.rest == a.rest
                &&& z.child_idx.is_some() == a.child_idx.is_some()
                &&& slots_of(z.child_idx) == slots_of(a.child_idx)
                &&& z.behavior_idx.is_some() == a.behavior_idx.is_some()
                &&& slots_of(z.behavior_idx) == slots_of(a.behavior_idx)
                &&& (i < p.segment_start(c) || i >= p.segment_end(c)) ==> z.key == a.key
            },
{
    let at = p.insertion_point(c) as int;
    let n = p.total() as int;
    let ins = p.insert_shift(c);
    let del = mid.delete_shift(at);
    assert(mid.category_of(at) == c);
    let b = p.behaviors_offset() as int;
    let b2 = ins.behaviors_after;
    assert(del.behaviors_before == b2);
    assert(del.behaviors_after == b);
    assert forall|j: int| 0 <= j < p.demos.len() implies #[trigger] fin.demos[j] == p.demos[j] by {
        lemma_value_round_trip(p.demos[j].value, 0, 0, at, n);
        assert(ins.value(p.demos[j].value, false) == mid.demos[j].value);
    }
    assert(fin.demos =~= p.demos);
    assert forall|i: int| 0 <= i < p.total() implies {
        let a = p.items[i];
        let z = #[trigger] fin.items[i];
        &&& z.def == a.def
        &&& z.rest == a.rest
        &&& z.child_idx.is_some() == a.child_idx.is_some()
        &&& slots_of(z.child_idx) == slots_of(a.child_idx)
        &&& z.behavior_idx.is_some() == a.behavior_idx.is_some()
        &&& slots_of(z.behavior_idx) == slots_of(a.behavior_idx)
        &&& (i < p.segment_start(c) || i >= p.segment_end(c)) ==> z.key == a.key
    } by {
        let a = p.items[i];
        let mi = if i < at { i } else { i + 1 };
        let m = mid.items[mi];
        let z = fin.items[i];
        let is_ai = i < p.actions_offset();
        let is_actor = i < p.behaviors_offset();
        assert(is_ai == (mi < mid.actions_offset()));
        assert(is_actor == (mi < mid.behaviors_offset()));
        assert(ins.entry(a, m, is_ai, is_actor));
        assert(del.entry(m, z, is_ai, is_actor));
        if is_ai {
            let sa = slots_of(a.child_idx);
            assert forall|j: int| 0 <= j < sa.len() implies #[trigger] slots_of(z.child_idx)[j] == sa[j] by {
                assert((#[trigger] sa[j]).value < 0 || sa[j].value < n);
                lemma_value_round_trip(sa[j].value, 0, 0, at, n);
                assert(slots_of(m.child_idx)[j].value == ins.value(sa[j].value, false));
            }
            assert(slots_of(z.child_idx) =~= sa);
        }
        if is_actor {
            let sa = slots_of(a.behavior_idx);
            assert forall|j: int| 0 <= j < sa.len() implies #[trigger] slots_of(z.behavior_idx)[j] == sa[j] by {
                assert((#[trigger] sa[j]).value < 0 || b + sa[j].value < n);
                lemma_value_round_trip(sa[j].value, b, b2, at, n);
                assert(slots_of(m.behavior_idx)[j].value == ins.value(sa[j].value, true));
            }
            assert(slots_of(z.behavior_idx) =~= sa);
        }
    }
}

/// A resolving value still resolves after an insertion or a removal.
proof fn lemma_value_stays_resolved(v: i32, b: int, b2: int, at: int, n: int, inserting: bool)
    requires
        0 <= b <= n,
        inserting ==> n <= i32::MAX,
        inserting ==> at <= n && (b2 == b || (b2 == b + 1 && at <= b)),
        !inserting ==> 0 <= at < n && ((b2 == b && at >= b) || (b2 + 1 == b && at < b)),
        v < 0 || b + v < n,
    ensures
        inserting ==> moved_on_insert(v, b, b2, at, n) < 0 || b2 + moved_on_insert(v, b, b2, at, n) < n + 1,
        !inserting ==> moved_on_delete(v, b, b2, at, n) < 0 || b2 + moved_on_delete(v, b, b2, at, n) < n - 1,
{
}

/// After an insertion of a record whose own references are cleared, every
/// reference still resolves: no non-negative value reaches past the last record.
pub proof fn lemma_insert_keeps_references_resolved<T>(
    p: ProgramView<T>,
    c: Category,
    e: Entry<T>,
    new: ProgramView<T>,
)
    requires
        p.wf(),
        p.total() <= i32::MAX,
        p.references_resolve(),
        forall|j: int| 0 <= j < slots_of(e.child_idx).len() ==> (#[trigger] slots_of(e.child_idx)[j]).value < 0,
        forall|j: int|
            0 <= j < slots_of(e.behavior_idx).len() ==> (#[trigger] slots_of(e.behavior_idx)[j]).value < 0,
        p.after_insert(c, e, new),
    ensures
        new.references_resolve(),
{
    let at = p.insertion_point(c) as int;
    let n = p.total() as int;
    let ins = p.insert_shift(c);
    let b = p.behaviors_offset() as int;
    let b2 = ins.behaviors_after;
    assert forall|j: int| 0 <= j < new.demos.len() implies (#[trigger] new.demos[j]).value < 0
        || new.demos[j].value < new.total() by {
        lemma_value_stays_resolved(p.demos[j].value, 0, 0, at, n, true);
    }
    assert forall|i: int, j: int|
        0 <= i < new.actions_offset() && 0 <= j < slots_of(new.items[i].child_idx).len() implies (
        #[trigger] slots_of(new.items[i].child_idx)[j]).value < 0 || slots_of(new.items[i].child_idx)[j].value
        < new.total() by {
        if i != at {
            let oi = if i < at { i } else { i - 1 };
            assert(oi < p.actions_offset());
            let sa = slots_of(p.items[oi].child_idx);
            assert(ins.entry(p.items[oi], new.items[i], true, oi < p.behaviors_offset()));
            assert((#[trigger] sa[j]).value < 0 || sa[j].value < n);
            lemma_value_stays_resolved(sa[j].value, 0, 0, at, n, true);
        }
    }
    assert forall|i: int, j: int|
        0 <= i < new.behaviors_offset() && 0 <= j < slots_of(new.items[i].behavior_idx).len() implies (
        #[trigger] slots_of(new.items[i].behavior_idx)[j]).value < 0 || new.behaviors_offset() + slots_of(
            new.items[i].behavior_idx,
        )[j].value < new.total() by {
        if i != at {
            let oi = if i < at { i } else { i - 1 };
            assert(oi < p.behaviors_offset());
            let sa = slots_of(p.items[oi].behavior_idx);
            assert(ins.entry(p.items[oi], new.items[i], oi < p.actions_offset(), true));
            assert((#[trigger] sa[j]).value < 0 || b + sa[j].value < n);
            lemma_value_stays_resolved(sa[j].value, b, b2, at, n, true);
        }
    }
}

/// After a deletion every reference still resolves: references to the
/// removed record are cleared and no non-negative value reaches past the end.
pub proof fn lemma_delete_keeps_references_resolved<T>(p: ProgramView<T>, d: int, new: ProgramView<T>)
    requires
        p.wf(),
        0 <= d < p.total(),
        p.references_resolve(),
        p.after_delete(d, new),
    ensures
        new.references_resolve(),
{
    let n = p.total() as int;
    let del = p.delete_shift(d);
    let b = p.behaviors_offset() as int;
    let b2 = del.behaviors_after;
    assert forall|j: int| 0 <= j < new.demos.len() implies (#[trigger] new.demos[j]).value < 0
        || new.demos[j].value < new.total() by {
        lemma_value_stays_resolved(p.demos[j].value, 0, 0, d, n, false);
    }
    assert forall|i: int, j: int|
        0 <= i < new.actions_offset() && 0 <= j < slots_of(new.items[i].child_idx).len() implies (
        #[trigger] slots_of(new.items[i].child_idx)[j]).value < 0 || slots_of(new.items[i].child_idx)[j].value
        < new.total() by {
        let oi = if i < d { i } else { i + 1 };
        assert(oi < p.actions_offset());
        let sa = slots_of(p.items[oi].child_idx);
        assert(del.entry(p.items[oi], new.items[i], true, oi < p.behaviors_offset()));
        assert((#[trigger] sa[j]).value < 0 || sa[j].value < n);
        lemma_value_stays_resolved(sa[j].value, 0, 0, d, n, false);
    }
    assert forall|i: int, j: int|
        0 <= i < new.behaviors_offset() && 0 <= j < slots_of(new.items[i].behavior_idx).len() implies (
        #[trigger] slots_of(new.items[i].behavior_idx)[j]).value < 0 || new.behaviors_offset() + slots_of(
            new.items[i].behavior_idx,
        )[j].value < new.total() by {
        let oi = if i < d { i } else { i + 1 };
        assert(oi < p.behaviors_offset());
        let sa = slots_of(p.items[oi].behavior_idx);
        assert(del.entry(p.items[oi], new.items[i], oi < p.actions_offset(), true));
        assert((#[trigger] sa[j]).value < 0 || b + sa[j].value < n);
        lemma_value_stays_resolved(sa[j].value, b, b2, d, n, false);
    }
}

/// The roots are exactly the AI records that no AI record names as a child.
pub proof fn lemma_roots_exact<T>(p: ProgramView<T>)
    requires
        p.wf(),
    ensures
        forall|i: usize| p.roots().contains(i) <==> i < p.actions_offset() && !p.child_referenced(i as int),
{
    lemma_roots_upto(p, p.actions_offset());
}

proof fn lemma_roots_upto<T>(p: ProgramView<T>, k: nat)
    requires
        k <= usize::MAX,
    ensures
        forall|i: usize| #[trigger] p.roots_upto(k).contains(i) <==> i < k && !p.child_referenced(i as int),
    decreases k,
{
    if k > 0 {
        let km = (k - 1) as nat;
        lemma_roots_upto(p, km);
        let r = p.roots_upto(km);
        assert forall|i: usize| #[trigger] p.roots_upto(k).contains(i) <==> i < k && !p.child_referenced(
            i as int,
        ) by {
            assert(r.contains(i) <==> i < km && !p.child_referenced(i as int));
            if p.child_referenced(km as int) {
                assert(p.roots_upto(k) == r);
            } else {
                let r2 = r.push(km as usize);
                assert(p.roots_upto(k) == r2);
                assert(r2[r.len() as int] == km as usize);
                if r.contains(i) {
                    let x = choose|x: int| 0 <= x < r.len() && r[x] == i;
                    assert(r2[x] == i);
                }
                if r2.contains(i) && i != km {
                    let x = choose|x: int| 0 <= x < r2.len() && r2[x] == i;
                    assert(x < r.len());
                    assert(r[x] == i);
                }
            }
        }
    } else {
        assert(p.roots_upto(0) =~= Seq::<usize>::empty());
    }
}

/// The roots and the tree view are functions of the program and the table
/// alone: asking twice without a change in between gives the same answer.
pub proof fn lemma_tree_view_repeatable<T>(
    p: ProgramView<T>,
    q: ProgramView<T>,
    table: Seq<(Seq<char>, Seq<char>)>,
)
    requires
        p == q,
    ensures
        p.roots() == q.roots(),
        p.forest(table) == q.forest(table),
{
}

} // verus!
