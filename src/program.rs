//! The entry store and the mutation engine: four ordered segments of records
//! addressed by one global index, and the references between them.

use vstd::prelude::*;

use crate::naming::{hash_name, name_hash, numbered_key, numbered_name, translated, Translations};

verus! {

/// One of the four segments, in their fixed order.
#[derive(Debug, Clone, Copy, PartialEq, Eq, Hash, Structural)]
pub enum Category {
    AI,
    Action,
    Behaviour,
    Query,
}

/// The name of a segment as it appears in the container and in slot names.
pub open spec fn category_label(c: Category) -> Seq<char> {
    match c {
        Category::AI => seq!['A', 'I'],
        Category::Action => seq!['A', 'c', 't', 'i', 'o', 'n'],
        Category::Behaviour => seq!['B', 'e', 'h', 'a', 'v', 'i', 'o', 'r'],
        Category::Query => seq!['Q', 'u', 'e', 'r', 'y'],
    }
}

impl Category {
    /// The segment's name: `"AI"`, `"Action"`, `"Behavior"` or `"Query"`.
    pub fn label(&self) -> (r: &'static str)
        ensures
            r@ == category_label(*self),
    {
        match self {
            Category::AI => {
                proof {
                    reveal_strlit("AI");
                }
                "AI"
            },
            Category::Action => {
                proof {
                    reveal_strlit("Action");
                }
                "Action"
            },
            Category::Behaviour => {
                proof {
                    reveal_strlit("Behavior");
                }
                "Behavior"
            },
            Category::Query => {
                proof {
                    reveal_strlit("Query");
                }
                "Query"
            },
        }
    }
}

/// What can go wrong when the engine is asked to do something.
#[derive(Debug, Clone, Copy, PartialEq, Eq, Structural)]
pub enum ProgramError {
    /// A required segment or the demo index object is missing.
    InvalidContainer,
    /// A global index at or beyond the number of records.
    OutOfRange,
    /// A record lacks an object that the operation needs.
    MissingRequiredObject,
    /// A record's Def holds neither a Name nor a ClassName.
    UnresolvableName,
    /// Following child references leads back to a record already on the path.
    CycleDetected,
}

impl ProgramError {
    /// A human-readable message for the error.
    pub fn message(&self) -> &'static str {
        match self {
            ProgramError::InvalidContainer => "Invalid AI program.",
            ProgramError::OutOfRange => "Missing entry index",
            ProgramError::MissingRequiredObject => "Invalid AI",
            ProgramError::UnresolvableName => "AI missing name or class name",
            ProgramError::CycleDetected => "AI children form a cycle",
        }
    }
}

/// One integer parameter of a reference object: its hashed key and its value.
#[derive(Debug, Clone, Copy, PartialEq, Eq, Structural)]
pub struct Slot {
    pub key: u32,
    pub value: i32,
}

/// A record's identity object.
#[derive(Debug, Clone, PartialEq)]
pub struct Def {
    pub name: Option<String>,
    pub class_name: Option<String>,
    pub group_name: Option<String>,
}

/// One record. `rest` carries the parameters that indexing does not read.
#[derive(Debug, Clone, PartialEq)]
pub struct Entry<T> {
    pub key: u32,
    pub def: Option<Def>,
    pub child_idx: Option<Vec<Slot>>,
    pub behavior_idx: Option<Vec<Slot>>,
    pub rest: T,
}

/// The slots of an optional reference object; none when it is absent.
pub open spec fn slots_of(o: Option<Vec<Slot>>) -> Seq<Slot> {
    match o {
        Some(v) => v@,
        None => Seq::empty(),
    }
}

/// The mathematical content of a program.
pub struct ProgramView<T> {
    pub items: Seq<Entry<T>>,
    pub n_ais: nat,
    pub n_actions: nat,
    pub n_behaviors: nat,
    pub demos: Seq<Slot>,
}

impl<T> ProgramView<T> {
    pub open spec fn total(self) -> nat {
        self.items.len()
    }

    pub open spec fn actions_offset(self) -> nat {
        self.n_ais
    }

    pub open spec fn behaviors_offset(self) -> nat {
        self.n_ais + self.n_actions
    }

    pub open spec fn queries_offset(self) -> nat {
        self.n_ais + self.n_actions + self.n_behaviors
    }

    pub open spec fn wf(self) -> bool {
        self.queries_offset() <= self.total() <= usize::MAX
    }

    /// First global index of a segment.
    pub open spec fn segment_start(self, c: Category) -> nat {
        match c {
            Category::AI => 0,
            Category::Action => self.actions_offset(),
            Category::Behaviour => self.behaviors_offset(),
            Category::Query => self.queries_offset(),
        }
    }

    /// One past the last global index of a segment.
    pub open spec fn segment_end(self, c: Category) -> nat {
        match c {
            Category::AI => self.actions_offset(),
            Category::Action => self.behaviors_offset(),
            Category::Behaviour => self.queries_offset(),
            Category::Query => self.total(),
        }
    }

    /// The segment that holds global index `i`.
    pub open spec fn category_of(self, i: int) -> Category {
        if i < self.actions_offset() {
            Category::AI
        } else if i < self.behaviors_offset() {
            Category::Action
        } else if i < self.queries_offset() {
            Category::Behaviour
        } else {
            Category::Query
        }
    }
}

/// The stored value of a reference after a record is inserted at global index
/// `at` of a program with `total` records. The value is relative to offset
/// `base` before and to `new_base` after. A value that resolves to a record
/// keeps resolving to that record; any other value is left as it is.
pub open spec fn moved_on_insert(v: i32, base: int, new_base: int, at: int, total: int) -> i32 {
    if 0 <= v && base + v < total {
        if base + v >= at {
            (base + v + 1 - new_base) as i32
        } else {
            (base + v - new_base) as i32
        }
    } else {
        v
    }
}

/// The stored value of a reference after the record at global index `at` is
/// removed from a program with `total` records: `-1` where it resolved to that
/// record, the same record otherwise, and unchanged where it resolved to none.
pub open spec fn moved_on_delete(v: i32, base: int, new_base: int, at: int, total: int) -> i32 {
    if 0 <= v && base + v < total {
        if base + v == at {
            -1i32
        } else if base + v > at {
            (base + v - 1 - new_base) as i32
        } else {
            (base + v - new_base) as i32
        }
    } else {
        v
    }
}

/// A structural change: an insertion or a removal at global index `at` of a
/// program with `total` records, and the Behavior offset before and after.
pub struct Shift {
    pub inserting: bool,
    pub at: int,
    pub total: int,
    pub behaviors_before: int,
    pub behaviors_after: int,
}

impl Shift {
    /// New stored value of a reference; `behavior` for a BehaviorIdx slot,
    /// whose value counts from the Behavior offset.
    pub open spec fn value(self, v: i32, behavior: bool) -> i32 {
        let base = if behavior { self.behaviors_before } else { 0 };
        let new_base = if behavior { self.behaviors_after } else { 0 };
        if self.inserting {
            moved_on_insert(v, base, new_base, self.at, self.total)
        } else {
            moved_on_delete(v, base, new_base, self.at, self.total)
        }
    }

    /// `new` holds the slots of `old`, keys kept, values moved.
    pub open spec fn slots(self, old: Seq<Slot>, new: Seq<Slot>, behavior: bool) -> bool {
        &&& new.len() == old.len()
        &&& forall|j: int|
            0 <= j < old.len() ==> (#[trigger] new[j]).key == old[j].key && new[j].value
                == self.value(old[j].value, behavior)
    }

    /// `new` is `old` with its references moved, whatever its key. Child slots
    /// are references in AI records; BehaviorIdx slots in AI and Action records.
    pub open spec fn entry<T>(self, old: Entry<T>, new: Entry<T>, is_ai: bool, is_actor: bool) -> bool {
        &&& new.def == old.def
        &&& new.rest == old.rest
        &&& new.child_idx.is_some() == old.child_idx.is_some()
        &&& if is_ai {
            self.slots(slots_of(old.child_idx), slots_of(new.child_idx), false)
        } else {
            new.child_idx == old.child_idx
        }
        &&& new.behavior_idx.is_some() == old.behavior_idx.is_some()
        &&& if is_actor {
            self.slots(slots_of(old.behavior_idx), slots_of(new.behavior_idx), true)
        } else {
            new.behavior_idx == old.behavior_idx
        }
    }

    /// Every record at index `i` of `old` stands moved at index `i` of `new`.
    pub open spec fn program<T>(self, old: ProgramView<T>, new: ProgramView<T>) -> bool {
        &&& new.items.len() == old.items.len()
        &&& forall|i: int|
            0 <= i < old.items.len() ==> new.items[i].key == old.items[i].key && self.entry(
                old.items[i],
                #[trigger] new.items[i],
                i < old.actions_offset(),
                i < old.behaviors_offset(),
            )
        &&& self.slots(old.demos, new.demos, false)
    }
}

impl<T> ProgramView<T> {
    /// Key of the record at global index `i` once the slot names of segment
    /// `c` are renumbered; `old_key` where `i` lies outside that segment.
    pub open spec fn key_after_renumber(self, c: Category, i: int, old_key: u32) -> u32 {
        if self.segment_start(c) <= i < self.segment_end(c) {
            name_hash(numbered_name(category_label(c), (i - self.segment_start(c)) as nat))
        } else {
            old_key
        }
    }

    /// Where a new record goes: the end of its segment.
    pub open spec fn insertion_point(self, c: Category) -> nat {
        self.segment_end(c)
    }

    /// The change that inserting into segment `c` makes.
    pub open spec fn insert_shift(self, c: Category) -> Shift {
        Shift {
            inserting: true,
            at: self.insertion_point(c) as int,
            total: self.total() as int,
            behaviors_before: self.behaviors_offset() as int,
            behaviors_after: if c == Category::AI || c == Category::Action {
                self.behaviors_offset() + 1int
            } else {
                self.behaviors_offset() as int
            },
        }
    }

    /// `new` is this program with `e` appended to segment `c`: every record at
    /// or after the insertion point moves up by one, every reference keeps
    /// resolving to the same record, and the slot names of `c` are renumbered.
    pub open spec fn after_insert(self, c: Category, e: Entry<T>, new: ProgramView<T>) -> bool {
        let p = self.insertion_point(c) as int;
        let sh = self.insert_shift(c);
        &&& new.total() == self.total() + 1
        &&& new.n_ais == self.n_ais + if c == Category::AI { 1nat } else { 0nat }
        &&& new.n_actions == self.n_actions + if c == Category::Action { 1nat } else { 0nat }
        &&& new.n_behaviors == self.n_behaviors + if c == Category::Behaviour { 1nat } else { 0nat }
        &&& sh.slots(self.demos, new.demos, false)
        &&& forall|i: int|
            0 <= i < p ==> sh.entry(
                self.items[i],
                #[trigger] new.items[i],
                i < self.actions_offset(),
                i < self.behaviors_offset(),
            ) && new.items[i].key == new.key_after_renumber(c, i, self.items[i].key)
        &&& forall|i: int|
            p < i < new.total() ==> sh.entry(
                self.items[i - 1],
                #[trigger] new.items[i],
                i - 1 < self.actions_offset(),
                i - 1 < self.behaviors_offset(),
            ) && new.items[i].key == new.key_after_renumber(c, i, self.items[i - 1].key)
        &&& new.items[p].def == e.def
        &&& new.items[p].child_idx == e.child_idx
        &&& new.items[p].behavior_idx == e.behavior_idx
        &&& new.items[p].rest == e.rest
        &&& new.items[p].key == new.key_after_renumber(c, p, e.key)
    }

    /// The change that removing the record at `d` makes.
    pub open spec fn delete_shift(self, d: int) -> Shift {
        Shift {
            inserting: false,
            at: d,
            total: self.total() as int,
            behaviors_before: self.behaviors_offset() as int,
            behaviors_after: if d < self.behaviors_offset() {
                self.behaviors_offset() - 1int
            } else {
                self.behaviors_offset() as int
            },
        }
    }

    /// `new` is this program without the record at `d`: every later record
    /// moves down by one, references to the removed record become `-1`, every
    /// other reference keeps resolving to the same record, and the slot names
    /// of the removed record's segment are renumbered.
    pub open spec fn after_delete(self, d: int, new: ProgramView<T>) -> bool {
        let c = self.category_of(d);
        let sh = self.delete_shift(d);
        &&& new.total() + 1 == self.total()
        &&& new.n_ais + if c == Category::AI { 1nat } else { 0nat } == self.n_ais
        &&& new.n_actions + if c == Category::Action { 1nat } else { 0nat } == self.n_actions
        &&& new.n_behaviors + if c == Category::Behaviour { 1nat } else { 0nat } == self.n_behaviors
        &&& sh.slots(self.demos, new.demos, false)
        &&& forall|i: int|
            0 <= i < d ==> sh.entry(
                self.items[i],
                #[trigger] new.items[i],
                i < self.actions_offset(),
                i < self.behaviors_offset(),
            ) && new.items[i].key == new.key_after_renumber(c, i, self.items[i].key)
        &&& forall|i: int|
            d <= i < new.total() ==> sh.entry(
                self.items[i + 1],
                #[trigger] new.items[i],
                i + 1 < self.actions_offset(),
                i + 1 < self.behaviors_offset(),
            ) && new.items[i].key == new.key_after_renumber(c, i, self.items[i + 1].key)
    }
}

/// A stored reference value `v`, counted from offset `base`, resolves to
/// global index `target`.
pub open spec fn resolves_to(v: i32, base: int, target: int) -> bool {
    0 <= v && base + v == target
}

/// Some slot in `slots` with key `key` resolves to `target`.
pub open spec fn has_ref(slots: Seq<Slot>, key: u32, base: int, target: int) -> bool {
    exists|j: int|
        0 <= j < slots.len() && (#[trigger] slots[j]).key == key && resolves_to(slots[j].value, base, target)
}

/// `found` lists exactly the locations `(record, key)` among the records
/// `start..end` whose child slots (or BehaviorIdx slots, for `behavior`)
/// resolve to `target`.
pub open spec fn locations_exact<T>(
    found: Seq<(usize, u32)>,
    p: ProgramView<T>,
    start: int,
    end: int,
    behavior: bool,
    target: int,
) -> bool {
    let base = if behavior { p.behaviors_offset() as int } else { 0 };
    &&& forall|k: int|
        0 <= k < found.len() ==> start <= (#[trigger] found[k]).0 < end && has_ref(
            p.ref_slots(found[k].0 as int, behavior),
            found[k].1,
            base,
            target,
        )
    &&& forall|i: int, j: int|
        start <= i < end && 0 <= j < p.ref_slots(i, behavior).len() && resolves_to(
            #[trigger] p.ref_slots(i, behavior)[j].value,
            base,
            target,
        ) ==> found.contains((i as usize, p.ref_slots(i, behavior)[j].key))
}

/// The keys of the slots whose values are `target`, in slot order.
pub open spec fn matching_keys(slots: Seq<Slot>, target: int) -> Seq<u32>
    decreases slots.len(),
{
    if slots.len() == 0 {
        Seq::empty()
    } else {
        let r = matching_keys(slots.drop_last(), target);
        if resolves_to(slots.last().value, 0, target) {
            r.push(slots.last().key)
        } else {
            r
        }
    }
}

/// Every location that holds a reference to one record.
#[derive(Debug, Clone)]
pub struct References {
    /// Keys of the demo action indices.
    pub demos: Vec<u32>,
    /// AI records, by global index, and keys of their ChildIdx slots.
    pub ai_children: Vec<(usize, u32)>,
    /// AI records, by global index, and keys of their BehaviorIdx slots.
    pub ai_behaviours: Vec<(usize, u32)>,
    /// Action records, by global index, and keys of their BehaviorIdx slots.
    pub action_behaviours: Vec<(usize, u32)>,
}

impl<T> ProgramView<T> {
    /// The ChildIdx slots (or BehaviorIdx slots) of record `i`.
    pub open spec fn ref_slots(self, i: int, behavior: bool) -> Seq<Slot> {
        if behavior {
            slots_of(self.items[i].behavior_idx)
        } else {
            slots_of(self.items[i].child_idx)
        }
    }

    /// Some AI record holds a ChildIdx reference to `target`.
    pub open spec fn child_referenced(self, target: int) -> bool {
        exists|i: int, j: int|
            0 <= i < self.actions_offset() && 0 <= j < self.ref_slots(i, false).len()
                && #[trigger] self.ref_slots(i, false)[j].value == target && 0 <= target
    }

    /// Every AI record carries a ChildIdx object, which finding references needs.
    pub open spec fn ais_have_children(self) -> bool {
        forall|i: int| 0 <= i < self.actions_offset() ==> (#[trigger] self.items[i]).child_idx is Some
    }

    /// The references to `target`, location by location.
    pub open spec fn references_exact(self, target: int, r: References) -> bool {
        &&& r.demos@ == matching_keys(self.demos, target)
        &&& locations_exact(r.ai_children@, self, 0, self.actions_offset() as int, false, target)
        &&& locations_exact(r.ai_behaviours@, self, 0, self.actions_offset() as int, true, target)
        &&& locations_exact(
            r.action_behaviours@,
            self,
            self.actions_offset() as int,
            self.behaviors_offset() as int,
            true,
            target,
        )
    }
}

/// The display name of a record: its Def's Name as it is, else its
/// ClassName translated through `table`.
pub open spec fn display_name<T>(e: Entry<T>, table: Seq<(Seq<char>, Seq<char>)>) -> Result<
    Seq<char>,
    ProgramError,
> {
    match e.def {
        None => Err(ProgramError::MissingRequiredObject),
        Some(d) => match d.name {
            Some(n) => Ok(n@),
            None => match d.class_name {
                Some(c) => Ok(translated(table, c@)),
                None => Err(ProgramError::UnresolvableName),
            },
        },
    }
}

/// The class name of a record, untranslated.
pub open spec fn class_name_of<T>(e: Entry<T>) -> Result<Seq<char>, ProgramError> {
    match e.def {
        None => Err(ProgramError::MissingRequiredObject),
        Some(d) => match d.class_name {
            Some(c) => Ok(c@),
            None => Err(ProgramError::UnresolvableName),
        },
    }
}

/// The stored value of a reference after every reference to `old` is
/// pointed at `new`: `new` counted from `base`, or `new` itself where it is
/// negative (cleared); values that resolve elsewhere are left as they are.
pub open spec fn reindexed_value(v: i32, base: int, old: int, new: i32) -> i32 {
    if resolves_to(v, base, old) {
        if new >= 0 {
            (new - base) as i32
        } else {
            new
        }
    } else {
        v
    }
}

/// `b` holds the slots of `a`, keys kept, references to `old` pointed at `new`.
pub open spec fn slots_reindexed(a: Seq<Slot>, b: Seq<Slot>, base: int, old: int, new: i32) -> bool {
    &&& b.len() == a.len()
    &&& forall|j: int|
        0 <= j < a.len() ==> (#[trigger] b[j]).key == a[j].key && b[j].value == reindexed_value(
            a[j].value,
            base,
            old,
            new,
        )
}

impl<T> ProgramView<T> {
    /// `new` is this program with every reference to global index `old`
    /// pointed at `target`: demo indices and AI child slots take `target`,
    /// BehaviorIdx slots of AI and Action records take it counted from the
    /// Behavior offset. Nothing else changes.
    pub open spec fn after_reindex(self, old: int, target: i32, new: ProgramView<T>) -> bool {
        let bo = self.behaviors_offset() as int;
        &&& new.n_ais == self.n_ais
        &&& new.n_actions == self.n_actions
        &&& new.n_behaviors == self.n_behaviors
        &&& new.items.len() == self.items.len()
        &&& slots_reindexed(self.demos, new.demos, 0, old, target)
        &&& forall|i: int|
            0 <= i < self.items.len() ==> {
                let a = self.items[i];
                let b = #[trigger] new.items[i];
                &&& b.key == a.key
                &&& b.def == a.def
                &&& b.rest == a.rest
                &&& b.child_idx.is_some() == a.child_idx.is_some()
                &&& if i < self.actions_offset() {
                    slots_reindexed(slots_of(a.child_idx), slots_of(b.child_idx), 0, old, target)
                } else {
                    b.child_idx == a.child_idx
                }
                &&& b.behavior_idx.is_some() == a.behavior_idx.is_some()
                &&& if i < self.behaviors_offset() {
                    slots_reindexed(slots_of(a.behavior_idx), slots_of(b.behavior_idx), bo, old, target)
                } else {
                    b.behavior_idx == a.behavior_idx
                }
            }
    }
}

/// Points the slots of `slots` that resolve to `from` at `to`.
fn reindex_slots(slots: &mut Vec<Slot>, base: usize, from: usize, to: i32)
    requires
        base <= i32::MAX,
    ensures
        slots_reindexed(old(slots)@, final(slots)@, base as int, from as int, to),
{
    let ghost before = slots@;
    let mut j: usize = 0;
    while j < slots.len()
        invariant
            base <= i32::MAX,
            slots@.len() == before.len(),
            forall|k: int| j <= k < before.len() ==> #[trigger] slots@[k] == before[k],
            forall|k: int|
                0 <= k < j ==> (#[trigger] slots@[k]).key == before[k].key && slots@[k].value
                    == reindexed_value(before[k].value, base as int, from as int, to),
        decreases before.len() - j,
    {
        let s = slots[j];
        if s.value >= 0 && from >= base && s.value as usize == from - base {
            let value = if to >= 0 {
                (to as i64 - base as i64) as i32
            } else {
                to
            };
            slots.set(j, Slot { key: s.key, value });
        }
        j = j + 1;
    }
}

/// Computes `Shift::value` for one stored value.
fn move_value(v: i32, inserting: bool, base: usize, new_base: usize, at: usize, total: usize) -> (r: i32)
    requires
        inserting ==> total <= i32::MAX,
        base <= total,
        inserting ==> at <= total,
        inserting ==> new_base == base || (new_base == base + 1 && at <= base),
        !inserting ==> at < total,
        !inserting ==> (new_base == base && at >= base) || (new_base + 1 == base && at < base),
    ensures
        inserting ==> r == moved_on_insert(v, base as int, new_base as int, at as int, total as int),
        !inserting ==> r == moved_on_delete(v, base as int, new_base as int, at as int, total as int),
{
    if v < 0 {
        return v;
    }
    if v as usize >= total - base {
        return v;
    }
    let t: usize = base + v as usize;
    if inserting {
        if t >= at {
            (t + 1 - new_base) as i32
        } else {
            (t - new_base) as i32
        }
    } else {
        if t == at {
            -1
        } else if t > at {
            (t - 1 - new_base) as i32
        } else {
            (t - new_base) as i32
        }
    }
}

/// Moves the values of a list of reference slots in place.
fn move_slots(slots: &mut Vec<Slot>, inserting: bool, base: usize, new_base: usize, at: usize, total: usize)
    requires
        inserting ==> total <= i32::MAX,
        base <= total,
        inserting ==> at <= total,
        inserting ==> new_base == base || (new_base == base + 1 && at <= base),
        !inserting ==> at < total,
        !inserting ==> (new_base == base && at >= base) || (new_base + 1 == base && at < base),
    ensures
        final(slots)@.len() == old(slots)@.len(),
        forall|j: int|
            0 <= j < old(slots)@.len() ==> (#[trigger] final(slots)@[j]).key == old(slots)@[j].key
                && final(slots)@[j].value == (if inserting {
                moved_on_insert(old(slots)@[j].value, base as int, new_base as int, at as int, total as int)
            } else {
                moved_on_delete(old(slots)@[j].value, base as int, new_base as int, at as int, total as int)
            }),
{
    let ghost before = slots@;
    let mut j: usize = 0;
    while j < slots.len()
        invariant
            inserting ==> total <= i32::MAX,
            base <= total,
            inserting ==> at <= total,
            inserting ==> new_base == base || (new_base == base + 1 && at <= base),
            !inserting ==> at < total,
            !inserting ==> (new_base == base && at >= base) || (new_base + 1 == base && at < base),
            slots@.len() == before.len(),
            forall|k: int| j <= k < before.len() ==> #[trigger] slots@[k] == before[k],
            forall|k: int|
                0 <= k < j ==> (#[trigger] slots@[k]).key == before[k].key && slots@[k].value == (
                if inserting {
                    moved_on_insert(before[k].value, base as int, new_base as int, at as int, total as int)
                } else {
                    moved_on_delete(before[k].value, base as int, new_base as int, at as int, total as int)
                }),
        decreases before.len() - j,
    {
        let old_slot = slots[j];
        let value = move_value(old_slot.value, inserting, base, new_base, at, total);
        slots.set(j, Slot { key: old_slot.key, value });
        j = j + 1;
    }
}

/// The slots of a fresh ChildIdx object: one `-1` slot per child name, keyed
/// by the name's hash, in order; a name whose key is already there adds none.
pub open spec fn blank_child_slots(names: Seq<Seq<char>>) -> Seq<Slot>
    decreases names.len(),
{
    if names.len() == 0 {
        Seq::empty()
    } else {
        let r = blank_child_slots(names.drop_last());
        let k = name_hash(names.last());
        if exists|j: int| 0 <= j < r.len() && (#[trigger] r[j]).key == k {
            r
        } else {
            r.push(Slot { key: k, value: -1i32 })
        }
    }
}

/// The names held by a list of strings.
pub open spec fn names_of(v: Seq<String>) -> Seq<Seq<char>> {
    v.map_values(|s: String| s@)
}

/// A new record of class `class` for segment `category`, as a class
/// template describes it: a Def with the class name (and an empty Name and
/// GroupName for AI and Action records), a ChildIdx object with a `-1` slot
/// per declared child where the class declares children, and `rest` for the
/// other parameters. Its key is given when it is added to a program.
pub fn blank_ai<T>(category: Category, class: String, child_names: Option<&Vec<String>>, rest: T) -> (r:
    Entry<T>)
    ensures
        r.key == 0,
        r.def is Some,
        r.def->Some_0.class_name is Some,
        r.def->Some_0.class_name->Some_0@ == class@,
        (category == Category::AI || category == Category::Action) ==> {
            &&& r.def->Some_0.name is Some
            &&& r.def->Some_0.name->Some_0@ == Seq::<char>::empty()
            &&& r.def->Some_0.group_name is Some
            &&& r.def->Some_0.group_name->Some_0@ == Seq::<char>::empty()
        },
        !(category == Category::AI || category == Category::Action) ==> r.def->Some_0.name is None
            && r.def->Some_0.group_name is None,
        child_names is None ==> r.child_idx is None,
        child_names is Some ==> r.child_idx is Some && slots_of(r.child_idx) == blank_child_slots(
            names_of(child_names->Some_0@),
        ),
        r.behavior_idx is None,
        r.rest == rest,
{
    let named = match category {
        Category::AI | Category::Action => true,
        _ => false,
    };
    let def = Def {
        name: if named {
            Some(String::new())
        } else {
            None
        },
        class_name: Some(class),
        group_name: if named {
            Some(String::new())
        } else {
            None
        },
    };
    let child_idx = match child_names {
        None => None,
        Some(names) => {
            let ghost all = names_of(names@);
            let mut slots: Vec<Slot> = Vec::new();
            let mut i: usize = 0;
            while i < names.len()
                invariant
                    i <= names@.len(),
                    all == names_of(names@),
                    slots@ == blank_child_slots(all.subrange(0, i as int)),
                decreases names@.len() - i,
            {
                let ghost sub = all.subrange(0, i + 1);
                assert(sub.drop_last() =~= all.subrange(0, i as int));
                assert(sub.last() == names@[i as int]@);
                let k = hash_name(names[i].as_str());
                let mut found = false;
                let mut j: usize = 0;
                while j < slots.len()
                    invariant
                        j <= slots@.len(),
                        found == exists|jj: int| 0 <= jj < j && (#[trigger] slots@[jj]).key == k,
                    decreases slots@.len() - j,
                {
                    if slots[j].key == k {
                        found = true;
                    }
                    j = j + 1;
                }
                if !found {
                    slots.push(Slot { key: k, value: -1 });
                }
                i = i + 1;
            }
            assert(all.subrange(0, names@.len() as int) =~= all);
            Some(slots)
        },
    };
    Entry { key: 0, def: Some(def), child_idx, behavior_idx: None, rest }
}

/// An AI program: the records of the four segments, concatenated in the
/// order AI, Action, Behavior, Query, and the demo action indices.
#[derive(Debug, Clone, PartialEq)]
pub struct AIProgram<T> {
    items: Vec<Entry<T>>,
    n_ais: usize,
    n_actions: usize,
    n_behaviors: usize,
    demos: Vec<Slot>,
}

impl<T> View for AIProgram<T> {
    type V = ProgramView<T>;

    closed spec fn view(&self) -> ProgramView<T> {
        ProgramView {
            items: self.items@,
            n_ais: self.n_ais as nat,
            n_actions: self.n_actions as nat,
            n_behaviors: self.n_behaviors as nat,
            demos: self.demos@,
        }
    }
}

impl<T> AIProgram<T> {
    pub open spec fn wf(&self) -> bool {
        self@.wf()
    }

    /// Builds a program from its four segments and its demo action indices.
    pub fn new(
        ais: Vec<Entry<T>>,
        actions: Vec<Entry<T>>,
        behaviors: Vec<Entry<T>>,
        queries: Vec<Entry<T>>,
        demos: Vec<Slot>,
    ) -> (r: Self)
        requires
            ais@.len() + actions@.len() + behaviors@.len() + queries@.len() <= usize::MAX,
        ensures
            r.wf(),
            r@.items == ais@ + actions@ + behaviors@ + queries@,
            r@.n_ais == ais@.len(),
            r@.n_actions == actions@.len(),
            r@.n_behaviors == behaviors@.len(),
            r@.demos == demos@,
    {
        let n_ais = ais.len();
        let n_actions = actions.len();
        let n_behaviors = behaviors.len();
        let mut items = ais;
        let mut actions = actions;
        let mut behaviors = behaviors;
        let mut queries = queries;
        items.append(&mut actions);
        items.append(&mut behaviors);
        items.append(&mut queries);
        AIProgram { items, n_ais, n_actions, n_behaviors, demos }
    }

    /// Number of records over all four segments.
    pub fn len(&self) -> (r: usize)
        ensures
            r == self@.total(),
    {
        self.items.len()
    }

    /// The three segment boundaries: first Action, Behavior and Query index.
    pub fn segment_offsets(&self) -> (r: (usize, usize, usize))
        requires
            self.wf(),
        ensures
            r.0 == self@.actions_offset(),
            r.1 == self@.behaviors_offset(),
            r.2 == self@.queries_offset(),
    {
        (self.actions_offset(), self.behaviors_offset(), self.queries_offset())
    }

    /// Global index of the first Action record.
    pub fn actions_offset(&self) -> (r: usize)
        requires
            self.wf(),
        ensures
            r == self@.actions_offset(),
    {
        self.n_ais
    }

    /// Global index of the first Behavior record.
    pub fn behaviors_offset(&self) -> (r: usize)
        requires
            self.wf(),
        ensures
            r == self@.behaviors_offset(),
    {
        self.n_ais + self.n_actions
    }

    /// Global index of the first Query record.
    pub fn queries_offset(&self) -> (r: usize)
        requires
            self.wf(),
        ensures
            r == self@.queries_offset(),
    {
        self.n_ais + self.n_actions + self.n_behaviors
    }
    /// The records from global index `start` up to `end`, in order.
    fn slice_refs(&self, start: usize, end: usize) -> (r: Vec<&Entry<T>>)
        requires
            start <= end <= self@.total(),
        ensures
            r@.len() == end - start,
            forall|j: int| 0 <= j < r@.len() ==> *r@[j] == self@.items[start + j],
    {
        let mut r: Vec<&Entry<T>> = Vec::new();
        let mut i: usize = start;
        while i < end
            invariant
                start <= i <= end <= self@.total(),
                r@.len() == i - start,
                forall|j: int| 0 <= j < r@.len() ==> *r@[j] == self@.items[start + j],
            decreases end - i,
        {
            r.push(&self.items[i]);
            i = i + 1;
        }
        r
    }

    /// The AI records, in order.
    pub fn ais(&self) -> (r: Vec<&Entry<T>>)
        requires
            self.wf(),
        ensures
            r@.len() == self@.n_ais,
            forall|j: int| 0 <= j < r@.len() ==> *r@[j] == self@.items[j],
    {
        self.slice_refs(0, self.n_ais)
    }

    /// The Action records, in order.
    pub fn actions(&self) -> (r: Vec<&Entry<T>>)
        requires
            self.wf(),
        ensures
            r@.len() == self@.n_actions,
            forall|j: int|
                0 <= j < r@.len() ==> *r@[j] == self@.items[self@.actions_offset() + j],
    {
        self.slice_refs(self.actions_offset(), self.behaviors_offset())
    }

    /// The Behavior records, in order.
    pub fn behaviors(&self) -> (r: Vec<&Entry<T>>)
        requires
            self.wf(),
        ensures
            r@.len() == self@.n_behaviors,
            forall|j: int|
                0 <= j < r@.len() ==> *r@[j] == self@.items[self@.behaviors_offset() + j],
    {
        self.slice_refs(self.behaviors_offset(), self.queries_offset())
    }

    /// The Query records, in order.
    pub fn queries(&self) -> (r: Vec<&Entry<T>>)
        requires
            self.wf(),
        ensures
            r@.len() == self@.total() - self@.queries_offset(),
            forall|j: int|
                0 <= j < r@.len() ==> *r@[j] == self@.items[self@.queries_offset() + j],
    {
        self.slice_refs(self.queries_offset(), self.items.len())
    }

    /// All records in global index order.
    pub fn items(&self) -> (r: Vec<&Entry<T>>)
        ensures
            r@.len() == self@.total(),
            forall|j: int| 0 <= j < r@.len() ==> *r@[j] == self@.items[j],
    {
        self.slice_refs(0, self.items.len())
    }

    /// The demo action indices.
    pub fn demos(&self) -> (r: &Vec<Slot>)
        ensures
            r@ == self@.demos,
    {
        &self.demos
    }

    /// The record at a global index.
    pub fn item_at_index(&self, idx: usize) -> (r: Result<&Entry<T>, ProgramError>)
        ensures
            match r {
                Ok(e) => idx < self@.total() && *e == self@.items[idx as int],
                Err(err) => idx >= self@.total() && err == ProgramError::OutOfRange,
            },
    {
        if idx < self.items.len() {
            Ok(&self.items[idx])
        } else {
            Err(ProgramError::OutOfRange)
        }
    }

    /// The record at a global index, for editing in place.
    pub fn item_mut_at_index(&mut self, idx: usize) -> (r: Result<&mut Entry<T>, ProgramError>)
        ensures
            match r {
                Ok(e) => {
                    &&& idx < old(self)@.total()
                    &&& *e == old(self)@.items[idx as int]
                    &&& final(self)@ == (ProgramView {
                        items: old(self)@.items.update(idx as int, *final(e)),
                        ..old(self)@
                    })
                },
                Err(err) => idx >= old(self)@.total() && err == ProgramError::OutOfRange
                    && final(self)@ == old(self)@,
            },
    {
        if idx < self.items.len() {
            Ok(&mut self.items[idx])
        } else {
            Err(ProgramError::OutOfRange)
        }
    }
    /// Moves every reference of the program for an insertion or a removal at
    /// `at`, before the record itself is added or taken out.
    fn move_references(&mut self, inserting: bool, at: usize, new_bo: usize)
        requires
            old(self).wf(),
            inserting ==> old(self)@.total() <= i32::MAX,
            inserting ==> at <= old(self)@.total(),
            inserting ==> new_bo == old(self)@.behaviors_offset() || (new_bo
                == old(self)@.behaviors_offset() + 1 && at <= old(self)@.behaviors_offset()),
            !inserting ==> at < old(self)@.total(),
            !inserting ==> (new_bo == old(self)@.behaviors_offset() && at
                >= old(self)@.behaviors_offset()) || (new_bo + 1 == old(self)@.behaviors_offset()
                && at < old(self)@.behaviors_offset()),
        ensures
            (Shift {
                inserting,
                at: at as int,
                total: old(self)@.total() as int,
                behaviors_before: old(self)@.behaviors_offset() as int,
                behaviors_after: new_bo as int,
            }).program(old(self)@, final(self)@),
            final(self)@.n_ais == old(self)@.n_ais,
            final(self)@.n_actions == old(self)@.n_actions,
            final(self)@.n_behaviors == old(self)@.n_behaviors,
    {
        let ghost before = self@;
        let ghost sh = Shift {
            inserting,
            at: at as int,
            total: before.total() as int,
            behaviors_before: before.behaviors_offset() as int,
            behaviors_after: new_bo as int,
        };
        let total = self.items.len();
        let ao = self.actions_offset();
        let bo = self.behaviors_offset();
        move_slots(&mut self.demos, inserting, 0, 0, at, total);
        let mut i: usize = 0;
        while i < total
            invariant
                before.wf(),
                total == before.total(),
                inserting ==> total <= i32::MAX,
                ao == before.actions_offset(),
                bo == before.behaviors_offset(),
                inserting ==> at <= total,
                inserting ==> new_bo == bo || (new_bo == bo + 1 && at <= bo),
                !inserting ==> at < total,
                !inserting ==> (new_bo == bo && at >= bo) || (new_bo + 1 == bo && at < bo),
                sh == (Shift {
                    inserting,
                    at: at as int,
                    total: total as int,
                    behaviors_before: bo as int,
                    behaviors_after: new_bo as int,
                }),
                self.n_ais == before.n_ais,
                self.n_actions == before.n_actions,
                self.n_behaviors == before.n_behaviors,
                self.items@.len() == total,
                sh.slots(before.demos, self.demos@, false),
                forall|k: int| i <= k < total ==> #[trigger] self.items@[k] == before.items[k],
                forall|k: int|
                    0 <= k < i ==> self.items@[k].key == before.items[k].key && sh.entry(
                        before.items[k],
                        #[trigger] self.items@[k],
                        k < ao,
                        k < bo,
                    ),
            decreases total - i,
        {
            let e = &mut self.items[i];
            if i < ao {
                match e.child_idx.take() {
                    Some(mut v) => {
                        move_slots(&mut v, inserting, 0, 0, at, total);
                        e.child_idx = Some(v);
                    },
                    None => {},
                }
            }
            if i < bo {
                match e.behavior_idx.take() {
                    Some(mut v) => {
                        move_slots(&mut v, inserting, bo, new_bo, at, total);
                        e.behavior_idx = Some(v);
                    },
                    None => {},
                }
            }
            i = i + 1;
        }
    }
    /// Gives the records of segment `c` the slot names `"<c>_0"`, `"<c>_1"`, ...
    fn renumber(&mut self, c: Category)
        requires
            old(self).wf(),
        ensures
            final(self)@.n_ais == old(self)@.n_ais,
            final(self)@.n_actions == old(self)@.n_actions,
            final(self)@.n_behaviors == old(self)@.n_behaviors,
            final(self)@.demos == old(self)@.demos,
            final(self)@.items.len() == old(self)@.items.len(),
            forall|i: int|
                0 <= i < old(self)@.total() ==> {
                    let a = old(self)@.items[i];
                    let b = #[trigger] final(self)@.items[i];
                    &&& b.def == a.def
                    &&& b.child_idx == a.child_idx
                    &&& b.behavior_idx == a.behavior_idx
                    &&& b.rest == a.rest
                    &&& b.key == old(self)@.key_after_renumber(c, i, a.key)
                },
    {
        let ghost before = self@;
        let (start, end) = match c {
            Category::AI => (0, self.actions_offset()),
            Category::Action => (self.actions_offset(), self.behaviors_offset()),
            Category::Behaviour => (self.behaviors_offset(), self.queries_offset()),
            Category::Query => (self.queries_offset(), self.items.len()),
        };
        let prefix = c.label();
        let mut i: usize = start;
        while i < end
            invariant
                before.wf(),
                start == before.segment_start(c),
                end == before.segment_end(c),
                start <= i <= end <= before.total(),
                prefix@ == category_label(c),
                self.n_ais == before.n_ais,
                self.n_actions == before.n_actions,
                self.n_behaviors == before.n_behaviors,
                self.demos@ == before.demos,
                self.items@.len() == before.items.len(),
                forall|k: int|
                    0 <= k < before.total() ==> {
                        let a = before.items[k];
                        let b = #[trigger] self.items@[k];
                        &&& b.def == a.def
                        &&& b.child_idx == a.child_idx
                        &&& b.behavior_idx == a.behavior_idx
                        &&& b.rest == a.rest
                        &&& b.key == if start <= k < i {
                            before.key_after_renumber(c, k, a.key)
                        } else {
                            a.key
                        }
                    },
            decreases end - i,
        {
            let key = numbered_key(prefix, i - start);
            let e = &mut self.items[i];
            e.key = key;
            i = i + 1;
        }
    }

    /// Appends `entry` at the end of segment `category` and returns its global
    /// index. Every record after it moves up by one, every reference is
    /// rewritten to keep resolving to the same record, and the slot names of
    /// the segment are renumbered. An AI record without a ChildIdx object is
    /// reported before anything changes.
    pub fn add_entry(&mut self, category: Category, entry: Entry<T>) -> (r: Result<usize, ProgramError>)
        requires
            old(self).wf(),
            old(self)@.total() <= i32::MAX,
        ensures
            final(self).wf(),
            match r {
                Ok(p) => {
                    &&& old(self)@.ais_have_children()
                    &&& p == old(self)@.insertion_point(category)
                    &&& old(self)@.after_insert(category, entry, final(self)@)
                },
                Err(e) => !old(self)@.ais_have_children() && e == ProgramError::MissingRequiredObject
                    && final(self)@ == old(self)@,
            },
    {
        if !self.ais_have_children() {
            return Err(ProgramError::MissingRequiredObject);
        }
        let ghost o = self@;
        let ao = self.actions_offset();
        let bo = self.behaviors_offset();
        let (p, new_bo) = match category {
            Category::AI => (ao, bo + 1),
            Category::Action => (bo, bo + 1),
            Category::Behaviour => (self.queries_offset(), bo),
            Category::Query => (self.items.len(), bo),
        };
        self.move_references(true, p, new_bo);
        let ghost m = self@;
        self.items.insert(p, entry);
        match category {
            Category::AI => self.n_ais = self.n_ais + 1,
            Category::Action => self.n_actions = self.n_actions + 1,
            Category::Behaviour => self.n_behaviors = self.n_behaviors + 1,
            Category::Query => {},
        }
        let ghost m2 = self@;
        assert(o.insert_shift(category).program(o, m));
        assert forall|i: int| 0 <= i < m2.total() implies #[trigger] m2.items[i] == if i < p {
            m.items[i]
        } else if i == p {
            entry
        } else {
            m.items[i - 1]
        } by {}
        self.renumber(category);
        Ok(p)
    }
    /// The segment that holds global index `idx`; Query at or past the end.
    pub fn category_at(&self, idx: usize) -> (r: Category)
        requires
            self.wf(),
        ensures
            r == self@.category_of(idx as int),
    {
        if idx < self.actions_offset() {
            Category::AI
        } else if idx < self.behaviors_offset() {
            Category::Action
        } else if idx < self.queries_offset() {
            Category::Behaviour
        } else {
            Category::Query
        }
    }

    /// Removes the record at global index `idx`, keeping the order of the
    /// others. References to it become `-1`; every other reference is
    /// rewritten to keep resolving to the same record, and the slot names of
    /// its segment are renumbered. An index past the last record, or an AI
    /// record without a ChildIdx object, is reported before anything changes.
    pub fn delete_entry(&mut self, idx: usize) -> (r: Result<(), ProgramError>)
        requires
            old(self).wf(),
        ensures
            final(self).wf(),
            match r {
                Ok(_) => {
                    &&& idx < old(self)@.total()
                    &&& old(self)@.ais_have_children()
                    &&& old(self)@.after_delete(idx as int, final(self)@)
                },
                Err(e) => final(self)@ == old(self)@ && if idx >= old(self)@.total() {
                    e == ProgramError::OutOfRange
                } else {
                    !old(self)@.ais_have_children() && e == ProgramError::MissingRequiredObject
                },
            },
    {
        if idx >= self.items.len() {
            return Err(ProgramError::OutOfRange);
        }
        if !self.ais_have_children() {
            return Err(ProgramError::MissingRequiredObject);
        }
        let ghost o = self@;
        let c = self.category_at(idx);
        let bo = self.behaviors_offset();
        let new_bo = if idx < bo {
            bo - 1
        } else {
            bo
        };
        self.move_references(false, idx, new_bo);
        let ghost m = self@;
        self.items.remove(idx);
        match c {
            Category::AI => self.n_ais = self.n_ais - 1,
            Category::Action => self.n_actions = self.n_actions - 1,
            Category::Behaviour => self.n_behaviors = self.n_behaviors - 1,
            Category::Query => {},
        }
        let ghost m2 = self@;
        assert(o.delete_shift(idx as int).program(o, m));
        assert forall|i: int| 0 <= i < m2.total() implies #[trigger] m2.items[i] == if i < idx {
            m.items[i]
        } else {
            m.items[i + 1]
        } by {}
        self.renumber(c);
        Ok(())
    }
    /// Appends to `found` each location among records `start..end` whose
    /// child slots (or BehaviorIdx slots) resolve to `target`.
    fn collect_locations(
        &self,
        start: usize,
        end: usize,
        behavior: bool,
        target: usize,
        found: &mut Vec<(usize, u32)>,
    )
        requires
            self.wf(),
            start <= end <= self@.total(),
            old(found)@.len() == 0,
        ensures
            locations_exact(final(found)@, self@, start as int, end as int, behavior, target as int),
    {
        let base: usize = if behavior {
            self.behaviors_offset()
        } else {
            0
        };
        let mut i: usize = start;
        while i < end
            invariant
                self.wf(),
                start <= i <= end <= self@.total(),
                base == if behavior { self@.behaviors_offset() as int } else { 0 },
                locations_exact(found@, self@, start as int, i as int, behavior, target as int),
            decreases end - i,
        {
            let e = &self.items[i];
            let slots = if behavior {
                &e.behavior_idx
            } else {
                &e.child_idx
            };
            match slots {
                Some(v) => {
                    assert(v@ == self@.ref_slots(i as int, behavior));
                    let mut j: usize = 0;
                    while j < v.len()
                        invariant
                            self.wf(),
                            start <= i < end <= self@.total(),
                            base == if behavior { self@.behaviors_offset() as int } else { 0 },
                            v@ == self@.ref_slots(i as int, behavior),
                            forall|k: int|
                                0 <= k < found@.len() ==> start <= (#[trigger] found@[k]).0 <= i
                                    && has_ref(
                                    self@.ref_slots(found@[k].0 as int, behavior),
                                    found@[k].1,
                                    base as int,
                                    target as int,
                                ),
                            forall|ii: int, jj: int|
                                start <= ii < end && 0 <= jj < self@.ref_slots(ii, behavior).len()
                                    && (ii < i || (ii == i && jj < j)) && resolves_to(
                                    #[trigger] self@.ref_slots(ii, behavior)[jj].value,
                                    base as int,
                                    target as int,
                                ) ==> found@.contains((ii as usize, self@.ref_slots(ii, behavior)[jj].key)),
                        decreases v.len() - j,
                    {
                        let slot = v[j];
                        if slot.value >= 0 && target >= base && slot.value as usize == target - base {
                            let ghost prev = found@;
                            found.push((i, slot.key));
                            proof {
                                assert forall|x: (usize, u32)| prev.contains(x) implies found@.contains(x) by {
                                    let k = choose|k: int| 0 <= k < prev.len() && prev[k] == x;
                                    assert(found@[k] == x);
                                }
                                assert(self@.ref_slots(i as int, behavior)[j as int] == slot);
                                assert(found@.last() == (i, slot.key));
                                assert(has_ref(self@.ref_slots(i as int, behavior), slot.key, base as int, target as int));
                            }
                        }
                        j = j + 1;
                    }
                },
                None => {},
            }
            i = i + 1;
        }
    }

    /// Every location that currently holds a reference to global index
    /// `target`: demo indices and AI ChildIdx slots hold global indices,
    /// BehaviorIdx slots of AI and Action records hold indices counted from
    /// the Behavior offset.
    pub fn references(&self, target: usize) -> (r: Result<References, ProgramError>)
        requires
            self.wf(),
        ensures
            match r {
                Ok(refs) => self@.ais_have_children() && self@.references_exact(target as int, refs),
                Err(e) => !self@.ais_have_children() && e == ProgramError::MissingRequiredObject,
            },
    {
        if !self.ais_have_children() {
            return Err(ProgramError::MissingRequiredObject);
        }
        let mut demos: Vec<u32> = Vec::new();
        let mut j: usize = 0;
        assert(self@.demos.subrange(0, 0) =~= Seq::<Slot>::empty());
        while j < self.demos.len()
            invariant
                j <= self@.demos.len(),
                demos@ == matching_keys(self@.demos.subrange(0, j as int), target as int),
            decreases self.demos.len() - j,
        {
            let slot = self.demos[j];
            proof {
                let sub = self@.demos.subrange(0, j + 1);
                assert(sub.drop_last() =~= self@.demos.subrange(0, j as int));
                assert(sub.last() == slot);
            }
            if slot.value >= 0 && slot.value as usize == target {
                demos.push(slot.key);
            }
            j = j + 1;
        }
        assert(self@.demos.subrange(0, self@.demos.len() as int) =~= self@.demos);
        let mut ai_children: Vec<(usize, u32)> = Vec::new();
        self.collect_locations(0, self.actions_offset(), false, target, &mut ai_children);
        let mut ai_behaviours: Vec<(usize, u32)> = Vec::new();
        self.collect_locations(0, self.actions_offset(), true, target, &mut ai_behaviours);
        let mut action_behaviours: Vec<(usize, u32)> = Vec::new();
        self.collect_locations(
            self.actions_offset(),
            self.behaviors_offset(),
            true,
            target,
            &mut action_behaviours,
        );
        Ok(References { demos, ai_children, ai_behaviours, action_behaviours })
    }

    /// Whether every AI record carries a ChildIdx object.
    pub fn ais_have_children(&self) -> (r: bool)
        requires
            self.wf(),
        ensures
            r == self@.ais_have_children(),
    {
        let n = self.actions_offset();
        let mut i: usize = 0;
        while i < n
            invariant
                self.wf(),
                n == self@.actions_offset(),
                i <= n,
                forall|k: int| 0 <= k < i ==> (#[trigger] self@.items[k]).child_idx is Some,
            decreases n - i,
        {
            if self.items[i].child_idx.is_none() {
                return false;
            }
            i = i + 1;
        }
        true
    }
    /// The display name of a record: its Name as it is, else its ClassName
    /// translated.
    pub fn entry_name(ai: &Entry<T>, table: &Translations) -> (r: Result<String, ProgramError>)
        ensures
            match r {
                Ok(s) => display_name(*ai, table@) == Ok::<Seq<char>, ProgramError>(s@),
                Err(e) => display_name(*ai, table@) == Err::<Seq<char>, ProgramError>(e),
            },
    {
        match &ai.def {
            None => Err(ProgramError::MissingRequiredObject),
            Some(d) => match &d.name {
                Some(n) => Ok(n.clone()),
                None => match &d.class_name {
                    Some(c) => Ok(table.translate(c)),
                    None => Err(ProgramError::UnresolvableName),
                },
            },
        }
    }

    /// The class name of the record at global index `idx`.
    pub fn entry_name_from_index(&self, idx: usize) -> (r: Result<&str, ProgramError>)
        ensures
            idx >= self@.total() ==> r == Err::<&str, ProgramError>(ProgramError::OutOfRange),
            idx < self@.total() ==> match r {
                Ok(s) => class_name_of(self@.items[idx as int]) == Ok::<Seq<char>, ProgramError>(s@),
                Err(e) => class_name_of(self@.items[idx as int]) == Err::<Seq<char>, ProgramError>(e),
            },
    {
        if idx >= self.items.len() {
            return Err(ProgramError::OutOfRange);
        }
        match &self.items[idx].def {
            None => Err(ProgramError::MissingRequiredObject),
            Some(d) => match &d.class_name {
                Some(c) => Ok(c.as_str()),
                None => Err(ProgramError::UnresolvableName),
            },
        }
    }
    /// The record at global index `idx`.
    pub(crate) fn item(&self, idx: usize) -> (r: &Entry<T>)
        requires
            idx < self@.total(),
        ensures
            *r == self@.items[idx as int],
    {
        &self.items[idx]
    }
    /// The record at global index `idx`, for editing in place.
    pub(crate) fn item_mut(&mut self, idx: usize) -> (r: &mut Entry<T>)
        requires
            idx < old(self)@.total(),
        ensures
            *r == old(self)@.items[idx as int],
            final(self)@ == (ProgramView {
                items: old(self)@.items.update(idx as int, *final(r)),
                ..old(self)@
            }),
    {
        &mut self.items[idx]
    }
    /// Points every reference to global index `from` at `to`, translated
    /// into the space each location counts in. `to = -1` clears them. An AI
    /// record without a ChildIdx object is reported before anything changes.
    pub fn update_indexes(&mut self, from: usize, to: i32) -> (r: Result<(), ProgramError>)
        requires
            old(self).wf(),
            old(self)@.total() <= i32::MAX,
        ensures
            final(self).wf(),
            match r {
                Ok(_) => old(self)@.ais_have_children() && old(self)@.after_reindex(from as int, to, final(self)@),
                Err(e) => !old(self)@.ais_have_children() && e == ProgramError::MissingRequiredObject
                    && final(self)@ == old(self)@,
            },
    {
        if !self.ais_have_children() {
            return Err(ProgramError::MissingRequiredObject);
        }
        let ghost before = self@;
        let total = self.items.len();
        let ao = self.actions_offset();
        let bo = self.behaviors_offset();
        reindex_slots(&mut self.demos, 0, from, to);
        let mut i: usize = 0;
        while i < total
            invariant
                before.wf(),
                total == before.total(),
                total <= i32::MAX,
                ao == before.actions_offset(),
                bo == before.behaviors_offset(),
                self.n_ais == before.n_ais,
                self.n_actions == before.n_actions,
                self.n_behaviors == before.n_behaviors,
                self.items@.len() == total,
                slots_reindexed(before.demos, self.demos@, 0, from as int, to),
                forall|k: int| i <= k < total ==> #[trigger] self.items@[k] == before.items[k],
                forall|k: int|
                    0 <= k < i ==> {
                        let a = before.items[k];
                        let b = #[trigger] self.items@[k];
                        &&& b.key == a.key
                        &&& b.def == a.def
                        &&& b.rest == a.rest
                        &&& b.child_idx.is_some() == a.child_idx.is_some()
                        &&& if k < ao {
                            slots_reindexed(slots_of(a.child_idx), slots_of(b.child_idx), 0, from as int, to)
                        } else {
                            b.child_idx == a.child_idx
                        }
                        &&& b.behavior_idx.is_some() == a.behavior_idx.is_some()
                        &&& if k < bo {
                            slots_reindexed(
                                slots_of(a.behavior_idx),
                                slots_of(b.behavior_idx),
                                bo as int,
                                from as int,
                                to,
                            )
                        } else {
                            b.behavior_idx == a.behavior_idx
                        }
                    },
            decreases total - i,
        {
            let e = &mut self.items[i];
            if i < ao {
                match e.child_idx.take() {
                    Some(mut v) => {
                        reindex_slots(&mut v, 0, from, to);
                        e.child_idx = Some(v);
                    },
                    None => {},
                }
            }
            if i < bo {
                match e.behavior_idx.take() {
                    Some(mut v) => {
                        reindex_slots(&mut v, bo, from, to);
                        e.behavior_idx = Some(v);
                    },
                    None => {},
                }
            }
            i = i + 1;
        }
        Ok(())
    }
}

} // verus!
