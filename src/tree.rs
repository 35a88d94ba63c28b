//! The tree view: root AI records and the trees that their child references
//! span.

use vstd::prelude::*;

use crate::naming::Translations;
use crate::program::{display_name, slots_of, AIProgram, ProgramError, ProgramView, Slot};

verus! {

/// A node of the tree view: display name, global index and children.
#[derive(Debug, Default)]
pub struct Tree(pub String, pub usize, pub Vec<Tree>);

/// The mathematical content of a tree node.
pub struct Shape {
    pub name: Seq<char>,
    pub index: usize,
    pub children: Seq<Shape>,
}

/// `t` has the name, index and children of `s`, all the way down.
pub open spec fn tree_is(t: Tree, s: Shape) -> bool
    decreases s,
{
    &&& t.0@ == s.name
    &&& t.1 == s.index
    &&& t.2@.len() == s.children.len()
    &&& forall|j: int| 0 <= j < s.children.len() ==> tree_is(#[trigger] t.2@[j], s.children[j])
}

/// The non-negative values of a list of child slots, in order.
pub open spec fn child_targets(slots: Seq<Slot>) -> Seq<usize>
    decreases slots.len(),
{
    if slots.len() == 0 {
        Seq::empty()
    } else {
        let rest = child_targets(slots.drop_last());
        if slots.last().value >= 0 {
            rest.push(slots.last().value as usize)
        } else {
            rest
        }
    }
}

impl<T> ProgramView<T> {
    /// The AI records among the first `k` that no AI record names as a child.
    pub open spec fn roots_upto(self, k: nat) -> Seq<usize>
        decreases k,
    {
        if k == 0 {
            Seq::empty()
        } else {
            let r = self.roots_upto((k - 1) as nat);
            if self.child_referenced(k - 1) {
                r
            } else {
                r.push((k - 1) as usize)
            }
        }
    }

    /// The root AI records, in AI segment order.
    pub open spec fn roots(self) -> Seq<usize> {
        self.roots_upto(self.actions_offset())
    }

    /// The children named by record `idx`, in stored order.
    pub open spec fn kids(self, idx: int) -> Seq<usize> {
        child_targets(slots_of(self.items[idx].child_idx))
    }

    /// The tree of record `idx` below the ancestors `path`. A record met again
    /// on its own path is a cycle; `fuel` bounds the depth by the number of
    /// records, which a path without repetition cannot exceed.
    pub open spec fn shape_of(
        self,
        table: Seq<(Seq<char>, Seq<char>)>,
        idx: usize,
        path: Set<usize>,
        fuel: nat,
    ) -> Result<Shape, ProgramError>
        decreases fuel, 0nat,
    {
        if idx >= self.total() {
            Err(ProgramError::OutOfRange)
        } else if path.contains(idx) || fuel == 0 {
            Err(ProgramError::CycleDetected)
        } else {
            match display_name(self.items[idx as int], table) {
                Err(e) => Err(e),
                Ok(name) => match self.shapes_of(
                    table,
                    self.kids(idx as int),
                    path.insert(idx),
                    (fuel - 1) as nat,
                ) {
                    Err(e) => Err(e),
                    Ok(children) => Ok(Shape { name, index: idx, children }),
                },
            }
        }
    }

    /// The trees of the records `ks`, in order; the first failure in that
    /// order where there is one.
    pub open spec fn shapes_of(
        self,
        table: Seq<(Seq<char>, Seq<char>)>,
        ks: Seq<usize>,
        path: Set<usize>,
        fuel: nat,
    ) -> Result<Seq<Shape>, ProgramError>
        decreases fuel, ks.len() + 1,
    {
        if ks.len() == 0 {
            Ok(Seq::empty())
        } else {
            match self.shape_of(table, ks[0], path, fuel) {
                Err(e) => Err(e),
                Ok(s) => match self.shapes_of(table, ks.drop_first(), path, fuel) {
                    Err(e) => Err(e),
                    Ok(rest) => Ok(seq![s] + rest),
                },
            }
        }
    }

    /// The tree view: one tree per root, in root order.
    pub open spec fn forest(self, table: Seq<(Seq<char>, Seq<char>)>) -> Result<Seq<Shape>, ProgramError> {
        self.shapes_of(table, self.roots(), Set::empty(), self.total())
    }
}

/// `ts` holds one tree per shape of `ss`, in order.
pub open spec fn trees_are(ts: Seq<Tree>, ss: Seq<Shape>) -> bool {
    &&& ts.len() == ss.len()
    &&& forall|j: int| 0 <= j < ss.len() ==> tree_is(#[trigger] ts[j], ss[j])
}

/// `r` with the shapes `cs` put in front of what it holds.
pub open spec fn prepend(cs: Seq<Shape>, r: Result<Seq<Shape>, ProgramError>) -> Result<
    Seq<Shape>,
    ProgramError,
> {
    match r {
        Ok(rest) => Ok(cs + rest),
        Err(e) => Err(e),
    }
}

/// The ancestors marked in `marks`.
pub open spec fn marked(marks: Seq<bool>) -> Set<usize> {
    Set::new(|i: usize| i < marks.len() && marks[i as int])
}

impl<T> AIProgram<T> {
    /// Whether some AI record holds a ChildIdx reference to `target`.
    pub fn is_child_referenced(&self, target: usize) -> (r: bool)
        requires
            self.wf(),
        ensures
            r == self@.child_referenced(target as int),
    {
        let n = self.actions_offset();
        let mut i: usize = 0;
        while i < n
            invariant
                self.wf(),
                n == self@.actions_offset(),
                i <= n,
                forall|ii: int, jj: int|
                    0 <= ii < i && 0 <= jj < self@.ref_slots(ii, false).len() ==> #[trigger] self@.ref_slots(
                        ii,
                        false,
                    )[jj].value != target,
            decreases n - i,
        {
            match &self.item(i).child_idx {
                Some(v) => {
                    let mut j: usize = 0;
                    while j < v.len()
                        invariant
                            self.wf(),
                            n == self@.actions_offset(),
                            i < n,
                            v@ == self@.ref_slots(i as int, false),
                            forall|ii: int, jj: int|
                                0 <= ii < i && 0 <= jj < self@.ref_slots(ii, false).len()
                                    ==> #[trigger] self@.ref_slots(ii, false)[jj].value != target,
                            forall|jj: int| 0 <= jj < j ==> #[trigger] v@[jj].value != target,
                        decreases v.len() - j,
                    {
                        if v[j].value >= 0 && v[j].value as usize == target {
                            assert(self@.ref_slots(i as int, false)[j as int].value == target);
                            return true;
                        }
                        j = j + 1;
                    }
                },
                None => {},
            }
            i = i + 1;
        }
        false
    }

    /// The AI records that no AI record names as a child, in segment order.
    /// An AI record without a ChildIdx object is reported instead.
    pub fn roots(&self) -> (r: Result<Vec<usize>, ProgramError>)
        requires
            self.wf(),
        ensures
            match r {
                Ok(v) => self@.ais_have_children() && v@ == self@.roots(),
                Err(e) => !self@.ais_have_children() && e == ProgramError::MissingRequiredObject,
            },
    {
        if !self.ais_have_children() {
            return Err(ProgramError::MissingRequiredObject);
        }
        let n = self.actions_offset();
        let mut r: Vec<usize> = Vec::new();
        let mut i: usize = 0;
        while i < n
            invariant
                self.wf(),
                n == self@.actions_offset(),
                i <= n,
                r@ == self@.roots_upto(i as nat),
            decreases n - i,
        {
            if !self.is_child_referenced(i) {
                r.push(i);
            }
            i = i + 1;
        }
        Ok(r)
    }

    /// The non-negative child references of record `idx`, in order.
    pub(crate) fn child_targets_of(&self, idx: usize) -> (r: Vec<usize>)
        requires
            idx < self@.total(),
        ensures
            r@ == self@.kids(idx as int),
    {
        let mut r: Vec<usize> = Vec::new();
        match &self.item(idx).child_idx {
            Some(v) => {
                let mut j: usize = 0;
                while j < v.len()
                    invariant
                        j <= v@.len(),
                        r@ == child_targets(v@.subrange(0, j as int)),
                    decreases v.len() - j,
                {
                    assert(v@.subrange(0, j + 1).drop_last() =~= v@.subrange(0, j as int));
                    if v[j].value >= 0 {
                        r.push(v[j].value as usize);
                    }
                    j = j + 1;
                }
                assert(v@.subrange(0, v@.len() as int) =~= v@);
            },
            None => {},
        }
        r
    }
    /// The trees of the records `ks` below the ancestors marked in `on_path`.
    fn trees_of(
        &self,
        table: &Translations,
        ks: &Vec<usize>,
        on_path: &mut Vec<bool>,
        fuel: usize,
    ) -> (r: Result<Vec<Tree>, ProgramError>)
        requires
            self.wf(),
            old(on_path)@.len() == self@.total(),
        ensures
            final(on_path)@ == old(on_path)@,
            match r {
                Ok(ts) => self@.shapes_of(table@, ks@, marked(old(on_path)@), fuel as nat) matches Ok(
                    ss,
                ) && trees_are(ts@, ss),
                Err(e) => self@.shapes_of(table@, ks@, marked(old(on_path)@), fuel as nat) == Err::<
                    Seq<Shape>,
                    ProgramError,
                >(e),
            },
        decreases fuel, 1nat,
    {
        let ghost path = marked(on_path@);
        let ghost whole = self@.shapes_of(table@, ks@, path, fuel as nat);
        let ghost mut cs: Seq<Shape> = Seq::empty();
        let mut trees: Vec<Tree> = Vec::new();
        let mut j: usize = 0;
        assert(ks@.subrange(0, ks@.len() as int) =~= ks@);
        while j < ks.len()
            invariant
                self.wf(),
                j <= ks@.len(),
                on_path@ == old(on_path)@,
                path == marked(on_path@),
                on_path@.len() == self@.total(),
                whole == self@.shapes_of(table@, ks@, path, fuel as nat),
                whole == prepend(
                    cs,
                    self@.shapes_of(table@, ks@.subrange(j as int, ks@.len() as int), path, fuel as nat),
                ),
                trees_are(trees@, cs),
            decreases ks@.len() - j,
        {
            let ghost sub = ks@.subrange(j as int, ks@.len() as int);
            assert(sub[0] == ks@[j as int]);
            assert(sub.drop_first() =~= ks@.subrange(j + 1, ks@.len() as int));
            match self.ai_to_tree(table, ks[j], on_path, fuel) {
                Ok(t) => {
                    proof {
                        let s = self@.shape_of(table@, ks@[j as int], path, fuel as nat)->Ok_0;
                        assert(cs.push(s) + self@.shapes_of(table@, sub.drop_first(), path, fuel as nat)->Ok_0
                            =~= cs + (seq![s] + self@.shapes_of(table@, sub.drop_first(), path, fuel as nat)->Ok_0));
                        cs = cs.push(s);
                    }
                    trees.push(t);
                },
                Err(e) => {
                    return Err(e);
                },
            }
            j = j + 1;
        }
        assert(cs + Seq::<Shape>::empty() =~= cs);
        Ok(trees)
    }

    /// The tree of record `idx` below the ancestors marked in `on_path`.
    fn ai_to_tree(&self, table: &Translations, idx: usize, on_path: &mut Vec<bool>, fuel: usize) -> (r:
        Result<Tree, ProgramError>)
        requires
            self.wf(),
            old(on_path)@.len() == self@.total(),
        ensures
            final(on_path)@ == old(on_path)@,
            match r {
                Ok(t) => self@.shape_of(table@, idx, marked(old(on_path)@), fuel as nat) matches Ok(s)
                    && tree_is(t, s),
                Err(e) => self@.shape_of(table@, idx, marked(old(on_path)@), fuel as nat) == Err::<
                    Shape,
                    ProgramError,
                >(e),
            },
        decreases fuel, 0nat,
    {
        let ghost path = marked(on_path@);
        if idx >= self.len() {
            return Err(ProgramError::OutOfRange);
        }
        assert(path.contains(idx) == on_path@[idx as int]);
        if on_path[idx] || fuel == 0 {
            return Err(ProgramError::CycleDetected);
        }
        let name = match Self::entry_name(self.item(idx), table) {
            Ok(name) => name,
            Err(e) => {
                return Err(e);
            },
        };
        let kids = self.child_targets_of(idx);
        on_path.set(idx, true);
        assert(marked(on_path@) =~= path.insert(idx));
        let result = self.trees_of(table, &kids, on_path, fuel - 1);
        on_path.set(idx, false);
        assert(on_path@ =~= old(on_path)@);
        match result {
            Ok(children) => Ok(Tree(name, idx, children)),
            Err(e) => Err(e),
        }
    }

    /// The tree view: for each root, in root order, the tree that its child
    /// references span. An AI record without a ChildIdx object, a cycle on a
    /// path from a root, a child reference past the last record, or a record
    /// without a display name is an error.
    pub fn to_tree(&self, table: &Translations) -> (r: Result<Vec<Tree>, ProgramError>)
        requires
            self.wf(),
        ensures
            match r {
                Ok(ts) => self@.ais_have_children() && (self@.forest(table@) matches Ok(ss)
                    && trees_are(ts@, ss)),
                Err(e) => if self@.ais_have_children() {
                    self@.forest(table@) == Err::<Seq<Shape>, ProgramError>(e)
                } else {
                    e == ProgramError::MissingRequiredObject
                },
            },
    {
        let roots = match self.roots() {
            Ok(roots) => roots,
            Err(e) => {
                return Err(e);
            },
        };
        let n = self.len();
        let mut on_path: Vec<bool> = Vec::new();
        let mut i: usize = 0;
        while i < n
            invariant
                i <= n,
                on_path@.len() == i,
                forall|k: int| 0 <= k < i ==> !(#[trigger] on_path@[k]),
            decreases n - i,
        {
            on_path.push(false);
            i = i + 1;
        }
        assert(marked(on_path@) =~= Set::<usize>::empty());
        self.trees_of(table, &roots, &mut on_path, n)
    }
}

} // verus!
