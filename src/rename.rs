//! Propagation of a record's new name to the GroupName of the records below it.

use vstd::prelude::*;

use crate::program::{AIProgram, Def, Entry, ProgramError, ProgramView};
use crate::tree::child_targets;

verus! {

/// The Name of a record, or the empty name where it has none.
pub open spec fn name_or_empty<T>(e: Entry<T>) -> Seq<char> {
    match e.def {
        Some(d) => match d.name {
            Some(n) => n@,
            None => Seq::empty(),
        },
        None => Seq::empty(),
    }
}

/// Number of marked places.
pub open spec fn count_marked(s: Seq<bool>) -> nat
    decreases s.len(),
{
    if s.len() == 0 {
        0
    } else {
        count_marked(s.drop_last()) + if s.last() { 1nat } else { 0nat }
    }
}

proof fn lemma_count_marked_bound(s: Seq<bool>)
    ensures
        count_marked(s) <= s.len(),
    decreases s.len(),
{
    if s.len() > 0 {
        lemma_count_marked_bound(s.drop_last());
    }
}

proof fn lemma_count_marked_update(s: Seq<bool>, k: int)
    requires
        0 <= k < s.len(),
        !s[k],
    ensures
        count_marked(s.update(k, true)) == count_marked(s) + 1,
    decreases s.len(),
{
    let t = s.update(k, true);
    if k == s.len() - 1 {
        assert(t.drop_last() =~= s.drop_last());
    } else {
        assert(t.drop_last() =~= s.drop_last().update(k, true));
        lemma_count_marked_update(s.drop_last(), k);
    }
}

proof fn lemma_count_marked_none(s: Seq<bool>)
    requires
        forall|k: int| 0 <= k < s.len() ==> !s[k],
    ensures
        count_marked(s) == 0,
    decreases s.len(),
{
    if s.len() > 0 {
        lemma_count_marked_none(s.drop_last());
    }
}

/// A walk that starts in a set of records closed under child references
/// stays in it.
proof fn lemma_walk_stays<T>(p: ProgramView<T>, s: Seq<usize>, order: Seq<usize>)
    requires
        p.is_walk(s),
        order.contains(s[0]),
        forall|k: int, j: int|
            0 <= k < order.len() && 0 <= j < p.kids(order[k] as int).len() ==> order.contains(
                #[trigger] p.kids(order[k] as int)[j],
            ),
    ensures
        order.contains(s.last()),
    decreases s.len(),
{
    if s.len() >= 2 {
        let t = s.drop_last();
        assert forall|i: int| 0 <= i < t.len() - 1 implies #[trigger] p.step(t[i], t[i + 1]) by {
            assert(t[i] == s[i] && t[i + 1] == s[i + 1]);
            assert(p.step(s[i], s[i + 1]));
        }
        lemma_walk_stays(p, t, order);
        let prev = s[s.len() - 2];
        assert(p.step(s[s.len() - 2], s[s.len() - 2 + 1]));
        let k = choose|k: int| 0 <= k < order.len() && order[k] == prev;
        let j = choose|j: int| 0 <= j < p.kids(prev as int).len() && p.kids(prev as int)[j] == s.last();
        assert(order.contains(p.kids(order[k] as int)[j]));
    }
}

impl<T> ProgramView<T> {
    /// `s` is a walk along child references: each record but the last lies in
    /// the program and names the next one as a child.
    pub open spec fn is_walk(self, s: Seq<usize>) -> bool {
        &&& s.len() >= 1
        &&& forall|i: int| 0 <= i < s.len() - 1 ==> #[trigger] self.step(s[i], s[i + 1])
    }

    /// Record `a` lies in the program and names `b` as a child.
    pub open spec fn step(self, a: usize, b: usize) -> bool {
        a < self.total() && self.kids(a as int).contains(b)
    }

    /// Following child references from `from` leads to `to` (in zero or more steps).
    pub open spec fn reaches(self, from: usize, to: usize) -> bool {
        exists|s: Seq<usize>| self.is_walk(s) && s[0] == from && s.last() == to
    }

    /// `new` is `e` with its Def's GroupName (and, for `name`, its Name) replaced.
    pub open spec fn renamed(e: Entry<T>, new: Entry<T>, name: Option<Seq<char>>, group: Seq<char>) -> bool {
        &&& new.key == e.key
        &&& new.child_idx == e.child_idx
        &&& new.behavior_idx == e.behavior_idx
        &&& new.rest == e.rest
        &&& e.def is Some
        &&& new.def is Some
        &&& new.def->Some_0.class_name == e.def->Some_0.class_name
        &&& new.def->Some_0.group_name is Some
        &&& new.def->Some_0.group_name->Some_0@ == group
        &&& match name {
            Some(n) => new.def->Some_0.name is Some && new.def->Some_0.name->Some_0@ == n,
            None => new.def->Some_0.name == e.def->Some_0.name,
        }
    }

    /// `new` is this program after record `idx` is named `child` in group
    /// `parent`: every other record reached through child references gets as
    /// GroupName the name of a record that reaches it and names it as a child,
    /// and nothing else changes.
    pub open spec fn after_rename(self, idx: usize, child: Seq<char>, parent: Seq<char>, new: ProgramView<T>) -> bool {
        &&& new.n_ais == self.n_ais
        &&& new.n_actions == self.n_actions
        &&& new.n_behaviors == self.n_behaviors
        &&& new.demos == self.demos
        &&& new.items.len() == self.items.len()
        &&& Self::renamed(self.items[idx as int], new.items[idx as int], Some(child), parent)
        &&& forall|i: usize|
            i < self.total() && !self.reaches(idx, i) ==> #[trigger] new.items[i as int] == self.items[i as int]
        &&& forall|i: usize|
            #![trigger self.reaches(idx, i)]
            i < self.total() && i != idx && self.reaches(idx, i) ==> exists|q: usize|
                q < self.total() && self.reaches(idx, q) && #[trigger] self.kids(q as int).contains(i)
                    && Self::renamed(
                    self.items[i as int],
                    #[trigger] new.items[i as int],
                    None,
                    if q == idx { child } else { name_or_empty(self.items[q as int]) },
                )
    }
}

impl<T> AIProgram<T> {
    /// Names record `idx` `child` in group `parent`, then gives every record
    /// reached from it through child references the name of the record that
    /// reached it as GroupName. Each record is visited once, so cycles end the
    /// walk. Nothing changes where a reached child index lies past the last
    /// record or a reached record has no Def.
    pub fn update_names(&mut self, idx: usize, child: String, parent: String) -> (r: Result<(), ProgramError>)
        requires
            old(self).wf(),
        ensures
            final(self).wf(),
            match r {
                Ok(_) => {
                    &&& idx < old(self)@.total()
                    &&& forall|i: usize| #[trigger] old(self)@.reaches(idx, i) ==> i < old(self)@.total()
                    &&& old(self)@.after_rename(idx, child@, parent@, final(self)@)
                },
                Err(e) => {
                    &&& final(self)@ == old(self)@
                    &&& (e == ProgramError::OutOfRange && (idx >= old(self)@.total() || exists|i: usize|
                        i >= old(self)@.total() && #[trigger] old(self)@.reaches(idx, i))) || (e
                        == ProgramError::MissingRequiredObject && exists|i: usize|
                        i < old(self)@.total() && #[trigger] old(self)@.reaches(idx, i)
                            && old(self)@.items[i as int].def is None)
                },
            },
    {
        let n = self.len();
        if idx >= n {
            return Err(ProgramError::OutOfRange);
        }
        let ghost p = self@;
        let mut visited: Vec<bool> = Vec::new();
        let mut i: usize = 0;
        while i < n
            invariant
                i <= n,
                visited@.len() == i,
                forall|k: int| 0 <= k < i ==> !(#[trigger] visited@[k]),
            decreases n - i,
        {
            visited.push(false);
            i = i + 1;
        }
        proof {
            lemma_count_marked_none(visited@);
            lemma_count_marked_update(visited@, idx as int);
        }
        visited.set(idx, true);
        let mut order: Vec<usize> = Vec::new();
        order.push(idx);
        let mut par: Vec<usize> = Vec::new();
        par.push(0);
        let mut groups: Vec<String> = Vec::new();
        groups.push(parent.clone());
        let ghost mut walks: Seq<Seq<usize>> = seq![seq![idx]];
        assert(order@[0] == idx);
        assert(p.is_walk(seq![idx]));
        let mut h: usize = 0;
        while h < order.len()
            invariant
                p == self@,
                self.wf(),
                n == p.total(),
                idx < n,
                visited@.len() == n,
                order@.len() == count_marked(visited@),
                order@.len() >= 1,
                order@[0] == idx,
                h <= order@.len(),
                par@.len() == order@.len(),
                groups@.len() == order@.len(),
                walks.len() == order@.len(),
                groups@[0]@ == parent@,
                forall|k: int| 0 <= k < order@.len() ==> #[trigger] order@[k] < n && visited@[order@[k] as int],
                forall|i: int| 0 <= i < n && #[trigger] visited@[i] ==> order@.contains(i as usize),
                forall|a: int, b: int| 0 <= a < b < order@.len() ==> order@[a] != order@[b],
                forall|k: int|
                    0 <= k < order@.len() ==> p.is_walk(#[trigger] walks[k]) && walks[k][0] == idx
                        && walks[k].last() == order@[k],
                forall|k: int|
                    1 <= k < order@.len() ==> #[trigger] par@[k] < k && p.kids(order@[par@[k] as int] as int).contains(
                        order@[k],
                    ) && groups@[k]@ == if par@[k] == 0 {
                        child@
                    } else {
                        name_or_empty(p.items[order@[par@[k] as int] as int])
                    },
                forall|k: int| 0 <= k < h ==> (#[trigger] p.items[order@[k] as int]).def is Some,
                forall|k: int, j: int|
                    0 <= k < h && 0 <= j < p.kids(order@[k] as int).len() ==> #[trigger] p.kids(
                        order@[k] as int,
                    )[j] < n && visited@[p.kids(order@[k] as int)[j] as int],
            decreases n - h,
        {
            proof {
                lemma_count_marked_bound(visited@);
            }
            let cur = order[h];
            let ghost walk = walks[h as int];
            if self.item(cur).def.is_none() {
                assert(p.reaches(idx, cur));
                return Err(ProgramError::MissingRequiredObject);
            }
            let cur_name = match &self.item(cur).def {
                Some(d) => match &d.name {
                    Some(nm) => nm.clone(),
                    None => String::new(),
                },
                None => String::new(),
            };
            let group = if h == 0 {
                child.clone()
            } else {
                cur_name
            };
            assert(group@ == if h == 0 { child@ } else { name_or_empty(p.items[cur as int]) });
            let kids = self.child_targets_of(cur);
            let mut j: usize = 0;
            while j < kids.len()
                invariant
                    p == self@,
                    self.wf(),
                    n == p.total(),
                    idx < n,
                    h < order@.len(),
                    cur == order@[h as int],
                    walk == walks[h as int],
                    kids@ == p.kids(cur as int),
                    group@ == if h == 0 { child@ } else { name_or_empty(p.items[cur as int]) },
                    j <= kids@.len(),
                    visited@.len() == n,
                    order@.len() == count_marked(visited@),
                    order@.len() >= 1,
                    order@[0] == idx,
                    par@.len() == order@.len(),
                    groups@.len() == order@.len(),
                    walks.len() == order@.len(),
                    groups@[0]@ == parent@,
                    forall|k: int| 0 <= k < order@.len() ==> #[trigger] order@[k] < n && visited@[order@[k] as int],
                    forall|i: int| 0 <= i < n && #[trigger] visited@[i] ==> order@.contains(i as usize),
                    forall|a: int, b: int| 0 <= a < b < order@.len() ==> order@[a] != order@[b],
                    forall|k: int|
                        0 <= k < order@.len() ==> p.is_walk(#[trigger] walks[k]) && walks[k][0] == idx
                            && walks[k].last() == order@[k],
                    forall|k: int|
                        1 <= k < order@.len() ==> #[trigger] par@[k] < k && p.kids(
                            order@[par@[k] as int] as int,
                        ).contains(order@[k]) && groups@[k]@ == if par@[k] == 0 {
                            child@
                        } else {
                            name_or_empty(p.items[order@[par@[k] as int] as int])
                        },
                    forall|k: int| 0 <= k <= h ==> (#[trigger] p.items[order@[k] as int]).def is Some,
                    forall|k: int, jj: int|
                        0 <= k < h && 0 <= jj < p.kids(order@[k] as int).len() ==> #[trigger] p.kids(
                            order@[k] as int,
                        )[jj] < n && visited@[p.kids(order@[k] as int)[jj] as int],
                    forall|jj: int| 0 <= jj < j ==> #[trigger] kids@[jj] < n && visited@[kids@[jj] as int],
                decreases kids@.len() - j,
            {
                let kid = kids[j];
                let ghost next_walk = walk.push(kid);
                proof {
                    assert(p.kids(cur as int).contains(kid)) by {
                        assert(p.kids(cur as int)[j as int] == kid);
                    }
                    assert forall|i: int| 0 <= i < next_walk.len() - 1 implies #[trigger] p.step(
                        next_walk[i],
                        next_walk[i + 1],
                    ) by {
                        if i < walk.len() - 1 {
                            assert(next_walk[i] == walk[i] && next_walk[i + 1] == walk[i + 1]);
                            assert(p.step(walk[i], walk[i + 1]));
                        } else {
                            assert(next_walk[i] == cur && next_walk[i + 1] == kid);
                        }
                    }
                    assert(p.is_walk(next_walk));
                    assert(next_walk[0] == idx && next_walk.last() == kid);
                }
                if kid >= n {
                    assert(p.reaches(idx, kid));
                    return Err(ProgramError::OutOfRange);
                }
                if !visited[kid] {
                    proof {
                        lemma_count_marked_update(visited@, kid as int);
                    }
                    let ghost prev = order@;
                    visited.set(kid, true);
                    order.push(kid);
                    par.push(h);
                    groups.push(group.clone());
                    proof {
                        walks = walks.push(next_walk);
                        assert forall|x: usize| prev.contains(x) implies order@.contains(x) by {
                            let k = choose|k: int| 0 <= k < prev.len() && prev[k] == x;
                            assert(order@[k] == x);
                        }
                        assert(order@[order@.len() - 1] == kid);
                        assert(order@.contains(kid));
                    }
                }
                j = j + 1;
            }
            h = h + 1;
        }
        proof {
            assert forall|k: int, jj: int|
                0 <= k < order@.len() && 0 <= jj < p.kids(order@[k] as int).len() implies order@.contains(
                #[trigger] p.kids(order@[k] as int)[jj],
            ) by {
                assert(visited@[p.kids(order@[k] as int)[jj] as int]);
            }
        }
        let ghost final_order = order@;
        let mut k: usize = 0;
        while k < order.len()
            invariant
                n == p.total(),
                idx < n,
                order@ == final_order,
                order@.len() == groups@.len(),
                order@[0] == idx,
                groups@[0]@ == parent@,
                k <= order@.len(),
                forall|m: int| 0 <= m < order@.len() ==> #[trigger] order@[m] < n,
                forall|m: int| 0 <= m < order@.len() ==> (#[trigger] p.items[order@[m] as int]).def is Some,
                forall|a: int, b: int| 0 <= a < b < order@.len() ==> order@[a] != order@[b],
                self@.n_ais == p.n_ais,
                self@.n_actions == p.n_actions,
                self@.n_behaviors == p.n_behaviors,
                self@.demos == p.demos,
                self@.items.len() == n,
                forall|m: int|
                    0 <= m < k ==> ProgramView::<T>::renamed(
                        p.items[order@[m] as int],
                        #[trigger] self@.items[order@[m] as int],
                        if m == 0 { Some(child@) } else { None },
                        groups@[m]@,
                    ),
                forall|i: int|
                    0 <= i < n && (forall|m: int| 0 <= m < k ==> order@[m] != i) ==> #[trigger] self@.items[i]
                        == p.items[i],
            decreases order@.len() - k,
        {
            let target = order[k];
            let g = groups[k].clone();
            assert(self@.items[target as int] == p.items[target as int]);
            let e = self.item_mut(target);
            match e.def.take() {
                Some(d) => {
                    let name = if k == 0 {
                        Some(child.clone())
                    } else {
                        d.name
                    };
                    e.def = Some(Def { name, class_name: d.class_name, group_name: Some(g) });
                },
                None => {},
            }
            k = k + 1;
        }
        proof {
            let after = self@;
            assert(ProgramView::<T>::renamed(
                p.items[order@[0] as int],
                after.items[order@[0] as int],
                Some(child@),
                groups@[0]@,
            ));
            assert forall|i: usize| #[trigger] p.reaches(idx, i) implies i < n && order@.contains(i) by {
                let s = choose|s: Seq<usize>| p.is_walk(s) && s[0] == idx && s.last() == i;
                assert(order@[0] == idx);
                lemma_walk_stays(p, s, order@);
            }
            assert forall|i: usize| i < n && !p.reaches(idx, i) implies #[trigger] after.items[i as int]
                == p.items[i as int] by {
                assert forall|m: int| 0 <= m < order@.len() implies order@[m] != i by {
                    if order@[m] == i {
                        assert(p.is_walk(walks[m]));
                        assert(p.reaches(idx, i));
                    }
                }
            }
            assert forall|i: usize|
                #![trigger p.reaches(idx, i)]
                i < n && i != idx && p.reaches(idx, i) implies exists|qq: usize|
                qq < p.total() && p.reaches(idx, qq) && #[trigger] p.kids(qq as int).contains(i)
                    && ProgramView::<T>::renamed(
                    p.items[i as int],
                    #[trigger] after.items[i as int],
                    None,
                    if qq == idx { child@ } else { name_or_empty(p.items[qq as int]) },
                ) by {
                let m = choose|m: int| 0 <= m < order@.len() && order@[m] == i;
                assert(m != 0);
                let pm = par@[m] as int;
                let qq = order@[pm];
                assert(p.is_walk(walks[pm]));
                assert(p.reaches(idx, qq));
                assert(qq == idx <==> pm == 0) by {
                    if pm != 0 {
                        assert(order@[0] != order@[pm]);
                    }
                }
                assert(ProgramView::<T>::renamed(p.items[order@[m] as int], after.items[order@[m] as int], None, groups@[m]@));
            }
            assert(p.after_rename(idx, child@, parent@, after));
        }
        Ok(())
    }
}

} // verus!
