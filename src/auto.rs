//! Selection state and text matching for completing class names as they are typed.

use vstd::prelude::*;
use vstd::string::StringSliceAdditionalSpecFns;

verus! {

/// `needle` occurs in `hay` starting at byte `i`.
pub open spec fn occurs_at(hay: Seq<u8>, needle: Seq<u8>, i: int) -> bool {
    0 <= i && i + needle.len() <= hay.len() && hay.subrange(i, i + needle.len()) == needle
}

/// `needle` occurs somewhere in `hay`.
pub open spec fn occurs_in(hay: Seq<u8>, needle: Seq<u8>) -> bool {
    exists|i: int| #[trigger] occurs_at(hay, needle, i)
}

/// Whether `needle` occurs in `hay` at byte `i`.
fn matches_at(hay: &[u8], needle: &[u8], i: usize) -> (r: bool)
    requires
        i + needle@.len() <= hay@.len(),
    ensures
        r == occurs_at(hay@, needle@, i as int),
{
    let hl = hay.len();
    let mut k: usize = 0;
    while k < needle.len()
        invariant
            hl == hay@.len(),
            i + needle@.len() <= hay@.len(),
            k <= needle@.len(),
            forall|m: int| 0 <= m < k ==> hay@[i + m] == needle@[m],
        decreases needle@.len() - k,
    {
        if hay[i + k] != needle[k] {
            assert(hay@.subrange(i as int, i + needle@.len())[k as int] != needle@[k as int]);
            return false;
        }
        k = k + 1;
    }
    assert(hay@.subrange(i as int, i + needle@.len()) =~= needle@);
    true
}

/// Whether `needle` occurs in `hay`, byte for byte.
pub fn contains_text(hay: &str, needle: &str) -> (r: bool)
    ensures
        r == occurs_in(hay.spec_bytes(), needle.spec_bytes()),
{
    let h = hay.as_bytes();
    let n = needle.as_bytes();
    let hl = h.len();
    let nl = n.len();
    if nl > hl {
        assert forall|i: int| !occurs_at(h@, n@, i) by {}
        return false;
    }
    let last = hl - nl;
    let mut i: usize = 0;
    while i <= last
        invariant
            h@ == hay.spec_bytes(),
            n@ == needle.spec_bytes(),
            hl == h@.len(),
            nl == n@.len(),
            last == hl - nl,
            forall|j: int| 0 <= j < i ==> !occurs_at(h@, n@, j),
        decreases last + 1 - i,
    {
        if matches_at(h, n, i) {
            assert(occurs_at(h@, n@, i as int));
            return true;
        }
        if i == last {
            assert forall|j: int| !occurs_at(h@, n@, j) by {
                if 0 <= j && j + n@.len() <= h@.len() {
                    assert(j <= i);
                }
            }
            return false;
        }
        i = i + 1;
    }
    false
}

/// The byte range of the last occurrence of `sub` in `parent`; the empty
/// range at the end of `parent` where `sub` does not occur.
pub fn str_range(parent: &str, sub: &str) -> (r: core::ops::Range<usize>)
    ensures
        occurs_in(parent.spec_bytes(), sub.spec_bytes()) ==> {
            &&& occurs_at(parent.spec_bytes(), sub.spec_bytes(), r.start as int)
            &&& r.end == r.start + sub.spec_bytes().len()
            &&& forall|j: int| r.start < j ==> !occurs_at(parent.spec_bytes(), sub.spec_bytes(), j)
        },
        !occurs_in(parent.spec_bytes(), sub.spec_bytes()) ==> r.start == parent.spec_bytes().len()
            && r.end == parent.spec_bytes().len(),
{
    let h = parent.as_bytes();
    let n = sub.as_bytes();
    let hl = h.len();
    let nl = n.len();
    if nl > hl {
        assert forall|i: int| !occurs_at(h@, n@, i) by {}
        return hl..hl;
    }
    let last = hl - nl;
    if matches_at(h, n, last) {
        assert(occurs_at(h@, n@, last as int));
        return last..hl;
    }
    let mut i: usize = last;
    while i > 0
        invariant
            h@ == parent.spec_bytes(),
            n@ == sub.spec_bytes(),
            hl == h@.len(),
            nl == n@.len(),
            last == hl - nl,
            i <= last,
            forall|j: int| i <= j ==> !occurs_at(h@, n@, j),
        decreases i,
    {
        if matches_at(h, n, i - 1) {
            let start = i - 1;
            assert(occurs_at(h@, n@, start as int));
            return start..start + nl;
        }
        i = i - 1;
    }
    assert forall|j: int| !occurs_at(h@, n@, j) by {}
    hl..hl
}

/// Which candidates contain `last`: how many do, and the position among
/// them of the last one that equals it, where one does.
pub fn match_candidates(candidates: &Vec<&str>, last: &str) -> (r: (usize, Option<usize>))
    ensures
        r.0 == count_containing(candidates@, last.spec_bytes(), candidates@.len() as int),
        r.0 <= candidates@.len(),
        match r.1 {
            Some(k) => exists|i: int|
                0 <= i < candidates@.len() && candidates@[i].spec_bytes() == last.spec_bytes() && k
                    == count_containing(candidates@, last.spec_bytes(), i) && forall|j: int|
                    i < j < candidates@.len() ==> candidates@[j].spec_bytes() != last.spec_bytes(),
            None => forall|i: int|
                0 <= i < candidates@.len() ==> candidates@[i].spec_bytes() != last.spec_bytes(),
        },
{
    let mut count: usize = 0;
    let mut exact: Option<usize> = None;
    let mut i: usize = 0;
    while i < candidates.len()
        invariant
            i <= candidates@.len(),
            count == count_containing(candidates@, last.spec_bytes(), i as int),
            count <= i,
            match exact {
                Some(k) => exists|ii: int|
                    0 <= ii < i && candidates@[ii].spec_bytes() == last.spec_bytes() && k
                        == count_containing(candidates@, last.spec_bytes(), ii) && forall|j: int|
                        ii < j < i ==> candidates@[j].spec_bytes() != last.spec_bytes(),
                None => forall|ii: int| 0 <= ii < i ==> candidates@[ii].spec_bytes() != last.spec_bytes(),
            },
        decreases candidates@.len() - i,
    {
        let c = candidates[i];
        let same = same_text(c, last);
        if same {
            exact = Some(count);
        }
        if contains_text(c, last) {
            count = count + 1;
        }
        i = i + 1;
    }
    (count, exact)
}

/// How many of the first `k` candidates contain `needle`.
pub open spec fn count_containing(cs: Seq<&str>, needle: Seq<u8>, k: int) -> nat
    decreases k,
{
    if k <= 0 {
        0
    } else {
        count_containing(cs, needle, k - 1) + if occurs_in(cs[k - 1].spec_bytes(), needle) {
            1nat
        } else {
            0nat
        }
    }
}

/// Whether two texts hold the same bytes.
fn same_text(a: &str, b: &str) -> (r: bool)
    ensures
        r == (a.spec_bytes() == b.spec_bytes()),
{
    let x = a.as_bytes();
    let y = b.as_bytes();
    if x.len() != y.len() {
        assert(x@.len() != y@.len());
        return false;
    }
    let mut k: usize = 0;
    while k < x.len()
        invariant
            x@ == a.spec_bytes(),
            y@ == b.spec_bytes(),
            x@.len() == y@.len(),
            k <= x@.len(),
            forall|m: int| 0 <= m < k ==> x@[m] == y@[m],
        decreases x@.len() - k,
    {
        if x[k] != y[k] {
            assert(x@[k as int] != y@[k as int]);
            return false;
        }
        k = k + 1;
    }
    assert(x@ =~= y@);
    true
}

/// Which suggestion is selected, and whether the input changed this frame.
pub struct AcState {
    select: Option<usize>,
    pub input_changed: bool,
}

impl Default for AcState {
    fn default() -> (r: Self)
        ensures
            r.selected() == Some(0usize),
            r.changed(),
    {
        AcState { select: Some(0), input_changed: true }
    }
}

impl AcState {
    /// The selected position, for contracts.
    pub closed spec fn selected(&self) -> Option<usize> {
        self.select
    }

    /// Whether the input changed this frame, for contracts.
    pub closed spec fn changed(&self) -> bool {
        self.input_changed
    }

    /// The selected position among the matching suggestions; none above the first.
    pub fn selection(&self) -> (r: Option<usize>)
        ensures
            r == self.selected(),
    {
        self.select
    }

    /// Applies the arrow keys: down moves the selection one on (to the first
    /// where nothing is selected), up moves it one back, or to nothing from
    /// the first. With nothing selected, changed input selects the first.
    pub fn on_keys(&mut self, down: bool, up: bool)
        ensures
            final(self).changed() == old(self).changed(),
            final(self).selected() == ({
                let s1 = if down {
                    match old(self).selected() {
                        None => Some(0usize),
                        Some(s) => Some(if s < usize::MAX { (s + 1) as usize } else { s }),
                    }
                } else {
                    old(self).selected()
                };
                match s1 {
                    Some(s) => if up {
                        if s > 0 { Some((s - 1) as usize) } else { None }
                    } else {
                        Some(s)
                    },
                    None => if old(self).changed() { Some(0usize) } else { None },
                }
            }),
    {
        if down {
            self.select = match self.select {
                None => Some(0),
                Some(s) => Some(if s < usize::MAX { s + 1 } else { s }),
            };
        }
        match self.select {
            Some(s) => {
                if up {
                    self.select = if s > 0 {
                        Some(s - 1)
                    } else {
                        None
                    };
                }
            },
            None => {
                if self.input_changed {
                    self.select = Some(0);
                }
            },
        }
    }

    /// Fits the selection to `len` matching suggestions: on changed input an
    /// exact match is selected, and a selection past the last match moves to it.
    pub fn fit_to_matches(&mut self, len: usize, exact: Option<usize>)
        ensures
            final(self).changed() == old(self).changed(),
            final(self).selected() == ({
                let s1 = match exact {
                    Some(k) => if old(self).changed() { Some(k) } else { old(self).selected() },
                    None => old(self).selected(),
                };
                match s1 {
                    Some(s) => if len > 0 && s >= len { Some((len - 1) as usize) } else { Some(s) },
                    None => None,
                }
            }),
    {
        match exact {
            Some(k) => {
                if self.input_changed {
                    self.select = Some(k);
                }
            },
            None => {},
        }
        match self.select {
            Some(s) => {
                if len > 0 && s >= len {
                    self.select = Some(len - 1);
                }
            },
            None => {},
        }
    }
}

} // verus!
