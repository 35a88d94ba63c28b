//! Hashed parameter names and the translation table used for display names.

use vstd::prelude::*;
use vstd::string::StringExecFns;

use crate::program::{category_label, Category};

verus! {

/// The 32-bit key under which a parameter name is stored.
pub uninterp spec fn name_hash(s: Seq<char>) -> u32;

/// Relies on `roead::aamp::hash_name`: the key of a name depends on its characters alone.
#[verifier::external_body]
pub(crate) fn hash_name(s: &str) -> (r: u32)
    ensures
        r == name_hash(s@),
{
    roead::aamp::hash_name(s)
}

/// The decimal digit for `d < 10`.
pub open spec fn digit_char(d: nat) -> char {
    seq!['0', '1', '2', '3', '4', '5', '6', '7', '8', '9'][d as int]
}

/// Decimal representation of a natural number, without leading zeros.
pub open spec fn decimal(n: nat) -> Seq<char>
    decreases n,
{
    if n < 10 {
        seq![digit_char(n)]
    } else {
        decimal(n / 10) + seq![digit_char(n % 10)]
    }
}

/// The synthetic slot name `"<prefix>_<n>"`.
pub open spec fn numbered_name(prefix: Seq<char>, n: nat) -> Seq<char> {
    prefix + seq!['_'] + decimal(n)
}

/// Relies on `format!`: `{}` writes a `usize` in decimal without leading zeros.
#[verifier::external_body]
fn decimal_string(n: usize) -> (r: String)
    ensures
        r@ == decimal(n as nat),
{
    format!("{}", n)
}

/// The synthetic slot name `"<prefix>_<n>"`.
pub fn numbered_name_string(prefix: &str, n: usize) -> (r: String)
    ensures
        r@ == numbered_name(prefix@, n as nat),
{
    let digits = decimal_string(n);
    let mut s = <String as StringExecFns>::from_str(prefix);
    proof {
        reveal_strlit("_");
    }
    s.append("_");
    s.append(digits.as_str());
    s
}

/// The segment searched at step `m` of the numbered-name search: segments
/// in order AI, Action, Behavior, Query for each number in turn.
pub open spec fn search_category(m: nat) -> Category {
    if m % 4 == 0 {
        Category::AI
    } else if m % 4 == 1 {
        Category::Action
    } else if m % 4 == 2 {
        Category::Behaviour
    } else {
        Category::Query
    }
}

/// The name tried at step `m` of the numbered-name search.
pub open spec fn search_name(m: nat) -> Seq<char> {
    numbered_name(category_label(search_category(m)), m / 4)
}

/// Number of names the numbered-name search tries: numbers 0 to 1000 for
/// each of the four segments.
pub open spec fn search_len() -> nat {
    4004
}

/// The first synthetic slot name `"<Segment>_<n>"`, `n <= 1000`, whose key is
/// `key`; the key in decimal where there is none.
pub fn try_numbered_name(key: u32) -> (r: String)
    ensures
        (exists|m: nat| m < search_len() && name_hash(#[trigger] search_name(m)) == key) ==> exists|m: nat|
            m < search_len() && name_hash(#[trigger] search_name(m)) == key && r@ == search_name(m)
                && forall|m2: nat| m2 < m ==> name_hash(#[trigger] search_name(m2)) != key,
        !(exists|m: nat| m < search_len() && name_hash(#[trigger] search_name(m)) == key) ==> r@ == decimal(
            key as nat,
        ),
{
    let cats = [Category::AI, Category::Action, Category::Behaviour, Category::Query];
    let mut i: usize = 0;
    while i <= 1000
        invariant
            i <= 1001,
            cats@ == seq![Category::AI, Category::Action, Category::Behaviour, Category::Query],
            forall|m2: nat| m2 < 4 * i ==> name_hash(#[trigger] search_name(m2)) != key,
        decreases 1001 - i,
    {
        let mut c: usize = 0;
        while c < 4
            invariant
                i <= 1000,
                c <= 4,
                cats@ == seq![Category::AI, Category::Action, Category::Behaviour, Category::Query],
                forall|m2: nat| m2 < 4 * i + c ==> name_hash(#[trigger] search_name(m2)) != key,
            decreases 4 - c,
        {
            let m: Ghost<nat> = Ghost((4 * i + c) as nat);
            assert(search_category(m@) == cats@[c as int]);
            assert(m@ / 4 == i);
            let name = numbered_name_string(cats[c].label(), i);
            assert(name@ == search_name(m@));
            if hash_name(name.as_str()) == key {
                return name;
            }
            c = c + 1;
        }
        i = i + 1;
    }
    decimal_string(key as usize)
}

/// Key of the synthetic slot name `"<prefix>_<n>"`.
pub fn numbered_key(prefix: &str, n: usize) -> (r: u32)
    ensures
        r == name_hash(numbered_name(prefix@, n as nat)),
{
    let s = numbered_name_string(prefix, n);
    hash_name(s.as_str())
}

/// What `s` reads as after translation through `table`: the target of the
/// pair whose source is `s` (the last one, should there be several), or `s`
/// itself where none is.
pub open spec fn translated(table: Seq<(Seq<char>, Seq<char>)>, s: Seq<char>) -> Seq<char>
    decreases table.len(),
{
    if table.len() == 0 {
        s
    } else if table.last().0 == s {
        table.last().1
    } else {
        translated(table.drop_last(), s)
    }
}

/// A localisation table from source names to display names.
#[derive(Debug, Clone)]
pub struct Translations {
    pairs: Vec<(String, String)>,
}

impl View for Translations {
    type V = Seq<(Seq<char>, Seq<char>)>;

    closed spec fn view(&self) -> Seq<(Seq<char>, Seq<char>)> {
        self.pairs@.map_values(|p: (String, String)| (p.0@, p.1@))
    }
}

impl Translations {
    /// No source name appears in two pairs.
    pub open spec fn wf(&self) -> bool {
        forall|i: int, j: int| 0 <= i < j < self@.len() ==> self@[i].0 != self@[j].0
    }

    /// An empty table: every name reads as itself.
    pub fn new() -> (r: Self)
        ensures
            r.wf(),
            r@ == Seq::<(Seq<char>, Seq<char>)>::empty(),
    {
        let r = Translations { pairs: Vec::new() };
        assert(r@ =~= Seq::<(Seq<char>, Seq<char>)>::empty());
        r
    }

    /// Maps `from` to `to`, replacing the pair of `from` where there is one.
    pub fn insert(&mut self, from: String, to: String)
        requires
            old(self).wf(),
        ensures
            final(self).wf(),
            (exists|k: int| 0 <= k < old(self)@.len() && old(self)@[k].0 == from@) ==> exists|k: int|
                0 <= k < old(self)@.len() && old(self)@[k].0 == from@ && final(self)@ == old(self)@.update(
                    k,
                    (from@, to@),
                ),
            !(exists|k: int| 0 <= k < old(self)@.len() && old(self)@[k].0 == from@) ==> final(self)@
                == old(self)@.push((from@, to@)),
    {
        let mut k: usize = 0;
        while k < self.pairs.len()
            invariant
                self.wf(),
                *self == *old(self),
                k <= self@.len(),
                self@.len() == self.pairs@.len(),
                forall|m: int| 0 <= m < k ==> self@[m].0 != from@,
            decreases self.pairs@.len() - k,
        {
            assert(self@[k as int] == (self.pairs@[k as int].0@, self.pairs@[k as int].1@));
            if self.pairs[k].0 == from {
                let ghost before = self@;
                self.pairs.set(k, (from, to));
                assert(self@ =~= before.update(k as int, (from@, to@)));
                return;
            }
            k = k + 1;
        }
        self.pairs.push((from, to));
        assert(self@ =~= old(self)@.push((from@, to@)));
    }

    /// The display name of `s`.
    pub fn translate(&self, s: &String) -> (r: String)
        ensures
            r@ == translated(self@, s@),
    {
        assert(self@.subrange(0, self.pairs@.len() as int) =~= self@);
        let mut i: usize = self.pairs.len();
        while i > 0
            invariant
                i <= self.pairs@.len(),
                translated(self@, s@) == translated(self@.subrange(0, i as int), s@),
            decreases i,
        {
            let ghost sub = self@.subrange(0, i as int);
            assert(sub.drop_last() =~= self@.subrange(0, i - 1));
            assert(sub.last() == (self.pairs@[i - 1].0@, self.pairs@[i - 1].1@));
            if self.pairs[i - 1].0 == *s {
                return self.pairs[i - 1].1.clone();
            }
            i = i - 1;
        }
        assert(self@.subrange(0, 0) =~= Seq::<(Seq<char>, Seq<char>)>::empty());
        s.clone()
    }
}

} // verus!
