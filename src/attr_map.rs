//! An association from attribute names to big integers, whose contents do
//! not depend on the order in which entries were inserted.
use vstd::prelude::*;

use crate::bignum::BigNumber;

verus! {

/// The map held by a sequence of entries; a later entry for a name replaces
/// an earlier one.
pub open spec fn entries_map(s: Seq<(String, BigNumber)>) -> Map<Seq<char>, nat>
    decreases s.len(),
{
    if s.len() == 0 {
        Map::empty()
    } else {
        entries_map(s.drop_last()).insert(s.last().0@, s.last().1@)
    }
}

/// Entries past `n` that do not name `k` leave its lookup as it was.
proof fn lemma_entries_tail(s: Seq<(String, BigNumber)>, n: int, k: Seq<char>)
    requires
        0 <= n <= s.len(),
        forall|j: int| n <= j < s.len() ==> (#[trigger] s[j]).0@ != k,
    ensures
        entries_map(s).contains_key(k) == entries_map(s.take(n)).contains_key(k),
        entries_map(s).contains_key(k) ==> entries_map(s)[k] == entries_map(s.take(n))[k],
    decreases s.len() - n,
{
    if n < s.len() {
        let t = s.drop_last();
        assert forall|j: int| n <= j < t.len() implies (#[trigger] t[j]).0@ != k by {
            assert(t[j] == s[j]);
        }
        lemma_entries_tail(t, n, k);
        assert(t.take(n) == s.take(n));
    } else {
        assert(s.take(n) == s);
    }
}

/// Entry sequences that agree on every name and number hold the same map.
proof fn lemma_entries_agree(s: Seq<(String, BigNumber)>, t: Seq<(String, BigNumber)>)
    requires
        s.len() == t.len(),
        forall|j: int| 0 <= j < s.len() ==> (#[trigger] s[j]).0@ == t[j].0@ && s[j].1@ == t[j].1@,
    ensures
        entries_map(s) == entries_map(t),
    decreases s.len(),
{
    if s.len() > 0 {
        let (a, b) = (s.drop_last(), t.drop_last());
        assert forall|j: int| 0 <= j < a.len() implies (#[trigger] a[j]).0@ == b[j].0@ && a[j].1@
            == b[j].1@ by {
            assert(a[j] == s[j] && b[j] == t[j]);
        }
        lemma_entries_agree(a, b);
        assert(s.last().0@ == t.last().0@ && s.last().1@ == t.last().1@);
    }
}

/// Attribute names mapped to big integers.
#[derive(Debug)]
pub struct AttrMap {
    entries: Vec<(String, BigNumber)>,
}

impl View for AttrMap {
    type V = Map<Seq<char>, nat>;

    closed spec fn view(&self) -> Map<Seq<char>, nat> {
        entries_map(self.entries@)
    }
}

impl AttrMap {
    /// The empty map.
    pub fn new() -> (r: AttrMap)
        ensures
            r@ == Map::<Seq<char>, nat>::empty(),
    {
        AttrMap { entries: Vec::new() }
    }

    /// Maps `name` to `value`, replacing what it was mapped to.
    pub fn insert(&mut self, name: String, value: BigNumber)
        ensures
            final(self)@ == old(self)@.insert(name@, value@),
    {
        let ghost k = name@;
        let ghost v = value@;
        self.entries.push((name, value));
        proof {
            assert(self.entries@.drop_last() == old(self).entries@);
        }
    }

    /// A copy holding the same map.
    pub fn copy(&self) -> (r: AttrMap)
        ensures
            r@ == self@,
    {
        let mut out: Vec<(String, BigNumber)> = Vec::new();
        let mut i: usize = 0;
        while i < self.entries.len()
            invariant
                i <= self.entries@.len(),
                out@.len() == i,
                forall|j: int|
                    0 <= j < i ==> (#[trigger] out@[j]).0@ == self.entries@[j].0@ && out@[j].1@
                        == self.entries@[j].1@,
            decreases self.entries@.len() - i,
        {
            let entry = &self.entries[i];
            out.push((entry.0.clone(), entry.1.copy()));
            i = i + 1;
        }
        proof {
            lemma_entries_agree(out@, self.entries@);
        }
        AttrMap { entries: out }
    }

    /// The number that `name` is mapped to, if any.
    pub fn get(&self, name: &String) -> (r: Option<&BigNumber>)
        ensures
            r is Some <==> self@.contains_key(name@),
            r matches Some(v) ==> v@ == self@[name@],
    {
        let mut i: usize = self.entries.len();
        while i > 0
            invariant
                i <= self.entries@.len(),
                forall|j: int| i <= j < self.entries@.len() ==> (#[trigger] self.entries@[j]).0@
                    != name@,
            decreases i,
        {
            if self.entries[i - 1].0 == *name {
                proof {
                    let s = self.entries@;
                    let t = s.take(i as int);
                    lemma_entries_tail(s, i as int, name@);
                    assert(t.last() == s[i - 1]);
                }
                return Some(&self.entries[i - 1].1);
            }
            i = i - 1;
        }
        proof {
            lemma_entries_tail(self.entries@, 0, name@);
            assert(self.entries@.take(0) == Seq::<(String, BigNumber)>::empty());
        }
        None
    }
}

} // verus!
