//! A map from addresses, kept sorted by address.

use crate::pubkey::Pubkey;
use vstd::prelude::*;

verus! {

/// Entries with distinct addresses, in ascending order of address.
pub struct PubkeyMap<V> {
    entries: Vec<(Pubkey, V)>,
}

/// Whether the addresses ascend, so that none occurs twice.
pub open spec fn ascending<V>(s: Seq<(Pubkey, V)>) -> bool {
    forall|i: int, j: int| 0 <= i < j < s.len() ==> (#[trigger] s[i]).0.below((#[trigger] s[j]).0)
}

/// Whether some entry has the address `k`.
pub open spec fn has_key<V>(s: Seq<(Pubkey, V)>, k: Pubkey) -> bool {
    exists|i: int| 0 <= i < s.len() && (#[trigger] s[i]).0 == k
}

/// The value of the entry with the address `k`.
pub open spec fn value_of<V>(s: Seq<(Pubkey, V)>, k: Pubkey) -> V {
    s[choose|i: int| 0 <= i < s.len() && (#[trigger] s[i]).0 == k].1
}

/// The map that the entries make.
pub open spec fn map_of<V>(s: Seq<(Pubkey, V)>) -> Map<Pubkey, V> {
    Map::new(|k: Pubkey| has_key(s, k), |k: Pubkey| value_of(s, k))
}

/// Each entry of a sorted list is an entry of its map.
pub proof fn lemma_entry<V>(s: Seq<(Pubkey, V)>, i: int)
    requires
        ascending(s),
        0 <= i < s.len(),
    ensures
        map_of(s).contains_key(s[i].0),
        map_of(s)[s[i].0] == s[i].1,
{
    let j = choose|j: int| 0 <= j < s.len() && (#[trigger] s[j]).0 == s[i].0;
    if i < j {
        assert(s[i].0.below(s[j].0));
    } else if j < i {
        assert(s[j].0.below(s[i].0));
    }
}

proof fn lemma_replaced<V>(s: Seq<(Pubkey, V)>, at: int, v: V)
    requires
        ascending(s),
        0 <= at < s.len(),
    ensures
        ascending(s.update(at, (s[at].0, v))),
        map_of(s.update(at, (s[at].0, v))) == map_of(s).insert(s[at].0, v),
{
    let t = s.update(at, (s[at].0, v));
    assert forall|i: int, j: int| 0 <= i < j < t.len() implies (#[trigger] t[i]).0.below(
        (#[trigger] t[j]).0,
    ) by {
        assert(s[i].0.below(s[j].0));
    }
    assert forall|k: Pubkey| #[trigger] has_key(t, k) == map_of(s).insert(s[at].0, v).contains_key(
        k,
    ) by {
        if has_key(t, k) {
            let i = choose|i: int| 0 <= i < t.len() && (#[trigger] t[i]).0 == k;
            assert(s[i].0 == k);
        }
        if has_key(s, k) {
            let i = choose|i: int| 0 <= i < s.len() && (#[trigger] s[i]).0 == k;
            assert(t[i].0 == k);
        }
        if k == s[at].0 {
            assert(t[at].0 == k);
        }
    }
    assert forall|k: Pubkey| #[trigger] has_key(t, k) implies map_of(t)[k] == map_of(s).insert(
        s[at].0,
        v,
    )[k] by {
        let i = choose|i: int| 0 <= i < t.len() && (#[trigger] t[i]).0 == k;
        lemma_entry(t, i);
        lemma_entry(s, i);
        if k == s[at].0 {
            lemma_entry(t, at);
        }
    }
    assert(map_of(t) =~= map_of(s).insert(s[at].0, v));
}

proof fn lemma_added<V>(s: Seq<(Pubkey, V)>, at: int, k: Pubkey, v: V)
    requires
        ascending(s),
        0 <= at <= s.len(),
        forall|i: int| 0 <= i < at ==> (#[trigger] s[i]).0.below(k),
        forall|i: int| at <= i < s.len() ==> k.below((#[trigger] s[i]).0),
    ensures
        ascending(s.insert(at, (k, v))),
        map_of(s.insert(at, (k, v))) == map_of(s).insert(k, v),
{
    let t = s.insert(at, (k, v));
    assert forall|i: int, j: int| 0 <= i < j < t.len() implies (#[trigger] t[i]).0.below(
        (#[trigger] t[j]).0,
    ) by {
        let a = if i < at {
            i
        } else {
            i - 1
        };
        let b = if j < at {
            j
        } else {
            j - 1
        };
        if i != at {
            assert(t[i] == s[a]);
        }
        if j != at {
            assert(t[j] == s[b]);
        }
    }
    assert forall|q: Pubkey| #[trigger] has_key(t, q) == map_of(s).insert(k, v).contains_key(q) by {
        if has_key(t, q) {
            let i = choose|i: int| 0 <= i < t.len() && (#[trigger] t[i]).0 == q;
            if i < at {
                assert(s[i].0 == q);
            } else if i > at {
                assert(s[i - 1].0 == q);
            }
        }
        if has_key(s, q) {
            let i = choose|i: int| 0 <= i < s.len() && (#[trigger] s[i]).0 == q;
            if i < at {
                assert(t[i].0 == q);
            } else {
                assert(t[i + 1].0 == q);
            }
        }
        if q == k {
            assert(t[at].0 == q);
        }
    }
    assert forall|q: Pubkey| #[trigger] has_key(t, q) implies map_of(t)[q] == map_of(s).insert(
        k,
        v,
    )[q] by {
        let i = choose|i: int| 0 <= i < t.len() && (#[trigger] t[i]).0 == q;
        lemma_entry(t, i);
        if i < at {
            assert(t[i] == s[i]);
            lemma_entry(s, i);
        } else if i > at {
            assert(t[i] == s[i - 1]);
            lemma_entry(s, i - 1);
        }
    }
    assert(map_of(t) =~= map_of(s).insert(k, v));
}

impl<V> View for PubkeyMap<V> {
    type V = Map<Pubkey, V>;

    open spec fn view(&self) -> Map<Pubkey, V> {
        map_of(self.listing())
    }
}

impl<V> PubkeyMap<V> {
    #[verifier::type_invariant]
    spec fn sorted(self) -> bool {
        ascending(self.entries@)
    }

    /// The entries in ascending order of address.
    pub closed spec fn listing(&self) -> Seq<(Pubkey, V)> {
        self.entries@
    }

    pub fn new() -> (out: Self)
        ensures
            out@ == Map::<Pubkey, V>::empty(),
            out.listing() == Seq::<(Pubkey, V)>::empty(),
    {
        let out = PubkeyMap { entries: Vec::new() };
        assert(out@ =~= Map::<Pubkey, V>::empty());
        out
    }

    /// All entries, in ascending order of address.
    pub fn entries(&self) -> (out: &Vec<(Pubkey, V)>)
        ensures
            out@ == self.listing(),
            ascending(out@),
    {
        proof {
            use_type_invariant(self);
        }
        &self.entries
    }

    pub fn len(&self) -> (out: usize)
        ensures
            out == self.listing().len(),
    {
        self.entries.len()
    }

    /// The number of entries whose address is below `k`.
    fn slot(entries: &Vec<(Pubkey, V)>, k: Pubkey) -> (out: usize)
        requires
            ascending(entries@),
        ensures
            out <= entries@.len(),
            forall|i: int| 0 <= i < out ==> (#[trigger] entries@[i]).0.below(k),
            forall|i: int| out <= i < entries@.len() ==> !(#[trigger] entries@[i]).0.below(k),
    {
        let mut lo: usize = 0;
        let mut hi: usize = entries.len();
        while lo < hi
            invariant
                ascending(entries@),
                lo <= hi <= entries@.len(),
                forall|i: int| 0 <= i < lo ==> (#[trigger] entries@[i]).0.below(k),
                forall|i: int| hi <= i < entries@.len() ==> !(#[trigger] entries@[i]).0.below(k),
            decreases hi - lo,
        {
            let mid: usize = lo + (hi - lo) / 2;
            let at: Pubkey = entries[mid].0;
            if at.less_than(k) {
                proof {
                    assert forall|i: int| 0 <= i < mid + 1 implies (#[trigger] entries@[i]).0.below(
                        k,
                    ) by {
                        if i < mid {
                            assert(entries@[i].0.below(entries@[mid as int].0));
                        }
                    }
                }
                lo = mid + 1;
            } else {
                proof {
                    assert forall|i: int| mid <= i < entries@.len() implies !(
                    #[trigger] entries@[i]).0.below(k) by {
                        if mid < i {
                            assert(entries@[mid as int].0.below(entries@[i].0));
                        }
                    }
                }
                hi = mid;
            }
        }
        lo
    }

    /// The value at `k`.
    pub fn get(&self, k: &Pubkey) -> (out: Option<&V>)
        ensures
            match out {
                Some(v) => self@.contains_key(*k) && *v == self@[*k],
                None => !self@.contains_key(*k),
            },
    {
        proof {
            use_type_invariant(self);
        }
        let at: usize = Self::slot(&self.entries, *k);
        if at < self.entries.len() && self.entries[at].0 == *k {
            proof {
                lemma_entry(self.entries@, at as int);
            }
            Some(&self.entries[at].1)
        } else {
            proof {
                if has_key(self.entries@, *k) {
                    let i = choose|i: int|
                        0 <= i < self.entries@.len() && (#[trigger] self.entries@[i]).0 == *k;
                    assert(!(i < at));
                    if at < i {
                        assert(self.entries@[at as int].0.below(self.entries@[i].0));
                    }
                }
            }
            None
        }
    }

    /// Sets the value at `k`, replacing any value that is there.
    pub fn insert(&mut self, k: Pubkey, v: V)
        ensures
            final(self)@ == old(self)@.insert(k, v),
    {
        proof {
            use_type_invariant(&*self);
        }
        let mut entries: Vec<(Pubkey, V)> = Vec::new();
        std::mem::swap(&mut entries, &mut self.entries);
        let ghost before = entries@;
        let at: usize = Self::slot(&entries, k);
        if at < entries.len() && entries[at].0 == k {
            entries.set(at, (k, v));
            proof {
                lemma_replaced(before, at as int, v);
            }
        } else {
            proof {
                assert forall|i: int| at <= i < before.len() implies k.below(
                    (#[trigger] before[i]).0,
                ) by {
                    assert(!before[at as int].0.below(k));
                    if at < i {
                        assert(before[at as int].0.below(before[i].0));
                    }
                }
                lemma_added(before, at as int, k, v);
            }
            entries.insert(at, (k, v));
        }
        self.entries = entries;
    }
}

} // verus!
