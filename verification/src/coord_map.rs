//! A map from chunk coordinates to plain values, kept in coordinate order.

use crate::chunk_coord::ChunkCoord;
use crate::order::{Ranked, strictly_ascending};
use vstd::prelude::*;

verus! {

/// A sorted map keyed by [`ChunkCoord`].
#[derive(Debug)]
pub struct CoordMap<V> {
    entries: Vec<(ChunkCoord, V)>,
}

impl<V: Copy> CoordMap<V> {
    /// The keys, in order.
    pub closed spec fn keys(&self) -> Seq<ChunkCoord> {
        Seq::new(self.entries@.len(), |i: int| self.entries@[i].0)
    }

    /// The values, in key order.
    pub closed spec fn values(&self) -> Seq<V> {
        Seq::new(self.entries@.len(), |i: int| self.entries@[i].1)
    }

    /// The keys are in strict order.
    pub open spec fn wf(&self) -> bool {
        strictly_ascending(self.keys()) && self.values().len() == self.keys().len()
    }

    /// The index of a key.
    pub open spec fn index(&self, c: ChunkCoord) -> int {
        choose|i: int| 0 <= i < self.keys().len() && self.keys()[i] == c
    }

    /// The value of a key.
    pub open spec fn at(&self, c: ChunkCoord) -> V {
        self.values()[self.index(c)]
    }

    /// The map.
    pub open spec fn map(&self) -> Map<ChunkCoord, V> {
        Map::new(|c: ChunkCoord| self.keys().contains(c), |c: ChunkCoord| self.at(c))
    }

    /// The entry at an index of the order.
    pub proof fn lemma_entry(&self, i: int)
        requires
            self.wf(),
            0 <= i < self.keys().len(),
        ensures
            self.map().dom().contains(self.keys()[i]),
            self.map()[self.keys()[i]] == self.values()[i],
    {
        let keys = self.keys();
        let c = keys[i];
        assert(keys.contains(c));
        crate::order::lemma_strict_index(keys, i, self.index(c));
    }

    /// An empty map.
    pub fn new() -> (r: Self)
        ensures
            r.wf(),
            r.keys() == Seq::<ChunkCoord>::empty(),
            r.map() == Map::<ChunkCoord, V>::empty(),
    {
        let r = CoordMap { entries: Vec::new() };
        assert(r.keys() =~= Seq::<ChunkCoord>::empty());
        assert(r.map() =~= Map::<ChunkCoord, V>::empty());
        r
    }

    /// The number of entries.
    pub fn len(&self) -> (r: usize)
        requires
            self.wf(),
        ensures
            r == self.keys().len(),
    {
        self.entries.len()
    }

    /// The entry at an index of the order.
    pub fn entry(&self, i: usize) -> (r: (ChunkCoord, V))
        requires
            self.wf(),
            i < self.keys().len(),
        ensures
            r.0 == self.keys()[i as int],
            r.1 == self.values()[i as int],
            self.map().dom().contains(r.0),
            self.map()[r.0] == r.1,
    {
        proof {
            self.lemma_entry(i as int);
        }
        (self.entries[i].0, self.entries[i].1)
    }

    /// Where a key stands, or where it would be inserted.
    fn find(&self, c: ChunkCoord) -> (r: (bool, usize))
        requires
            self.wf(),
        ensures
            r.0 ==> r.1 < self.keys().len() && self.keys()[r.1 as int] == c,
            r.0 == self.keys().contains(c),
            !r.0 ==> r.1 <= self.keys().len() && (forall|i: int|
                0 <= i < r.1 ==> ChunkCoord::ranks(#[trigger] self.keys()[i], c)
                    && self.keys()[i] != c) && (forall|i: int|
                r.1 <= i < self.keys().len() ==> ChunkCoord::ranks(c, #[trigger] self.keys()[i])
                    && self.keys()[i] != c),
    {
        let ghost keys = self.keys();
        let mut lo: usize = 0;
        let mut hi: usize = self.entries.len();
        while lo < hi
            invariant
                self.wf(),
                keys == self.keys(),
                lo <= hi <= keys.len(),
                forall|i: int|
                    0 <= i < lo ==> ChunkCoord::ranks(#[trigger] keys[i], c) && keys[i] != c,
                forall|i: int|
                    hi <= i < keys.len() ==> ChunkCoord::ranks(c, #[trigger] keys[i]) && keys[i]
                        != c,
            decreases hi - lo,
        {
            let mid: usize = lo + (hi - lo) / 2;
            let at: ChunkCoord = self.entries[mid].0;
            assert(at == keys[mid as int]);
            if at == c {
                return (true, mid);
            }
            if at.ranks_before(&c) {
                proof {
                    assert forall|i: int| 0 <= i < mid + 1 implies ChunkCoord::ranks(
                        #[trigger] keys[i],
                        c,
                    ) && keys[i] != c by {
                        if i < mid {
                            assert(ChunkCoord::ranks(keys[i], keys[mid as int]));
                        }
                    }
                }
                lo = mid + 1;
            } else {
                proof {
                    assert forall|i: int| mid <= i < keys.len() implies ChunkCoord::ranks(
                        c,
                        #[trigger] keys[i],
                    ) && keys[i] != c by {
                        if mid < i {
                            assert(ChunkCoord::ranks(keys[mid as int], keys[i]));
                        }
                    }
                }
                hi = mid;
            }
        }
        (false, lo)
    }

    /// Whether a key is present.
    pub fn contains(&self, c: ChunkCoord) -> (r: bool)
        requires
            self.wf(),
        ensures
            r == self.map().dom().contains(c),
    {
        self.find(c).0
    }

    /// The value of a key.
    pub fn get(&self, c: ChunkCoord) -> (r: Option<V>)
        requires
            self.wf(),
        ensures
            r is Some <==> self.map().dom().contains(c),
            r matches Some(v) ==> v == self.map()[c],
    {
        let (found, at): (bool, usize) = self.find(c);
        if found {
            proof {
                self.lemma_entry(at as int);
            }
            Some(self.entries[at].1)
        } else {
            None
        }
    }

    /// Append an entry behind all others.
    pub fn push_last(&mut self, c: ChunkCoord, v: V)
        requires
            old(self).wf(),
            forall|i: int|
                0 <= i < old(self).keys().len() ==> ChunkCoord::ranks(
                    #[trigger] old(self).keys()[i],
                    c,
                ) && old(self).keys()[i] != c,
        ensures
            final(self).wf(),
            final(self).keys() == old(self).keys().push(c),
            final(self).values() == old(self).values().push(v),
    {
        let ghost keys = self.keys();
        let ghost values = self.values();
        self.entries.push((c, v));
        proof {
            assert(self.keys() =~= keys.push(c));
            assert(self.values() =~= values.push(v));
            let now = self.keys();
            assert forall|i: int, j: int| 0 <= i < j < now.len() implies #[trigger] ChunkCoord::ranks(
                now[i],
                now[j],
            ) && now[i] != now[j] by {
                if j < keys.len() {
                    assert(ChunkCoord::ranks(keys[i], keys[j]));
                } else {
                    assert(now[i] == keys[i]);
                }
            }
        }
    }

    /// Set the value of a key.
    pub fn insert(&mut self, c: ChunkCoord, v: V)
        requires
            old(self).wf(),
        ensures
            final(self).wf(),
            final(self).map() == old(self).map().insert(c, v),
    {
        let ghost before = *self;
        let ghost keys = self.keys();
        let ghost values = self.values();
        let (found, at): (bool, usize) = self.find(c);
        if found {
            self.entries.set(at, (c, v));
            assert(self.keys() =~= keys);
            assert(self.values() =~= values.update(at as int, v));
        } else {
            self.entries.insert(at, (c, v));
            assert(self.keys() =~= keys.insert(at as int, c));
            assert(self.values() =~= values.insert(at as int, v));
        }
        proof {
            let now = self.keys();
            assert(self.wf()) by {
                if !found {
                    assert forall|i: int, j: int|
                        0 <= i < j < now.len() implies #[trigger] ChunkCoord::ranks(now[i], now[j])
                        && now[i] != now[j] by {
                        let oi = if i < at {
                            i
                        } else {
                            i - 1
                        };
                        let oj = if j < at {
                            j
                        } else {
                            j - 1
                        };
                        if i != at && j != at {
                            assert(now[i] == keys[oi] && now[j] == keys[oj]);
                            assert(ChunkCoord::ranks(keys[oi], keys[oj]));
                        } else if i == at {
                            assert(now[j] == keys[oj]);
                        } else {
                            assert(now[i] == keys[oi]);
                        }
                    }
                }
            }
            let expected = before.map().insert(c, v);
            self.lemma_entry(at as int);
            assert forall|k: ChunkCoord| #[trigger] self.map().dom().contains(k)
                <==> expected.dom().contains(k) by {
                if now.contains(k) && k != c {
                    let i = choose|i: int| 0 <= i < now.len() && now[i] == k;
                    let o = if found || i < at {
                        i
                    } else {
                        i - 1
                    };
                    assert(keys[o] == k);
                }
                if keys.contains(k) {
                    let o = choose|o: int| 0 <= o < keys.len() && keys[o] == k;
                    let i = if found || o < at {
                        o
                    } else {
                        o + 1
                    };
                    assert(now[i] == k);
                }
            }
            assert forall|k: ChunkCoord| #[trigger] self.map().dom().contains(k) implies self.map()[k]
                == expected[k] by {
                if k != c {
                    let o = choose|o: int| 0 <= o < keys.len() && keys[o] == k;
                    assert(expected.dom().contains(k));
                    let i = if found || o < at {
                        o
                    } else {
                        o + 1
                    };
                    before.lemma_entry(o);
                    assert(now[i] == k);
                    self.lemma_entry(i);
                    assert(self.values()[i] == values[o]);
                }
            }
            assert(self.map() =~= expected);
        }
    }

    /// Remove a key and give back its value.
    pub fn remove(&mut self, c: ChunkCoord) -> (r: Option<V>)
        requires
            old(self).wf(),
        ensures
            final(self).wf(),
            final(self).map() == old(self).map().remove(c),
            r is Some <==> old(self).map().dom().contains(c),
            r matches Some(v) ==> v == old(self).map()[c],
    {
        let ghost before = *self;
        let ghost keys = self.keys();
        let ghost values = self.values();
        let (found, at): (bool, usize) = self.find(c);
        if !found {
            assert(self.map().remove(c) =~= self.map());
            return None;
        }
        let e: (ChunkCoord, V) = self.entries.remove(at);
        proof {
            before.lemma_entry(at as int);
            assert(self.keys() =~= keys.remove(at as int));
            assert(self.values() =~= values.remove(at as int));
            let now = self.keys();
            assert(self.wf()) by {
                assert forall|i: int, j: int| 0 <= i < j < now.len() implies #[trigger] ChunkCoord::ranks(
                    now[i],
                    now[j],
                ) && now[i] != now[j] by {
                    let oi = if i < at {
                        i
                    } else {
                        i + 1
                    };
                    let oj = if j < at {
                        j
                    } else {
                        j + 1
                    };
                    assert(ChunkCoord::ranks(keys[oi], keys[oj]));
                }
            }
            let expected = before.map().remove(c);
            assert forall|k: ChunkCoord| #[trigger] self.map().dom().contains(k)
                <==> expected.dom().contains(k) by {
                if now.contains(k) {
                    let i = choose|i: int| 0 <= i < now.len() && now[i] == k;
                    let o = if i < at {
                        i
                    } else {
                        i + 1
                    };
                    assert(keys[o] == k);
                    if o < at {
                        assert(ChunkCoord::ranks(keys[o], keys[at as int]));
                    } else {
                        assert(ChunkCoord::ranks(keys[at as int], keys[o]));
                    }
                }
                if keys.contains(k) && k != c {
                    let o = choose|o: int| 0 <= o < keys.len() && keys[o] == k;
                    let i = if o < at {
                        o
                    } else {
                        o - 1
                    };
                    assert(now[i] == k);
                }
            }
            assert forall|k: ChunkCoord| #[trigger] self.map().dom().contains(k) implies self.map()[k]
                == expected[k] by {
                let i = choose|i: int| 0 <= i < now.len() && now[i] == k;
                let o = if i < at {
                    i
                } else {
                    i + 1
                };
                self.lemma_entry(i);
                assert(keys[o] == now[i]);
                before.lemma_entry(o);
                assert(expected.dom().contains(k));
            }
            assert(self.map() =~= expected);
        }
        Some(e.1)
    }
}

} // verus!
