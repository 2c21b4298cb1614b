//! The table of an IRC session that maps a handler key to the point where
//! one offer is delivered; an entry leaves the table when it is used.
use vstd::prelude::*;

verus! {

/// Registered waiters, each under its own key.
pub struct OfferWaiters<T> {
    pub entries: Vec<(String, T)>,
}

impl<T> OfferWaiters<T> {
    /// No two entries share a key.
    pub open spec fn wf(&self) -> bool {
        forall|i: int, j: int|
            0 <= i < j < self.entries@.len() ==> self.entries@[i].0@ != self.entries@[j].0@
    }

    pub open spec fn has(&self, k: Seq<char>) -> bool {
        exists|i: int| 0 <= i < self.entries@.len() && self.entries@[i].0@ == k
    }

    /// The waiter under `k`, where `has(k)`.
    pub open spec fn get(&self, k: Seq<char>) -> T {
        self.entries@[choose|i: int| 0 <= i < self.entries@.len() && self.entries@[i].0@ == k].1
    }

    /// The entries under the other keys are those of `old`.
    pub open spec fn others_unchanged(&self, old: &Self, k: Seq<char>) -> bool {
        &&& forall|j: Seq<char>| j != k ==> (self.has(j) <==> old.has(j))
        &&& forall|j: Seq<char>| j != k && old.has(j) ==> self.get(j) == old.get(j)
    }

    proof fn lemma_at(&self, i: int)
        requires
            self.wf(),
            0 <= i < self.entries@.len(),
        ensures
            self.has(self.entries@[i].0@),
            self.get(self.entries@[i].0@) == self.entries@[i].1,
    {
        let k = self.entries@[i].0@;
        let c = choose|j: int| 0 <= j < self.entries@.len() && self.entries@[j].0@ == k;
        assert(0 <= c < self.entries@.len() && self.entries@[c].0@ == k);
        assert(c == i);
    }

    pub fn new() -> (r: OfferWaiters<T>)
        ensures
            r.wf(),
            forall|k: Seq<char>| !r.has(k),
    {
        OfferWaiters { entries: Vec::new() }
    }

    fn position(&self, key: &String) -> (r: Option<usize>)
        requires
            self.wf(),
        ensures
            match r {
                Some(i) => i < self.entries@.len() && self.entries@[i as int].0@ == key@,
                None => !self.has(key@),
            },
    {
        let mut i: usize = 0;
        while i < self.entries.len()
            invariant
                i <= self.entries@.len(),
                forall|j: int| 0 <= j < i ==> self.entries@[j].0@ != key@,
            decreases self.entries@.len() - i,
        {
            if self.entries[i].0 == *key {
                return Some(i);
            }
            i = i + 1;
        }
        None
    }

    /// Registers `waiter` under `key`, in place of any waiter there.
    pub fn register(&mut self, key: String, waiter: T)
        requires
            old(self).wf(),
        ensures
            final(self).wf(),
            final(self).has(key@),
            final(self).get(key@) == waiter,
            final(self).others_unchanged(old(self), key@),
    {
        let ghost before = *self;
        let ghost k = key@;
        let ghost entry = (key, waiter);
        match self.position(&key) {
            Some(i) => {
                self.entries.remove(i);
                self.entries.insert(i, (key, waiter));
                assert(self.entries@ =~= before.entries@.update(i as int, entry));
                proof {
                    self.lemma_at(i as int);
                }
            },
            None => {
                self.entries.push((key, waiter));
                proof {
                    let n = before.entries@.len();
                    assert forall|a: int, b: int|
                        0 <= a < b < self.entries@.len() implies self.entries@[a].0@
                        != self.entries@[b].0@ by {
                        if b == n {
                            assert(before.entries@[a].0@ != k);
                        } else {
                            assert(self.entries@[a] == before.entries@[a]);
                            assert(self.entries@[b] == before.entries@[b]);
                        }
                    }
                    self.lemma_at(n as int);
                }
            },
        }
        proof {
            assert forall|j: Seq<char>| j != k implies (self.has(j) <==> before.has(j)) by {
                if self.has(j) {
                    let w = choose|w: int| 0 <= w < self.entries@.len() && self.entries@[w].0@ == j;
                    assert(before.entries@[w].0@ == j);
                }
                if before.has(j) {
                    let w = choose|w: int|
                        0 <= w < before.entries@.len() && before.entries@[w].0@ == j;
                    assert(self.entries@[w].0@ == j);
                }
            }
            assert forall|j: Seq<char>| j != k && before.has(j) implies self.get(j) == before.get(
                j,
            ) by {
                let w = choose|w: int| 0 <= w < before.entries@.len() && before.entries@[w].0@ == j;
                before.lemma_at(w);
                assert(self.entries@[w] == before.entries@[w]);
                self.lemma_at(w);
            }
        }
    }

    /// Takes out the waiter under `key`, if there is one: it is used once.
    pub fn take(&mut self, key: &str) -> (r: Option<T>)
        requires
            old(self).wf(),
        ensures
            final(self).wf(),
            r is Some <==> old(self).has(key@),
            r is Some ==> r->0 == old(self).get(key@),
            !final(self).has(key@),
            final(self).others_unchanged(old(self), key@),
    {
        let ghost before = *self;
        let k = String::from_str(key);
        match self.position(&k) {
            Some(i) => {
                proof {
                    before.lemma_at(i as int);
                }
                let (_, w) = self.entries.remove(i);
                proof {
                    let n = before.entries@.len();
                    assert forall|j: int| 0 <= j < self.entries@.len() implies #[trigger] self.entries@[j]
                        == before.entries@[if j < i {
                        j
                    } else {
                        j + 1
                    }] by {}
                    assert forall|a: int, b: int|
                        0 <= a < b < self.entries@.len() implies self.entries@[a].0@
                        != self.entries@[b].0@ by {
                        assert(self.entries@[a] == before.entries@[if a < i {
                            a
                        } else {
                            a + 1
                        }]);
                        assert(self.entries@[b] == before.entries@[if b < i {
                            b
                        } else {
                            b + 1
                        }]);
                    }
                    assert(!self.has(key@)) by {
                        if self.has(key@) {
                            let w = choose|w: int|
                                0 <= w < self.entries@.len() && self.entries@[w].0@ == key@;
                            assert(self.entries@[w] == before.entries@[if w < i {
                                w
                            } else {
                                w + 1
                            }]);
                        }
                    }
                    assert forall|j: Seq<char>| j != key@ implies (self.has(j) <==> before.has(
                        j,
                    )) by {
                        if self.has(j) {
                            let w = choose|w: int|
                                0 <= w < self.entries@.len() && self.entries@[w].0@ == j;
                            assert(self.entries@[w] == before.entries@[if w < i {
                                w
                            } else {
                                w + 1
                            }]);
                        }
                        if before.has(j) {
                            let w = choose|w: int|
                                0 <= w < before.entries@.len() && before.entries@[w].0@ == j;
                            let v = if w < i {
                                w
                            } else {
                                w - 1
                            };
                            assert(w != i);
                            assert(self.entries@[v] == before.entries@[w]);
                        }
                    }
                    assert forall|j: Seq<char>| j != key@ && before.has(j) implies self.get(j)
                        == before.get(j) by {
                        let w = choose|w: int|
                            0 <= w < before.entries@.len() && before.entries@[w].0@ == j;
                        before.lemma_at(w);
                        assert(w != i);
                        let v = if w < i {
                            w
                        } else {
                            w - 1
                        };
                        assert(self.entries@[v] == before.entries@[w]);
                        self.lemma_at(v);
                    }
                }
                Some(w)
            },
            None => None,
        }
    }
}

} // verus!
