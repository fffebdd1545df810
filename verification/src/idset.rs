//! A small set of connection ids, backed by a vector without duplicates.
//!
//! Both forwarding roles keep sets of 64-bit connection ids: the live
//! connections, and (on the serve side) every id ever announced.  The sets
//! stay tiny in practice, so a vector with a no-duplicates invariant is
//! enough, and its mathematical view is the set of its elements.

use vstd::prelude::*;

verus! {

/// A finite set of connection ids.
#[derive(Debug)]
pub struct IdSet {
    elems: Vec<u64>,
}

impl IdSet {
    /// The mathematical contents of the set.
    pub closed spec fn view(&self) -> Set<u64> {
        self.elems@.to_set()
    }

    /// The ids in the order the backing vector holds them.
    pub closed spec fn seq(&self) -> Seq<u64> {
        self.elems@
    }

    /// The backing vector holds no element twice.
    pub closed spec fn wf(&self) -> bool {
        forall|i: int, j: int|
            0 <= i < j < self.elems@.len() ==> self.elems@[i] != self.elems@[j]
    }

    pub fn new() -> (r: IdSet)
        ensures
            r.wf(),
            r@ == Set::<u64>::empty(),
    {
        let r = IdSet { elems: Vec::new() };
        proof {
            assert(r@ =~= Set::<u64>::empty());
        }
        r
    }

    pub fn contains(&self, id: u64) -> (r: bool)
        ensures
            r == self@.contains(id),
    {
        let mut i: usize = 0;
        while i < self.elems.len()
            invariant
                0 <= i <= self.elems@.len(),
                forall|k: int| 0 <= k < i ==> self.elems@[k] != id,
            decreases self.elems@.len() - i,
        {
            if self.elems[i] == id {
                proof {
                    assert(self.elems@.contains(id));
                }
                return true;
            }
            i += 1;
        }
        proof {
            assert(!self.elems@.contains(id));
        }
        false
    }

    /// Adds `id`; a no-op when it is already present.
    pub fn insert(&mut self, id: u64)
        requires
            old(self).wf(),
        ensures
            final(self).wf(),
            final(self)@ == old(self)@.insert(id),
    {
        if !self.contains(id) {
            self.elems.push(id);
            proof {
                let s0 = old(self).elems@;
                let s1 = self.elems@;
                assert forall|a: u64| s1.contains(a) implies old(self)@.insert(id).contains(
                    a,
                ) by {
                    let k = choose|k: int| 0 <= k < s1.len() && s1[k] == a;
                    if k < s0.len() {
                        assert(s0[k] == a);
                    }
                }
                assert forall|a: u64| old(self)@.insert(id).contains(a) implies s1.contains(
                    a,
                ) by {
                    if a == id {
                        assert(s1[s0.len() as int] == a);
                    } else {
                        let k = choose|k: int| 0 <= k < s0.len() && s0[k] == a;
                        assert(s1[k] == a);
                    }
                }
                assert(self@ =~= old(self)@.insert(id));
            }
        } else {
            proof {
                assert(self@ =~= old(self)@.insert(id));
            }
        }
    }

    /// Removes `id`; a no-op when it is absent.
    pub fn remove(&mut self, id: u64)
        requires
            old(self).wf(),
        ensures
            final(self).wf(),
            final(self)@ == old(self)@.remove(id),
    {
        let mut i: usize = 0;
        while i < self.elems.len()
            invariant
                old(self).wf(),
                *self == *old(self),
                0 <= i <= self.elems@.len(),
                forall|k: int| 0 <= k < i ==> self.elems@[k] != id,
            decreases self.elems@.len() - i,
        {
            if self.elems[i] == id {
                self.elems.swap_remove(i);
                proof {
                    let s0 = old(self).elems@;
                    let s1 = self.elems@;
                    let n = s0.len() as int;
                    assert(s1 == s0.update(i as int, s0.last()).drop_last());
                    assert forall|a: u64| s1.contains(a) implies old(self)@.remove(id).contains(
                        a,
                    ) by {
                        let k = choose|k: int| 0 <= k < s1.len() && s1[k] == a;
                        if k == i {
                            assert(s0[n - 1] == a);
                            assert(i < n - 1);
                            assert(s0[i as int] != s0[n - 1]);
                        } else {
                            assert(s0[k] == a);
                            if k != i {
                                assert(s0[k] != s0[i as int] || k == i);
                                if k < i {
                                    assert(s0[k] != s0[i as int]);
                                } else {
                                    assert(s0[i as int] != s0[k]);
                                }
                            }
                        }
                    }
                    assert forall|a: u64| old(self)@.remove(id).contains(a) implies s1.contains(
                        a,
                    ) by {
                        let k = choose|k: int| 0 <= k < s0.len() && s0[k] == a;
                        if k == n - 1 {
                            if i < n - 1 {
                                assert(s1[i as int] == a);
                            }
                        } else if k != i {
                            assert(s1[k] == a);
                        }
                    }
                    assert forall|p: int, q: int|
                        0 <= p < q < s1.len() implies s1[p] != s1[q] by {
                        if p == i {
                            assert(s1[p] == s0[n - 1]);
                            assert(s1[q] == s0[q]);
                            assert(s0[q] != s0[n - 1]);
                        } else if q == i {
                            assert(s1[q] == s0[n - 1]);
                            assert(s1[p] == s0[p]);
                            assert(s0[p] != s0[n - 1]);
                        } else {
                            assert(s1[p] == s0[p]);
                            assert(s1[q] == s0[q]);
                            assert(s0[p] != s0[q]);
                        }
                    }
                    assert(self@ =~= old(self)@.remove(id));
                }
                return;
            }
            i += 1;
        }
        proof {
            assert(!self.elems@.contains(id));
            assert(self@ =~= old(self)@.remove(id));
        }
    }

    /// The ids as a vector, for iterating over the contents.
    pub fn to_vec(&self) -> (r: Vec<u64>)
        ensures
            r@ == self.seq(),
            r@.to_set() == self@,
    {
        let mut out: Vec<u64> = Vec::new();
        let mut i: usize = 0;
        while i < self.elems.len()
            invariant
                0 <= i <= self.elems@.len(),
                out@ == self.elems@.subrange(0, i as int),
            decreases self.elems@.len() - i,
        {
            out.push(self.elems[i]);
            i += 1;
        }
        proof {
            assert(out@ =~= self.elems@);
        }
        out
    }

    pub fn len(&self) -> (r: usize)
        ensures
            r == self.seq().len(),
            r == 0 <==> self@ == Set::<u64>::empty(),
    {
        proof {
            if self.elems@.len() == 0 {
                assert(self@ =~= Set::<u64>::empty());
            } else {
                assert(self@.contains(self.elems@[0]));
            }
        }
        self.elems.len()
    }
}

} // verus!
