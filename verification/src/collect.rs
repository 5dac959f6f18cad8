//! The collector of the parallel recognizer: segments are decoded by several workers and
//! come back in any order; they are handed on strictly in segment order.
use vstd::prelude::*;
use std::collections::BTreeMap;

verus! {

/// Results waiting for the ones before them, and the index of the next one to hand on.
/// The ghost parts record every result that arrived and everything handed on so far.
pub struct Reorder<T> {
    pending: BTreeMap<usize, T>,
    next: usize,
    arrived: Ghost<Map<usize, T>>,
    handed: Ghost<Seq<T>>,
}

/// Segment indices are ordered as std orders `usize`, which the map's specification needs.
proof fn lemma_index_keys_ordered()
    ensures
        vstd::laws_cmp::obeys_cmp::<usize>(),
{
    broadcast use vstd::laws_cmp::group_laws_cmp;
}

impl<T> Reorder<T> {
    /// The index of the next result to hand on.
    pub closed spec fn next(&self) -> usize {
        self.next
    }

    /// Every result that arrived, by segment index.
    pub closed spec fn arrived(&self) -> Map<usize, T> {
        self.arrived@
    }

    /// Everything handed on so far, in order.
    pub closed spec fn handed(&self) -> Seq<T> {
        self.handed@
    }

    /// What was handed on is the results `0 .. next` in order; `next` has not arrived; the
    /// results past it wait.
    pub closed spec fn wf(&self) -> bool {
        &&& forall|k: usize| #[trigger] self.pending@.contains_key(k) <==> (self.arrived@.contains_key(k) && k > self.next)
        &&& forall|k: usize| #[trigger] self.pending@.contains_key(k) ==> self.pending@[k] == self.arrived@[k]
        &&& forall|k: usize| k < self.next ==> #[trigger] self.arrived@.contains_key(k)
        &&& !self.arrived@.contains_key(self.next)
        &&& forall|k: usize| #[trigger] self.arrived@.contains_key(k) ==> k < usize::MAX
        &&& self.handed@ == Seq::new(self.next as nat, |j: int| self.arrived@[j as usize])
    }

    pub fn new() -> (r: Self)
        ensures
            r.wf(),
            r.next() == 0,
            r.arrived() == Map::<usize, T>::empty(),
            r.handed() == Seq::<T>::empty(),
    {
        let r = Reorder { pending: BTreeMap::new(), next: 0, arrived: Ghost(Map::empty()), handed: Ghost(Seq::empty()) };
        assert(r.handed@ =~= Seq::new(0, |j: int| r.arrived@[j as usize]));
        r
    }

    /// The result of segment `idx` arrived (each segment once). It and the results right
    /// after it that were waiting are handed on, in order: exactly the results from `next`
    /// up to the first index that has not arrived.
    pub fn push(&mut self, idx: usize, item: T) -> (out: Vec<T>)
        requires
            old(self).wf(),
            !old(self).arrived().contains_key(idx),
            idx < usize::MAX,
        ensures
            final(self).wf(),
            final(self).arrived() == old(self).arrived().insert(idx, item),
            old(self).next() <= final(self).next(),
            out@ == Seq::new(
                (final(self).next() - old(self).next()) as nat,
                |j: int| final(self).arrived()[(old(self).next() + j) as usize],
            ),
            final(self).handed() == old(self).handed() + out@,
    {
        broadcast use vstd::std_specs::btree::group_btree_axioms;

        proof {
            lemma_index_keys_ordered();
        }

        let ghost n0 = self.next;
        let ghost h0 = self.handed@;
        let ghost a1 = self.arrived@.insert(idx, item);
        if idx != self.next {
            proof {
                assert(idx > self.next);
            }
            self.pending.insert(idx, item);
            self.arrived = Ghost(a1);
            proof {
                assert(self.handed@ =~= Seq::new(self.next as nat, |j: int| self.arrived@[j as usize]));
            }
            let out: Vec<T> = Vec::new();
            assert(out@ =~= Seq::new(0, |j: int| self.arrived@[(n0 + j) as usize]));
            assert(self.handed@ =~= h0 + out@);
            return out;
        }
        let mut out: Vec<T> = Vec::new();
        out.push(item);
        self.arrived = Ghost(a1);
        self.next = self.next + 1;
        proof {
            assert(out@ =~= Seq::new(1, |j: int| a1[(n0 + j) as usize]));
        }
        loop
            invariant_except_break
                self.arrived@ == a1,
                n0 < self.next,
                forall|k: usize| #[trigger] self.pending@.contains_key(k) <==> (a1.contains_key(k) && k >= self.next),
                forall|k: usize| #[trigger] self.pending@.contains_key(k) ==> self.pending@[k] == a1[k],
                forall|k: usize| k < self.next ==> #[trigger] a1.contains_key(k),
                forall|k: usize| #[trigger] a1.contains_key(k) ==> k < usize::MAX,
                out@ == Seq::new((self.next - n0) as nat, |j: int| a1[(n0 + j) as usize]),
                h0 == Seq::new(n0 as nat, |j: int| a1[j as usize]),
            ensures
                self.wf(),
                self.arrived@ == a1,
                n0 < self.next,
                out@ == Seq::new((self.next - n0) as nat, |j: int| a1[(n0 + j) as usize]),
                h0 == Seq::new(n0 as nat, |j: int| a1[j as usize]),
            decreases usize::MAX - self.next,
        {
            let k = self.next;
            match self.pending.remove(&k) {
                None => {
                    proof {
                        assert(!a1.contains_key(k));
                        self.handed = Ghost(h0 + out@);
                        assert(self.handed@ =~= Seq::new(self.next as nat, |j: int| self.arrived@[j as usize]));
                    }
                    break;
                },
                Some(v) => {
                    assert(a1.contains_key(k) && a1[k] == v);
                    out.push(v);
                    self.next = self.next + 1;
                    proof {
                        assert(out@ =~= Seq::new((self.next - n0) as nat, |j: int| a1[(n0 + j) as usize]));
                    }
                },
            }
        }
        proof {
            assert(self.handed@ =~= h0 + out@);
        }
        out
    }
}

/// Once every segment up to `n` has arrived, all of them have been handed on, in segment
/// order, whatever order they arrived in.
pub proof fn law_handed_in_order<T>(r: Reorder<T>, n: usize)
    requires
        r.wf(),
        forall|k: usize| k < n ==> #[trigger] r.arrived().contains_key(k),
    ensures
        r.next() >= n,
        r.handed().take(n as int) == Seq::new(n as nat, |j: int| r.arrived()[j as usize]),
{
    if r.next() < n {
        assert(r.arrived().contains_key(r.next()));
    }
    assert(r.handed().take(n as int) =~= Seq::new(n as nat, |j: int| r.arrived()[j as usize]));
}

} // verus!
