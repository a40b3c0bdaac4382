//! The point dictionary: a bijection between a group-key tuple of dictionary
//! codes and a dense 32-bit slot number.
use vstd::prelude::*;

use crate::types::StoreError;

verus! {

/// Whether two code tuples hold the same codes.
fn points_equal(a: &Vec<u32>, b: &Vec<u32>) -> (r: bool)
    ensures
        r == (a@ == b@),
{
    if a.len() != b.len() {
        return false;
    }
    let mut i: usize = 0;
    while i < a.len()
        invariant
            i <= a@.len(),
            a@.len() == b@.len(),
            forall|j: int| 0 <= j < i ==> a@[j] == b@[j],
        decreases a@.len() - i,
    {
        if a[i] != b[i] {
            return false;
        }
        i = i + 1;
    }
    proof {
        assert(a@ =~= b@);
    }
    true
}

/// A bijection between a fixed-arity tuple of dictionary codes and a dense
/// slot number. Slots are assigned in insertion order starting at 0; the
/// slot of a point is its index in the insertion sequence.
#[derive(Debug)]
pub struct PointDictionary {
    pub points: Vec<Vec<u32>>,
    pub point_length: u32,
}

impl View for PointDictionary {
    type V = Seq<Seq<u32>>;

    open spec fn view(&self) -> Seq<Seq<u32>> {
        self.points@.map_values(|p: Vec<u32>| p@)
    }
}

impl PointDictionary {
    /// Points are distinct and all of the fixed arity.
    pub open spec fn wf(self) -> bool {
        &&& forall|i: int, j: int| 0 <= i < j < self@.len() ==> self@[i] != self@[j]
        &&& forall|i: int| 0 <= i < self@.len() ==> (#[trigger] self@[i]).len() == self.point_length
        &&& self@.len() < u32::MAX as int
    }

    /// The slot assigned to a point, meaningful when it is contained.
    pub open spec fn spec_position(self, point: Seq<u32>) -> int {
        choose|i: int| 0 <= i < self@.len() && self@[i] == point
    }

    pub fn new(point_length: u32) -> (r: PointDictionary)
        ensures
            r@ == Seq::<Seq<u32>>::empty(),
            r.point_length == point_length,
            r.wf(),
    {
        PointDictionary { points: Vec::new(), point_length }
    }

    /// Insert-if-absent: return the existing slot of the point, or assign
    /// the next one. A point of the wrong arity is a `UsageError`.
    pub fn map(&mut self, point: &Vec<u32>) -> (r: Result<u32, StoreError>)
        requires
            old(self).wf(),
            old(self)@.len() + 1 < u32::MAX as int,
        ensures
            final(self).wf(),
            final(self).point_length == old(self).point_length,
            if point@.len() != old(self).point_length {
                r == Result::<u32, StoreError>::Err(StoreError::UsageError) && *final(self) == *old(
                    self,
                )
            } else if old(self)@.contains(point@) {
                final(self)@ == old(self)@ && r == Result::<u32, StoreError>::Ok(
                    old(self).spec_position(point@) as u32,
                )
            } else {
                final(self)@ == old(self)@.push(point@) && r == Result::<u32, StoreError>::Ok(
                    old(self)@.len() as u32,
                )
            },
    {
        if point.len() != self.point_length as usize {
            return Err(StoreError::UsageError);
        }
        match self.get_position(point) {
            Some(slot) => Ok(slot),
            None => {
                let slot = self.points.len() as u32;
                let mut copy: Vec<u32> = Vec::new();
                let mut i: usize = 0;
                while i < point.len()
                    invariant
                        i <= point@.len(),
                        copy@ == point@.take(i as int),
                    decreases point@.len() - i,
                {
                    copy.push(point[i]);
                    proof {
                        assert(copy@ =~= point@.take(i + 1));
                    }
                    i = i + 1;
                }
                proof {
                    assert(point@.take(point@.len() as int) =~= point@);
                }
                self.points.push(copy);
                proof {
                    assert(self@ =~= old(self)@.push(point@));
                }
                Ok(slot)
            },
        }
    }

    /// Slot-to-point lookup; `Some` exactly for assigned slots.
    pub fn read(&self, position: u32) -> (r: Option<&Vec<u32>>)
        ensures
            match r {
                Some(p) => position < self@.len() && p@ == self@[position as int],
                None => position >= self@.len(),
            },
    {
        if (position as usize) < self.points.len() {
            Some(&self.points[position as usize])
        } else {
            None
        }
    }

    /// Point-to-slot lookup; `Some` exactly when the point is contained.
    pub fn get_position(&self, point: &Vec<u32>) -> (r: Option<u32>)
        requires
            self.wf(),
        ensures
            match r {
                Some(slot) => self@.contains(point@) && slot < self@.len() && self@[slot as int]
                    == point@ && slot == self.spec_position(point@),
                None => !self@.contains(point@),
            },
    {
        let mut i: usize = 0;
        while i < self.points.len()
            invariant
                i <= self.points@.len(),
                self.wf(),
                forall|j: int| 0 <= j < i ==> self@[j] != point@,
            decreases self.points@.len() - i,
        {
            assert(self@[i as int] == self.points@[i as int]@);
            if points_equal(&self.points[i], point) {
                assert(self@.contains(point@));
                proof {
                    let k = self.spec_position(point@);
                    if k < i as int {
                        assert(self@[k] != self@[i as int]);
                    } else if (i as int) < k {
                        assert(self@[i as int] != self@[k]);
                    }
                }
                return Some(i as u32);
            }
            i = i + 1;
        }
        assert(forall|j: int| 0 <= j < self@.len() ==> self@[j] != point@);
        None
    }

    /// The number of assigned slots.
    pub fn size(&self) -> (r: usize)
        ensures
            r == self@.len(),
    {
        self.points.len()
    }

    /// The fixed arity of every point.
    pub fn len(&self) -> (r: u32)
        ensures
            r == self.point_length,
    {
        self.point_length
    }

    /// For every assigned slot: looking up the point read at that slot
    /// gives the slot back. The two directions are inverse on assigned
    /// slots.
    pub proof fn lemma_position_read_round_trip(self, slot: u32)
        requires
            self.wf(),
            slot < self@.len(),
        ensures
            self@.contains(self@[slot as int]),
            self.spec_position(self@[slot as int]) == slot,
    {
        let v = self@[slot as int];
        assert(0 <= (slot as int) < self@.len() && self@[slot as int] == v);
        assert(self@.contains(v));
        let i = self.spec_position(v);
        assert(0 <= i < self@.len() && self@[i] == v);
        if i < slot as int {
            assert(self@[i] != self@[slot as int]);
        } else if (slot as int) < i {
            assert(self@[slot as int] != self@[i]);
        }
    }
}

} // verus!
