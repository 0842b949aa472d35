//! The per-tile endpoint allocator: a bitset over the tile's hardware
//! endpoint slots.  Indices below the first user endpoint are reserved for
//! PMP and kernel channels; user allocations are contiguous first-fit runs
//! above them.  A bit is set exactly while some live capability occupies
//! the slot, so double allocation and double free are kernel bugs and are
//! excluded by contract rather than detected at run time.

use vstd::prelude::*;

use crate::err::{Code, Error};
use crate::kobj::EpId;

verus! {

/// The endpoint bitset of one tile.
#[derive(Debug)]
pub struct EpAlloc {
    /// One occupancy bit per endpoint slot.
    pub bits: Vec<bool>,
    /// First slot the allocator may hand out.
    pub first_user: usize,
}

/// Whether every slot of `[start, start + count)` is clear in `bits`.
pub open spec fn range_clear(bits: Seq<bool>, start: int, count: int) -> bool {
    forall|i: int| start <= i < start + count ==> !bits[i]
}

/// Whether every slot of `[start, start + count)` is set in `bits`.
pub open spec fn range_set(bits: Seq<bool>, start: int, count: int) -> bool {
    forall|i: int| start <= i < start + count ==> bits[i]
}

/// `bits` with `[start, start + count)` forced to `v`.
pub open spec fn with_range(bits: Seq<bool>, start: int, count: int, v: bool) -> Seq<bool> {
    Seq::new(bits.len(), |i: int| if start <= i < start + count { v } else { bits[i] })
}

/// Law: allocating a run and then freeing it restores the bitset exactly.
pub proof fn lemma_alloc_free_restores(bits: Seq<bool>, start: int, count: int)
    requires
        0 <= start,
        0 <= count,
        start + count <= bits.len(),
        range_clear(bits, start, count),
    ensures
        with_range(with_range(bits, start, count, true), start, count, false) == bits,
{
    let b2 = with_range(bits, start, count, true);
    let b3 = with_range(b2, start, count, false);
    assert(b3 =~= bits);
}

impl EpAlloc {
    /// A bitset of `total` clear slots with the given reserved prefix.
    pub fn new(total: usize, first_user: usize) -> (r: EpAlloc)
        requires
            first_user <= total,
        ensures
            r.bits@.len() == total,
            r.first_user == first_user,
            forall|i: int| 0 <= i < total ==> !r.bits@[i],
    {
        let mut bits: Vec<bool> = Vec::new();
        let mut i: usize = 0;
        while i < total
            invariant
                i <= total,
                bits@.len() == i,
                forall|j: int| 0 <= j < i ==> !bits@[j],
            decreases total - i,
        {
            bits.push(false);
            i += 1;
        }
        EpAlloc { bits, first_user }
    }

    /// Number of endpoint slots.
    pub fn len(&self) -> (n: usize)
        ensures
            n == self.bits@.len(),
    {
        self.bits.len()
    }

    /// Whether slot `ep` is occupied.
    pub fn is_set(&self, ep: EpId) -> (r: bool)
        requires
            ep < self.bits@.len(),
        ensures
            r == self.bits@[ep as int],
    {
        self.bits[ep]
    }

    /// Marks one reserved slot as occupied; used while a tile is brought
    /// up, before any user allocation.
    pub fn set_reserved(&mut self, ep: EpId)
        requires
            ep < old(self).bits@.len(),
        ensures
            final(self).bits@ == old(self).bits@.update(ep as int, true),
            final(self).first_user == old(self).first_user,
    {
        self.bits[ep] = true;
    }

    /// Whether the run `[start, start + count)` is entirely free.
    pub fn eps_free(&self, start: EpId, count: usize) -> (r: bool)
        requires
            start + count <= self.bits@.len(),
        ensures
            r == range_clear(self.bits@, start as int, count as int),
    {
        let n = self.bits.len();
        let mut i: usize = 0;
        while i < count
            invariant
                i <= count,
                n == self.bits@.len(),
                start + count <= self.bits@.len(),
                forall|j: int| start <= j < start + i ==> !self.bits@[j],
            decreases count - i,
        {
            if self.bits[start + i] {
                return false;
            }
            i += 1;
        }
        true
    }

    /// First-fit search for `count` contiguous free slots above the
    /// reserved prefix.  Fails with `NoSpace` exactly when no such run
    /// exists.
    pub fn find_eps(&self, count: usize) -> (r: Result<EpId, Error>)
        requires
            count >= 1,
            self.first_user <= self.bits@.len(),
        ensures
            match r {
                Result::Ok(start) => {
                    &&& start >= self.first_user
                    &&& start + count <= self.bits@.len()
                    &&& range_clear(self.bits@, start as int, count as int)
                    &&& forall|s: int|
                        self.first_user <= s < start ==> !range_clear(self.bits@, s, count as int)
                },
                Result::Err(e) => {
                    &&& e.code == Code::NoSpace
                    &&& forall|s: int|
                        self.first_user <= s && s + count <= self.bits@.len() ==> !range_clear(
                            self.bits@,
                            s,
                            count as int,
                        )
                },
            },
    {
        let n = self.bits.len();
        let mut start: usize = self.first_user;
        let mut bit: usize = self.first_user;
        while bit < n
            invariant
                n == self.bits@.len(),
                self.first_user <= start <= bit <= n,
                count >= 1,
                bit - start < count,
                range_clear(self.bits@, start as int, bit - start),
                forall|s: int|
                    self.first_user <= s < start ==> !range_clear(self.bits@, s, count as int),
            decreases n - bit,
        {
            if self.bits[bit] {
                proof {
                    assert forall|s: int|
                        self.first_user <= s < bit + 1 implies !range_clear(
                        self.bits@,
                        s,
                        count as int,
                    ) by {
                        if s <= bit && bit < s + count {
                            assert(self.bits@[bit as int]);
                        }
                    }
                }
                start = bit + 1;
            } else if bit + 1 - start == count {
                proof {
                    assert forall|j: int| start <= j < start + count implies !self.bits@[j] by {
                        if j < bit {
                        } else {
                            assert(j == bit);
                        }
                    }
                }
                return Ok(start);
            }
            bit += 1;
        }
        proof {
            assert forall|s: int|
                self.first_user <= s && s + count <= self.bits@.len() implies !range_clear(
                self.bits@,
                s,
                count as int,
            ) by {
                if s >= start {
                    assert(s + count > n);
                }
            }
        }
        Err(Error::new(Code::NoSpace))
    }

    /// Claims the run `[start, start + count)`; callers must hand in a
    /// run that is entirely free, as handed out by `find_eps`.
    pub fn alloc_eps(&mut self, start: EpId, count: usize)
        requires
            start + count <= old(self).bits@.len(),
            range_clear(old(self).bits@, start as int, count as int),
        ensures
            final(self).bits@ == with_range(old(self).bits@, start as int, count as int, true),
            final(self).first_user == old(self).first_user,
    {
        let n = self.bits.len();
        let mut i: usize = 0;
        while i < count
            invariant
                i <= count,
                n == old(self).bits@.len(),
                start + count <= self.bits@.len(),
                self.first_user == old(self).first_user,
                self.bits@.len() == old(self).bits@.len(),
                forall|j: int|
                    0 <= j < self.bits@.len() ==> self.bits@[j] == if start <= j < start + i {
                        true
                    } else {
                        old(self).bits@[j]
                    },
            decreases count - i,
        {
            self.bits[start + i] = true;
            i += 1;
        }
        proof {
            assert(self.bits@ =~= with_range(old(self).bits@, start as int, count as int, true));
        }
    }

    /// Returns the run `[start, start + count)`; callers must hand back a
    /// run that is entirely allocated.
    pub fn free_eps(&mut self, start: EpId, count: usize)
        requires
            start + count <= old(self).bits@.len(),
            range_set(old(self).bits@, start as int, count as int),
        ensures
            final(self).bits@ == with_range(old(self).bits@, start as int, count as int, false),
            final(self).first_user == old(self).first_user,
    {
        let n = self.bits.len();
        let mut i: usize = 0;
        while i < count
            invariant
                i <= count,
                n == old(self).bits@.len(),
                start + count <= self.bits@.len(),
                self.first_user == old(self).first_user,
                self.bits@.len() == old(self).bits@.len(),
                forall|j: int|
                    0 <= j < self.bits@.len() ==> self.bits@[j] == if start <= j < start + i {
                        false
                    } else {
                        old(self).bits@[j]
                    },
            decreases count - i,
        {
            self.bits[start + i] = false;
            i += 1;
        }
        proof {
            assert(self.bits@ =~= with_range(old(self).bits@, start as int, count as int, false));
        }
    }

    /// Index of the first clear slot, or the length if none is clear.
    pub fn first_clear(&self) -> (r: usize)
        ensures
            r <= self.bits@.len(),
            forall|j: int| 0 <= j < r ==> self.bits@[j],
            r < self.bits@.len() ==> !self.bits@[r as int],
    {
        let mut i: usize = 0;
        while i < self.bits.len()
            invariant
                i <= self.bits@.len(),
                forall|j: int| 0 <= j < i ==> self.bits@[j],
            decreases self.bits@.len() - i,
        {
            if !self.bits[i] {
                return i;
            }
            i += 1;
        }
        i
    }
}

} // verus!
