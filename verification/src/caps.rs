//! The capability table: revocable, inheritable handles on kernel objects.
//!
//! Capabilities of all activities live in one arena of slots; a capability
//! records the activity it belongs to, the selector range it occupies
//! there, its payload, and the slot index of the capability it was derived
//! from.  Children are found through these parent handles, which keeps the
//! inheritance tree free of aliasing: a selector is unique within one
//! activity, lookups go by range overlap, and revocation removes a
//! capability's whole subtree in post order, children released before
//! their parent.
//!
//! Every successful insertion debits the owning activity's kernel-memory
//! ledger by the capability's cost, and every release credits the same
//! amount back, so an alive ledger always satisfies
//! `left + cost of live capabilities + quota lent to derived ledgers == quota`.

use vstd::prelude::*;

use crate::err::{Code, Error};
use crate::kobj::{ActId, KObject, ObjStore, SideEffect, CAP_SIZE, KOBJ_SIZE};
use crate::sel::{CapSel, SelRange};

verus! {

/// Selector every activity's own activity capability sits at.
pub const SEL_ACT: CapSel = 0;

/// Selector of the activity's own tile capability.
pub const SEL_TILE: CapSel = 1;

/// Selector of the activity's root kernel-memory capability.
pub const SEL_KMEM: CapSel = 2;

/// Number of address bits covered by one page; a mapping capability at
/// selector `s` governs the virtual page `s`.
pub const PAGE_BITS: u64 = 12;

/// One capability: a selector range of one activity bound to a kernel
/// object, plus its place in the inheritance tree.
#[derive(Clone, Copy, Debug, PartialEq, Eq, Structural)]
pub struct Capability {
    /// The activity whose table the capability belongs to.
    pub act: ActId,
    /// The selector run it occupies in that table.
    pub sels: SelRange,
    /// The payload.
    pub obj: KObject,
    /// Slot index of the capability this one was derived from.
    pub parent: Option<usize>,
    /// True if this capability only references an object owned by another
    /// capability; it then relinquishes no object on revoke.
    pub derived: bool,
}

impl Capability {
    /// A freshly owned capability for one selector.
    pub fn new(act: ActId, sel: CapSel, obj: KObject) -> (c: Capability)
        ensures
            c == (Capability {
                act,
                sels: SelRange { start: sel, count: 1 },
                obj,
                parent: None,
                derived: false,
            }),
    {
        Capability { act, sels: SelRange::new(sel), obj, parent: None, derived: false }
    }

    /// A freshly owned capability covering a selector range.
    pub fn new_range(act: ActId, sels: SelRange, obj: KObject) -> (c: Capability)
        ensures
            c == (Capability { act, sels, obj, parent: None, derived: false }),
    {
        Capability { act, sels, obj, parent: None, derived: false }
    }

    /// The range the capability occupies.
    pub fn sel_range(&self) -> (r: SelRange)
        ensures
            r == self.sels,
    {
        self.sels
    }

    /// The first selector of the range.
    pub fn sel(&self) -> (s: CapSel)
        ensures
            s == self.sels.start,
    {
        self.sels.start
    }

    /// The number of selectors the capability occupies.
    pub fn len(&self) -> (n: CapSel)
        ensures
            n == self.sels.count,
    {
        self.sels.count
    }

    /// The payload.
    pub fn get(&self) -> (o: KObject)
        ensures
            o == self.obj,
    {
        self.obj
    }

    /// Whether the capability was derived from another one.
    pub fn has_parent(&self) -> (r: bool)
        ensures
            r == (self.parent is Some),
    {
        self.parent.is_some()
    }

    /// Kernel-memory cost of a capability record plus, for an owning
    /// capability, the object behind it.
    pub open spec fn spec_cost(derived: bool) -> nat {
        if derived {
            CAP_SIZE as nat
        } else {
            (CAP_SIZE + KOBJ_SIZE) as nat
        }
    }

    /// Kernel-memory cost of this capability.
    pub fn cost(&self) -> (n: u64)
        ensures
            n == Capability::spec_cost(self.derived),
    {
        if self.derived {
            CAP_SIZE
        } else {
            CAP_SIZE + KOBJ_SIZE
        }
    }
}

/// Per-activity bookkeeping: which kernel-memory ledger the activity is
/// charged against, and whether it still runs.
#[derive(Clone, Copy, Debug, PartialEq, Eq, Structural)]
pub struct ActMeta {
    /// Index of the activity's ledger in the store.
    pub kmem: usize,
    /// False once the activity reached its terminal state.
    pub alive: bool,
    /// True for the root resource manager, which is never torn down by a
    /// capability revoke.
    pub is_root: bool,
}

/// The capability table of the whole kernel: one slot arena for all
/// activities, the per-activity records, and the object store.
#[derive(Debug)]
pub struct CapTable {
    /// The capability arena; `None` slots are free.
    pub slots: Vec<Option<Capability>>,
    /// One record per activity; an [`ActId`] indexes this list.
    pub acts: Vec<ActMeta>,
    /// The kernel objects the capabilities point at.
    pub objs: ObjStore,
}

/// Whether slot `j` of a slot sequence holds a live capability.
pub open spec fn slot_live(slots: Seq<Option<Capability>>, j: int) -> bool {
    0 <= j < slots.len() && slots[j] is Some
}

/// The capability in slot `j` of a slot sequence.
pub open spec fn slot_at(slots: Seq<Option<Capability>>, j: int) -> Capability {
    slots[j]->Some_0
}

/// Whether slot `j` reaches slot `tgt` along parent handles in at most
/// `fuel` steps.
pub open spec fn reach_slots(slots: Seq<Option<Capability>>, j: int, tgt: int, fuel: nat) -> bool
    decreases fuel,
{
    j == tgt || (fuel > 0 && slot_live(slots, j) && slot_at(slots, j).parent is Some
        && reach_slots(slots, slot_at(slots, j).parent->Some_0 as int, tgt, (fuel - 1) as nat))
}

/// Cost a slot contributes to ledger `k`.
pub open spec fn slot_cost(slot: Option<Capability>, acts: Seq<ActMeta>, k: int) -> nat {
    match slot {
        Option::None => 0,
        Option::Some(c) => if c.act < acts.len() && acts[c.act as int].kmem == k {
            Capability::spec_cost(c.derived)
        } else {
            0
        },
    }
}

/// Sum of the costs the first `n` slots charge to ledger `k`.
pub open spec fn cost_sum_to(
    slots: Seq<Option<Capability>>,
    acts: Seq<ActMeta>,
    k: int,
    n: int,
) -> nat
    decreases n,
{
    if n <= 0 {
        0
    } else {
        cost_sum_to(slots, acts, k, n - 1) + slot_cost(slots[n - 1], acts, k)
    }
}

/// Total cost the live capabilities charge to ledger `k`.
pub open spec fn cost_sum(slots: Seq<Option<Capability>>, acts: Seq<ActMeta>, k: int) -> nat {
    cost_sum_to(slots, acts, k, slots.len() as int)
}

/// Quota ledger `j` has on loan from ledger `k`.
pub open spec fn lent_of(km: crate::kobj::KMemObject, k: int) -> nat {
    if km.alive && km.parent == Option::Some(k as usize) {
        km.quota as nat
    } else {
        0
    }
}

/// Quota the first `n` ledgers have on loan from ledger `k`.
pub open spec fn lent_sum_to(kmems: Seq<crate::kobj::KMemObject>, k: int, n: int) -> nat
    decreases n,
{
    if n <= 0 {
        0
    } else {
        lent_sum_to(kmems, k, n - 1) + lent_of(kmems[n - 1], k)
    }
}

/// Total quota ledger `k` has lent to alive derived ledgers.
pub open spec fn lent_sum(kmems: Seq<crate::kobj::KMemObject>, k: int) -> nat {
    lent_sum_to(kmems, k, kmems.len() as int)
}

/// Cost a stack of removed-but-unreleased capabilities still owes ledger
/// `k`; revocation releases in post order, so the debt is transient.
pub open spec fn pend_cost(pend: Seq<Capability>, acts: Seq<ActMeta>, k: int) -> nat
    decreases pend.len(),
{
    if pend.len() == 0 {
        0
    } else {
        pend_cost(pend.drop_last(), acts, k) + slot_cost(Option::Some(pend.last()), acts, k)
    }
}

/// Number of live capabilities among the first `n` slots.
pub open spec fn count_live_to(slots: Seq<Option<Capability>>, n: int) -> nat
    decreases n,
{
    if n <= 0 {
        0
    } else {
        count_live_to(slots, n - 1) + if slots[n - 1] is Some {
            1nat
        } else {
            0nat
        }
    }
}

/// Number of live capabilities.
pub open spec fn count_live(slots: Seq<Option<Capability>>) -> nat {
    count_live_to(slots, slots.len() as int)
}

/// Changing one slot changes the cost sum by the difference of the two
/// slot costs.
pub proof fn lemma_cost_sum_update(
    slots: Seq<Option<Capability>>,
    acts: Seq<ActMeta>,
    k: int,
    i: int,
    v: Option<Capability>,
    n: int,
)
    requires
        0 <= i < slots.len(),
        n <= slots.len(),
    ensures
        cost_sum_to(slots.update(i, v), acts, k, n) == if i < n {
            cost_sum_to(slots, acts, k, n) - slot_cost(slots[i], acts, k) + slot_cost(v, acts, k)
        } else {
            cost_sum_to(slots, acts, k, n) as int
        },
    decreases n,
{
    if n > 0 {
        lemma_cost_sum_update(slots, acts, k, i, v, n - 1);
    }
}

/// Appending a slot adds its cost to the sum.
pub proof fn lemma_cost_sum_push(
    slots: Seq<Option<Capability>>,
    acts: Seq<ActMeta>,
    k: int,
    v: Option<Capability>,
    n: int,
)
    requires
        n <= slots.len(),
    ensures
        cost_sum_to(slots.push(v), acts, k, n) == cost_sum_to(slots, acts, k, n),
        cost_sum_to(slots.push(v), acts, k, slots.len() as int + 1) == cost_sum(slots, acts, k)
            + slot_cost(v, acts, k),
    decreases n,
{
    if n > 0 {
        lemma_cost_sum_push(slots, acts, k, v, n - 1);
    }
    assert(slots.push(v)[slots.len() as int] == v);
    lemma_cost_sum_push_full(slots, acts, k, v, slots.len() as int);
}

proof fn lemma_cost_sum_push_full(
    slots: Seq<Option<Capability>>,
    acts: Seq<ActMeta>,
    k: int,
    v: Option<Capability>,
    n: int,
)
    requires
        0 <= n <= slots.len(),
    ensures
        cost_sum_to(slots.push(v), acts, k, n) == cost_sum_to(slots, acts, k, n),
    decreases n,
{
    if n > 0 {
        lemma_cost_sum_push_full(slots, acts, k, v, n - 1);
    }
}

/// Changing one ledger changes the lent sum by the difference of its
/// contributions.
pub proof fn lemma_lent_sum_update(
    kmems: Seq<crate::kobj::KMemObject>,
    k: int,
    i: int,
    v: crate::kobj::KMemObject,
    n: int,
)
    requires
        0 <= i < kmems.len(),
        n <= kmems.len(),
    ensures
        lent_sum_to(kmems.update(i, v), k, n) == if i < n {
            lent_sum_to(kmems, k, n) - lent_of(kmems[i], k) + lent_of(v, k)
        } else {
            lent_sum_to(kmems, k, n) as int
        },
    decreases n,
{
    if n > 0 {
        lemma_lent_sum_update(kmems, k, i, v, n - 1);
    }
}

/// An alive ledger borrowing from `k` accounts for at least its quota in
/// `k`'s lent sum.
pub proof fn lemma_lent_sum_ge(kmems: Seq<crate::kobj::KMemObject>, k: int, j: int, n: int)
    requires
        0 <= j < n <= kmems.len(),
        kmems[j].alive,
        kmems[j].parent == Option::Some(k as usize),
    ensures
        lent_sum_to(kmems, k, n) >= kmems[j].quota,
    decreases n,
{
    if j < n - 1 {
        lemma_lent_sum_ge(kmems, k, j, n - 1);
    }
}

/// Appending a ledger adds its contribution to every lent sum.
pub proof fn lemma_lent_sum_push(
    kmems: Seq<crate::kobj::KMemObject>,
    k: int,
    v: crate::kobj::KMemObject,
    n: int,
)
    requires
        0 <= n <= kmems.len(),
    ensures
        lent_sum_to(kmems.push(v), k, n) == lent_sum_to(kmems, k, n),
        lent_sum(kmems.push(v), k) == lent_sum(kmems, k) + lent_of(v, k),
    decreases n,
{
    if n > 0 {
        lemma_lent_sum_push(kmems, k, v, n - 1);
    }
    assert(kmems.push(v)[kmems.len() as int] == v);
    lemma_lent_sum_push_high(kmems, k, v, kmems.len() as int);
}

proof fn lemma_lent_sum_push_high(
    kmems: Seq<crate::kobj::KMemObject>,
    k: int,
    v: crate::kobj::KMemObject,
    n: int,
)
    requires
        0 <= n <= kmems.len(),
    ensures
        lent_sum_to(kmems.push(v), k, n) == lent_sum_to(kmems, k, n),
    decreases n,
{
    if n > 0 {
        lemma_lent_sum_push_high(kmems, k, v, n - 1);
    }
}

/// A cost sum over slots that charge nothing to `k` is zero.
pub proof fn lemma_cost_sum_zero(
    slots: Seq<Option<Capability>>,
    acts: Seq<ActMeta>,
    k: int,
    n: int,
)
    requires
        n <= slots.len(),
        forall|j: int| 0 <= j < n ==> slot_cost(#[trigger] slots[j], acts, k) == 0,
    ensures
        cost_sum_to(slots, acts, k, n) == 0,
    decreases n,
{
    if n > 0 {
        lemma_cost_sum_zero(slots, acts, k, n - 1);
    }
}

/// A lent sum over ledgers that borrow nothing from `k` is zero.
pub proof fn lemma_lent_sum_zero(kmems: Seq<crate::kobj::KMemObject>, k: int, n: int)
    requires
        n <= kmems.len(),
        forall|j: int| 0 <= j < n ==> lent_of(#[trigger] kmems[j], k) == 0,
    ensures
        lent_sum_to(kmems, k, n) == 0,
    decreases n,
{
    if n > 0 {
        lemma_lent_sum_zero(kmems, k, n - 1);
    }
}

/// Adding an activity record does not change what existing slots charge.
pub proof fn lemma_cost_sum_acts_push(
    slots: Seq<Option<Capability>>,
    acts: Seq<ActMeta>,
    m: ActMeta,
    k: int,
    n: int,
)
    requires
        n <= slots.len(),
        forall|j: int|
            0 <= j < n && #[trigger] slots[j] is Some ==> slots[j]->Some_0.act < acts.len(),
    ensures
        cost_sum_to(slots, acts.push(m), k, n) == cost_sum_to(slots, acts, k, n),
    decreases n,
{
    if n > 0 {
        lemma_cost_sum_acts_push(slots, acts, m, k, n - 1);
        assert(slot_cost(slots[n - 1], acts.push(m), k) == slot_cost(slots[n - 1], acts, k));
    }
}

/// One removed capability still owed to the ledgers is accounted exactly
/// once on the pending stack.
pub proof fn lemma_pend_push(pend: Seq<Capability>, c: Capability, acts: Seq<ActMeta>, k: int)
    ensures
        pend_cost(pend.push(c), acts, k) == pend_cost(pend, acts, k) + slot_cost(
            Option::Some(c),
            acts,
            k,
        ),
{
    assert(pend.push(c).drop_last() =~= pend);
    assert(pend.push(c).last() == c);
}

/// Changing one slot changes the live count by the difference of the two
/// occupancies.
pub proof fn lemma_count_live_update(
    slots: Seq<Option<Capability>>,
    i: int,
    v: Option<Capability>,
    n: int,
)
    requires
        0 <= i < slots.len(),
        n <= slots.len(),
    ensures
        count_live_to(slots.update(i, v), n) == if i < n {
            count_live_to(slots, n) - (if slots[i] is Some {
                1int
            } else {
                0int
            }) + (if v is Some {
                1int
            } else {
                0int
            })
        } else {
            count_live_to(slots, n) as int
        },
    decreases n,
{
    if n > 0 {
        lemma_count_live_update(slots, i, v, n - 1);
    }
}

/// Appending a slot adds its occupancy to the live count.
pub proof fn lemma_count_live_push(slots: Seq<Option<Capability>>, v: Option<Capability>, n: int)
    requires
        0 <= n <= slots.len(),
    ensures
        count_live_to(slots.push(v), n) == count_live_to(slots, n),
        count_live(slots.push(v)) == count_live(slots) + if v is Some {
            1nat
        } else {
            0nat
        },
    decreases n,
{
    if n > 0 {
        lemma_count_live_push(slots, v, n - 1);
    }
    assert(slots.push(v)[slots.len() as int] == v);
    lemma_count_live_push_high(slots, v, slots.len() as int);
}

proof fn lemma_count_live_push_high(slots: Seq<Option<Capability>>, v: Option<Capability>, n: int)
    requires
        0 <= n <= slots.len(),
    ensures
        count_live_to(slots.push(v), n) == count_live_to(slots, n),
    decreases n,
{
    if n > 0 {
        lemma_count_live_push_high(slots, v, n - 1);
    }
}

impl CapTable {
    /// An empty table with no activities.
    pub fn new() -> (t: CapTable)
        ensures
            t.slots@.len() == 0,
            t.acts@.len() == 0,
            t.objs.kmems@.len() == 0,
            t.wf(),
            t.quota_inv(),
    {
        let t = CapTable { slots: Vec::new(), acts: Vec::new(), objs: ObjStore::new() };
        proof {
            assert(t.wf());
            assert(t.quota_inv());
        }
        t
    }

    /// Whether slot `i` holds a live capability.
    pub open spec fn live(self, i: int) -> bool {
        0 <= i < self.slots@.len() && self.slots@[i] is Some
    }

    /// The capability in slot `i`.
    pub open spec fn cap(self, i: int) -> Capability {
        self.slots@[i]->Some_0
    }

    /// Whether activity `act` holds a capability whose range covers `sel`.
    pub open spec fn has_cap(self, act: ActId, sel: CapSel) -> bool {
        exists|i: int|
            self.live(i) && self.cap(i).act == act && self.cap(i).sels.spec_contains(sel)
    }

    /// The slot of the capability of `act` covering `sel`.
    pub open spec fn idx_of(self, act: ActId, sel: CapSel) -> int {
        choose|i: int|
            self.live(i) && self.cap(i).act == act && self.cap(i).sels.spec_contains(sel)
    }

    /// Structural soundness of one capability.
    pub open spec fn cap_ok(self, c: Capability) -> bool {
        &&& c.act < self.acts@.len()
        &&& self.acts@[c.act as int].kmem < self.objs.kmems@.len()
        &&& c.sels.spec_valid()
        &&& self.objs.obj_in_bounds(c.obj)
        &&& match c.obj {
            KObject::Act(a) => a < self.acts@.len(),
            _ => true,
        }
        &&& match c.parent {
            Option::Some(p) => p < self.slots@.len(),
            Option::None => true,
        }
    }

    /// Every live capability's parent handle names a live capability.
    pub open spec fn parents_live(self) -> bool {
        forall|i: int|
            self.live(i) && #[trigger] self.cap(i).parent is Some ==> self.live(
                self.cap(i).parent->Some_0 as int,
            ) && self.cap(i).parent->Some_0 != i
    }

    /// No two live capabilities of one activity overlap in selectors.
    pub open spec fn no_overlap(self) -> bool {
        forall|i: int, j: int|
            #![trigger self.cap(i), self.cap(j)]
            self.live(i) && self.live(j) && i != j && self.cap(i).act == self.cap(j).act
                ==> !self.cap(i).sels.spec_overlaps(self.cap(j).sels)
    }

    /// Structural soundness of the object store's cross references.
    pub open spec fn store_ok(self) -> bool {
        &&& forall|s: int|
            0 <= s < self.objs.sgates@.len() ==> (#[trigger] self.objs.sgates@[s]).rgate
                < self.objs.rgates@.len() && match self.objs.sgates@[s].ep {
                Option::Some(e) => e < self.objs.eps@.len(),
                Option::None => true,
            }
        &&& forall|r: int|
            0 <= r < self.objs.rgates@.len() ==> match (#[trigger] self.objs.rgates@[r]).ep {
                Option::Some(e) => e < self.objs.eps@.len(),
                Option::None => true,
            }
        &&& forall|m: int|
            0 <= m < self.objs.mgates@.len() ==> match (#[trigger] self.objs.mgates@[m]).ep {
                Option::Some(e) => e < self.objs.eps@.len(),
                Option::None => true,
            }
        &&& forall|x: int|
            0 <= x < self.objs.sesss@.len() ==> (#[trigger] self.objs.sesss@[x]).serv
                < self.objs.servs@.len()
        &&& forall|k: int|
            0 <= k < self.objs.kmems@.len() ==> match (#[trigger] self.objs.kmems@[k]).parent {
                Option::Some(p) => p < self.objs.kmems@.len() && p != k,
                Option::None => true,
            }
        &&& forall|t: int|
            0 <= t < self.objs.tiles@.len() ==> match (#[trigger] self.objs.tiles@[t]).parent {
                Option::Some(p) => p < self.objs.tiles@.len() && p != t,
                Option::None => true,
            }
    }

    /// Structural soundness alone: every live capability and the store's
    /// cross references are in bounds.  Revocation keeps this at every
    /// step, while live parents are restored only once a cascade is done.
    pub open spec fn sound(self) -> bool {
        &&& forall|i: int| self.live(i) ==> self.cap_ok(#[trigger] self.cap(i))
        &&& self.store_ok()
    }

    /// No ledger's unallocated part exceeds its total.
    pub open spec fn lefts_ok(self) -> bool {
        forall|k: int|
            0 <= k < self.objs.kmems@.len() ==> (#[trigger] self.objs.kmems@[k]).left
                <= self.objs.kmems@[k].quota
    }

    /// Well-formedness: capability soundness, live parents, disjoint
    /// ranges, and sound object references.
    pub open spec fn wf(self) -> bool {
        &&& self.sound()
        &&& self.parents_live()
        &&& self.no_overlap()
        &&& self.acyclic()
    }

    /// Whether the capability in slot `i` may be revoked: a kernel-memory
    /// capability must have no quota outstanding, a tile capability no
    /// resident activities.
    pub open spec fn spec_can_revoke(self, i: int) -> bool {
        match self.cap(i).obj {
            KObject::KMem(j) => self.objs.kmems@[j as int].left == self.objs.kmems@[j as int].quota,
            KObject::Tile(t) => self.objs.tiles@[t as int].vpes == 0,
            _ => true,
        }
    }

    /// Whether slot `j` reaches slot `tgt` along parent handles in at most
    /// `fuel` steps.
    pub open spec fn reach(self, j: int, tgt: int, fuel: nat) -> bool {
        reach_slots(self.slots@, j, tgt, fuel)
    }

    /// No capability is an ancestor of its own parent.
    pub open spec fn acyclic(self) -> bool {
        forall|j: int|
            self.live(j) && (#[trigger] self.cap(j)).parent is Some ==> !self.reaches(
                self.cap(j).parent->Some_0 as int,
                j,
            )
    }

    /// The ledger equation, allowing for a transient stack of removed but
    /// not yet released capabilities.
    pub open spec fn ledger_minus(self, pend: Seq<Capability>) -> bool {
        forall|k: int|
            0 <= k < self.objs.kmems@.len() && (#[trigger] self.objs.kmems@[k]).alive
                ==> self.objs.kmems@[k].left + cost_sum(self.slots@, self.acts@, k) + lent_sum(
                self.objs.kmems@,
                k,
            ) + pend_cost(pend, self.acts@, k) == self.objs.kmems@[k].quota
    }

    /// Quota conservation: for every alive ledger, unallocated quota plus
    /// the cost of live capabilities plus lent quota equals the total.
    pub open spec fn quota_inv(self) -> bool {
        self.ledger_minus(Seq::empty())
    }

    /// Whether the whole table is empty.
    pub fn is_empty(&self) -> (r: bool)
        ensures
            r == (forall|i: int| !self.live(i)),
    {
        let mut i: usize = 0;
        while i < self.slots.len()
            invariant
                i <= self.slots@.len(),
                forall|j: int| 0 <= j < i ==> !self.live(j),
            decreases self.slots@.len() - i,
        {
            if self.slots[i].is_some() {
                proof {
                    assert(self.live(i as int));
                }
                return false;
            }
            i += 1;
        }
        true
    }

    /// Finds the slot of the capability of `act` covering `sel`.
    pub fn find(&self, act: ActId, sel: CapSel) -> (r: Option<usize>)
        requires
            self.sound(),
            self.no_overlap(),
        ensures
            match r {
                Option::Some(i) => self.live(i as int) && self.cap(i as int).act == act
                    && self.cap(i as int).sels.spec_contains(sel) && i as int == self.idx_of(
                    act,
                    sel,
                ) && (forall|j: int|
                    self.live(j) && #[trigger] self.cap(j).act == act && self.cap(
                        j,
                    ).sels.spec_contains(sel) ==> j == i),
                Option::None => !self.has_cap(act, sel),
            },
    {
        let mut i: usize = 0;
        while i < self.slots.len()
            invariant
                self.sound(),
                self.no_overlap(),
                i <= self.slots@.len(),
                forall|j: int|
                    0 <= j < i ==> !(self.live(j) && self.cap(j).act == act && self.cap(
                        j,
                    ).sels.spec_contains(sel)),
            decreases self.slots@.len() - i,
        {
            if let Some(c) = &self.slots[i] {
                proof {
                    assert(self.live(i as int));
                    assert(self.cap(i as int) == *c);
                    assert(self.cap_ok(self.cap(i as int)));
                }
                if c.act == act && c.sels.contains(sel) {
                    proof {
                        assert forall|j: int|
                            self.live(j) && #[trigger] self.cap(j).act == act && self.cap(
                                j,
                            ).sels.spec_contains(sel) implies j == i as int by {
                            if j != i as int {
                                assert(!self.cap(j).sels.spec_overlaps(self.cap(i as int).sels));
                            }
                        }
                        let w = self.idx_of(act, sel);
                        assert(self.live(w) && self.cap(w).act == act && self.cap(
                            w,
                        ).sels.spec_contains(sel));
                    }
                    return Some(i);
                }
            }
            i += 1;
        }
        None
    }

    /// Whether `sel` is free in `act`'s table.
    pub fn unused(&self, act: ActId, sel: CapSel) -> (r: bool)
        requires
            self.wf(),
        ensures
            r == !self.has_cap(act, sel),
    {
        self.find(act, sel).is_none()
    }

    /// Whether no live capability of `act` overlaps `crd`.
    pub open spec fn spec_range_unused(self, act: ActId, crd: SelRange) -> bool {
        forall|i: int|
            self.live(i) && (#[trigger] self.cap(i)).act == act ==> !self.cap(
                i,
            ).sels.spec_overlaps(crd)
    }

    /// Whether no live capability of `act` overlaps `crd`.
    pub fn range_unused(&self, act: ActId, crd: &SelRange) -> (r: bool)
        requires
            self.wf(),
            crd.spec_valid(),
        ensures
            r == self.spec_range_unused(act, *crd),
    {
        let mut i: usize = 0;
        while i < self.slots.len()
            invariant
                self.wf(),
                crd.spec_valid(),
                i <= self.slots@.len(),
                forall|j: int|
                    0 <= j < i && self.live(j) && (#[trigger] self.cap(j)).act == act ==> !self.cap(
                        j,
                    ).sels.spec_overlaps(*crd),
            decreases self.slots@.len() - i,
        {
            if let Some(c) = &self.slots[i] {
                proof {
                    assert(self.live(i as int));
                    assert(self.cap(i as int) == *c);
                    assert(self.cap_ok(self.cap(i as int)));
                }
                if c.act == act && c.sels.overlaps(crd) {
                    return false;
                }
            }
            i += 1;
        }
        true
    }

    /// A reference to the capability of `act` covering `sel`.
    pub fn get(&self, act: ActId, sel: CapSel) -> (r: Option<&Capability>)
        requires
            self.wf(),
        ensures
            match r {
                Option::Some(c) => self.has_cap(act, sel) && self.live(self.idx_of(act, sel))
                    && *c == self.cap(self.idx_of(act, sel)),
                Option::None => !self.has_cap(act, sel),
            },
    {
        match self.find(act, sel) {
            Some(i) => {
                let c = self.slots[i].as_ref().unwrap();
                proof {
                    let w = self.idx_of(act, sel);
                    assert(self.live(w) && self.cap(w).act == act && self.cap(
                        w,
                    ).sels.spec_contains(sel));
                    if w != i as int {
                        assert(!self.cap(w).sels.spec_overlaps(self.cap(i as int).sels));
                    }
                }
                Some(c)
            },
            None => None,
        }
    }

    /// A mutable reference to the capability of `act` covering `sel`.
    pub fn get_mut(&mut self, act: ActId, sel: CapSel) -> (r: Option<&mut Capability>)
        requires
            old(self).wf(),
        ensures
            match r {
                Option::Some(c) => {
                    &&& old(self).has_cap(act, sel)
                    &&& *c == old(self).cap(old(self).idx_of(act, sel))
                    &&& final(self).slots@ == old(self).slots@.update(
                        old(self).idx_of(act, sel),
                        Option::Some(*final(c)),
                    )
                    &&& final(self).acts == old(self).acts
                    &&& final(self).objs == old(self).objs
                },
                Option::None => {
                    &&& !old(self).has_cap(act, sel)
                    &&& *final(self) == *old(self)
                },
            },
    {
        match self.find(act, sel) {
            Some(i) => {
                proof {
                    let w = old(self).idx_of(act, sel);
                    assert(old(self).live(w) && old(self).cap(w).act == act && old(self).cap(
                        w,
                    ).sels.spec_contains(sel));
                    if w != i as int {
                        assert(!old(self).cap(w).sels.spec_overlaps(old(self).cap(i as int).sels));
                    }
                    assert(old(self).slots@ == old(self).slots@.update(
                        i as int,
                        old(self).slots@[i as int],
                    ));
                }
                let r = self.slots[i].as_mut().unwrap();
                Some(r)
            },
            None => None,
        }
    }

    /// Puts `cap` into a free slot, reusing one if possible.
    fn do_insert(&mut self, cap: Capability) -> (i: usize)
        ensures
            i < final(self).slots@.len(),
            !old(self).live(i as int),
            final(self).slots@ == if (i as int) < old(self).slots@.len() {
                old(self).slots@.update(i as int, Option::Some(cap))
            } else {
                old(self).slots@.push(Option::Some(cap))
            },
            final(self).live(i as int) && final(self).cap(i as int) == cap,
            forall|j: int| old(self).live(j) ==> j != i && final(self).live(j),
            forall|j: int| old(self).live(j) ==> final(self).cap(j) == old(self).cap(j),
            forall|j: int| final(self).live(j) && j != i ==> old(self).live(j),
            final(self).acts == old(self).acts,
            final(self).objs == old(self).objs,
            forall|k: int|
                cost_sum(final(self).slots@, final(self).acts@, k) == cost_sum(
                    old(self).slots@,
                    old(self).acts@,
                    k,
                ) + slot_cost(Option::Some(cap), final(self).acts@, k),
            count_live(final(self).slots@) == count_live(old(self).slots@) + 1,
    {
        let ghost s0 = self.slots@;
        let mut i: usize = 0;
        while i < self.slots.len() && self.slots[i].is_some()
            invariant
                i <= self.slots@.len(),
                self.slots@ == s0,
                forall|j: int| 0 <= j < i ==> s0[j] is Some,
            decreases self.slots@.len() - i,
        {
            i += 1;
        }
        if i == self.slots.len() {
            self.slots.push(Some(cap));
            proof {
                assert(self.slots@ == s0.push(Option::Some(cap)));
                assert(self.slots@.len() == s0.len() + 1);
                assert forall|k: int|
                    cost_sum(self.slots@, self.acts@, k) == cost_sum(s0, self.acts@, k)
                        + slot_cost(Option::Some(cap), self.acts@, k) by {
                    lemma_cost_sum_push(s0, self.acts@, k, Option::Some(cap), 0);
                    assert(cost_sum_to(s0.push(Option::Some(cap)), self.acts@, k, s0.len() as int + 1)
                        == cost_sum(s0, self.acts@, k) + slot_cost(Option::Some(cap), self.acts@, k));
                }
                lemma_count_live_push(s0, Option::Some(cap), 0);
            }
        } else {
            self.slots[i] = Some(cap);
            proof {
                assert forall|k: int|
                    cost_sum(self.slots@, self.acts@, k) == cost_sum(s0, self.acts@, k)
                        + slot_cost(Option::Some(cap), self.acts@, k) by {
                    lemma_cost_sum_update(
                        s0,
                        self.acts@,
                        k,
                        i as int,
                        Option::Some(cap),
                        s0.len() as int,
                    );
                }
                lemma_count_live_update(s0, i as int, Option::Some(cap), s0.len() as int);
            }
        }
        i
    }

    /// What a capability must look like before it may enter the table.
    pub open spec fn insertable(self, cap: Capability) -> bool {
        &&& self.cap_ok(cap)
        &&& cap.parent is None
        &&& !cap.derived
        &&& self.spec_range_unused(cap.act, cap.sels)
    }

    /// The ledger the costs of `act`'s capabilities are charged to.
    pub open spec fn kmem_of(self, act: ActId) -> int {
        self.acts@[act as int].kmem as int
    }

    /// Inserts `cap` linked below the given parent slot, charging the
    /// owning activity's ledger.
    fn insert_new(&mut self, cap: Capability, parent: Option<usize>) -> (r: Result<(), Error>)
        requires
            old(self).wf(),
            old(self).quota_inv(),
            old(self).insertable(cap),
            match parent {
                Option::Some(p) => old(self).live(p as int),
                Option::None => true,
            },
        ensures
            final(self).wf(),
            final(self).quota_inv(),
            final(self).acts == old(self).acts,
            match r {
                Result::Ok(()) => {
                    &&& old(self).objs.kmems@[old(self).kmem_of(cap.act)].left >= Capability::spec_cost(false)
                    &&& final(self).objs.kmems@ == old(self).objs.kmems@.update(
                        old(self).kmem_of(cap.act),
                        crate::kobj::KMemObject {
                            left: (old(self).objs.kmems@[old(self).kmem_of(cap.act)].left
                                - Capability::spec_cost(false)) as u64,
                            ..old(self).objs.kmems@[old(self).kmem_of(cap.act)]
                        },
                    )
                    &&& final(self).objs.rgates == old(self).objs.rgates
                    &&& final(self).objs.sgates == old(self).objs.sgates
                    &&& final(self).objs.mgates == old(self).objs.mgates
                    &&& final(self).objs.eps == old(self).objs.eps
                    &&& final(self).objs.tiles == old(self).objs.tiles
                    &&& final(self).objs.servs == old(self).objs.servs
                    &&& final(self).objs.sesss == old(self).objs.sesss
                    &&& final(self).objs.maps == old(self).objs.maps
                    &&& final(self).objs.sems == old(self).objs.sems
                    &&& exists|i: int|
                        {
                            &&& #[trigger] final(self).live(i)
                            &&& !old(self).live(i)
                            &&& final(self).cap(i) == (Capability { parent, ..cap })
                            &&& forall|j: int| old(self).live(j) ==> j != i && final(self).live(j)
                            &&& forall|j: int|
                                old(self).live(j) ==> final(self).cap(j) == old(self).cap(j)
                            &&& forall|j: int| final(self).live(j) && j != i ==> old(self).live(j)
                        }
                    &&& final(self).has_cap(cap.act, cap.sels.start)
                    &&& count_live(final(self).slots@) == count_live(old(self).slots@) + 1
                },
                Result::Err(e) => {
                    &&& e.code == Code::NoSpace
                    &&& old(self).objs.kmems@[old(self).kmem_of(cap.act)].left < Capability::spec_cost(false)
                    &&& *final(self) == *old(self)
                },
            },
    {
        let k = self.acts[cap.act].kmem;
        let cost = CAP_SIZE + KOBJ_SIZE;
        if self.objs.kmems[k].left < cost {
            return Err(Error::new(Code::NoSpace));
        }
        let ghost pre = *self;
        let mut km = self.objs.kmems[k];
        km.left = km.left - cost;
        self.objs.kmems[k] = km;
        let linked = Capability { parent, ..cap };
        let i = self.do_insert(linked);
        proof {
            let mid = *self;
            assert(self.live(i as int) && self.cap(i as int) == linked);
            assert(self.has_cap(cap.act, cap.sels.start)) by {
                assert(linked.sels.spec_contains(cap.sels.start));
            }
            assert forall|j: int| self.live(j) implies self.cap_ok(self.cap(j)) by {
                if j != i {
                    assert(pre.cap_ok(pre.cap(j)));
                }
            }
            assert forall|j: int|
                self.live(j) && #[trigger] self.cap(j).parent is Some implies self.live(
                self.cap(j).parent->Some_0 as int,
            ) && self.cap(j).parent->Some_0 != j by {
                if j == i {
                    let p = linked.parent->Some_0;
                    assert(pre.live(p as int));
                } else {
                    assert(pre.cap(j).parent is Some);
                    assert(pre.live(pre.cap(j).parent->Some_0 as int));
                }
            }
            assert forall|i2: int, j2: int|
                self.live(i2) && self.live(j2) && i2 != j2 && self.cap(i2).act == self.cap(
                    j2,
                ).act implies !self.cap(i2).sels.spec_overlaps(self.cap(j2).sels) by {
                if i2 == i {
                    assert(!pre.cap(j2).sels.spec_overlaps(linked.sels));
                } else if j2 == i {
                    assert(!pre.cap(i2).sels.spec_overlaps(linked.sels));
                }
            }
            assert forall|j2: int|
                self.live(j2) && (#[trigger] self.cap(j2)).parent is Some implies !self.reaches(
                self.cap(j2).parent->Some_0 as int,
                j2,
            ) by {
                let p = self.cap(j2).parent->Some_0 as int;
                assert forall|j3: int|
                    slot_live(pre.slots@, j3) implies (#[trigger] slot_at(
                    pre.slots@,
                    j3,
                )).parent != Option::Some((i as int) as usize) by {
                    assert(pre.live(j3));
                    assert(slot_at(pre.slots@, j3) == pre.cap(j3));
                    if pre.cap(j3).parent == Option::Some((i as int) as usize) {
                        assert(pre.live(i as int));
                    }
                }
                if self.reaches(p, j2) {
                    let f = choose|f: nat| self.reach(p, j2, f);
                    if j2 == i as int {
                        assert(pre.live(p));
                        lemma_reach_after_insert(pre.slots@, self.slots@, i as int, p, j2, f);
                    } else {
                        assert(pre.live(j2) && pre.cap(j2) == self.cap(j2));
                        assert(pre.live(p));
                        lemma_reach_after_insert(pre.slots@, self.slots@, i as int, p, j2, f);
                        assert(pre.reach(p, j2, f));
                        assert(pre.reaches(p, j2));
                    }
                }
            }
            // the ledger equation for every alive ledger
            assert forall|kk: int|
                0 <= kk < self.objs.kmems@.len() && (#[trigger] self.objs.kmems@[kk]).alive
                    implies self.objs.kmems@[kk].left + cost_sum(self.slots@, self.acts@, kk)
                + lent_sum(self.objs.kmems@, kk) + pend_cost(Seq::empty(), self.acts@, kk)
                == self.objs.kmems@[kk].quota by {
                lemma_lent_sum_update(
                    pre.objs.kmems@,
                    kk,
                    k as int,
                    km,
                    pre.objs.kmems@.len() as int,
                );
                assert(lent_of(km, kk) == lent_of(pre.objs.kmems@[k as int], kk));
                assert(lent_sum(self.objs.kmems@, kk) == lent_sum(pre.objs.kmems@, kk));
                assert(pre.objs.kmems@[kk].alive);
                assert(pre.objs.kmems@[kk].left + cost_sum(pre.slots@, pre.acts@, kk) + lent_sum(
                    pre.objs.kmems@,
                    kk,
                ) + pend_cost(Seq::empty(), pre.acts@, kk) == pre.objs.kmems@[kk].quota);
            }
        }
        Ok(())
    }

    /// Inserts a freshly owned capability with no parent.  Fails with
    /// `NoSpace` exactly when the owning activity's ledger cannot cover
    /// the capability's cost.
    pub fn insert(&mut self, cap: Capability) -> (r: Result<(), Error>)
        requires
            old(self).wf(),
            old(self).quota_inv(),
            old(self).insertable(cap),
        ensures
            final(self).wf(),
            final(self).quota_inv(),
            final(self).acts == old(self).acts,
            match r {
                Result::Ok(()) => {
                    &&& old(self).objs.kmems@[old(self).kmem_of(cap.act)].left
                        >= Capability::spec_cost(false)
                    &&& final(self).has_cap(cap.act, cap.sels.start)
                    &&& exists|i: int|
                        {
                            &&& #[trigger] final(self).live(i)
                            &&& !old(self).live(i)
                            &&& final(self).cap(i) == cap
                            &&& forall|j: int| old(self).live(j) ==> j != i && final(self).live(j)
                            &&& forall|j: int|
                                old(self).live(j) ==> final(self).cap(j) == old(self).cap(j)
                            &&& forall|j: int| final(self).live(j) && j != i ==> old(self).live(j)
                        }
                    &&& final(self).objs.kmems@ == old(self).objs.kmems@.update(
                        old(self).kmem_of(cap.act),
                        crate::kobj::KMemObject {
                            left: (old(self).objs.kmems@[old(self).kmem_of(cap.act)].left
                                - Capability::spec_cost(false)) as u64,
                            ..old(self).objs.kmems@[old(self).kmem_of(cap.act)]
                        },
                    )
                },
                Result::Err(e) => {
                    &&& e.code == Code::NoSpace
                    &&& old(self).objs.kmems@[old(self).kmem_of(cap.act)].left
                        < Capability::spec_cost(false)
                    &&& *final(self) == *old(self)
                },
            },
    {
        self.insert_new(cap, None)
    }

    /// Inserts a freshly owned capability as a child of the capability at
    /// `parent_sel` in the same activity's table; with no capability
    /// there, the new one enters the tree as a root.
    pub fn insert_as_child(&mut self, cap: Capability, parent_sel: CapSel) -> (r: Result<
        (),
        Error,
    >)
        requires
            old(self).wf(),
            old(self).quota_inv(),
            old(self).insertable(cap),
        ensures
            final(self).wf(),
            final(self).quota_inv(),
            final(self).acts == old(self).acts,
            match r {
                Result::Ok(()) => {
                    &&& final(self).has_cap(cap.act, cap.sels.start)
                    &&& exists|i: int|
                        {
                            &&& #[trigger] final(self).live(i)
                            &&& !old(self).live(i)
                            &&& final(self).cap(i) == (Capability {
                                parent: if old(self).has_cap(cap.act, parent_sel) {
                                    Option::Some(old(self).idx_of(cap.act, parent_sel) as usize)
                                } else {
                                    Option::None
                                },
                                ..cap
                            })
                            &&& forall|j: int| old(self).live(j) ==> j != i && final(self).live(j)
                            &&& forall|j: int|
                                old(self).live(j) ==> final(self).cap(j) == old(self).cap(j)
                            &&& forall|j: int| final(self).live(j) && j != i ==> old(self).live(j)
                        }
                },
                Result::Err(e) => {
                    &&& e.code == Code::NoSpace
                    &&& *final(self) == *old(self)
                },
            },
    {
        let parent = self.find(cap.act, parent_sel);
        self.insert_new(cap, parent)
    }

    /// Inserts a freshly owned capability as a child of a capability in a
    /// possibly different activity's table; used when a server grants a
    /// capability to a client.
    pub fn insert_as_child_from(
        &mut self,
        cap: Capability,
        par_act: ActId,
        par_sel: CapSel,
    ) -> (r: Result<(), Error>)
        requires
            old(self).wf(),
            old(self).quota_inv(),
            old(self).insertable(cap),
        ensures
            final(self).wf(),
            final(self).quota_inv(),
            final(self).acts == old(self).acts,
            match r {
                Result::Ok(()) => {
                    &&& final(self).has_cap(cap.act, cap.sels.start)
                    &&& exists|i: int|
                        {
                            &&& #[trigger] final(self).live(i)
                            &&& !old(self).live(i)
                            &&& final(self).cap(i) == (Capability {
                                parent: if old(self).has_cap(par_act, par_sel) {
                                    Option::Some(old(self).idx_of(par_act, par_sel) as usize)
                                } else {
                                    Option::None
                                },
                                ..cap
                            })
                            &&& forall|j: int| old(self).live(j) ==> j != i && final(self).live(j)
                            &&& forall|j: int|
                                old(self).live(j) ==> final(self).cap(j) == old(self).cap(j)
                            &&& forall|j: int| final(self).live(j) && j != i ==> old(self).live(j)
                        }
                },
                Result::Err(e) => {
                    &&& e.code == Code::NoSpace
                    &&& *final(self) == *old(self)
                },
            },
    {
        let parent = self.find(par_act, par_sel);
        self.insert_new(cap, parent)
    }

    /// Clones the capability covering `src_sel` of `src_act` into the
    /// fresh selector `sel` of `dst_act`, marking the clone derived.  With
    /// `child` the clone becomes a child of the original; otherwise the
    /// original is re-parented below the clone.
    pub fn obtain(
        &mut self,
        dst_act: ActId,
        sel: CapSel,
        src_act: ActId,
        src_sel: CapSel,
        child: bool,
    ) -> (r: Result<(), Error>)
        requires
            old(self).wf(),
            old(self).quota_inv(),
            dst_act < old(self).acts@.len(),
            old(self).kmem_of(dst_act) < old(self).objs.kmems@.len(),
            sel < u64::MAX,
            old(self).has_cap(src_act, src_sel),
            old(self).spec_range_unused(dst_act, SelRange { start: sel, count: 1 }),
        ensures
            final(self).wf(),
            final(self).quota_inv(),
            final(self).acts == old(self).acts,
            match r {
                Result::Ok(()) => {
                    let src_i = old(self).idx_of(src_act, src_sel);
                    &&& old(self).objs.kmems@[old(self).kmem_of(dst_act)].left
                        >= Capability::spec_cost(true)
                    &&& final(self).objs.kmems@ == old(self).objs.kmems@.update(
                        old(self).kmem_of(dst_act),
                        crate::kobj::KMemObject {
                            left: (old(self).objs.kmems@[old(self).kmem_of(dst_act)].left
                                - Capability::spec_cost(true)) as u64,
                            ..old(self).objs.kmems@[old(self).kmem_of(dst_act)]
                        },
                    )
                    &&& exists|i: int|
                        {
                            &&& #[trigger] final(self).live(i)
                            &&& !old(self).live(i)
                            &&& final(self).cap(i) == (Capability {
                                act: dst_act,
                                sels: SelRange { start: sel, count: 1 },
                                obj: old(self).cap(src_i).obj,
                                parent: if child {
                                    Option::Some(src_i as usize)
                                } else {
                                    Option::None
                                },
                                derived: true,
                            })
                            &&& forall|j: int| old(self).live(j) ==> j != i && final(self).live(j)
                            &&& forall|j: int| final(self).live(j) && j != i ==> old(self).live(j)
                            &&& (child ==> forall|j: int|
                                old(self).live(j) ==> final(self).cap(j) == old(self).cap(j))
                            &&& (!child ==> final(self).cap(src_i) == (Capability {
                                parent: Option::Some(i as usize),
                                ..old(self).cap(src_i)
                            }) && forall|j: int|
                                old(self).live(j) && j != src_i ==> final(self).cap(j) == old(
                                    self,
                                ).cap(j))
                        }
                },
                Result::Err(e) => {
                    &&& e.code == Code::NoSpace
                    &&& old(self).objs.kmems@[old(self).kmem_of(dst_act)].left
                        < Capability::spec_cost(true)
                    &&& *final(self) == *old(self)
                },
            },
    {
        let src_idx = match self.find(src_act, src_sel) {
            Some(i) => i,
            None => {
                proof {
                    assert(false);
                }
                0
            },
        };
        let src = self.slots[src_idx].unwrap();
        let kd = self.acts[dst_act].kmem;
        if self.objs.kmems[kd].left < CAP_SIZE {
            return Err(Error::new(Code::NoSpace));
        }
        let ghost pre = *self;
        let mut km = self.objs.kmems[kd];
        km.left = km.left - CAP_SIZE;
        self.objs.kmems[kd] = km;
        let nc = Capability {
            act: dst_act,
            sels: SelRange::new(sel),
            obj: src.obj,
            parent: if child {
                Some(src_idx)
            } else {
                None
            },
            derived: true,
        };
        let i = self.do_insert(nc);
        let ghost mid = *self;
        proof {
            assert(mid.slots@ == self.slots@);
            assert forall|k: int|
                cost_sum(mid.slots@, mid.acts@, k) == cost_sum(pre.slots@, pre.acts@, k)
                    + slot_cost(Option::Some(nc), pre.acts@, k) by {
            }
        }
        if !child {
            let reparented = Capability { parent: Some(i), ..src };
            self.slots[src_idx] = Some(reparented);
            proof {
                assert(self.slots@ == mid.slots@.update(src_idx as int, Option::Some(reparented)));
                assert forall|k: int|
                    cost_sum(self.slots@, self.acts@, k) == cost_sum(mid.slots@, mid.acts@, k) by {
                    lemma_cost_sum_update(
                        mid.slots@,
                        mid.acts@,
                        k,
                        src_idx as int,
                        Option::Some(reparented),
                        mid.slots@.len() as int,
                    );
                    assert(slot_cost(Option::Some(reparented), mid.acts@, k) == slot_cost(
                        mid.slots@[src_idx as int],
                        mid.acts@,
                        k,
                    ));
                }
            }
        }
        proof {
            assert(src_idx as int == pre.idx_of(src_act, src_sel));
            assert(self.live(i as int) && self.cap(i as int) == nc);
            assert forall|j: int| self.live(j) implies self.cap_ok(self.cap(j)) by {
                if j != i {
                    assert(pre.cap_ok(pre.cap(j)));
                }
            }
            assert forall|j: int|
                self.live(j) && #[trigger] self.cap(j).parent is Some implies self.live(
                self.cap(j).parent->Some_0 as int,
            ) && self.cap(j).parent->Some_0 != j by {
                if j == i {
                    if child {
                        assert(pre.live(src_idx as int));
                    }
                } else if !child && j == src_idx {
                    assert(self.live(i as int));
                } else {
                    assert(pre.cap(j).parent is Some);
                    assert(pre.live(pre.cap(j).parent->Some_0 as int));
                }
            }
            assert forall|i2: int, j2: int|
                self.live(i2) && self.live(j2) && i2 != j2 && self.cap(i2).act == self.cap(
                    j2,
                ).act implies !self.cap(i2).sels.spec_overlaps(self.cap(j2).sels) by {
                if i2 == i {
                    assert(!pre.cap(j2).sels.spec_overlaps(nc.sels));
                } else if j2 == i {
                    assert(!pre.cap(i2).sels.spec_overlaps(nc.sels));
                } else {
                    assert(self.cap(i2).sels == pre.cap(i2).sels);
                    assert(self.cap(j2).sels == pre.cap(j2).sels);
                    assert(!pre.cap(i2).sels.spec_overlaps(pre.cap(j2).sels));
                }
            }
            assert forall|j3: int|
                slot_live(pre.slots@, j3) implies (#[trigger] slot_at(pre.slots@, j3)).parent
                != Option::Some((i as int) as usize) by {
                assert(pre.live(j3));
                assert(slot_at(pre.slots@, j3) == pre.cap(j3));
                if pre.cap(j3).parent == Option::Some((i as int) as usize) {
                    assert(pre.live(i as int));
                }
            }
            assert forall|j2: int|
                self.live(j2) && (#[trigger] self.cap(j2)).parent is Some implies !self.reaches(
                self.cap(j2).parent->Some_0 as int,
                j2,
            ) by {
                let p = self.cap(j2).parent->Some_0 as int;
                if self.reaches(p, j2) {
                    let f = choose|f: nat| self.reach(p, j2, f);
                    if child {
                        // the table only grew by the fresh clone
                        if j2 == i as int {
                            assert(p == src_idx as int);
                            assert(pre.live(p));
                            lemma_reach_after_insert(pre.slots@, self.slots@, i as int, p, j2, f);
                        } else {
                            assert(pre.live(j2) && pre.cap(j2) == self.cap(j2));
                            assert(pre.live(p));
                            lemma_reach_after_insert(pre.slots@, self.slots@, i as int, p, j2, f);
                            assert(pre.reach(p, j2, f));
                            assert(pre.reaches(p, j2));
                        }
                    } else {
                        // fresh root above the original: unwind through it
                        if j2 == i as int {
                            assert(self.cap(i as int).parent is None);
                        } else if j2 == src_idx as int {
                            assert(p == i as int);
                            assert(reach_slots(self.slots@, p, j2, f));
                            assert(slot_at(self.slots@, i as int).parent is None);
                        } else {
                            assert(pre.live(j2) && pre.cap(j2) == self.cap(j2));
                            assert(pre.live(p));
                            if p == src_idx as int {
                                assert(reach_slots(self.slots@, p, j2, f));
                                assert(slot_at(self.slots@, src_idx as int).parent
                                    == Option::Some(i));
                                if f > 0 {
                                    assert(reach_slots(self.slots@, i as int, j2, (f - 1) as nat));
                                    assert(slot_at(self.slots@, i as int).parent is None);
                                }
                            } else {
                                assert(p != i as int);
                                lemma_reach_after_reparent(
                                    mid.slots@,
                                    self.slots@,
                                    src_idx as int,
                                    i as int,
                                    p,
                                    j2,
                                    f,
                                );
                                lemma_reach_after_insert(
                                    pre.slots@,
                                    mid.slots@,
                                    i as int,
                                    p,
                                    j2,
                                    f,
                                );
                                assert(pre.reach(p, j2, f));
                                assert(pre.reaches(p, j2));
                            }
                        }
                    }
                }
            }
            assert forall|kk: int|
                0 <= kk < self.objs.kmems@.len() && (#[trigger] self.objs.kmems@[kk]).alive
                    implies self.objs.kmems@[kk].left + cost_sum(self.slots@, self.acts@, kk)
                + lent_sum(self.objs.kmems@, kk) + pend_cost(Seq::empty(), self.acts@, kk)
                == self.objs.kmems@[kk].quota by {
                lemma_lent_sum_update(
                    pre.objs.kmems@,
                    kk,
                    kd as int,
                    km,
                    pre.objs.kmems@.len() as int,
                );
                assert(lent_of(km, kk) == lent_of(pre.objs.kmems@[kd as int], kk));
                assert(lent_sum(self.objs.kmems@, kk) == lent_sum(pre.objs.kmems@, kk));
                assert(cost_sum(self.slots@, self.acts@, kk) == cost_sum(mid.slots@, mid.acts@, kk));
                assert(cost_sum(self.slots@, self.acts@, kk) == cost_sum(pre.slots@, pre.acts@, kk)
                    + slot_cost(Option::Some(nc), pre.acts@, kk));
                assert(pre.objs.kmems@[kk].alive);
                assert(pre.objs.kmems@[kk].left + cost_sum(pre.slots@, pre.acts@, kk) + lent_sum(
                    pre.objs.kmems@,
                    kk,
                ) + pend_cost(Seq::empty(), pre.acts@, kk) == pre.objs.kmems@[kk].quota);
            }
        }
        Ok(())
    }

    /// Registers a new activity with its own kernel-memory ledger of the
    /// given quota, and returns its identifier.
    pub fn create_activity(&mut self, quota: u64, is_root: bool) -> (act: ActId)
        requires
            old(self).wf(),
            old(self).quota_inv(),
        ensures
            final(self).wf(),
            final(self).quota_inv(),
            act == old(self).acts@.len(),
            final(self).acts@ == old(self).acts@.push(
                ActMeta { kmem: old(self).objs.kmems.len(), alive: true, is_root },
            ),
            final(self).objs.kmems@ == old(self).objs.kmems@.push(
                crate::kobj::KMemObject {
                    quota,
                    left: quota,
                    alive: true,
                    parent: Option::None,
                },
            ),
            final(self).slots == old(self).slots,
            final(self).objs.rgates == old(self).objs.rgates,
            final(self).objs.sgates == old(self).objs.sgates,
            final(self).objs.mgates == old(self).objs.mgates,
            final(self).objs.eps == old(self).objs.eps,
            final(self).objs.tiles == old(self).objs.tiles,
            final(self).objs.servs == old(self).objs.servs,
            final(self).objs.sesss == old(self).objs.sesss,
            final(self).objs.maps == old(self).objs.maps,
            final(self).objs.sems == old(self).objs.sems,
            final(self).kmem_of(act) == old(self).objs.kmems@.len(),
    {
        let ghost pre = *self;
        let k = self.objs.kmems.len();
        let act = self.acts.len();
        self.objs.kmems.push(
            crate::kobj::KMemObject { quota, left: quota, alive: true, parent: None },
        );
        self.acts.push(ActMeta { kmem: k, alive: true, is_root });
        proof {
            let km = crate::kobj::KMemObject { quota, left: quota, alive: true, parent: Option::None };
            let m = ActMeta { kmem: k, alive: true, is_root };
            assert forall|j: int| self.live(j) implies self.cap_ok(self.cap(j)) by {
                assert(pre.cap_ok(pre.cap(j)));
            }
            assert forall|j: int|
                self.live(j) && #[trigger] self.cap(j).parent is Some implies self.live(
                self.cap(j).parent->Some_0 as int,
            ) && self.cap(j).parent->Some_0 != j by {
                assert(pre.cap(j).parent is Some);
                assert(pre.live(pre.cap(j).parent->Some_0 as int));
            }
            assert forall|i2: int, j2: int|
                self.live(i2) && self.live(j2) && i2 != j2 && self.cap(i2).act == self.cap(
                    j2,
                ).act implies !self.cap(i2).sels.spec_overlaps(self.cap(j2).sels) by {
                assert(!pre.cap(i2).sels.spec_overlaps(pre.cap(j2).sels));
            }
            assert forall|j: int|
                0 <= j < pre.slots@.len() && #[trigger] pre.slots@[j] is Some
                    implies pre.slots@[j]->Some_0.act < pre.acts@.len() by {
                assert(pre.live(j));
                assert(pre.cap_ok(pre.cap(j)));
            }
            assert forall|j2: int|
                self.live(j2) && (#[trigger] self.cap(j2)).parent is Some implies !self.reaches(
                self.cap(j2).parent->Some_0 as int,
                j2,
            ) by {
                let p = self.cap(j2).parent->Some_0 as int;
                if self.reaches(p, j2) {
                    let f = choose|f: nat| self.reach(p, j2, f);
                    assert(self.slots@ == pre.slots@);
                    assert(pre.reach(p, j2, f));
                    assert(pre.live(j2) && pre.cap(j2) == self.cap(j2));
                    assert(pre.reaches(p, j2));
                }
            }
            assert forall|kk: int|
                0 <= kk < self.objs.kmems@.len() && (#[trigger] self.objs.kmems@[kk]).alive
                    implies self.objs.kmems@[kk].left + cost_sum(self.slots@, self.acts@, kk)
                + lent_sum(self.objs.kmems@, kk) + pend_cost(Seq::empty(), self.acts@, kk)
                == self.objs.kmems@[kk].quota by {
                lemma_cost_sum_acts_push(pre.slots@, pre.acts@, m, kk, pre.slots@.len() as int);
                assert(cost_sum(self.slots@, self.acts@, kk) == cost_sum(pre.slots@, pre.acts@, kk));
                lemma_lent_sum_push(pre.objs.kmems@, kk, km, 0);
                if kk < pre.objs.kmems@.len() {
                    assert(pre.objs.kmems@[kk].alive);
                    assert(lent_of(km, kk) == 0);
                    assert(pre.objs.kmems@[kk].left + cost_sum(pre.slots@, pre.acts@, kk)
                        + lent_sum(pre.objs.kmems@, kk) + pend_cost(Seq::empty(), pre.acts@, kk)
                        == pre.objs.kmems@[kk].quota);
                } else {
                    assert(kk == pre.objs.kmems@.len());
                    assert forall|j: int|
                        0 <= j < self.slots@.len() ==> slot_cost(
                            #[trigger] self.slots@[j],
                            self.acts@,
                            kk,
                        ) == 0 by {
                        assert forall|j: int|
                            0 <= j < self.slots@.len() implies slot_cost(
                            #[trigger] self.slots@[j],
                            self.acts@,
                            kk,
                        ) == 0 by {
                            if self.slots@[j] is Some {
                                let c = self.slots@[j]->Some_0;
                                assert(pre.live(j));
                                assert(pre.cap_ok(pre.cap(j)));
                                assert(self.acts@[c.act as int].kmem < pre.objs.kmems@.len());
                            }
                        }
                    }
                    lemma_cost_sum_zero(self.slots@, self.acts@, kk, self.slots@.len() as int);
                    assert forall|j: int|
                        0 <= j < self.objs.kmems@.len() implies lent_of(
                        #[trigger] self.objs.kmems@[j],
                        kk,
                    ) == 0 by {
                        if j < pre.objs.kmems@.len() {
                            match pre.objs.kmems@[j].parent {
                                Option::Some(p) => {
                                    assert(p < pre.objs.kmems@.len());
                                },
                                Option::None => {},
                            }
                        }
                    }
                    lemma_lent_sum_zero(self.objs.kmems@, kk, self.objs.kmems@.len() as int);
                }
            }
        }
        act
    }
}

/// Effects of tearing a configured gate endpoint down: invalidate it, tell
/// the resident stub when the revoke came from outside the owner, and hand
/// the slots back unless they are PMP-reserved.
pub open spec fn gate_ep_effects(
    eps: Seq<crate::kobj::EPObject>,
    ep: Option<usize>,
    foreign: bool,
) -> Seq<SideEffect> {
    match ep {
        Option::Some(e) => match eps[e as int].act {
            Option::Some(a) => {
                let s = seq![
                    SideEffect::InvalidateEp {
                        tile: eps[e as int].tile,
                        act: a,
                        ep: eps[e as int].ep,
                        notify: true,
                    },
                ];
                let s2 = if foreign {
                    s.push(
                        SideEffect::NotifyInvalidate {
                            tile: eps[e as int].tile,
                            act: a,
                            ep: eps[e as int].ep,
                        },
                    )
                } else {
                    s
                };
                if !eps[e as int].is_pmp {
                    s2.push(
                        SideEffect::FreeEps {
                            tile: eps[e as int].tile,
                            ep: eps[e as int].ep,
                            num: eps[e as int].num,
                        },
                    )
                } else {
                    s2
                }
            },
            Option::None => Seq::empty(),
        },
        Option::None => Seq::empty(),
    }
}

/// Effects of releasing an endpoint capability: invalidate the slot if it
/// is configured, and free it unless it is PMP-reserved.
pub open spec fn ep_obj_effects(eps: Seq<crate::kobj::EPObject>, e: int) -> Seq<SideEffect> {
    let s = match eps[e].act {
        Option::Some(a) => seq![
            SideEffect::InvalidateEp { tile: eps[e].tile, act: a, ep: eps[e].ep, notify: false },
        ],
        Option::None => Seq::empty(),
    };
    if !eps[e].is_pmp {
        s.push(SideEffect::FreeEps { tile: eps[e].tile, ep: eps[e].ep, num: eps[e].num })
    } else {
        s
    }
}

/// Effect of invalidating the reply endpoints that still target a send
/// gate being revoked, at the receive gate it was bound to.
pub open spec fn reply_eps_effects(objs: ObjStore, g: int) -> Seq<SideEffect> {
    match objs.sgates@[g].ep {
        Option::Some(e) => match objs.rgates@[objs.sgates@[g].rgate as int].loc {
            Option::Some(loc) => seq![
                SideEffect::InvalidateReplyEps {
                    recv_tile: loc.0,
                    recv_ep: loc.1,
                    send_tile: objs.eps@[e as int].tile,
                    send_ep: objs.eps@[e as int].ep,
                },
            ],
            Option::None => Seq::empty(),
        },
        Option::None => Seq::empty(),
    }
}

/// The side effects that releasing `cap` asks the embedding kernel loop to
/// apply, in order.
pub open spec fn release_effects(
    cap: Capability,
    objs: ObjStore,
    acts: Seq<ActMeta>,
    foreign: bool,
) -> Seq<SideEffect> {
    match cap.obj {
        KObject::Act(a) => if acts[a as int].alive && cap.sels.start != SEL_ACT
            && cap.parent is None && !acts[a as int].is_root {
            seq![SideEffect::RemoveActivity { act: a }]
        } else {
            Seq::empty()
        },
        KObject::EP(e) => ep_obj_effects(objs.eps@, e as int),
        KObject::SGate(g) => reply_eps_effects(objs, g as int) + gate_ep_effects(
            objs.eps@,
            objs.sgates@[g as int].ep,
            foreign,
        ),
        KObject::RGate(r) => gate_ep_effects(objs.eps@, objs.rgates@[r as int].ep, false),
        KObject::MGate(m) => gate_ep_effects(objs.eps@, objs.mgates@[m as int].ep, false),
        KObject::Mapping(m) => if objs.maps@[m as int].mapped && acts[cap.act as int].alive {
            seq![
                SideEffect::Unmap {
                    act: cap.act,
                    virt: cap.sels.start << PAGE_BITS,
                    pages: cap.sels.count,
                },
            ]
        } else {
            Seq::empty()
        },
        _ => Seq::empty(),
    }
}

/// The kernel-memory ledgers after the refund of `cap`'s cost; a ledger
/// that died earlier in the teardown keeps no balance.
pub open spec fn kmems_after_refund(
    cap: Capability,
    kmems: Seq<crate::kobj::KMemObject>,
    acts: Seq<ActMeta>,
) -> Seq<crate::kobj::KMemObject> {
    let k = acts[cap.act as int].kmem as int;
    if kmems[k].alive {
        kmems.update(
            k,
            crate::kobj::KMemObject {
                left: (kmems[k].left + Capability::spec_cost(cap.derived)) as u64,
                ..kmems[k]
            },
        )
    } else {
        kmems
    }
}

/// The ledgers after the whole release: the refund, and for an owning
/// kernel-memory capability below the root selector, the borrowed quota
/// returned to the lender and the ledger retired.
pub open spec fn kmems_after(
    cap: Capability,
    kmems: Seq<crate::kobj::KMemObject>,
    acts: Seq<ActMeta>,
) -> Seq<crate::kobj::KMemObject> {
    let base = kmems_after_refund(cap, kmems, acts);
    match cap.obj {
        KObject::KMem(j) => if !cap.derived && cap.sels.start != SEL_KMEM {
            let b2 = if base[j as int].alive && base[j as int].parent is Some && base[base[j as int].parent->Some_0 as int].alive {
                let p = base[j as int].parent->Some_0 as int;
                base.update(
                    p,
                    crate::kobj::KMemObject {
                        left: (base[p].left + base[j as int].quota) as u64,
                        ..base[p]
                    },
                )
            } else {
                base
            };
            b2.update(j as int, crate::kobj::KMemObject { alive: false, ..b2[j as int] })
        } else {
            base
        },
        _ => base,
    }
}

/// Return of an endpoint-quota share to the lender, never past the
/// lender's own total.
pub open spec fn tile_refund(left: u64, back: u64, total: u64) -> u64 {
    if left >= total {
        total
    } else if back <= total - left {
        (left + back) as u64
    } else {
        total
    }
}

/// The tile objects after the release.
pub open spec fn tiles_after(cap: Capability, tiles: Seq<crate::kobj::TileObject>) -> Seq<
    crate::kobj::TileObject,
> {
    match cap.obj {
        KObject::Tile(t) => if !cap.derived && cap.sels.start != SEL_TILE && tiles[t as int].parent is Some {
            let p = tiles[t as int].parent->Some_0 as int;
            tiles.update(
                p,
                crate::kobj::TileObject {
                    eps_left: tile_refund(
                        tiles[p].eps_left,
                        tiles[t as int].eps_total,
                        tiles[p].eps_total,
                    ),
                    ..tiles[p]
                },
            )
        } else {
            tiles
        },
        _ => tiles,
    }
}

/// The endpoint bindings after the release: a binding the capability or
/// its gate held is detached from its activity.
pub open spec fn eps_after(cap: Capability, objs: ObjStore) -> Seq<crate::kobj::EPObject> {
    let det = |e: int|
        objs.eps@.update(e, crate::kobj::EPObject { act: Option::None, ..objs.eps@[e] });
    match cap.obj {
        KObject::EP(e) => det(e as int),
        KObject::SGate(g) => match objs.sgates@[g as int].ep {
            Option::Some(e) => det(e as int),
            Option::None => objs.eps@,
        },
        KObject::RGate(r) => match objs.rgates@[r as int].ep {
            Option::Some(e) => det(e as int),
            Option::None => objs.eps@,
        },
        KObject::MGate(m) => match objs.mgates@[m as int].ep {
            Option::Some(e) => det(e as int),
            Option::None => objs.eps@,
        },
        _ => objs.eps@,
    }
}

/// The receive gates after the release: a revoked receive gate is
/// deactivated.
pub open spec fn rgates_after(cap: Capability, rgates: Seq<crate::kobj::RGateObject>) -> Seq<crate::kobj::RGateObject> {
    match cap.obj {
        KObject::RGate(r) => rgates.update(
            r as int,
            crate::kobj::RGateObject {
                ep: Option::None,
                loc: Option::None,
                ..rgates[r as int]
            },
        ),
        _ => rgates,
    }
}

/// The send gates after the release.
pub open spec fn sgates_after(cap: Capability, sgates: Seq<crate::kobj::SGateObject>) -> Seq<crate::kobj::SGateObject> {
    match cap.obj {
        KObject::SGate(g) => sgates.update(
            g as int,
            crate::kobj::SGateObject { ep: Option::None, ..sgates[g as int] },
        ),
        _ => sgates,
    }
}

/// The memory gates after the release.
pub open spec fn mgates_after(cap: Capability, mgates: Seq<crate::kobj::MGateObject>) -> Seq<crate::kobj::MGateObject> {
    match cap.obj {
        KObject::MGate(m) => mgates.update(
            m as int,
            crate::kobj::MGateObject { ep: Option::None, ..mgates[m as int] },
        ),
        _ => mgates,
    }
}

/// The mapping objects after the release.
pub open spec fn maps_after(cap: Capability, maps: Seq<crate::kobj::MapObject>) -> Seq<crate::kobj::MapObject> {
    match cap.obj {
        KObject::Mapping(m) => maps.update(
            m as int,
            crate::kobj::MapObject { mapped: false, ..maps[m as int] },
        ),
        _ => maps,
    }
}

/// The service objects after the release: a revoked service is aborted.
pub open spec fn servs_after(cap: Capability, servs: Seq<crate::kobj::ServObject>) -> Seq<crate::kobj::ServObject> {
    match cap.obj {
        KObject::Serv(v) => servs.update(
            v as int,
            crate::kobj::ServObject { aborted: true, ..servs[v as int] },
        ),
        _ => servs,
    }
}

/// The semaphore objects after the release.
pub open spec fn sems_after(cap: Capability, sems: Seq<crate::kobj::SemObject>) -> Seq<crate::kobj::SemObject> {
    match cap.obj {
        KObject::Sem(x) => sems.update(
            x as int,
            crate::kobj::SemObject { revoked: true, ..sems[x as int] },
        ),
        _ => sems,
    }
}

impl CapTable {
    /// Whether slot `j` reaches slot `tgt` along parent handles.
    pub open spec fn reaches(self, j: int, tgt: int) -> bool {
        exists|f: nat| self.reach(j, tgt, f)
    }
}

/// A slot reaches itself.
pub proof fn lemma_reaches_self(s: CapTable, j: int)
    ensures
        s.reaches(j, j),
{
    assert(s.reach(j, j, 0));
}

/// One parent step extends a chain.
pub proof fn lemma_reaches_step(s: CapTable, j: int, tgt: int)
    requires
        s.live(j),
        s.cap(j).parent is Some,
        s.reaches(s.cap(j).parent->Some_0 as int, tgt),
    ensures
        s.reaches(j, tgt),
{
    let f = choose|f: nat| s.reach(s.cap(j).parent->Some_0 as int, tgt, f);
    assert(s.reach(j, tgt, f + 1));
}

/// Chains compose.
pub proof fn lemma_reaches_trans(s: CapTable, j: int, mid: int, tgt: int)
    requires
        s.reaches(j, mid),
        s.reaches(mid, tgt),
    ensures
        s.reaches(j, tgt),
{
    let f1 = choose|f: nat| s.reach(j, mid, f);
    let f2 = choose|f: nat| s.reach(mid, tgt, f);
    lemma_reach_trans(s, j, mid, tgt, f1, f2);
}

/// A chain in a shrunken table also stands in the table it shrank from.
pub proof fn lemma_reaches_widen(s1: CapTable, s2: CapTable, j: int, tgt: int)
    requires
        s1.reaches(j, tgt),
        forall|x: int| s1.live(x) ==> s2.live(x) && s2.cap(x) == s1.cap(x),
    ensures
        s2.reaches(j, tgt),
{
    let f = choose|f: nat| s1.reach(j, tgt, f);
    lemma_reach_widen(s1, s2, j, tgt, f);
}

/// A chain from a tree root goes nowhere else.
pub proof fn lemma_reaches_root(s: CapTable, j: int, tgt: int)
    requires
        s.reaches(j, tgt),
        s.cap(j).parent is None,
    ensures
        j == tgt,
{
    let f = choose|f: nat| s.reach(j, tgt, f);
    assert(s.reach(j, tgt, f));
}

/// A chain either ends at its start or steps to the parent.
pub proof fn lemma_reaches_unfold(s: CapTable, j: int, tgt: int)
    requires
        s.reaches(j, tgt),
        j != tgt,
    ensures
        s.live(j),
        s.cap(j).parent is Some,
        s.reaches(s.cap(j).parent->Some_0 as int, tgt),
{
    let f = choose|f: nat| s.reach(j, tgt, f);
    assert(s.reach(j, tgt, f));
    assert(f > 0 && s.live(j) && s.cap(j).parent is Some && s.reach(
        s.cap(j).parent->Some_0 as int,
        tgt,
        (f - 1) as nat,
    ));
}

/// A chain in a table extended by one fresh capability in slot `i` stays
/// inside the old capabilities, so it cannot end at the fresh slot and is
/// a chain of the old table.
pub proof fn lemma_reach_after_insert(
    slots: Seq<Option<Capability>>,
    slots2: Seq<Option<Capability>>,
    i: int,
    x: int,
    tgt: int,
    fuel: nat,
)
    requires
        forall|j: int|
            slot_live(slots2, j) && j != i ==> slot_live(slots, j) && slot_at(slots2, j)
                == slot_at(slots, j),
        forall|j: int|
            slot_live(slots, j) ==> (#[trigger] slot_at(slots, j)).parent != Option::Some(
                i as usize,
            ),
        0 <= i <= usize::MAX,
        x != i,
        reach_slots(slots2, x, tgt, fuel),
    ensures
        tgt != i,
        reach_slots(slots, x, tgt, fuel),
    decreases fuel,
{
    if x != tgt {
        let p = slot_at(slots2, x).parent->Some_0 as int;
        assert(slot_live(slots, x) && slot_at(slots, x) == slot_at(slots2, x));
        assert(slot_at(slots, x).parent != Option::Some(i as usize));
        assert(p != i) by {
            if p == i {
                assert(slot_at(slots, x).parent->Some_0 == i as usize);
            }
        }
        lemma_reach_after_insert(slots, slots2, i, p, tgt, (fuel - 1) as nat);
    }
}

/// A chain after re-parenting `src` below the fresh root `i` is, short of
/// the fresh root itself, a chain of the table before the re-parenting.
pub proof fn lemma_reach_after_reparent(
    slots2: Seq<Option<Capability>>,
    slots3: Seq<Option<Capability>>,
    src: int,
    i: int,
    x: int,
    tgt: int,
    fuel: nat,
)
    requires
        0 <= src < slots2.len(),
        slot_live(slots2, src),
        slots3 == slots2.update(
            src,
            Option::Some(
                Capability { parent: Option::Some(i as usize), ..slot_at(slots2, src) },
            ),
        ),
        slot_live(slots2, i),
        slot_at(slots2, i).parent is None,
        i != src,
        0 <= i <= usize::MAX,
        reach_slots(slots3, x, tgt, fuel),
        tgt != i,
    ensures
        reach_slots(slots2, x, tgt, fuel),
    decreases fuel,
{
    if x != tgt {
        if x == src {
            assert(slot_at(slots3, x).parent == Option::Some(i as usize));
            assert(reach_slots(slots3, i, tgt, (fuel - 1) as nat));
            assert(slot_at(slots3, i) == slot_at(slots2, i));
            assert(false);
        } else {
            let p = slot_at(slots3, x).parent->Some_0 as int;
            assert(slot_at(slots3, x) == slot_at(slots2, x));
            lemma_reach_after_reparent(slots2, slots3, src, i, p, tgt, (fuel - 1) as nat);
        }
    }
}

/// Law: a capability's parent handle always names a live capability, and
/// a child belongs to exactly one parent's child set, since the children
/// of `p` are the slots whose parent handle is `p`.  After any revocation
/// that removed the parent, the child is gone as well: the states before
/// and after are related as every revocation leaves them.
pub proof fn lemma_parent_child(pre: CapTable, post: CapTable, c: int, p: usize)
    requires
        pre.wf(),
        pre.live(c),
        pre.cap(c).parent == Option::Some(p),
        post.wf(),
        !post.live(p as int),
        forall|j: int| post.live(j) ==> pre.live(j) && post.cap(j) == pre.cap(j),
    ensures
        pre.live(p as int),
        !post.live(c),
{
    assert(pre.cap(c).parent is Some);
    if post.live(c) {
        assert(post.cap(c).parent is Some);
        assert(post.live(post.cap(c).parent->Some_0 as int));
    }
}

/// Law, one half of quota conservation: the cost of the live capabilities
/// charged to an alive ledger never exceeds the ledger's quota.  Every
/// operation of the table carries the ledger equation in its contract, so
/// this holds after any sequence of insertions, clonings and revocations.
pub proof fn lemma_quota_bound(s: CapTable, k: int)
    requires
        s.quota_inv(),
        0 <= k < s.objs.kmems@.len(),
        s.objs.kmems@[k].alive,
    ensures
        cost_sum(s.slots@, s.acts@, k) <= s.objs.kmems@[k].quota,
{
}

/// Law, the other half of quota conservation: whenever two states charge
/// an alive ledger the same cost and the same loans, its balance is the
/// same — in particular, revoking everything a sequence of operations
/// inserted restores the balance those operations started from.
pub proof fn lemma_quota_restored(s1: CapTable, s2: CapTable, k: int)
    requires
        s1.quota_inv(),
        s2.quota_inv(),
        0 <= k < s1.objs.kmems@.len(),
        0 <= k < s2.objs.kmems@.len(),
        s1.objs.kmems@[k].alive,
        s2.objs.kmems@[k].alive,
        s2.objs.kmems@[k].quota == s1.objs.kmems@[k].quota,
        cost_sum(s2.slots@, s2.acts@, k) == cost_sum(s1.slots@, s1.acts@, k),
        lent_sum(s2.objs.kmems@, k) == lent_sum(s1.objs.kmems@, k),
    ensures
        s2.objs.kmems@[k].left == s1.objs.kmems@[k].left,
{
}

/// Law, children-only scope of revocation: revoking the children of a
/// capability `a` with two children `b`, `c` and a grandchild `d` below
/// `b` removes `b`, `c` and `d` but keeps `a`.  The hypotheses are what
/// `revoke_async` without `own` ensures for a single-selector range.
pub proof fn lemma_revoke_scope_children(
    pre: CapTable,
    post: CapTable,
    act: ActId,
    sel: CapSel,
    a: usize,
    b: usize,
    c: usize,
    d: usize,
)
    requires
        pre.wf(),
        post.wf(),
        pre.live(a as int) && pre.cap(a as int).act == act && pre.cap(a as int).sels == (SelRange {
            start: sel,
            count: 1,
        }),
        pre.live(b as int) && pre.cap(b as int).parent == Option::Some(a),
        pre.live(c as int) && pre.cap(c as int).parent == Option::Some(a),
        pre.live(d as int) && pre.cap(d as int).parent == Option::Some(b),
        a != b && a != c && a != d,
        forall|j: int| post.live(j) ==> pre.live(j) && post.cap(j) == pre.cap(j),
        forall|s: CapSel, j: int|
            #![trigger pre.has_cap(act, s), post.cap(j)]
            (SelRange { start: sel, count: 1 }).spec_contains(s) && pre.has_cap(act, s)
                && post.live(j) ==> post.cap(j).parent != Option::Some(
                pre.idx_of(act, s) as usize,
            ),
        forall|j: int|
            pre.live(j) && !post.live(j) ==> exists|s: CapSel|
                {
                    &&& (SelRange { start: sel, count: 1 }).spec_contains(s)
                    &&& #[trigger] pre.has_cap(act, s)
                    &&& pre.reaches(j, pre.idx_of(act, s))
                    &&& j != pre.idx_of(act, s)
                },
    ensures
        post.live(a as int),
        !post.live(b as int),
        !post.live(c as int),
        !post.live(d as int),
{
    assert(pre.has_cap(act, sel));
    let w = pre.idx_of(act, sel);
    assert(pre.live(w) && pre.cap(w).act == act && pre.cap(w).sels.spec_contains(sel));
    assert(w == a as int) by {
        if w != a as int {
            assert(!pre.cap(w).sels.spec_overlaps(pre.cap(a as int).sels));
        }
    }
    assert(post.live(a as int)) by {
        if !post.live(a as int) {
            let s = choose|s: CapSel|
                {
                    &&& (SelRange { start: sel, count: 1 }).spec_contains(s)
                    &&& #[trigger] pre.has_cap(act, s)
                    &&& pre.reaches(a as int, pre.idx_of(act, s))
                    &&& a as int != pre.idx_of(act, s)
                };
            assert(s == sel);
        }
    }
    assert(!post.live(b as int)) by {
        if post.live(b as int) {
            assert(post.cap(b as int).parent != Option::Some(a));
        }
    }
    assert(!post.live(c as int)) by {
        if post.live(c as int) {
            assert(post.cap(c as int).parent != Option::Some(a));
        }
    }
    assert(!post.live(d as int)) by {
        if post.live(d as int) {
            assert(post.cap(d as int).parent is Some);
            assert(post.live(b as int));
        }
    }
}

/// Law, subtree scope of revocation: revoking a capability `b` with its
/// subtree, where `b` is a child of a root `a` beside a sibling `c` and
/// above a child `d`, removes `b` and `d` but keeps `a` and `c`.  The
/// hypotheses are what `revoke_async` with `own` ensures for `b`'s
/// selector.
pub proof fn lemma_revoke_scope_subtree(
    pre: CapTable,
    post: CapTable,
    act: ActId,
    sel: CapSel,
    a: usize,
    b: usize,
    c: usize,
    d: usize,
)
    requires
        pre.wf(),
        post.wf(),
        pre.live(b as int) && pre.cap(b as int).act == act && pre.cap(b as int).sels == (SelRange {
            start: sel,
            count: 1,
        }),
        pre.live(a as int) && pre.cap(a as int).parent is None,
        pre.cap(b as int).parent == Option::Some(a),
        pre.live(c as int) && pre.cap(c as int).parent == Option::Some(a),
        pre.live(d as int) && pre.cap(d as int).parent == Option::Some(b),
        a != b && b != c && a != c,
        forall|j: int| post.live(j) ==> pre.live(j) && post.cap(j) == pre.cap(j),
        forall|s: CapSel|
            (SelRange { start: sel, count: 1 }).spec_contains(s) ==> !post.has_cap(act, s),
        forall|j: int|
            pre.live(j) && !post.live(j) ==> exists|s: CapSel|
                {
                    &&& (SelRange { start: sel, count: 1 }).spec_contains(s)
                    &&& #[trigger] pre.has_cap(act, s)
                    &&& pre.reaches(j, pre.idx_of(act, s))
                },
    ensures
        !post.live(b as int),
        !post.live(d as int),
        post.live(a as int),
        post.live(c as int),
{
    assert(pre.has_cap(act, sel));
    let w = pre.idx_of(act, sel);
    assert(pre.live(w) && pre.cap(w).act == act && pre.cap(w).sels.spec_contains(sel));
    assert(w == b as int) by {
        if w != b as int {
            assert(!pre.cap(w).sels.spec_overlaps(pre.cap(b as int).sels));
        }
    }
    assert(!post.live(b as int)) by {
        if post.live(b as int) {
            assert(post.cap(b as int).sels.spec_contains(sel));
            assert(post.has_cap(act, sel));
        }
    }
    assert(!post.live(d as int)) by {
        if post.live(d as int) {
            assert(post.cap(d as int).parent is Some);
            assert(post.live(b as int));
        }
    }
    assert(post.live(a as int)) by {
        if !post.live(a as int) {
            let s = choose|s: CapSel|
                {
                    &&& (SelRange { start: sel, count: 1 }).spec_contains(s)
                    &&& #[trigger] pre.has_cap(act, s)
                    &&& pre.reaches(a as int, pre.idx_of(act, s))
                };
            assert(s == sel);
            assert(pre.reaches(a as int, b as int));
            lemma_reaches_root(pre, a as int, b as int);
        }
    }
    assert(post.live(c as int)) by {
        if !post.live(c as int) {
            let s = choose|s: CapSel|
                {
                    &&& (SelRange { start: sel, count: 1 }).spec_contains(s)
                    &&& #[trigger] pre.has_cap(act, s)
                    &&& pre.reaches(c as int, pre.idx_of(act, s))
                };
            assert(s == sel);
            assert(pre.reaches(c as int, b as int));
            lemma_reaches_unfold(pre, c as int, b as int);
            assert(pre.reaches(a as int, b as int));
            lemma_reaches_root(pre, a as int, b as int);
        }
    }
}

/// More fuel never loses reachability.
pub proof fn lemma_reach_fuel(s: CapTable, j: int, tgt: int, f1: nat, f2: nat)
    requires
        s.reach(j, tgt, f1),
        f1 <= f2,
    ensures
        s.reach(j, tgt, f2),
    decreases f1,
{
    if j != tgt && f1 > 0 {
        lemma_reach_fuel(s, s.cap(j).parent->Some_0 as int, tgt, (f1 - 1) as nat, (f2 - 1) as nat);
    }
}

/// Reachability composes along the parent chain.
pub proof fn lemma_reach_trans(s: CapTable, j: int, mid: int, tgt: int, f1: nat, f2: nat)
    requires
        s.reach(j, mid, f1),
        s.reach(mid, tgt, f2),
    ensures
        s.reach(j, tgt, f1 + f2),
    decreases f1,
{
    if j == mid {
        lemma_reach_fuel(s, j, tgt, f2, f1 + f2);
    } else {
        lemma_reach_trans(s, s.cap(j).parent->Some_0 as int, mid, tgt, (f1 - 1) as nat, f2);
    }
}

/// A chain in a shrunken table is a chain in the table it shrank from, as
/// long as the survivors kept their values.
pub proof fn lemma_reach_widen(s1: CapTable, s2: CapTable, j: int, tgt: int, fuel: nat)
    requires
        s1.reach(j, tgt, fuel),
        forall|x: int| s1.live(x) ==> s2.live(x) && s2.cap(x) == s1.cap(x),
    ensures
        s2.reach(j, tgt, fuel),
    decreases fuel,
{
    if j != tgt && fuel > 0 {
        lemma_reach_widen(s1, s2, s1.cap(j).parent->Some_0 as int, tgt, (fuel - 1) as nat);
    }
}

/// The ledger equations survive one release: the refund restores exactly
/// the released capability's share, and a retired derived ledger hands its
/// whole loan back to its lender.
#[verifier::rlimit(60)]
pub proof fn lemma_release_ledger(cap: Capability, s: CapTable, rest: Seq<Capability>)
    requires
        s.store_ok(),
        cap.act < s.acts@.len(),
        0 <= s.kmem_of(cap.act) < s.objs.kmems@.len(),
        match cap.obj {
            KObject::KMem(j) => j < s.objs.kmems@.len(),
            _ => true,
        },
        s.ledger_minus(rest.push(cap)),
        s.lefts_ok(),
    ensures
        kmems_after(cap, s.objs.kmems@, s.acts@).len() == s.objs.kmems@.len(),
        forall|k: int|
            0 <= k < s.objs.kmems@.len() ==> {
                &&& (#[trigger] kmems_after(cap, s.objs.kmems@, s.acts@)[k]).quota == s.objs.kmems@[k].quota
                &&& kmems_after(cap, s.objs.kmems@, s.acts@)[k].parent == s.objs.kmems@[k].parent
                &&& kmems_after(cap, s.objs.kmems@, s.acts@)[k].left >= s.objs.kmems@[k].left
                &&& (kmems_after(cap, s.objs.kmems@, s.acts@)[k].alive ==> s.objs.kmems@[k].alive)
                &&& (!s.objs.kmems@[k].alive ==> kmems_after(cap, s.objs.kmems@, s.acts@)[k].left
                    == s.objs.kmems@[k].left)
                &&& kmems_after(cap, s.objs.kmems@, s.acts@)[k].left <= kmems_after(cap, s.objs.kmems@, s.acts@)[k].quota
            },
        forall|k: int|
            0 <= k < s.objs.kmems@.len() && (#[trigger] kmems_after(cap, s.objs.kmems@, s.acts@)[k]).alive
                ==> kmems_after(cap, s.objs.kmems@, s.acts@)[k].left + cost_sum(s.slots@, s.acts@, k) + lent_sum(
                kmems_after(cap, s.objs.kmems@, s.acts@),
                k,
            ) + pend_cost(rest, s.acts@, k) == kmems_after(cap, s.objs.kmems@, s.acts@)[k].quota,
{
    vstd::std_specs::vec::axiom_spec_len(&s.objs.kmems);
    let km0 = s.objs.kmems@;
    assert(km0.len() <= usize::MAX);
    let base = kmems_after_refund(cap, s.objs.kmems@, s.acts@);
    let kc = s.kmem_of(cap.act);
    let amount = Capability::spec_cost(cap.derived);
    // step 1: the refund
    assert forall|k: int| 0 <= k < km0.len() implies lent_sum(base, k) == lent_sum(km0, k)
        && base[k].quota == km0[k].quota && base[k].parent == km0[k].parent && base[k].alive
        == km0[k].alive && base[k].left >= km0[k].left && (!km0[k].alive ==> base[k].left
        == km0[k].left) by {
        if km0[kc].alive {
            lemma_lent_sum_update(km0, k, kc, base[kc], km0.len() as int);
            assert(lent_of(base[kc], k) == lent_of(km0[kc], k));
        }
    }
    assert forall|k: int| 0 <= k < base.len() && (#[trigger] base[k]).alive implies base[k].left
        + cost_sum(s.slots@, s.acts@, k) + lent_sum(base, k) + pend_cost(rest, s.acts@, k)
        == base[k].quota && base[k].left <= base[k].quota by {
        lemma_pend_push(rest, cap, s.acts@, k);
        assert(km0[k].alive);
        assert(km0[k].left + cost_sum(s.slots@, s.acts@, k) + lent_sum(km0, k) + pend_cost(
            rest.push(cap),
            s.acts@,
            k,
        ) == km0[k].quota);
        if k != kc {
            assert(slot_cost(Option::Some(cap), s.acts@, k) == 0);
        }
    }
    assert forall|k: int| 0 <= k < base.len() && !base[k].alive implies base[k].left
        <= base[k].quota by {
        assert(base[k].left == km0[k].left);
    }
    // step 2: the object-specific arm
    match cap.obj {
        KObject::KMem(j) => {
            if !cap.derived && cap.sels.start != SEL_KMEM {
                let kj = base[j as int];
                if kj.alive && kj.parent is Some && base[kj.parent->Some_0 as int].alive {
                    let p = kj.parent->Some_0 as int;
                    let kp2 = crate::kobj::KMemObject {
                        left: (base[p].left + kj.quota) as u64,
                        ..base[p]
                    };
                    let b2 = base.update(p, kp2);
                    let b3 = b2.update(
                        j as int,
                        crate::kobj::KMemObject { alive: false, ..b2[j as int] },
                    );
                    assert(kmems_after(cap, s.objs.kmems@, s.acts@) =~= b3);
                    lemma_lent_sum_ge(base, p, j as int, base.len() as int);
                    assert(base[p].left + kj.quota <= base[p].quota);
                    assert forall|k: int|
                        0 <= k < b3.len() && (#[trigger] b3[k]).alive implies b3[k].left
                        + cost_sum(s.slots@, s.acts@, k) + lent_sum(b3, k) + pend_cost(
                        rest,
                        s.acts@,
                        k,
                    ) == b3[k].quota && b3[k].left <= b3[k].quota by {
                        lemma_lent_sum_update(base, k, p, kp2, base.len() as int);
                        lemma_lent_sum_update(b2, k, j as int, b3[j as int], b2.len() as int);
                        assert(lent_of(kp2, k) == lent_of(base[p], k));
                        assert(lent_of(b3[j as int], k) == 0);
                        assert(k != j);
                        assert(base[k].alive);
                        if k == p {
                            assert(k as usize == kj.parent->Some_0);
                            assert(lent_of(b2[j as int], k) == kj.quota);
                        } else {
                            assert((k as usize) as int == k);
                            assert(kj.parent->Some_0 as int != k);
                            assert(kj.parent != Option::Some(k as usize));
                            assert(lent_of(b2[j as int], k) == 0);
                        }
                    }
                    assert forall|k: int| 0 <= k < b3.len() && !(#[trigger] b3[k]).alive
                        implies b3[k].left <= b3[k].quota by {
                        if k != p {
                            assert(b3[k].left == base[k].left);
                        }
                    }
                } else {
                    let b3 = base.update(
                        j as int,
                        crate::kobj::KMemObject { alive: false, ..base[j as int] },
                    );
                    assert(kmems_after(cap, s.objs.kmems@, s.acts@) =~= b3);
                    assert forall|k: int|
                        0 <= k < b3.len() && (#[trigger] b3[k]).alive implies b3[k].left
                        + cost_sum(s.slots@, s.acts@, k) + lent_sum(b3, k) + pend_cost(
                        rest,
                        s.acts@,
                        k,
                    ) == b3[k].quota by {
                        lemma_lent_sum_update(base, k, j as int, b3[j as int], base.len() as int);
                        assert(lent_of(b3[j as int], k) == 0);
                        assert(k != j);
                        assert(base[k].alive);
                        if kj.alive && kj.parent == Option::Some(k as usize) {
                            assert((k as usize) as int == k);
                            assert(kj.parent->Some_0 as int == k);
                            assert(!base[k].alive);
                            assert(false);
                        } else {
                            assert(lent_of(kj, k) == 0);
                        }
                    }
                }
            } else {
                assert(kmems_after(cap, s.objs.kmems@, s.acts@) =~= base);
            }
        },
        _ => {
            assert(kmems_after(cap, s.objs.kmems@, s.acts@) =~= base);
        },
    }
}

/// Whether `post` extends `pre` without rewriting what `pre` holds.
pub open spec fn seq_extends<T>(post: Seq<T>, pre: Seq<T>) -> bool {
    &&& pre.len() <= post.len()
    &&& forall|i: int| 0 <= i < pre.len() ==> post[i] == pre[i]
}

/// What any step of a revocation leaves untouched: the activities, every
/// arena's extent, the session records, each ledger's total, lender and
/// monotone balance, each tile's resident count, and the values of the
/// surviving capabilities.
pub open spec fn revoke_frame(pre: CapTable, post: CapTable) -> bool {
    &&& post.acts == pre.acts
    &&& post.slots@.len() == pre.slots@.len()
    &&& post.objs.kmems@.len() == pre.objs.kmems@.len()
    &&& post.objs.tiles@.len() == pre.objs.tiles@.len()
    &&& post.objs.rgates@.len() == pre.objs.rgates@.len()
    &&& post.objs.sgates@.len() == pre.objs.sgates@.len()
    &&& post.objs.mgates@.len() == pre.objs.mgates@.len()
    &&& post.objs.eps@.len() == pre.objs.eps@.len()
    &&& post.objs.maps@.len() == pre.objs.maps@.len()
    &&& post.objs.servs@.len() == pre.objs.servs@.len()
    &&& post.objs.sems@.len() == pre.objs.sems@.len()
    &&& post.objs.sesss == pre.objs.sesss
    &&& forall|k: int|
        0 <= k < pre.objs.kmems@.len() ==> {
            &&& (#[trigger] post.objs.kmems@[k]).quota == pre.objs.kmems@[k].quota
            &&& post.objs.kmems@[k].parent == pre.objs.kmems@[k].parent
            &&& post.objs.kmems@[k].left >= pre.objs.kmems@[k].left
            &&& (post.objs.kmems@[k].alive ==> pre.objs.kmems@[k].alive)
            &&& (!pre.objs.kmems@[k].alive ==> post.objs.kmems@[k].left
                == pre.objs.kmems@[k].left)
        }
    &&& forall|t: int|
        0 <= t < pre.objs.tiles@.len() ==> (#[trigger] post.objs.tiles@[t]).vpes
            == pre.objs.tiles@[t].vpes
    &&& forall|j: int| post.live(j) ==> pre.live(j) && post.cap(j) == pre.cap(j)
}

/// The revocation frame composes.
pub proof fn lemma_frame_trans(a: CapTable, b: CapTable, c: CapTable)
    requires
        revoke_frame(a, b),
        revoke_frame(b, c),
    ensures
        revoke_frame(a, c),
{
}

impl CapTable {
    /// Finds any live child of the capability in slot `idx`; callers that
    /// need a child with a particular payload walk on from here, since
    /// capability slots are plain data.
    pub fn find_child(&self, idx: usize) -> (r: Option<usize>)
        ensures
            match r {
                Option::Some(c) => self.live(c as int) && self.cap(c as int).parent
                    == Option::Some(idx),
                Option::None => forall|j: int|
                    self.live(j) ==> (#[trigger] self.cap(j)).parent != Option::Some(idx),
            },
    {
        let mut i: usize = 0;
        while i < self.slots.len()
            invariant
                i <= self.slots@.len(),
                forall|j: int|
                    0 <= j < i && self.live(j) ==> (#[trigger] self.cap(j)).parent
                        != Option::Some(idx),
            decreases self.slots@.len() - i,
        {
            if let Some(c) = &self.slots[i] {
                if let Some(p) = c.parent {
                    if p == idx {
                        proof {
                            assert(self.live(i as int));
                            assert(self.cap(i as int) == *c);
                        }
                        return Some(i);
                    }
                }
                proof {
                    assert(self.cap(i as int) == *c);
                }
            }
            i += 1;
        }
        None
    }

    /// Revokes the capability in slot `idx` together with its whole
    /// subtree, post order: it leaves the table at once, every child's
    /// subtree is torn down, and only then is the capability itself
    /// released.
    #[verifier::rlimit(100)]
    #[verifier::spinoff_prover]
    #[verifier::loop_isolation(false)]
    fn revoke_rec(
        &mut self,
        idx: usize,
        foreign: bool,
        effects: &mut Vec<SideEffect>,
        Ghost(pend): Ghost<Seq<Capability>>,
    )
        requires
            old(self).sound(),
            old(self).lefts_ok(),
            old(self).live(idx as int),
            old(self).ledger_minus(pend),
        ensures
            final(self).sound(),
            final(self).lefts_ok(),
            final(self).ledger_minus(pend),
            revoke_frame(*old(self), *final(self)),
            !final(self).live(idx as int),
            count_live(final(self).slots@) < count_live(old(self).slots@),
            forall|j: int|
                final(self).live(j) && #[trigger] final(self).cap(j).parent is Some
                    ==> final(self).live(final(self).cap(j).parent->Some_0 as int)
                     || !old(self).live(final(self).cap(j).parent->Some_0 as int),
            forall|j: int|
                old(self).live(j) && !final(self).live(j) ==> old(self).reaches(j, idx as int),
            seq_extends(final(effects)@, old(effects)@),
            (forall|j: int|
                old(self).live(j) ==> (#[trigger] old(self).cap(j)).parent != Option::Some(idx))
                ==> {
                &&& final(effects)@ == old(effects)@ + release_effects(
                    old(self).cap(idx as int),
                    old(self).objs,
                    old(self).acts@,
                    foreign,
                )
                &&& forall|j: int| old(self).live(j) && j != idx ==> final(self).live(j)
            },
        decreases count_live(old(self).slots@),
    {
        let ghost s0 = *self;
        let capo: Option<Capability> = self.slots[idx];
        let cap = capo.unwrap();
        self.slots[idx] = None;
        proof {
            assert(self.slots@ == s0.slots@.update(idx as int, Option::None));
            lemma_count_live_update(s0.slots@, idx as int, Option::None, s0.slots@.len() as int);
            assert forall|k: int|
                0 <= k < self.objs.kmems@.len() && (#[trigger] self.objs.kmems@[k]).alive
                    implies self.objs.kmems@[k].left + cost_sum(self.slots@, self.acts@, k)
                + lent_sum(self.objs.kmems@, k) + pend_cost(pend.push(cap), self.acts@, k)
                == self.objs.kmems@[k].quota by {
                lemma_cost_sum_update(
                    s0.slots@,
                    s0.acts@,
                    k,
                    idx as int,
                    Option::None,
                    s0.slots@.len() as int,
                );
                lemma_pend_push(pend, cap, s0.acts@, k);
                assert(s0.objs.kmems@[k].alive);
                assert(s0.objs.kmems@[k].left + cost_sum(s0.slots@, s0.acts@, k) + lent_sum(
                    s0.objs.kmems@,
                    k,
                ) + pend_cost(pend, s0.acts@, k) == s0.objs.kmems@[k].quota);
                assert(slot_cost(s0.slots@[idx as int], s0.acts@, k) == slot_cost(
                    Option::Some(cap),
                    s0.acts@,
                    k,
                ));
            }
            assert forall|j: int| self.live(j) implies self.cap_ok(#[trigger] self.cap(j)) by {
                assert(s0.cap_ok(s0.cap(j)));
            }
        }
        let mut child = self.find_child(idx);
        while child.is_some()
            invariant
                self.sound(),
                self.lefts_ok(),
                self.ledger_minus(pend.push(cap)),
                revoke_frame(s0, *self),
                idx < self.slots@.len(),
                !self.live(idx as int),
                count_live(self.slots@) < count_live(s0.slots@),
                cap == s0.cap(idx as int),
                s0.live(idx as int),
                match child {
                    Option::Some(c) => self.live(c as int) && self.cap(c as int).parent
                        == Option::Some(idx),
                    Option::None => forall|j: int|
                        self.live(j) ==> (#[trigger] self.cap(j)).parent != Option::Some(idx),
                },
                forall|j: int|
                    self.live(j) && #[trigger] self.cap(j).parent is Some ==> self.live(
                        self.cap(j).parent->Some_0 as int,
                    ) || !s0.live(self.cap(j).parent->Some_0 as int) || self.cap(j).parent
                        == Option::Some(idx),
                forall|j: int|
                    s0.live(j) && !self.live(j) ==> j == idx || s0.reaches(j, idx as int),
                seq_extends(effects@, old(effects)@),
                (forall|j: int|
                    s0.live(j) ==> (#[trigger] s0.cap(j)).parent != Option::Some(idx)) ==> (
                self.objs == s0.objs && effects@ == old(effects)@ && forall|j: int|
                    s0.live(j) && j != idx ==> self.live(j)),
            decreases count_live(self.slots@),
        {
            let c = child.unwrap();
            let ghost mid = *self;
            proof {
                if forall|j: int|
                    s0.live(j) ==> (#[trigger] s0.cap(j)).parent != Option::Some(idx) {
                    assert(s0.live(c as int) && s0.cap(c as int) == mid.cap(c as int));
                    assert(false);
                }
            }
            self.revoke_rec(c, true, effects, Ghost(pend.push(cap)));
            proof {
                lemma_frame_trans(s0, mid, *self);
                assert forall|j: int|
                    s0.live(j) && !self.live(j) implies j == idx || s0.reaches(j, idx as int) by {
                    if j != idx && mid.live(j) {
                        assert(mid.reaches(j, c as int));
                        lemma_reaches_widen(mid, s0, j, c as int);
                        assert(s0.live(c as int) && s0.cap(c as int).parent == Option::Some(idx));
                        lemma_reaches_self(s0, idx as int);
                        lemma_reaches_step(s0, c as int, idx as int);
                        lemma_reaches_trans(s0, j, c as int, idx as int);
                    }
                }
                assert forall|j: int|
                    self.live(j) && #[trigger] self.cap(j).parent is Some implies self.live(
                    self.cap(j).parent->Some_0 as int,
                ) || !s0.live(self.cap(j).parent->Some_0 as int) || self.cap(j).parent
                    == Option::Some(idx) by {
                    let p = self.cap(j).parent->Some_0 as int;
                    assert(mid.live(j) && mid.cap(j) == self.cap(j));
                    if !self.live(p) && mid.live(p) {
                        assert(self.live(p) || !mid.live(p));
                    }
                }
            }
            child = self.find_child(idx);
        }
        let ghost before_rel = *self;
        self.release_one(cap, foreign, effects, Ghost(pend));
        proof {
            // the released capability's arenas keep their extents
            assert(self.objs.kmems@.len() == before_rel.objs.kmems@.len());
            assert(self.objs.tiles@.len() == before_rel.objs.tiles@.len());
            assert(self.objs.eps@.len() == before_rel.objs.eps@.len());
            assert(self.objs.rgates@.len() == before_rel.objs.rgates@.len());
            assert(self.objs.sgates@.len() == before_rel.objs.sgates@.len());
            assert(self.objs.mgates@.len() == before_rel.objs.mgates@.len());
            assert(self.objs.maps@.len() == before_rel.objs.maps@.len());
            assert(self.objs.servs@.len() == before_rel.objs.servs@.len());
            assert(self.objs.sems@.len() == before_rel.objs.sems@.len());
            assert(revoke_frame(before_rel, *self));
            lemma_frame_trans(s0, before_rel, *self);
            assert forall|j: int|
                s0.live(j) && !self.live(j) implies s0.reaches(j, idx as int) by {
                if j == idx {
                    lemma_reaches_self(s0, idx as int);
                }
            }
            if forall|j: int|
                s0.live(j) ==> (#[trigger] s0.cap(j)).parent != Option::Some(idx) {
                assert(before_rel.objs == s0.objs);
                assert(final(effects)@ == old(effects)@ + release_effects(
                    cap,
                    s0.objs,
                    s0.acts@,
                    foreign,
                ));
            }
        }
    }

    /// Whether the capability in slot `i` may be revoked right now.
    fn can_revoke_at(&self, i: usize) -> (r: bool)
        requires
            self.sound(),
            self.live(i as int),
        ensures
            r == self.spec_can_revoke(i as int),
    {
        proof {
            assert(self.cap_ok(self.cap(i as int)));
        }
        let c = self.slots[i].as_ref().unwrap();
        match c.obj {
            KObject::KMem(j) => self.objs.kmems[j].left == self.objs.kmems[j].quota,
            KObject::Tile(t) => self.objs.tiles[t].vpes == 0,
            _ => true,
        }
    }

    /// Revokes, for every selector of `crd` in `act`'s table: with `own`
    /// the capability there together with its whole subtree, without it
    /// only the subtrees of its children.  Selectors with no capability
    /// are skipped, so revoking an unused range succeeds and changes
    /// nothing.  Fails with `NotRevocable` exactly when a targeted
    /// capability still has quota lent out or activities resident; the
    /// targets before it are then already revoked.
    #[verifier::rlimit(100)]
    #[verifier::spinoff_prover]
    #[verifier::loop_isolation(false)]
    pub fn revoke_async(
        &mut self,
        act: ActId,
        crd: SelRange,
        own: bool,
        effects: &mut Vec<SideEffect>,
    ) -> (r: Result<(), Error>)
        requires
            old(self).wf(),
            old(self).quota_inv(),
            old(self).lefts_ok(),
            crd.spec_valid(),
        ensures
            final(self).wf(),
            final(self).quota_inv(),
            final(self).lefts_ok(),
            revoke_frame(*old(self), *final(self)),
            seq_extends(final(effects)@, old(effects)@),
            old(self).spec_range_unused(act, crd) ==> r is Ok && *final(self) == *old(self)
                && final(effects)@ == old(effects)@,
            match r {
                Result::Ok(()) => {
                    &&& (own ==> forall|s: CapSel|
                        crd.spec_contains(s) ==> !final(self).has_cap(act, s))
                    &&& (!own ==> forall|s: CapSel, j: int|
                        #![trigger old(self).has_cap(act, s), final(self).cap(j)]
                        crd.spec_contains(s) && old(self).has_cap(act, s) && final(self).live(j)
                            ==> final(self).cap(j).parent != Option::Some(
                            old(self).idx_of(act, s) as usize,
                        ))
                },
                Result::Err(e) => {
                    &&& e.code == Code::NotRevocable
                    &&& exists|s: CapSel|
                        crd.spec_contains(s) && #[trigger] old(self).has_cap(act, s) && !old(
                            self,
                        ).spec_can_revoke(old(self).idx_of(act, s))
                    // the range is processed in ascending order and stops
                    // at the first refusal: the refusing capability is
                    // untouched and still refuses, every targeted selector
                    // below it is already revoked, and every removal
                    // traces to a target below it
                    &&& exists|s: CapSel|
                        {
                            &&& crd.spec_contains(s)
                            &&& #[trigger] old(self).has_cap(act, s)
                            &&& final(self).live(old(self).idx_of(act, s))
                            &&& final(self).cap(old(self).idx_of(act, s)) == old(self).cap(
                                old(self).idx_of(act, s),
                            )
                            &&& !final(self).spec_can_revoke(old(self).idx_of(act, s))
                            &&& (own ==> forall|s2: CapSel|
                                crd.start <= s2 < s ==> !final(self).has_cap(act, s2))
                            &&& (!own ==> forall|s2: CapSel, j: int|
                                #![trigger old(self).has_cap(act, s2), final(self).cap(j)]
                                crd.start <= s2 < s && old(self).has_cap(act, s2)
                                    && final(self).live(j) ==> final(self).cap(j).parent
                                    != Option::Some(old(self).idx_of(act, s2) as usize))
                            &&& forall|j: int|
                                old(self).live(j) && !final(self).live(j) ==> exists|s2: CapSel|
                                    crd.spec_contains(s2) && s2 < s && #[trigger] old(
                                        self,
                                    ).has_cap(act, s2)
                        }
                },
            },
            (forall|s: CapSel|
                crd.spec_contains(s) && #[trigger] old(self).has_cap(act, s) ==> old(
                    self,
                ).spec_can_revoke(old(self).idx_of(act, s))) ==> r is Ok,
            forall|j: int|
                old(self).live(j) && !final(self).live(j) ==> exists|s: CapSel|
                    {
                        &&& crd.spec_contains(s)
                        &&& #[trigger] old(self).has_cap(act, s)
                        &&& old(self).reaches(j, old(self).idx_of(act, s))
                        &&& (own || j != old(self).idx_of(act, s))
                    },
    {
        let ghost s0 = *self;
        let mut sel = crd.start;
        let end = crd.start + crd.count;
        while sel < end
            invariant
                crd.start <= sel <= end,
                self.sound(),
                self.no_overlap(),
                self.lefts_ok(),
                self.ledger_minus(Seq::empty()),
                revoke_frame(s0, *self),
                forall|j: int|
                    self.live(j) && #[trigger] self.cap(j).parent is Some ==> self.live(
                        self.cap(j).parent->Some_0 as int,
                    ) || !s0.live(self.cap(j).parent->Some_0 as int),
                own ==> forall|s: CapSel|
                    crd.start <= s < sel ==> !self.has_cap(act, s),
                !own ==> forall|s: CapSel, j: int|
                    #![trigger s0.has_cap(act, s), self.cap(j)]
                    crd.start <= s < sel && s0.has_cap(act, s) && self.live(j)
                        ==> self.cap(j).parent != Option::Some(s0.idx_of(act, s) as usize),
                forall|j: int|
                    s0.live(j) && !self.live(j) ==> exists|s: CapSel|
                        {
                            &&& crd.spec_contains(s)
                            &&& s < sel
                            &&& #[trigger] s0.has_cap(act, s)
                            &&& s0.reaches(j, s0.idx_of(act, s))
                            &&& (own || j != s0.idx_of(act, s))
                        },
                seq_extends(effects@, old(effects)@),
                s0.spec_range_unused(act, crd) ==> *self == s0 && effects@ == old(effects)@,
            decreases end - sel,
        {
            if let Some(i) = self.find(act, sel) {
                proof {
                    assert(s0.live(i as int) && s0.cap(i as int) == self.cap(i as int));
                    assert(s0.has_cap(act, sel));
                    let w = s0.idx_of(act, sel);
                    assert(s0.live(w) && s0.cap(w).act == act && s0.cap(w).sels.spec_contains(
                        sel,
                    ));
                    if w != i as int {
                        assert(!s0.cap(w).sels.spec_overlaps(s0.cap(i as int).sels));
                    }
                    assert(w == i as int);
                    assert(!s0.spec_range_unused(act, crd)) by {
                        assert(s0.cap(i as int).sels.spec_overlaps(crd));
                    }
                }
                if !self.can_revoke_at(i) {
                    proof {
                        // balances only grow, so a target refusable now was
                        // already refusable at entry
                        assert(!s0.spec_can_revoke(i as int)) by {
                            assert(s0.cap_ok(s0.cap(i as int)));
                            match s0.cap(i as int).obj {
                                KObject::KMem(j) => {
                                    assert(self.objs.kmems@[j as int].left
                                        >= s0.objs.kmems@[j as int].left);
                                },
                                _ => {},
                            }
                        }
                    }
                    proof {
                        assert forall|j: int|
                            self.live(j) && #[trigger] self.cap(j).parent is Some
                                implies self.live(self.cap(j).parent->Some_0 as int) && self.cap(
                                j,
                            ).parent->Some_0 != j by {
                            assert(s0.live(j) && s0.cap(j) == self.cap(j));
                            assert(s0.live(s0.cap(j).parent->Some_0 as int));
                        }
                        assert forall|j: int|
                            self.live(j) && (#[trigger] self.cap(j)).parent is Some
                                implies !self.reaches(self.cap(j).parent->Some_0 as int, j) by {
                            let p = self.cap(j).parent->Some_0 as int;
                            if self.reaches(p, j) {
                                lemma_reaches_widen(*self, s0, p, j);
                                assert(s0.live(j) && s0.cap(j) == self.cap(j));
                            }
                        }
                        // the refusal happened at selector `sel`: targets
                        // below it are done, the refusing capability is
                        // intact and still refuses
                        assert(crd.spec_contains(sel));
                        assert(s0.has_cap(act, sel));
                        assert(self.live(s0.idx_of(act, sel)));
                        assert(self.cap(s0.idx_of(act, sel)) == s0.cap(s0.idx_of(act, sel)));
                        assert(!self.spec_can_revoke(s0.idx_of(act, sel)));
                        assert(own ==> forall|s2: CapSel|
                            crd.start <= s2 < sel ==> !self.has_cap(act, s2));
                        assert(forall|j: int|
                            s0.live(j) && !self.live(j) ==> exists|s2: CapSel|
                                crd.spec_contains(s2) && s2 < sel && #[trigger] s0.has_cap(
                                    act,
                                    s2,
                                ));
                    }
                    return Err(Error::new(Code::NotRevocable));
                }
                if own {
                    let ghost mid = *self;
                    self.revoke_rec(i, false, effects, Ghost(Seq::empty()));
                    proof {
                        lemma_frame_trans(s0, mid, *self);
                        assert forall|i2: int, j2: int|
                            self.live(i2) && self.live(j2) && i2 != j2 && self.cap(i2).act
                                == self.cap(j2).act implies !self.cap(i2).sels.spec_overlaps(
                            self.cap(j2).sels,
                        ) by {
                            assert(s0.live(i2) && s0.cap(i2) == self.cap(i2));
                            assert(s0.live(j2) && s0.cap(j2) == self.cap(j2));
                        }
                        assert forall|j: int|
                            s0.live(j) && !self.live(j) implies exists|s: CapSel|
                            {
                                &&& crd.spec_contains(s)
                                &&& s < sel + 1
                                &&& #[trigger] s0.has_cap(act, s)
                                &&& s0.reaches(j, s0.idx_of(act, s))
                                &&& (own || j != s0.idx_of(act, s))
                            } by {
                            if mid.live(j) {
                                assert(mid.reaches(j, i as int));
                                lemma_reaches_widen(mid, s0, j, i as int);
                                assert(crd.spec_contains(sel));
                                assert(s0.has_cap(act, sel));
                            }
                        }
                        assert forall|j: int|
                            self.live(j) && #[trigger] self.cap(j).parent is Some implies self.live(
                            self.cap(j).parent->Some_0 as int,
                        ) || !s0.live(self.cap(j).parent->Some_0 as int) by {
                            let p = self.cap(j).parent->Some_0 as int;
                            assert(mid.live(j) && mid.cap(j) == self.cap(j));
                            if !self.live(p) && mid.live(p) {
                                assert(self.live(p) || !mid.live(p));
                            }
                        }
                        assert forall|s: CapSel| crd.start <= s <= sel implies !self.has_cap(
                            act,
                            s,
                        ) by {
                            if s < sel {
                                if self.has_cap(act, s) {
                                    let w2 = self.idx_of(act, s);
                                    assert(self.live(w2));
                                    assert(mid.live(w2) && mid.cap(w2) == self.cap(w2));
                                    assert(mid.has_cap(act, s));
                                }
                            } else {
                                if self.has_cap(act, s) {
                                    let w2 = self.idx_of(act, s);
                                    assert(self.live(w2));
                                    assert(s0.live(w2) && s0.cap(w2) == self.cap(w2));
                                    if w2 != i as int {
                                        assert(!s0.cap(w2).sels.spec_overlaps(
                                            s0.cap(i as int).sels,
                                        ));
                                    }
                                    assert(!self.live(i as int));
                                }
                            }
                        }
                    }
                } else {
                    let mut child = self.find_child(i);
                    while child.is_some()
                        invariant
                            self.sound(),
                            self.no_overlap(),
                            self.lefts_ok(),
                            self.ledger_minus(Seq::empty()),
                            revoke_frame(s0, *self),
                            self.live(i as int),
                            i as int == s0.idx_of(act, sel),
                            s0.has_cap(act, sel),
                            crd.spec_contains(sel),
                            crd.start <= sel < end,
                            match child {
                                Option::Some(c) => self.live(c as int) && self.cap(
                                    c as int,
                                ).parent == Option::Some(i),
                                Option::None => forall|j: int|
                                    self.live(j) ==> (#[trigger] self.cap(j)).parent
                                        != Option::Some(i),
                            },
                            forall|j: int|
                                self.live(j) && #[trigger] self.cap(j).parent is Some
                                    ==> self.live(self.cap(j).parent->Some_0 as int) || !s0.live(
                                    self.cap(j).parent->Some_0 as int,
                                ),
                            own ==> forall|s: CapSel|
                                crd.start <= s < sel ==> !self.has_cap(act, s),
                            !own ==> forall|s: CapSel, j: int|
                                #![trigger s0.has_cap(act, s), self.cap(j)]
                                crd.start <= s < sel && s0.has_cap(act, s) && self.live(j)
                                    ==> self.cap(j).parent != Option::Some(
                                    s0.idx_of(act, s) as usize,
                                ),
                            forall|j: int|
                                s0.live(j) && !self.live(j) ==> exists|s: CapSel|
                                    {
                                        &&& crd.spec_contains(s)
                                        &&& s < sel + 1
                                        &&& #[trigger] s0.has_cap(act, s)
                                        &&& s0.reaches(j, s0.idx_of(act, s))
                                        &&& (own || j != s0.idx_of(act, s))
                                    },
                            seq_extends(effects@, old(effects)@),
                            s0.spec_range_unused(act, crd) ==> *self == s0 && effects@ == old(
                                effects,
                            )@,
                        decreases count_live(self.slots@),
                    {
                        let c = child.unwrap();
                        let ghost mid = *self;
                        self.revoke_rec(c, true, effects, Ghost(Seq::empty()));
                        proof {
                            lemma_frame_trans(s0, mid, *self);
                            assert(!s0.spec_range_unused(act, crd));
                            assert forall|i2: int, j2: int|
                                self.live(i2) && self.live(j2) && i2 != j2 && self.cap(i2).act
                                    == self.cap(j2).act implies !self.cap(i2).sels.spec_overlaps(
                                self.cap(j2).sels,
                            ) by {
                                assert(s0.live(i2) && s0.cap(i2) == self.cap(i2));
                                assert(s0.live(j2) && s0.cap(j2) == self.cap(j2));
                            }
                            // an ancestor never sits in its child's subtree, so the
                            // target of a children-only revoke survives each pass
                            assert(self.live(i as int)) by {
                                if !self.live(i as int) {
                                    assert(mid.live(i as int));
                                    assert(mid.reaches(i as int, c as int));
                                    lemma_reaches_widen(mid, s0, i as int, c as int);
                                    assert(s0.live(c as int) && s0.cap(c as int).parent
                                        == Option::Some(i));
                                    assert(!s0.reaches(
                                        s0.cap(c as int).parent->Some_0 as int,
                                        c as int,
                                    ));
                                }
                            }
                            assert forall|j: int|
                                s0.live(j) && !self.live(j) implies exists|s: CapSel|
                                {
                                    &&& crd.spec_contains(s)
                                    &&& s < sel + 1
                                    &&& #[trigger] s0.has_cap(act, s)
                                    &&& s0.reaches(j, s0.idx_of(act, s))
                                    &&& (own || j != s0.idx_of(act, s))
                                } by {
                                if mid.live(j) {
                                    assert(mid.reaches(j, c as int));
                                    lemma_reaches_widen(mid, s0, j, c as int);
                                    assert(s0.live(c as int) && s0.cap(c as int).parent
                                        == Option::Some(i));
                                    lemma_reaches_self(s0, i as int);
                                    lemma_reaches_step(s0, c as int, i as int);
                                    lemma_reaches_trans(s0, j, c as int, i as int);
                                    assert(s0.has_cap(act, sel));
                                    assert(j != i as int) by {
                                        assert(self.live(i as int));
                                    }
                                }
                            }
                            assert forall|j: int|
                                self.live(j) && #[trigger] self.cap(j).parent is Some
                                    implies self.live(self.cap(j).parent->Some_0 as int)
                                || !s0.live(self.cap(j).parent->Some_0 as int) by {
                                let p = self.cap(j).parent->Some_0 as int;
                                assert(mid.live(j) && mid.cap(j) == self.cap(j));
                                if !self.live(p) && mid.live(p) {
                                    assert(self.live(p) || !mid.live(p));
                                }
                            }
                        }
                        child = self.find_child(i);
                    }
                }
            }
            proof {
                if own {
                    if self.has_cap(act, sel) {
                        let w2 = self.idx_of(act, sel);
                        assert(self.live(w2));
                    }
                } else {
                    assert forall|s2: CapSel, j: int|
                        #![trigger s0.has_cap(act, s2), self.cap(j)]
                        crd.start <= s2 < sel + 1 && s0.has_cap(act, s2) && self.live(j)
                            implies self.cap(j).parent != Option::Some(
                            s0.idx_of(act, s2) as usize,
                        ) by {
                        if s2 == sel {
                            let idx = s0.idx_of(act, s2);
                            assert(s0.live(idx) && s0.cap(idx).act == act && s0.cap(
                                idx,
                            ).sels.spec_contains(s2));
                            if self.cap(j).parent == Option::Some(idx as usize) {
                                if self.live(idx) {
                                    assert(self.cap(idx) == s0.cap(idx));
                                    assert(self.has_cap(act, s2));
                                } else {
                                    assert(self.cap(j).parent is Some);
                                    vstd::std_specs::vec::axiom_spec_len(&self.slots);
                                    assert(idx < s0.slots@.len());
                                    assert((idx as usize) as int == idx);
                                    assert(self.cap(j).parent->Some_0 as int == idx);
                                    assert(self.live(idx) || !s0.live(idx));
                                }
                            }
                        }
                    }
                }
            }
            sel += 1;
        }
        proof {
            assert forall|i2: int, j2: int|
                self.live(i2) && self.live(j2) && i2 != j2 && self.cap(i2).act == self.cap(
                    j2,
                ).act implies !self.cap(i2).sels.spec_overlaps(self.cap(j2).sels) by {
                assert(s0.live(i2) && s0.cap(i2) == self.cap(i2));
                assert(s0.live(j2) && s0.cap(j2) == self.cap(j2));
            }
            assert forall|j: int|
                self.live(j) && #[trigger] self.cap(j).parent is Some implies self.live(
                self.cap(j).parent->Some_0 as int,
            ) && self.cap(j).parent->Some_0 != j by {
                assert(s0.live(j) && s0.cap(j) == self.cap(j));
                assert(s0.live(s0.cap(j).parent->Some_0 as int));
            }
            assert forall|j: int|
                self.live(j) && (#[trigger] self.cap(j)).parent is Some implies !self.reaches(
                self.cap(j).parent->Some_0 as int,
                j,
            ) by {
                let p = self.cap(j).parent->Some_0 as int;
                if self.reaches(p, j) {
                    lemma_reaches_widen(*self, s0, p, j);
                    assert(s0.live(j) && s0.cap(j) == self.cap(j));
                }
            }
        }
        Ok(())
    }

    /// Revokes the capability covering one selector together with its
    /// whole subtree; a free selector is a successful no-op.  For a
    /// childless capability the recorded side effects are exactly its
    /// release actions, which makes the hardware half of the teardown
    /// visible at the public boundary.
    #[verifier::rlimit(100)]
    #[verifier::spinoff_prover]
    pub fn revoke_one_async(
        &mut self,
        act: ActId,
        sel: CapSel,
        effects: &mut Vec<SideEffect>,
    ) -> (r: Result<(), Error>)
        requires
            old(self).wf(),
            old(self).quota_inv(),
            old(self).lefts_ok(),
        ensures
            final(self).wf(),
            final(self).quota_inv(),
            final(self).lefts_ok(),
            revoke_frame(*old(self), *final(self)),
            seq_extends(final(effects)@, old(effects)@),
            !old(self).has_cap(act, sel) ==> r is Ok && *final(self) == *old(self)
                && final(effects)@ == old(effects)@,
            match r {
                Result::Ok(()) => !final(self).has_cap(act, sel),
                Result::Err(e) => {
                    &&& e.code == Code::NotRevocable
                    &&& old(self).has_cap(act, sel)
                    &&& !old(self).spec_can_revoke(old(self).idx_of(act, sel))
                    &&& *final(self) == *old(self)
                    &&& final(effects)@ == old(effects)@
                },
            },
            old(self).has_cap(act, sel) && old(self).spec_can_revoke(old(self).idx_of(act, sel))
                ==> r is Ok,
            forall|j: int|
                old(self).live(j) && !final(self).live(j) ==> old(self).has_cap(act, sel) && old(
                    self,
                ).reaches(j, old(self).idx_of(act, sel)),
            (r is Ok && old(self).has_cap(act, sel) && (forall|j: int|
                old(self).live(j) ==> (#[trigger] old(self).cap(j)).parent != Option::Some(
                    old(self).idx_of(act, sel) as usize,
                ))) ==> final(effects)@ == old(effects)@ + release_effects(
                old(self).cap(old(self).idx_of(act, sel)),
                old(self).objs,
                old(self).acts@,
                false,
            ),
    {
        let ghost s0 = *self;
        if let Some(i) = self.find(act, sel) {
            proof {
                let w = s0.idx_of(act, sel);
                assert(s0.live(w) && s0.cap(w).act == act && s0.cap(w).sels.spec_contains(sel));
                if w != i as int {
                    assert(!s0.cap(w).sels.spec_overlaps(s0.cap(i as int).sels));
                }
                assert(w == i as int);
            }
            if !self.can_revoke_at(i) {
                return Err(Error::new(Code::NotRevocable));
            }
            self.revoke_rec(i, false, effects, Ghost(Seq::empty()));
            proof {
                assert forall|j: int|
                    self.live(j) && #[trigger] self.cap(j).parent is Some implies self.live(
                    self.cap(j).parent->Some_0 as int,
                ) && self.cap(j).parent->Some_0 != j by {
                    let p = self.cap(j).parent->Some_0 as int;
                    assert(s0.live(j) && s0.cap(j) == self.cap(j));
                    assert(self.live(p) || !s0.live(p));
                    assert(s0.live(p));
                }
                assert forall|i2: int, j2: int|
                    self.live(i2) && self.live(j2) && i2 != j2 && self.cap(i2).act == self.cap(
                        j2,
                    ).act implies !self.cap(i2).sels.spec_overlaps(self.cap(j2).sels) by {
                    assert(s0.live(i2) && s0.cap(i2) == self.cap(i2));
                    assert(s0.live(j2) && s0.cap(j2) == self.cap(j2));
                }
                assert forall|j: int|
                    self.live(j) && (#[trigger] self.cap(j)).parent is Some
                        implies !self.reaches(self.cap(j).parent->Some_0 as int, j) by {
                    let p = self.cap(j).parent->Some_0 as int;
                    if self.reaches(p, j) {
                        lemma_reaches_widen(*self, s0, p, j);
                        assert(s0.live(j) && s0.cap(j) == self.cap(j));
                    }
                }
                assert(!self.has_cap(act, sel)) by {
                    if self.has_cap(act, sel) {
                        let w2 = self.idx_of(act, sel);
                        assert(self.live(w2));
                        assert(s0.live(w2) && s0.cap(w2) == self.cap(w2));
                        if w2 != i as int {
                            assert(!s0.cap(w2).sels.spec_overlaps(s0.cap(i as int).sels));
                        }
                        assert(!self.live(i as int));
                    }
                }
            }
            Ok(())
        } else {
            Ok(())
        }
    }

    /// Revokes every capability in the table; used when the kernel tears
    /// all activities down.
    #[verifier::rlimit(100)]
    #[verifier::loop_isolation(false)]
    pub fn revoke_all_async(&mut self, effects: &mut Vec<SideEffect>)
        requires
            old(self).wf(),
            old(self).quota_inv(),
            old(self).lefts_ok(),
        ensures
            final(self).wf(),
            final(self).quota_inv(),
            final(self).lefts_ok(),
            revoke_frame(*old(self), *final(self)),
            seq_extends(final(effects)@, old(effects)@),
            forall|i: int| !final(self).live(i),
    {
        let ghost s0 = *self;
        let mut i: usize = 0;
        while i < self.slots.len()
            invariant
                i <= self.slots@.len(),
                self.sound(),
                self.lefts_ok(),
                self.ledger_minus(Seq::empty()),
                revoke_frame(s0, *self),
                seq_extends(effects@, old(effects)@),
                forall|j: int| 0 <= j < i ==> !self.live(j),
            decreases self.slots@.len() - i,
        {
            if self.slots[i].is_some() {
                let ghost mid = *self;
                self.revoke_rec(i, true, effects, Ghost(Seq::empty()));
                proof {
                    lemma_frame_trans(s0, mid, *self);
                }
            }
            i += 1;
        }
        proof {
            assert forall|j: int| !self.live(j) by {
                if 0 <= j < self.slots@.len() {
                }
            }
            assert(self.parents_live());
            assert(self.no_overlap());
            assert(self.acyclic());
        }
    }

    /// Releases one removed capability: refunds its cost to the owning
    /// activity's ledger, performs the object-specific teardown, and
    /// records the hardware actions the embedder must apply.
    #[verifier::rlimit(100)]
    #[verifier::spinoff_prover]
    fn release_one(
        &mut self,
        cap: Capability,
        foreign: bool,
        effects: &mut Vec<SideEffect>,
        Ghost(rest): Ghost<Seq<Capability>>,
    )
        requires
            old(self).sound(),
            old(self).cap_ok(cap),
            old(self).lefts_ok(),
            old(self).ledger_minus(rest.push(cap)),
        ensures
            final(self).sound(),
            final(self).lefts_ok(),
            final(self).ledger_minus(rest),
            final(self).slots == old(self).slots,
            final(self).acts == old(self).acts,
            final(self).objs.kmems@ == kmems_after(cap, old(self).objs.kmems@, old(self).acts@),
            final(self).objs.tiles@ == tiles_after(cap, old(self).objs.tiles@),
            final(self).objs.eps@ == eps_after(cap, old(self).objs),
            final(self).objs.rgates@ == rgates_after(cap, old(self).objs.rgates@),
            final(self).objs.sgates@ == sgates_after(cap, old(self).objs.sgates@),
            final(self).objs.mgates@ == mgates_after(cap, old(self).objs.mgates@),
            final(self).objs.maps@ == maps_after(cap, old(self).objs.maps@),
            final(self).objs.servs@ == servs_after(cap, old(self).objs.servs@),
            final(self).objs.sems@ == sems_after(cap, old(self).objs.sems@),
            final(self).objs.sesss == old(self).objs.sesss,
            final(effects)@ == old(effects)@ + release_effects(cap, old(self).objs, old(self).acts@, foreign),
            forall|k: int|
                0 <= k < old(self).objs.kmems@.len() ==> {
                    &&& (#[trigger] final(self).objs.kmems@[k]).quota
                        == old(self).objs.kmems@[k].quota
                    &&& final(self).objs.kmems@[k].parent == old(self).objs.kmems@[k].parent
                    &&& final(self).objs.kmems@[k].left >= old(self).objs.kmems@[k].left
                    &&& (final(self).objs.kmems@[k].alive ==> old(self).objs.kmems@[k].alive)
                    &&& (!old(self).objs.kmems@[k].alive ==> final(self).objs.kmems@[k].left
                        == old(self).objs.kmems@[k].left)
                },
            forall|t: int|
                0 <= t < old(self).objs.tiles@.len() ==> (#[trigger] final(self).objs.tiles@[t]).vpes
                    == old(self).objs.tiles@[t].vpes,
    {
        let ghost s_in = *old(self);
        let amount = cap.cost();
        let kc = self.acts[cap.act].kmem;
        if self.objs.kmems[kc].alive {
            proof {
                lemma_pend_push(rest, cap, self.acts@, kc as int);
                assert(slot_cost(Option::Some(cap), self.acts@, kc as int) == Capability::spec_cost(
                    cap.derived,
                ));
                assert(self.objs.kmems@[kc as int].left + cost_sum(self.slots@, self.acts@, kc as int)
                    + lent_sum(self.objs.kmems@, kc as int) + pend_cost(
                    rest.push(cap),
                    self.acts@,
                    kc as int,
                ) == self.objs.kmems@[kc as int].quota);
            }
            let mut km = self.objs.kmems[kc];
            km.left = km.left + amount;
            self.objs.kmems[kc] = km;
        }
        let ghost s_b = *self;
        proof {
            assert(s_b.objs.kmems@ == kmems_after_refund(cap, s_in.objs.kmems@, s_in.acts@));
            assert forall|k: int|
                0 <= k < s_b.objs.kmems@.len() && (#[trigger] s_b.objs.kmems@[k]).alive
                    implies s_b.objs.kmems@[k].left + cost_sum(s_b.slots@, s_b.acts@, k) + lent_sum(
                s_b.objs.kmems@,
                k,
            ) + pend_cost(rest, s_b.acts@, k) == s_b.objs.kmems@[k].quota by {
                lemma_pend_push(rest, cap, s_b.acts@, k);
                if s_in.objs.kmems@[s_in.kmem_of(cap.act)].alive {
                    lemma_lent_sum_update(
                        s_in.objs.kmems@,
                        k,
                        s_in.kmem_of(cap.act),
                        s_b.objs.kmems@[s_in.kmem_of(cap.act)],
                        s_in.objs.kmems@.len() as int,
                    );
                }
                assert(s_in.objs.kmems@[k].alive);
                assert(s_in.objs.kmems@[k].left + cost_sum(s_in.slots@, s_in.acts@, k) + lent_sum(
                    s_in.objs.kmems@,
                    k,
                ) + pend_cost(rest.push(cap), s_in.acts@, k) == s_in.objs.kmems@[k].quota);
                if k != s_in.kmem_of(cap.act) {
                    assert(slot_cost(Option::Some(cap), s_in.acts@, k) == 0);
                }
            }
            assert(s_b.ledger_minus(rest));
        }
        match cap.obj {
            KObject::Act(a) => {
                if self.acts[a].alive && cap.sels.start != SEL_ACT && cap.parent.is_none()
                    && !self.acts[a].is_root {
                    effects.push(SideEffect::RemoveActivity { act: a });
                }
            },
            KObject::EP(e) => {
                let epo = self.objs.eps[e];
                if let Some(a) = epo.act {
                    effects.push(
                        SideEffect::InvalidateEp { tile: epo.tile, act: a, ep: epo.ep, notify: false },
                    );
                }
                if !epo.is_pmp {
                    effects.push(SideEffect::FreeEps { tile: epo.tile, ep: epo.ep, num: epo.num });
                }
                let mut e2 = epo;
                e2.act = None;
                self.objs.eps[e] = e2;
            },
            KObject::SGate(g) => {
                let sg = self.objs.sgates[g];
                if let Some(e) = sg.ep {
                    let rg = self.objs.rgates[sg.rgate];
                    let epo = self.objs.eps[e];
                    if let Some(loc) = rg.loc {
                        effects.push(
                            SideEffect::InvalidateReplyEps {
                                recv_tile: loc.0,
                                recv_ep: loc.1,
                                send_tile: epo.tile,
                                send_ep: epo.ep,
                            },
                        );
                    }
                    if let Some(a) = epo.act {
                        effects.push(
                            SideEffect::InvalidateEp {
                                tile: epo.tile,
                                act: a,
                                ep: epo.ep,
                                notify: true,
                            },
                        );
                        if foreign {
                            effects.push(
                                SideEffect::NotifyInvalidate { tile: epo.tile, act: a, ep: epo.ep },
                            );
                        }
                        if !epo.is_pmp {
                            effects.push(
                                SideEffect::FreeEps { tile: epo.tile, ep: epo.ep, num: epo.num },
                            );
                        }
                    }
                    let mut e2 = epo;
                    e2.act = None;
                    self.objs.eps[e] = e2;
                }
                let mut sg2 = sg;
                sg2.ep = None;
                self.objs.sgates[g] = sg2;
            },
            KObject::RGate(r) => {
                let rg = self.objs.rgates[r];
                if let Some(e) = rg.ep {
                    let epo = self.objs.eps[e];
                    if let Some(a) = epo.act {
                        effects.push(
                            SideEffect::InvalidateEp {
                                tile: epo.tile,
                                act: a,
                                ep: epo.ep,
                                notify: true,
                            },
                        );
                        if !epo.is_pmp {
                            effects.push(
                                SideEffect::FreeEps { tile: epo.tile, ep: epo.ep, num: epo.num },
                            );
                        }
                    }
                    let mut e2 = epo;
                    e2.act = None;
                    self.objs.eps[e] = e2;
                }
                let mut rg2 = rg;
                rg2.ep = None;
                rg2.loc = None;
                self.objs.rgates[r] = rg2;
            },
            KObject::MGate(m) => {
                let mg = self.objs.mgates[m];
                if let Some(e) = mg.ep {
                    let epo = self.objs.eps[e];
                    if let Some(a) = epo.act {
                        effects.push(
                            SideEffect::InvalidateEp {
                                tile: epo.tile,
                                act: a,
                                ep: epo.ep,
                                notify: true,
                            },
                        );
                        if !epo.is_pmp {
                            effects.push(
                                SideEffect::FreeEps { tile: epo.tile, ep: epo.ep, num: epo.num },
                            );
                        }
                    }
                    let mut e2 = epo;
                    e2.act = None;
                    self.objs.eps[e] = e2;
                }
                let mut mg2 = mg;
                mg2.ep = None;
                self.objs.mgates[m] = mg2;
            },
            KObject::KMem(j) => {
                if !cap.derived && cap.sels.start != SEL_KMEM {
                    let kj = self.objs.kmems[j];
                    if kj.alive {
                        if let Some(p) = kj.parent {
                            if self.objs.kmems[p].alive {
                                proof {
                                    lemma_lent_sum_ge(
                                        s_b.objs.kmems@,
                                        p as int,
                                        j as int,
                                        s_b.objs.kmems@.len() as int,
                                    );
                                    assert(s_b.objs.kmems@[p as int].left + cost_sum(
                                        s_b.slots@,
                                        s_b.acts@,
                                        p as int,
                                    ) + lent_sum(s_b.objs.kmems@, p as int) + pend_cost(
                                        rest,
                                        s_b.acts@,
                                        p as int,
                                    ) == s_b.objs.kmems@[p as int].quota);
                                }
                                let mut kp = self.objs.kmems[p];
                                kp.left = kp.left + kj.quota;
                                self.objs.kmems[p] = kp;
                            }
                        }
                    }
                    let mut k2 = self.objs.kmems[j];
                    k2.alive = false;
                    self.objs.kmems[j] = k2;
                }
            },
            KObject::Tile(t) => {
                if !cap.derived && cap.sels.start != SEL_TILE {
                    let to = self.objs.tiles[t];
                    if let Some(p) = to.parent {
                        let tp = self.objs.tiles[p];
                        let newleft = if tp.eps_left >= tp.eps_total {
                            tp.eps_total
                        } else if to.eps_total <= tp.eps_total - tp.eps_left {
                            tp.eps_left + to.eps_total
                        } else {
                            tp.eps_total
                        };
                        let mut tp2 = tp;
                        tp2.eps_left = newleft;
                        self.objs.tiles[p] = tp2;
                    }
                }
            },
            KObject::Mapping(m) => {
                let mo = self.objs.maps[m];
                if mo.mapped && self.acts[cap.act].alive {
                    effects.push(
                        SideEffect::Unmap {
                            act: cap.act,
                            virt: cap.sels.start << PAGE_BITS,
                            pages: cap.sels.count,
                        },
                    );
                }
                let mut m2 = mo;
                m2.mapped = false;
                self.objs.maps[m] = m2;
            },
            KObject::Serv(v) => {
                let mut s2 = self.objs.servs[v];
                s2.aborted = true;
                self.objs.servs[v] = s2;
            },
            KObject::Sess(_x) => {},
            KObject::Sem(x) => {
                let mut s2 = self.objs.sems[x];
                s2.revoked = true;
                self.objs.sems[x] = s2;
            },
        }
        proof {
            assert(final(effects)@ == old(effects)@ + release_effects(cap, s_in.objs, s_in.acts@, foreign)) by {
                assert(effects@ =~= old(effects)@ + release_effects(cap, s_in.objs, s_in.acts@, foreign));
            }
            assert(self.objs.kmems@ == kmems_after(cap, s_in.objs.kmems@, s_in.acts@)) by {
                assert(self.objs.kmems@ =~= kmems_after(cap, s_in.objs.kmems@, s_in.acts@));
            }
            assert(self.objs.eps@ =~= eps_after(cap, s_in.objs));
            assert(self.objs.tiles@ =~= tiles_after(cap, s_in.objs.tiles@));
            assert(self.objs.rgates@ =~= rgates_after(cap, s_in.objs.rgates@));
            assert(self.objs.sgates@ =~= sgates_after(cap, s_in.objs.sgates@));
            assert(self.objs.mgates@ =~= mgates_after(cap, s_in.objs.mgates@));
            assert(self.objs.maps@ =~= maps_after(cap, s_in.objs.maps@));
            assert(self.objs.servs@ =~= servs_after(cap, s_in.objs.servs@));
            assert(self.objs.sems@ =~= sems_after(cap, s_in.objs.sems@));
            lemma_release_ledger(cap, s_in, rest);
            assert forall|i: int| self.live(i) implies self.cap_ok(#[trigger] self.cap(i)) by {
                assert(s_in.live(i));
                assert(s_in.cap_ok(s_in.cap(i)));
                assert(self.cap(i) == s_in.cap(i));
            }
        }
    }
}

} // verus!
