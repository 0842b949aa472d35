//! The per-tile multiplexer: owns a tile's endpoint namespace and proxies
//! configuration commands to the tile's resident stub.
//!
//! One instance exists for every non-kernel tile, created at boot and
//! never destroyed; a tile may merely lose all resident activities and
//! sit idle.  An endpoint moves from free through allocated to configured
//! and back to free by invalidation, and every configuration change the
//! resident side must mirror goes out as a side-call through the tile's
//! FIFO send queue, skipped with `ActivityGone` when the target activity
//! already reached its terminal state.

use vstd::prelude::*;

use crate::caps::CapTable;
use crate::epalloc::{range_clear, range_set, with_range, EpAlloc};
use crate::err::{Code, Error};
use crate::kobj::{ActId, EPObject, EpId, Goff, TileId, TileObject};
use crate::ktcu;
use crate::sendqueue::{Entry, Event, QState, SendQueue, ThreadMng};
use crate::sidecalls::{encode, spec_encode, Sidecall};
use crate::tcu::{
    ep_kind, rcv_unread, snd_cur, snd_max, Tcu, AVAIL_EPS, EP_KIND_RECV, EP_KIND_SEND,
    FIRST_USER_EP, KPEX_REP, KPEX_SEP, PMEM_PROT_EPS, TMSIDE_REP, TMSIDE_RPLEP,
};

verus! {

/// Opcode of the exit call a resident stub makes to the kernel.
pub const OP_EXIT: u64 = 12;

/// The activity word written into endpoint registers of tiles that run a
/// single activity, where the unit does not check the activity.
pub const INVAL_ID: u64 = 0xFFFF;

/// The activity word an endpoint of this tile is configured with: the
/// real identifier on a shared tile, the invalid word otherwise.
pub open spec fn spec_ep_act(shared: bool, act: ActId) -> u64 {
    if shared {
        act as u64
    } else {
        INVAL_ID
    }
}

/// `s` with every occurrence of `x` removed, order kept.
pub open spec fn seq_without(s: Seq<ActId>, x: ActId) -> Seq<ActId>
    decreases s.len(),
{
    if s.len() == 0 {
        Seq::empty()
    } else {
        let rest = seq_without(s.drop_last(), x);
        if s.last() == x {
            rest
        } else {
            rest.push(s.last())
        }
    }
}

/// Everything a queue has accepted, in submission order: the wire log
/// followed by the backlog.
pub open spec fn submitted(q: SendQueue) -> Seq<Entry> {
    q.sent@ + q.queue@
}

/// The accepted messages as plain values: identifier and words.
pub open spec fn submitted_msgs(q: SendQueue) -> Seq<(u64, Seq<u64>)> {
    submitted(q).map_values(|e: Entry| (e.id, e.msg@))
}

/// The multiplexer of one tile.
#[derive(Debug)]
pub struct TileMux {
    /// Index of the tile's object in the capability store.
    pub tile: usize,
    /// The tile this multiplexer drives.
    pub tile_id: TileId,
    /// Activities currently resident on the tile.
    pub acts: Vec<ActId>,
    /// Side-call queue to the tile's resident stub.
    pub queue: SendQueue,
    /// Store indices of the fixed PMP endpoint bindings.
    pub pmp: Vec<usize>,
    /// The endpoint bit allocator.
    pub eps: EpAlloc,
    /// The attestation key the kernel holds for this tile.
    pub key: u64,
    /// Whether several activities share the tile, so endpoint registers
    /// carry real activity identifiers.
    pub shared: bool,
}

impl TileMux {
    /// Brings a tile under kernel management: registers its tile object
    /// and PMP bindings, reserves the kernel channels in the endpoint
    /// bitset, and configures the stub's channels when the tile runs one.
    pub fn new(
        tile_id: TileId,
        key: u64,
        shared: bool,
        supports_tilemux: bool,
        rbuf: Goff,
        table: &mut CapTable,
        tcu: &mut Tcu,
    ) -> (r: TileMux)
        requires
            old(table).wf(),
            old(table).quota_inv(),
            old(table).lefts_ok(),
            old(tcu).wf(),
            tile_id < old(tcu).spec_tiles(),
            tile_id < 0x10000,
            rbuf <= 0xFFFF_FFFF_FFFF,
            key == old(tcu).keys@[tile_id as int],
        ensures
            final(table).wf(),
            final(table).quota_inv(),
            final(table).lefts_ok(),
            final(table).slots == old(table).slots,
            final(table).acts == old(table).acts,
            final(table).objs.kmems == old(table).objs.kmems,
            final(tcu).wf(),
            final(tcu).spec_tiles() == old(tcu).spec_tiles(),
            final(tcu).keys == old(tcu).keys,
            final(tcu).features == old(tcu).features,
            final(tcu).attested == old(tcu).attested,
            r.tile_id == tile_id,
            r.key == key,
            r.shared == shared,
            r.acts@.len() == 0,
            r.eps.bits@.len() == AVAIL_EPS,
            r.eps.first_user == FIRST_USER_EP,
            // the multiplexer's own memory region occupies the first
            // slot, the PMP slots stay outside the allocator, the kernel
            // channels are reserved, and the user range is free
            r.eps.bits@[0],
            forall|i: int| 0 < i < PMEM_PROT_EPS ==> !r.eps.bits@[i],
            forall|i: int| PMEM_PROT_EPS <= i < FIRST_USER_EP ==> r.eps.bits@[i],
            range_clear(r.eps.bits@, FIRST_USER_EP as int, (AVAIL_EPS - FIRST_USER_EP) as int),
            r.queue.state == QState::Idle,
            r.queue.inv(),
            r.queue.next_id == 0,
            submitted_msgs(r.queue).len() == 0,
            // the tile object carries the user endpoints as its quota
            r.tile == old(table).objs.tiles@.len(),
            final(table).objs.tiles@ == old(table).objs.tiles@.push(
                TileObject {
                    tile: tile_id,
                    parent: Option::None,
                    eps_total: (AVAIL_EPS - FIRST_USER_EP) as u64,
                    eps_left: (AVAIL_EPS - FIRST_USER_EP) as u64,
                    vpes: 0,
                    derived: false,
                },
            ),
            // one binding per PMP endpoint, in slot order
            r.pmp@.len() == PMEM_PROT_EPS,
            final(table).objs.eps@.len() == old(table).objs.eps@.len() + PMEM_PROT_EPS,
            forall|i: int|
                0 <= i < PMEM_PROT_EPS ==> #[trigger] r.pmp@[i] == old(table).objs.eps@.len() + i
                    && final(table).objs.eps@[r.pmp@[i] as int] == (EPObject {
                    is_pmp: true,
                    tile: tile_id,
                    ep: i as usize,
                    num: 1,
                    act: Option::None,
                }),
    {
        let ghost t0 = *table;
        let tile = table.objs.tiles.len();
        table.objs.tiles.push(
            TileObject {
                tile: tile_id,
                parent: None,
                eps_total: (AVAIL_EPS - FIRST_USER_EP) as u64,
                eps_left: (AVAIL_EPS - FIRST_USER_EP) as u64,
                vpes: 0,
                derived: false,
            },
        );
        let mut pmp: Vec<usize> = Vec::new();
        let mut ep: usize = 0;
        while ep < PMEM_PROT_EPS
            invariant
                ep <= PMEM_PROT_EPS,
                pmp@.len() == ep,
                table.objs.eps@.len() == t0.objs.eps@.len() + ep,
                forall|i: int|
                    0 <= i < ep ==> #[trigger] pmp@[i] == t0.objs.eps@.len() + i
                        && table.objs.eps@[pmp@[i] as int] == (EPObject {
                        is_pmp: true,
                        tile: tile_id,
                        ep: i as usize,
                        num: 1,
                        act: Option::None,
                    }),
                table.objs.tiles@ == t0.objs.tiles@.push(
                    TileObject {
                        tile: tile_id,
                        parent: Option::None,
                        eps_total: (AVAIL_EPS - FIRST_USER_EP) as u64,
                        eps_left: (AVAIL_EPS - FIRST_USER_EP) as u64,
                        vpes: 0,
                        derived: false,
                    },
                ),
                table.slots == t0.slots,
                table.acts == t0.acts,
                table.objs.kmems == t0.objs.kmems,
                table.objs.rgates == t0.objs.rgates,
                table.objs.sgates == t0.objs.sgates,
                table.objs.mgates == t0.objs.mgates,
                table.objs.servs == t0.objs.servs,
                table.objs.sesss == t0.objs.sesss,
                table.objs.maps == t0.objs.maps,
                table.objs.sems == t0.objs.sems,
            decreases PMEM_PROT_EPS - ep,
        {
            pmp.push(table.objs.eps.len());
            table.objs.eps.push(
                EPObject { is_pmp: true, tile: tile_id, ep, num: 1, act: None },
            );
            ep += 1;
        }
        proof {
            assert(table.wf()) by {
                assert forall|i: int| table.live(i) implies table.cap_ok(
                    #[trigger] table.cap(i),
                ) by {
                    assert(t0.cap_ok(t0.cap(i)));
                }
                assert forall|i2: int, j2: int|
                    table.live(i2) && table.live(j2) && i2 != j2 && table.cap(i2).act == table.cap(
                        j2,
                    ).act implies !table.cap(i2).sels.spec_overlaps(table.cap(j2).sels) by {
                    assert(!t0.cap(i2).sels.spec_overlaps(t0.cap(j2).sels));
                }
                assert forall|j: int|
                    table.live(j) && #[trigger] table.cap(j).parent is Some implies table.live(
                    table.cap(j).parent->Some_0 as int,
                ) && table.cap(j).parent->Some_0 != j by {
                    assert(t0.live(t0.cap(j).parent->Some_0 as int));
                }
                assert forall|j2: int|
                    table.live(j2) && (#[trigger] table.cap(j2)).parent is Some
                        implies !table.reaches(table.cap(j2).parent->Some_0 as int, j2) by {
                    if table.reaches(table.cap(j2).parent->Some_0 as int, j2) {
                        let f = choose|f: nat|
                            table.reach(table.cap(j2).parent->Some_0 as int, j2, f);
                        assert(table.slots@ == t0.slots@);
                        assert(t0.reach(table.cap(j2).parent->Some_0 as int, j2, f));
                        assert(t0.reaches(t0.cap(j2).parent->Some_0 as int, j2));
                    }
                }
            }
        }
        let mut eps = EpAlloc::new(AVAIL_EPS, FIRST_USER_EP);
        // the first endpoint carries the multiplexer's own memory region,
        // and the kernel channels sit between the PMP range and the first
        // user endpoint
        eps.set_reserved(0);
        let mut b: usize = PMEM_PROT_EPS;
        while b < FIRST_USER_EP
            invariant
                PMEM_PROT_EPS <= b <= FIRST_USER_EP,
                eps.bits@.len() == AVAIL_EPS,
                eps.first_user == FIRST_USER_EP,
                eps.bits@[0],
                forall|i: int| 0 < i < PMEM_PROT_EPS ==> !eps.bits@[i],
                forall|i: int| PMEM_PROT_EPS <= i < b ==> eps.bits@[i],
                forall|i: int| FIRST_USER_EP <= i < AVAIL_EPS ==> !eps.bits@[i],
            decreases FIRST_USER_EP - b,
        {
            eps.set_reserved(b);
            b += 1;
        }
        let mut mux = TileMux {
            tile,
            tile_id,
            acts: Vec::new(),
            queue: SendQueue::new(tile_id as u64, tile_id),
            pmp,
            eps,
            key,
            shared,
        };
        if supports_tilemux {
            mux.init(tcu, rbuf);
        }
        mux
    }

    /// Configures the kernel channels of the tile's resident stub: its
    /// send endpoint towards the kernel and the receive endpoints for
    /// kernel calls and side-calls.
    fn init(&mut self, tcu: &mut Tcu, rbuf: Goff)
        requires
            old(tcu).wf(),
            self.tile_id < old(tcu).spec_tiles(),
            self.tile_id < 0x10000,
            rbuf <= 0xFFFF_FFFF_FFFF,
            self.key == old(tcu).keys@[self.tile_id as int],
        ensures
            final(tcu).wf(),
            final(tcu).spec_tiles() == old(tcu).spec_tiles(),
            final(tcu).keys == old(tcu).keys,
            final(tcu).features == old(tcu).features,
            final(tcu).attested == old(tcu).attested,
            *final(self) == *old(self),
            ({
                let t = old(self).tile_id as int;
                // the stub's send channel towards the kernel, one credit
                &&& ep_kind(final(tcu).ep_reg(t, KPEX_SEP as int, 0)) == EP_KIND_SEND
                &&& snd_cur(final(tcu).ep_reg(t, KPEX_SEP as int, 0)) == 1
                &&& crate::tcu::snd_dst_ep(final(tcu).ep_reg(t, KPEX_SEP as int, 0))
                    == KPEX_REP as u64
                &&& crate::tcu::snd_label(final(tcu).ep_reg(t, KPEX_SEP as int, 1))
                    == old(self).tile_id as u64
                // the stub's receive channel for kernel calls at rbuf
                &&& ep_kind(final(tcu).ep_reg(t, KPEX_REP as int, 0)) == EP_KIND_RECV
                &&& final(tcu).ep_reg(t, KPEX_REP as int, 1) == rbuf
                // the side-call receive channel behind it, with its reply slot
                &&& ep_kind(final(tcu).ep_reg(t, TMSIDE_REP as int, 0)) == EP_KIND_RECV
                &&& final(tcu).ep_reg(t, TMSIDE_REP as int, 1) == rbuf + 64
                &&& crate::tcu::rcv_reply_eps(final(tcu).ep_reg(t, TMSIDE_REP as int, 0))
                    == TMSIDE_RPLEP as u64
            }),
            forall|t2: int, e2: int, i2: int|
                0 <= t2 < old(tcu).spec_tiles() && 0 <= e2 < AVAIL_EPS && 0 <= i2 < 3 && !(t2
                    == old(self).tile_id as int && (e2 == KPEX_SEP as int || e2
                    == KPEX_REP as int || e2 == TMSIDE_REP as int))
                    ==> #[trigger] final(tcu).ep_reg(t2, e2, i2) == old(tcu).ep_reg(t2, e2, i2),
    {
        let regs = ktcu::config_send(0, self.tile_id as u64, 0, KPEX_REP, 6, 1);
        let w1 = ktcu::write_ep_remote(tcu, self.tile_id, KPEX_SEP, regs, self.key);
        let regs = ktcu::config_recv(0, rbuf, 6, 6, None);
        let w2 = ktcu::write_ep_remote(tcu, self.tile_id, KPEX_REP, regs, self.key);
        proof {
            assert(1u64 << 6 == 64) by (bit_vector);
        }
        let regs = ktcu::config_recv(0, rbuf + (1u64 << 6), 6, 6, Some(TMSIDE_RPLEP));
        let w3 = ktcu::write_ep_remote(tcu, self.tile_id, TMSIDE_REP, regs, self.key);
        proof {
            assert(w1 is Ok && w2 is Ok && w3 is Ok);
            let t = self.tile_id as int;
            tcu.lemma_reg_pos(t, KPEX_SEP as int, 0);
            tcu.lemma_reg_pos(t, KPEX_SEP as int, 1);
            tcu.lemma_reg_pos(t, KPEX_SEP as int, 2);
            tcu.lemma_reg_pos(t, KPEX_REP as int, 0);
            tcu.lemma_reg_pos(t, KPEX_REP as int, 1);
            tcu.lemma_reg_pos(t, KPEX_REP as int, 2);
            tcu.lemma_reg_pos(t, TMSIDE_REP as int, 0);
            tcu.lemma_reg_pos(t, TMSIDE_REP as int, 1);
            tcu.lemma_reg_pos(t, TMSIDE_REP as int, 2);
            assert forall|t2: int, e2: int, i2: int|
                0 <= t2 < old(tcu).spec_tiles() && 0 <= e2 < AVAIL_EPS && 0 <= i2 < 3 && !(t2 == t
                    && (e2 == KPEX_SEP as int || e2 == KPEX_REP as int || e2
                    == TMSIDE_REP as int)) implies #[trigger] tcu.ep_reg(t2, e2, i2) == old(
                tcu,
            ).ep_reg(t2, e2, i2) by {
                tcu.lemma_reg_pos(t2, e2, i2);
                crate::tcu::lemma_reg_pos_injective(t2, e2, i2, t, KPEX_SEP as int);
                crate::tcu::lemma_reg_pos_injective(t2, e2, i2, t, KPEX_REP as int);
                crate::tcu::lemma_reg_pos_injective(t2, e2, i2, t, TMSIDE_REP as int);
            }
        }
    }

    /// Index of the tile's object in the capability store.
    pub fn tile(&self) -> (r: usize)
        ensures
            r == self.tile,
    {
        self.tile
    }

    /// The tile this multiplexer drives.
    pub fn tile_id(&self) -> (r: TileId)
        ensures
            r == self.tile_id,
    {
        self.tile_id
    }

    /// Whether any activity is resident.
    pub fn has_activities(&self) -> (r: bool)
        ensures
            r == (self.acts@.len() > 0),
    {
        self.acts.len() > 0
    }

    /// The activity word endpoint registers of this tile carry: on a
    /// shared tile the real identifier, otherwise the invalid word, since
    /// the unit checks activities only where several share the tile.
    fn ep_activity_id(&self, act: ActId) -> (r: u64)
        requires
            act < 0x10000,
        ensures
            r == spec_ep_act(self.shared, act),
            r < 0x10000,
    {
        if self.shared {
            act as u64
        } else {
            INVAL_ID
        }
    }

    /// Registers a resident activity and counts it on the tile object.
    pub fn add_activity(&mut self, act: ActId, table: &mut CapTable)
        requires
            old(self).tile < old(table).objs.tiles@.len(),
            old(table).objs.tiles@[old(self).tile as int].vpes < u64::MAX,
        ensures
            final(self).acts@ == old(self).acts@.push(act),
            final(self).tile == old(self).tile,
            final(self).tile_id == old(self).tile_id,
            final(self).queue == old(self).queue,
            final(self).eps == old(self).eps,
            final(self).key == old(self).key,
            final(self).pmp == old(self).pmp,
            final(table).objs.tiles@ == old(table).objs.tiles@.update(
                old(self).tile as int,
                TileObject {
                    vpes: (old(table).objs.tiles@[old(self).tile as int].vpes + 1) as u64,
                    ..old(table).objs.tiles@[old(self).tile as int]
                },
            ),
            final(table).slots == old(table).slots,
            final(table).acts == old(table).acts,
            final(table).objs.kmems == old(table).objs.kmems,
    {
        self.acts.push(act);
        let mut to = table.objs.tiles[self.tile];
        to.vpes = to.vpes + 1;
        table.objs.tiles[self.tile] = to;
    }

    /// Removes a resident activity and uncounts it on the tile object.
    pub fn rem_activity(&mut self, act: ActId, table: &mut CapTable)
        requires
            old(self).acts@.len() > 0,
            old(self).tile < old(table).objs.tiles@.len(),
            old(table).objs.tiles@[old(self).tile as int].vpes > 0,
        ensures
            final(self).tile == old(self).tile,
            final(self).tile_id == old(self).tile_id,
            final(self).queue == old(self).queue,
            final(self).eps == old(self).eps,
            final(table).objs.tiles@ == old(table).objs.tiles@.update(
                old(self).tile as int,
                TileObject {
                    vpes: (old(table).objs.tiles@[old(self).tile as int].vpes - 1) as u64,
                    ..old(table).objs.tiles@[old(self).tile as int]
                },
            ),
            final(table).slots == old(table).slots,
            final(table).acts == old(table).acts,
            final(table).objs.kmems == old(table).objs.kmems,
            final(self).acts@ == seq_without(old(self).acts@, act),
    {
        let mut kept: Vec<ActId> = Vec::new();
        let mut i: usize = 0;
        while i < self.acts.len()
            invariant
                i <= self.acts@.len(),
                kept@ == seq_without(self.acts@.subrange(0, i as int), act),
            decreases self.acts@.len() - i,
        {
            let a = self.acts[i];
            proof {
                assert(self.acts@.subrange(0, i as int + 1).drop_last() =~= self.acts@.subrange(
                    0,
                    i as int,
                ));
                assert(self.acts@.subrange(0, i as int + 1).last() == a);
            }
            if a != act {
                kept.push(a);
            }
            i += 1;
        }
        proof {
            assert(self.acts@.subrange(0, self.acts@.len() as int) =~= self.acts@);
        }
        self.acts = kept;
        let mut to = table.objs.tiles[self.tile];
        to.vpes = to.vpes - 1;
        table.objs.tiles[self.tile] = to;
    }

    /// Store index of a PMP endpoint binding.
    pub fn pmp_ep(&self, ep: EpId) -> (r: usize)
        requires
            ep < self.pmp@.len(),
        ensures
            r == self.pmp@[ep as int],
    {
        self.pmp[ep]
    }

    /// First-fit search for a free run of user endpoints.
    pub fn find_eps(&self, count: usize) -> (r: Result<EpId, Error>)
        requires
            count >= 1,
            self.eps.first_user <= self.eps.bits@.len(),
        ensures
            match r {
                Result::Ok(start) => {
                    &&& start >= self.eps.first_user
                    &&& start + count <= self.eps.bits@.len()
                    &&& range_clear(self.eps.bits@, start as int, count as int)
                    &&& forall|s: int|
                        self.eps.first_user <= s < start ==> !range_clear(
                            self.eps.bits@,
                            s,
                            count as int,
                        )
                },
                Result::Err(e) => {
                    &&& e.code == Code::NoSpace
                    &&& forall|s: int|
                        self.eps.first_user <= s && s + count <= self.eps.bits@.len()
                            ==> !range_clear(self.eps.bits@, s, count as int)
                },
            },
    {
        self.eps.find_eps(count)
    }

    /// Whether a run of endpoints is entirely free.
    pub fn eps_free(&self, start: EpId, count: usize) -> (r: bool)
        requires
            start + count <= self.eps.bits@.len(),
        ensures
            r == range_clear(self.eps.bits@, start as int, count as int),
    {
        self.eps.eps_free(start, count)
    }

    /// Claims a free run of endpoints; claiming an occupied bit would be
    /// a kernel bug and is excluded by contract.
    pub fn alloc_eps(&mut self, start: EpId, count: usize)
        requires
            start + count <= old(self).eps.bits@.len(),
            range_clear(old(self).eps.bits@, start as int, count as int),
        ensures
            final(self).eps.bits@ == with_range(
                old(self).eps.bits@,
                start as int,
                count as int,
                true,
            ),
            final(self).eps.first_user == old(self).eps.first_user,
            final(self).acts == old(self).acts,
            final(self).queue == old(self).queue,
            final(self).tile == old(self).tile,
            final(self).tile_id == old(self).tile_id,
            final(self).key == old(self).key,
            final(self).pmp == old(self).pmp,
    {
        self.eps.alloc_eps(start, count);
    }

    /// Returns a fully allocated run of endpoints; freeing a clear bit
    /// would be a kernel bug and is excluded by contract.
    pub fn free_eps(&mut self, start: EpId, count: usize)
        requires
            start + count <= old(self).eps.bits@.len(),
            range_set(old(self).eps.bits@, start as int, count as int),
        ensures
            final(self).eps.bits@ == with_range(
                old(self).eps.bits@,
                start as int,
                count as int,
                false,
            ),
            final(self).eps.first_user == old(self).eps.first_user,
            final(self).acts == old(self).acts,
            final(self).queue == old(self).queue,
            final(self).tile == old(self).tile,
            final(self).tile_id == old(self).tile_id,
            final(self).key == old(self).key,
            final(self).pmp == old(self).pmp,
    {
        self.eps.free_eps(start, count);
    }

    /// Programs a send endpoint for a send gate; the targeted receive
    /// gate must already be activated, or there is nothing to point the
    /// endpoint at.
    pub fn config_snd_ep(
        &mut self,
        tcu: &mut Tcu,
        ep: EpId,
        act: ActId,
        sg: usize,
        table: &CapTable,
    ) -> (r: Result<(), Error>)
        requires
            old(tcu).wf(),
            old(self).tile_id < old(tcu).spec_tiles(),
            old(self).key == old(tcu).keys@[old(self).tile_id as int],
            ep < AVAIL_EPS,
            sg < table.objs.sgates@.len(),
            table.objs.sgates@[sg as int].rgate < table.objs.rgates@.len(),
            table.objs.rgates@[table.objs.sgates@[sg as int].rgate as int].spec_activated(),
            act < 0x10000,
            table.objs.sgates@[sg as int].label < 0x1_0000_0000,
            table.objs.sgates@[sg as int].credits < 0x400,
            table.objs.rgates@[table.objs.sgates@[sg as int].rgate as int].msg_order < 0x40,
            table.objs.rgates@[table.objs.sgates@[sg as int].rgate as int].loc->Some_0.0 < 0x10000,
            table.objs.rgates@[table.objs.sgates@[sg as int].rgate as int].loc->Some_0.1 < 0x10000,
        ensures
            final(tcu).wf(),
            final(tcu).spec_tiles() == old(tcu).spec_tiles(),
            final(tcu).keys == old(tcu).keys,
            *final(self) == *old(self),
            r is Ok,
            ({
                let t = old(self).tile_id as int;
                let sgo = table.objs.sgates@[sg as int];
                let rgo = table.objs.rgates@[sgo.rgate as int];
                let r0 = final(tcu).ep_reg(t, ep as int, 0);
                let r1 = final(tcu).ep_reg(t, ep as int, 1);
                &&& ep_kind(r0) == EP_KIND_SEND
                &&& crate::tcu::ep_msg_order(r0) == rgo.msg_order
                &&& snd_cur(r0) == sgo.credits
                &&& snd_max(r0) == sgo.credits
                &&& crate::tcu::snd_dst_ep(r0) == rgo.loc->Some_0.1 as u64
                &&& crate::tcu::snd_act(r1) == spec_ep_act(old(self).shared, act)
                &&& crate::tcu::snd_tgt_tile(r1) == rgo.loc->Some_0.0 as u64
                &&& crate::tcu::snd_label(r1) == sgo.label
                &&& final(tcu).ep_reg(t, ep as int, 2) == 0
            }),
    {
        let sgo = table.objs.sgates[sg];
        let rgo = table.objs.rgates[sgo.rgate];
        let loc = rgo.loc.unwrap();
        let act2 = self.ep_activity_id(act);
        let regs = ktcu::config_send(
            act2 as usize,
            sgo.label,
            loc.0,
            loc.1,
            rgo.msg_order,
            sgo.credits,
        );
        let w = ktcu::write_ep_remote(tcu, self.tile_id, ep, regs, self.key);
        proof {
            assert(w is Ok);
            tcu.lemma_reg_pos(self.tile_id as int, ep as int, 0);
            tcu.lemma_reg_pos(self.tile_id as int, ep as int, 1);
            tcu.lemma_reg_pos(self.tile_id as int, ep as int, 2);
        }
        Ok(())
    }

    /// Programs a receive endpoint for a receive gate and signals the
    /// gate's activation event.
    pub fn config_rcv_ep(
        &mut self,
        tcu: &mut Tcu,
        ep: EpId,
        act: ActId,
        reply_eps: Option<EpId>,
        rg: usize,
        table: &CapTable,
        thread_mng: &mut ThreadMng,
    ) -> (r: Result<(), Error>)
        requires
            old(tcu).wf(),
            old(self).tile_id < old(tcu).spec_tiles(),
            old(self).key == old(tcu).keys@[old(self).tile_id as int],
            ep < AVAIL_EPS,
            rg < table.objs.rgates@.len(),
            act < 0x10000,
            table.objs.rgates@[rg as int].order < 0x40,
            table.objs.rgates@[rg as int].msg_order < 0x40,
            match reply_eps {
                Option::Some(e) => e < 0x10000,
                Option::None => true,
            },
        ensures
            final(tcu).wf(),
            final(tcu).spec_tiles() == old(tcu).spec_tiles(),
            final(tcu).keys == old(tcu).keys,
            *final(self) == *old(self),
            r is Ok,
            ({
                let t = old(self).tile_id as int;
                let rgo = table.objs.rgates@[rg as int];
                let r0 = final(tcu).ep_reg(t, ep as int, 0);
                &&& ep_kind(r0) == EP_KIND_RECV
                &&& crate::tcu::ep_msg_order(r0) == rgo.msg_order
                &&& crate::tcu::rcv_act(r0) == spec_ep_act(old(self).shared, act)
                &&& crate::tcu::rcv_buf_ord(r0) == rgo.order
                &&& crate::tcu::rcv_reply_eps(r0) == (match reply_eps {
                    Option::Some(e) => e as u64,
                    Option::None => 0xFFFF,
                })
                &&& final(tcu).ep_reg(t, ep as int, 1) == rgo.addr
                &&& rcv_unread(final(tcu).ep_reg(t, ep as int, 2)) == 0
                &&& crate::tcu::rcv_occupied(final(tcu).ep_reg(t, ep as int, 2)) == 0
            }),
            final(thread_mng).notified@.len() == old(thread_mng).notified@.len() + 1,
            final(thread_mng).notified@.last().0 == table.objs.rgates@[rg as int].event,
            forall|i: int|
                0 <= i < old(thread_mng).notified@.len() ==> final(thread_mng).notified@[i] == old(
                    thread_mng,
                ).notified@[i],
    {
        let rgo = table.objs.rgates[rg];
        let act2 = self.ep_activity_id(act);
        let regs = ktcu::config_recv(act2 as usize, rgo.addr, rgo.order, rgo.msg_order, reply_eps);
        let w = ktcu::write_ep_remote(tcu, self.tile_id, ep, regs, self.key);
        proof {
            assert(w is Ok);
            tcu.lemma_reg_pos(self.tile_id as int, ep as int, 0);
            tcu.lemma_reg_pos(self.tile_id as int, ep as int, 1);
            tcu.lemma_reg_pos(self.tile_id as int, ep as int, 2);
        }
        thread_mng.notify(rgo.event, Vec::new());
        Ok(())
    }

    /// Programs a memory endpoint for a memory gate.
    pub fn config_mem_ep(
        &mut self,
        tcu: &mut Tcu,
        ep: EpId,
        act: ActId,
        mg: usize,
        tile_id: TileId,
        table: &CapTable,
    ) -> (r: Result<(), Error>)
        requires
            old(tcu).wf(),
            old(self).tile_id < old(tcu).spec_tiles(),
            old(self).key == old(tcu).keys@[old(self).tile_id as int],
            ep < AVAIL_EPS,
            mg < table.objs.mgates@.len(),
            act < 0x10000,
            tile_id < 0x10000,
            table.objs.mgates@[mg as int].perms < 0x10,
        ensures
            final(tcu).wf(),
            final(tcu).spec_tiles() == old(tcu).spec_tiles(),
            final(tcu).keys == old(tcu).keys,
            *final(self) == *old(self),
            r is Ok,
            ({
                let t = old(self).tile_id as int;
                let mgo = table.objs.mgates@[mg as int];
                let r0 = final(tcu).ep_reg(t, ep as int, 0);
                &&& ep_kind(r0) == crate::tcu::EP_KIND_MEM
                &&& crate::tcu::mem_perms(r0) == mgo.perms
                &&& crate::tcu::mem_act(r0) == spec_ep_act(old(self).shared, act)
                &&& crate::tcu::mem_tile(r0) == tile_id as u64
                &&& final(tcu).ep_reg(t, ep as int, 1) == mgo.offset
                &&& final(tcu).ep_reg(t, ep as int, 2) == mgo.size
            }),
    {
        let mgo = table.objs.mgates[mg];
        let act2 = self.ep_activity_id(act);
        let regs = ktcu::config_mem(act2 as usize, tile_id, mgo.offset, mgo.size, mgo.perms);
        let w = ktcu::write_ep_remote(tcu, self.tile_id, ep, regs, self.key);
        proof {
            assert(w is Ok);
            tcu.lemma_reg_pos(self.tile_id as int, ep as int, 0);
            tcu.lemma_reg_pos(self.tile_id as int, ep as int, 1);
            tcu.lemma_reg_pos(self.tile_id as int, ep as int, 2);
        }
        Ok(())
    }

    /// Submits a side-call unless the target activity already reached its
    /// terminal state; then nothing is sent and `ActivityGone` comes
    /// back, which teardown paths treat as benign.
    pub fn send_sidecall(
        &mut self,
        table: &CapTable,
        act: Option<ActId>,
        msg: Vec<u64>,
    ) -> (r: Result<Event, Error>)
        requires
            old(self).queue.next_id < u64::MAX,
            old(self).queue.inv(),
        ensures
            final(self).queue.inv(),
            final(self).tile == old(self).tile,
            final(self).tile_id == old(self).tile_id,
            final(self).key == old(self).key,
            final(self).acts == old(self).acts,
            final(self).eps == old(self).eps,
            final(self).pmp == old(self).pmp,
            match r {
                Result::Ok(ev) => {
                    &&& match act {
                        Option::Some(a) => a < table.acts@.len() && table.acts@[a as int].alive,
                        Option::None => true,
                    }
                    &&& submitted_msgs(final(self).queue) == submitted_msgs(
                        old(self).queue,
                    ).push((ev, msg@))
                    &&& ev == old(self).queue.next_id
                },
                Result::Err(e) => {
                    &&& e.code == Code::ActivityGone
                    &&& act is Some
                    &&& !(act->Some_0 < table.acts@.len() && table.acts@[act->Some_0 as int].alive)
                    &&& final(self).queue == old(self).queue
                },
            },
    {
        if let Some(a) = act {
            let alive = a < table.acts.len() && table.acts[a].alive;
            if !alive {
                return Err(Error::new(Code::ActivityGone));
            }
        }
        let ghost q0 = self.queue;
        let r = self.queue.send(msg);
        let ev = match r {
            Ok(ev) => ev,
            Err(_) => {
                proof {
                    assert(false);
                }
                0
            },
        };
        proof {
            if q0.state == QState::Idle {
                assert(q0.queue@.len() == 0);
            }
            assert(submitted(self.queue) =~= submitted(q0).push(Entry { id: ev, msg }));
            assert(submitted_msgs(self.queue) =~= submitted_msgs(q0).push((ev, msg@)));
        }
        Ok(ev)
    }

    /// Invalidates a hardware endpoint.  When unread messages remain and
    /// `notify` is set, exactly one `RemMsgs` side-call with the unread
    /// mask goes to the resident stub; without `notify`, none does,
    /// whatever the mask.
    pub fn invalidate_ep(
        &mut self,
        tcu: &mut Tcu,
        table: &CapTable,
        act: ActId,
        ep: EpId,
        force: bool,
        notify: bool,
    ) -> (r: Result<(), Error>)
        requires
            old(tcu).wf(),
            old(self).tile_id < old(tcu).spec_tiles(),
            old(self).key == old(tcu).keys@[old(self).tile_id as int],
            ep < AVAIL_EPS,
            old(self).queue.next_id < u64::MAX,
            old(self).queue.inv(),
        ensures
            final(self).queue.inv(),
            final(tcu).wf(),
            final(tcu).spec_tiles() == old(tcu).spec_tiles(),
            final(tcu).keys == old(tcu).keys,
            final(self).tile == old(self).tile,
            final(self).tile_id == old(self).tile_id,
            final(self).key == old(self).key,
            final(self).eps == old(self).eps,
            ({
                let t = old(self).tile_id as int;
                let r0 = old(tcu).ep_reg(t, ep as int, 0);
                let r2 = old(tcu).ep_reg(t, ep as int, 2);
                let unread = if ep_kind(r0) == EP_KIND_RECV {
                    rcv_unread(r2)
                } else {
                    0
                };
                let refused = ep_kind(r0) == EP_KIND_SEND && !force && snd_cur(r0) != snd_max(r0);
                &&& (refused ==> r is Err && r->Err_0.code == Code::NoCredits && final(self).queue
                    == old(self).queue)
                &&& (!refused && unread != 0 && notify ==> {
                    ||| (r is Ok && submitted_msgs(final(self).queue) == submitted_msgs(
                        old(self).queue,
                    ).push(
                        (
                            old(self).queue.next_id,
                            spec_encode(Sidecall::RemMsgs { act: act as u64, unread_mask: unread }),
                        ),
                    ))
                    ||| (r is Err && r->Err_0.code == Code::ActivityGone && final(self).queue
                        == old(self).queue)
                })
                &&& (!refused && !(unread != 0 && notify) ==> r is Ok && final(self).queue == old(
                    self,
                ).queue)
                &&& (!refused && act < table.acts@.len() && table.acts@[act as int].alive
                    ==> r is Ok)
                &&& (!refused ==> ep_kind(final(tcu).ep_reg(t, ep as int, 0)) == 0)
            }),
    {
        let unread = match ktcu::invalidate_ep_remote(tcu, self.tile_id, ep, force, self.key) {
            Ok(v) => v,
            Err(e) => {
                return Err(e);
            },
        };
        proof {
            tcu.lemma_reg_pos(self.tile_id as int, ep as int, 0);
            tcu.lemma_reg_pos(self.tile_id as int, ep as int, 1);
            tcu.lemma_reg_pos(self.tile_id as int, ep as int, 2);
            assert(crate::tcu::ep_kind(0) == 0) by (bit_vector);
        }
        if unread != 0 && notify {
            let msg = encode(&Sidecall::RemMsgs { act: act as u64, unread_mask: unread });
            match self.send_sidecall(table, Some(act), msg) {
                Ok(_ev) => Ok(()),
                Err(e) => Err(e),
            }
        } else {
            Ok(())
        }
    }

    /// Invalidates every reply endpoint at a receive gate's tile that
    /// still targets this tile's given send endpoint; prevents stale
    /// reply delivery after a send gate's revocation.
    pub fn invalidate_reply_eps(
        &self,
        tcu: &mut Tcu,
        recv_tile: TileId,
        recv_ep: EpId,
        send_ep: EpId,
        recv_key: u64,
    ) -> (r: Result<(), Error>)
        requires
            old(tcu).wf(),
            recv_tile < old(tcu).spec_tiles(),
            recv_ep < AVAIL_EPS,
            recv_key == old(tcu).keys@[recv_tile as int],
        ensures
            final(tcu).wf(),
            final(tcu).spec_tiles() == old(tcu).spec_tiles(),
            final(tcu).keys == old(tcu).keys,
            final(tcu).features == old(tcu).features,
            r is Ok,
            final(tcu).ep_regs@ == crate::ktcu::regs_after_reply_inv(
                old(tcu).ep_regs@,
                recv_tile as int,
                recv_ep as int,
                self.tile_id as int,
                send_ep as int,
            ),
            final(tcu).ep_keys@ == crate::ktcu::keys_after_reply_inv(
                old(tcu).ep_keys@,
                old(tcu).ep_regs@,
                recv_tile as int,
                recv_ep as int,
                self.tile_id as int,
                send_ep as int,
            ),
    {
        ktcu::inv_reply_remote(tcu, recv_tile, recv_ep, self.tile_id, send_ep, recv_key)
    }

    /// Tells the resident stub about an endpoint invalidation that the
    /// owner did not issue itself.
    pub fn notify_invalidate(&mut self, table: &CapTable, act: ActId, ep: EpId) -> (r: Result<
        Event,
        Error,
    >)
        requires
            old(self).queue.next_id < u64::MAX,
            old(self).queue.inv(),
        ensures
            final(self).queue.inv(),
            final(self).tile_id == old(self).tile_id,
            match r {
                Result::Ok(ev) => submitted_msgs(final(self).queue) == submitted_msgs(
                    old(self).queue,
                ).push((ev, spec_encode(Sidecall::EpInval { act: act as u64, ep: ep as u64 }))),
                Result::Err(e) => e.code == Code::ActivityGone && final(self).queue == old(
                    self,
                ).queue,
            },
    {
        let msg = encode(&Sidecall::EpInval { act: act as u64, ep: ep as u64 });
        self.send_sidecall(table, Some(act), msg)
    }

    /// Submits a request side-call; the reply is picked up later with
    /// `receive_async` once the embedder has driven it in.
    fn send_receive_sidecall_async(
        &mut self,
        table: &CapTable,
        act: Option<ActId>,
        call: Sidecall,
    ) -> (r: Result<Event, Error>)
        requires
            old(self).queue.next_id < u64::MAX,
            old(self).queue.inv(),
        ensures
            final(self).queue.inv(),
            final(self).tile_id == old(self).tile_id,
            final(self).tile == old(self).tile,
            final(self).key == old(self).key,
            final(self).acts == old(self).acts,
            final(self).eps == old(self).eps,
            match r {
                Result::Ok(ev) => submitted_msgs(final(self).queue) == submitted_msgs(
                    old(self).queue,
                ).push((ev, spec_encode(call))),
                Result::Err(e) => e.code == Code::ActivityGone && final(self).queue == old(
                    self,
                ).queue,
            },
    {
        let msg = encode(&call);
        self.send_sidecall(table, act, msg)
    }

    /// Introduces an activity to the resident stub.
    pub fn activity_init_async(
        &mut self,
        table: &CapTable,
        act: ActId,
        time_quota: u64,
        pt_quota: u64,
        eps_start: EpId,
    ) -> (r: Result<Event, Error>)
        requires
            old(self).queue.next_id < u64::MAX,
            old(self).queue.inv(),
        ensures
            final(self).queue.inv(),
            match r {
                Result::Ok(ev) => submitted_msgs(final(self).queue) == submitted_msgs(
                    old(self).queue,
                ).push(
                    (
                        ev,
                        spec_encode(
                            Sidecall::ActInit {
                                act: act as u64,
                                time_quota,
                                pt_quota,
                                eps_start: eps_start as u64,
                            },
                        ),
                    ),
                ),
                Result::Err(e) => e.code == Code::ActivityGone,
            },
    {
        self.send_receive_sidecall_async(
            table,
            None,
            Sidecall::ActInit {
                act: act as u64,
                time_quota,
                pt_quota,
                eps_start: eps_start as u64,
            },
        )
    }

    /// Starts or stops an activity on the tile.
    pub fn activity_ctrl_async(&mut self, table: &CapTable, act: ActId, ctrl: u64) -> (r: Result<
        Event,
        Error,
    >)
        requires
            old(self).queue.next_id < u64::MAX,
            old(self).queue.inv(),
        ensures
            final(self).queue.inv(),
            match r {
                Result::Ok(ev) => submitted_msgs(final(self).queue) == submitted_msgs(
                    old(self).queue,
                ).push((ev, spec_encode(Sidecall::ActivityCtrl { act: act as u64, ctrl }))),
                Result::Err(e) => e.code == Code::ActivityGone,
            },
    {
        self.send_receive_sidecall_async(
            table,
            None,
            Sidecall::ActivityCtrl { act: act as u64, ctrl },
        )
    }

    /// Splits new time and page-table quotas off the given parents.
    pub fn derive_quota_async(
        &mut self,
        table: &CapTable,
        parent_time: u64,
        parent_pts: u64,
        time: u64,
        pts: u64,
    ) -> (r: Result<Event, Error>)
        requires
            old(self).queue.next_id < u64::MAX,
            old(self).queue.inv(),
        ensures
            final(self).queue.inv(),
            match r {
                Result::Ok(ev) => submitted_msgs(final(self).queue) == submitted_msgs(
                    old(self).queue,
                ).push(
                    (ev, spec_encode(Sidecall::DeriveQuota { parent_time, parent_pts, time, pts })),
                ),
                Result::Err(e) => e.code == Code::ActivityGone,
            },
    {
        self.send_receive_sidecall_async(
            table,
            None,
            Sidecall::DeriveQuota { parent_time, parent_pts, time, pts },
        )
    }

    /// Reads two quota meters of the resident stub.
    pub fn get_quota_async(&mut self, table: &CapTable, time: u64, pts: u64) -> (r: Result<
        Event,
        Error,
    >)
        requires
            old(self).queue.next_id < u64::MAX,
            old(self).queue.inv(),
        ensures
            final(self).queue.inv(),
            match r {
                Result::Ok(ev) => submitted_msgs(final(self).queue) == submitted_msgs(
                    old(self).queue,
                ).push((ev, spec_encode(Sidecall::GetQuota { time, pts }))),
                Result::Err(e) => e.code == Code::ActivityGone,
            },
    {
        self.send_receive_sidecall_async(table, None, Sidecall::GetQuota { time, pts })
    }

    /// Overwrites a quota of the resident stub.
    pub fn set_quota_async(&mut self, table: &CapTable, id: u64, time: u64, pts: u64) -> (r:
        Result<Event, Error>)
        requires
            old(self).queue.next_id < u64::MAX,
            old(self).queue.inv(),
        ensures
            final(self).queue.inv(),
            match r {
                Result::Ok(ev) => submitted_msgs(final(self).queue) == submitted_msgs(
                    old(self).queue,
                ).push((ev, spec_encode(Sidecall::SetQuota { id, time, pts }))),
                Result::Err(e) => e.code == Code::ActivityGone,
            },
    {
        self.send_receive_sidecall_async(table, None, Sidecall::SetQuota { id, time, pts })
    }

    /// Drops two quotas of the resident stub.
    pub fn remove_quotas_async(&mut self, table: &CapTable, time: u64, pts: u64) -> (r: Result<
        Event,
        Error,
    >)
        requires
            old(self).queue.next_id < u64::MAX,
            old(self).queue.inv(),
        ensures
            final(self).queue.inv(),
            match r {
                Result::Ok(ev) => submitted_msgs(final(self).queue) == submitted_msgs(
                    old(self).queue,
                ).push((ev, spec_encode(Sidecall::RemoveQuotas { time, pts }))),
                Result::Err(e) => e.code == Code::ActivityGone,
            },
    {
        self.send_receive_sidecall_async(table, None, Sidecall::RemoveQuotas { time, pts })
    }

    /// Asks the stub to map a page range for an activity.
    pub fn map_async(
        &mut self,
        table: &CapTable,
        act: ActId,
        virt: Goff,
        global: Goff,
        pages: u64,
        perm: u64,
    ) -> (r: Result<Event, Error>)
        requires
            old(self).queue.next_id < u64::MAX,
            old(self).queue.inv(),
        ensures
            final(self).queue.inv(),
            match r {
                Result::Ok(ev) => submitted_msgs(final(self).queue) == submitted_msgs(
                    old(self).queue,
                ).push(
                    (
                        ev,
                        spec_encode(
                            Sidecall::MapRange { act: act as u64, virt, global, pages, perm },
                        ),
                    ),
                ),
                Result::Err(e) => e.code == Code::ActivityGone && final(self).queue == old(
                    self,
                ).queue,
            },
    {
        self.send_receive_sidecall_async(
            table,
            Some(act),
            Sidecall::MapRange { act: act as u64, virt, global, pages, perm },
        )
    }

    /// Asks the stub to unmap a page range: a map of the null address
    /// with no permissions.
    pub fn unmap_async(&mut self, table: &CapTable, act: ActId, virt: Goff, pages: u64) -> (r:
        Result<Event, Error>)
        requires
            old(self).queue.next_id < u64::MAX,
            old(self).queue.inv(),
        ensures
            final(self).queue.inv(),
            match r {
                Result::Ok(ev) => submitted_msgs(final(self).queue) == submitted_msgs(
                    old(self).queue,
                ).push(
                    (
                        ev,
                        spec_encode(
                            Sidecall::MapRange {
                                act: act as u64,
                                virt,
                                global: 0,
                                pages,
                                perm: 0,
                            },
                        ),
                    ),
                ),
                Result::Err(e) => e.code == Code::ActivityGone && final(self).queue == old(
                    self,
                ).queue,
            },
    {
        self.map_async(table, act, virt, 0, pages, 0)
    }

    /// Asks the stub to translate a virtual address of an activity.
    pub fn translate_async(&mut self, table: &CapTable, act: ActId, virt: Goff, perm: u64) -> (r:
        Result<Event, Error>)
        requires
            old(self).queue.next_id < u64::MAX,
            old(self).queue.inv(),
        ensures
            final(self).queue.inv(),
            match r {
                Result::Ok(ev) => submitted_msgs(final(self).queue) == submitted_msgs(
                    old(self).queue,
                ).push((ev, spec_encode(Sidecall::Translate { act: act as u64, virt, perm }))),
                Result::Err(e) => e.code == Code::ActivityGone && final(self).queue == old(
                    self,
                ).queue,
            },
    {
        self.send_receive_sidecall_async(
            table,
            Some(act),
            Sidecall::Translate { act: act as u64, virt, perm },
        )
    }

    /// The page-aligned global address a translate reply carries: the
    /// stub answers with the page's address and the in-page bits are
    /// discarded.
    pub fn translate_response(val1: u64) -> (r: Goff)
        ensures
            r == val1 & !0xFFFu64,
    {
        val1 & !0xFFFu64
    }

    /// Unpacks a get-quota reply: each word carries the quota's total in
    /// its upper half and the remainder in its lower half, and the quota
    /// identifiers are qualified with this tile.  Returns the time and
    /// page-table quotas as `(identifier, total, remaining)` triples.
    pub fn get_quota_response(&self, time: u64, pts: u64, val1: u64, val2: u64) -> (r: (
        (u64, u64, u64),
        (u64, u64, u64),
    ))
        requires
            self.tile_id < 0x10000,
            time < 0x100,
            pts < 0x100,
        ensures
            r.0.0 == ((self.tile_id as u64) << 8) | time,
            r.0.1 == val1 >> 32,
            r.0.2 == val1 & 0xFFFF_FFFF,
            r.1.0 == ((self.tile_id as u64) << 8) | pts,
            r.1.1 == val2 >> 32,
            r.1.2 == val2 & 0xFFFF_FFFF,
    {
        let tile_bits = (self.tile_id as u64) << 8;
        (
            (tile_bits | time, val1 >> 32, val1 & 0xFFFF_FFFF),
            (tile_bits | pts, val2 >> 32, val2 & 0xFFFF_FFFF),
        )
    }

    /// Claims the reply an embedder delivered for a request side-call and
    /// parses it into its two payload words or the error it names.
    pub fn receive_async(thread_mng: &mut ThreadMng, event: Event) -> (r: Result<
        (u64, u64),
        Error,
    >)
        ensures
            match r {
                Result::Ok(vals) => exists|i: int|
                    {
                        &&& 0 <= i < old(thread_mng).notified@.len()
                        &&& #[trigger] old(thread_mng).notified@[i].0 == event
                        &&& old(thread_mng).notified@[i].1@.len() == 3
                        &&& Code::spec_from_val(old(thread_mng).notified@[i].1@[0])
                            == Code::Success
                        &&& vals.0 == old(thread_mng).notified@[i].1@[1]
                        &&& vals.1 == old(thread_mng).notified@[i].1@[2]
                        &&& final(thread_mng).notified@ == old(thread_mng).notified@.remove(i)
                    },
                Result::Err(e) => ((forall|i: int|
                    0 <= i < old(thread_mng).notified@.len() ==> (#[trigger] old(
                        thread_mng,
                    ).notified@[i]).0 != event) && e.code == Code::RecvGone && *final(thread_mng)
                    == *old(thread_mng)) || (exists|i: int|
                    {
                        &&& 0 <= i < old(thread_mng).notified@.len()
                        &&& #[trigger] old(thread_mng).notified@[i].0 == event
                        &&& final(thread_mng).notified@ == old(thread_mng).notified@.remove(i)
                        &&& (old(thread_mng).notified@[i].1@.len() != 3 ==> e.code
                            == Code::InvArgs)
                        &&& (old(thread_mng).notified@[i].1@.len() == 3 ==> e.code
                            == Code::spec_from_val(old(thread_mng).notified@[i].1@[0]) && e.code
                            != Code::Success)
                    }),
            },
    {
        match thread_mng.fetch(event) {
            Some(reply) => crate::sidecalls::parse_reply(&reply),
            None => Err(Error::new(Code::RecvGone)),
        }
    }

    /// Handles a call from the resident stub: an exit call marks the
    /// named activity for teardown, anything else is rejected; either way
    /// the stub gets a reply.
    pub fn handle_call_async(&self, msg: &Vec<u64>) -> (r: (Vec<u64>, Option<(u64, u64)>))
        ensures
            ({
                let w = msg@;
                &&& (w.len() == 3 && w[0] == OP_EXIT ==> r.1 == Option::Some((w[1], w[2]))
                    && r.0@ == crate::sidecalls::spec_encode_reply(Code::Success, 0, 0))
                &&& (!(w.len() == 3 && w[0] == OP_EXIT) ==> r.1 is None && r.0@
                    == crate::sidecalls::spec_encode_reply(Code::InvArgs, 0, 0))
            }),
    {
        if msg.len() == 3 && msg[0] == OP_EXIT {
            let act = msg[1];
            let status = msg[2];
            (crate::sidecalls::encode_reply(Code::Success, 0, 0), Some((act, status)))
        } else {
            (crate::sidecalls::encode_reply(Code::InvArgs, 0, 0), None)
        }
    }

    /// Asks the stub to clear its statistics; fire-and-forget.
    pub fn reset_stats(&mut self, table: &CapTable) -> (r: Result<Event, Error>)
        requires
            old(self).queue.next_id < u64::MAX,
            old(self).queue.inv(),
        ensures
            final(self).queue.inv(),
            final(self).tile_id == old(self).tile_id,
            r is Ok,
            submitted_msgs(final(self).queue) == submitted_msgs(old(self).queue).push(
                (r->Ok_0, spec_encode(Sidecall::ResetStats)),
            ),
    {
        let msg = encode(&Sidecall::ResetStats);
        self.send_sidecall(table, None, msg)
    }
}

} // verus!
