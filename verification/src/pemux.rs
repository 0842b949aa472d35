//! The per-tile multiplexer under its older name: PEMux speaks of PEs
//! and VPEs where TileMux speaks of tiles and activities.  Both names
//! survive in the kernel's interfaces, so this facade forwards to the
//! tile multiplexer and adds the memory-base bookkeeping the older
//! interface carried.

use vstd::prelude::*;

use crate::caps::CapTable;
use crate::epalloc::{range_clear, range_set, with_range};
use crate::err::Error;
use crate::kobj::{ActId, EpId, Goff, TileId};
use crate::sendqueue::{Event, ThreadMng};
use crate::sidecalls::{spec_encode, Sidecall};
use crate::tcu::Tcu;
use crate::tilemux::{seq_without, spec_ep_act, submitted_msgs, TileMux};

verus! {

/// The older face of the per-tile multiplexer.
#[derive(Debug)]
pub struct PEMux {
    /// The tile multiplexer doing the work.
    pub inner: TileMux,
    /// Base address of the endpoint window in the tile's memory.
    pub mem_base: Goff,
}

impl PEMux {
    /// Brings a PE under kernel management.
    pub fn new(
        pe: TileId,
        key: u64,
        shared: bool,
        supports_pemux: bool,
        rbuf: Goff,
        table: &mut CapTable,
        tcu: &mut Tcu,
    ) -> (r: PEMux)
        requires
            old(table).wf(),
            old(table).quota_inv(),
            old(table).lefts_ok(),
            old(tcu).wf(),
            pe < old(tcu).spec_tiles(),
            pe < 0x10000,
            rbuf <= 0xFFFF_FFFF_FFFF,
            key == old(tcu).keys@[pe as int],
        ensures
            final(table).wf(),
            final(table).quota_inv(),
            final(table).lefts_ok(),
            final(tcu).wf(),
            final(tcu).spec_tiles() == old(tcu).spec_tiles(),
            final(tcu).keys == old(tcu).keys,
            r.inner.tile_id == pe,
            r.inner.shared == shared,
            r.inner.queue.inv(),
            r.inner.queue.next_id == 0,
            r.mem_base == 0,
    {
        PEMux {
            inner: TileMux::new(pe, key, shared, supports_pemux, rbuf, table, tcu),
            mem_base: 0,
        }
    }

    /// The PE object's index in the capability store.
    pub fn pe(&self) -> (r: usize)
        ensures
            r == self.inner.tile,
    {
        self.inner.tile()
    }

    /// The PE this multiplexer drives.
    pub fn pe_id(&self) -> (r: TileId)
        ensures
            r == self.inner.tile_id,
    {
        self.inner.tile_id()
    }

    /// Whether any VPE is resident.
    pub fn has_vpes(&self) -> (r: bool)
        ensures
            r == (self.inner.acts@.len() > 0),
    {
        self.inner.has_activities()
    }

    /// Registers a resident VPE.
    pub fn add_vpe(&mut self, vpe: ActId, table: &mut CapTable)
        requires
            old(self).inner.tile < old(table).objs.tiles@.len(),
            old(table).objs.tiles@[old(self).inner.tile as int].vpes < u64::MAX,
        ensures
            final(self).inner.acts@ == old(self).inner.acts@.push(vpe),
            final(self).mem_base == old(self).mem_base,
            final(table).slots == old(table).slots,
            final(table).acts == old(table).acts,
            final(table).objs.kmems == old(table).objs.kmems,
    {
        self.inner.add_activity(vpe, table);
    }

    /// Removes a resident VPE.
    pub fn rem_vpe(&mut self, vpe: ActId, table: &mut CapTable)
        requires
            old(self).inner.acts@.len() > 0,
            old(self).inner.tile < old(table).objs.tiles@.len(),
            old(table).objs.tiles@[old(self).inner.tile as int].vpes > 0,
        ensures
            final(self).inner.acts@ == seq_without(old(self).inner.acts@, vpe),
            final(table).slots == old(table).slots,
            final(table).acts == old(table).acts,
            final(table).objs.kmems == old(table).objs.kmems,
    {
        self.inner.rem_activity(vpe, table);
    }

    /// Base address of the endpoint window.
    pub fn eps_base(&mut self) -> (r: Goff)
        ensures
            r == old(self).mem_base,
            *final(self) == *old(self),
    {
        self.mem_base
    }

    /// Sets the base address of the endpoint window.
    pub fn set_mem_base(&mut self, addr: Goff)
        ensures
            *final(self) == (PEMux { mem_base: addr, ..*old(self) }),
    {
        self.mem_base = addr;
    }

    /// Store index of a PMP endpoint binding.
    pub fn pmp_ep(&self, ep: EpId) -> (r: usize)
        requires
            ep < self.inner.pmp@.len(),
        ensures
            r == self.inner.pmp@[ep as int],
    {
        self.inner.pmp_ep(ep)
    }

    /// First-fit search for a free run of user endpoints.
    pub fn find_eps(&self, count: usize) -> (r: Result<EpId, Error>)
        requires
            count >= 1,
            self.inner.eps.first_user <= self.inner.eps.bits@.len(),
        ensures
            match r {
                Result::Ok(start) => {
                    &&& start >= self.inner.eps.first_user
                    &&& start + count <= self.inner.eps.bits@.len()
                    &&& range_clear(self.inner.eps.bits@, start as int, count as int)
                    &&& forall|s: int|
                        self.inner.eps.first_user <= s < start ==> !range_clear(
                            self.inner.eps.bits@,
                            s,
                            count as int,
                        )
                },
                Result::Err(e) => {
                    &&& e.code == crate::err::Code::NoSpace
                    &&& forall|s: int|
                        self.inner.eps.first_user <= s && s + count <= self.inner.eps.bits@.len()
                            ==> !range_clear(self.inner.eps.bits@, s, count as int)
                },
            },
    {
        self.inner.find_eps(count)
    }

    /// Whether a run of endpoints is entirely free.
    pub fn eps_free(&self, start: EpId, count: usize) -> (r: bool)
        requires
            start + count <= self.inner.eps.bits@.len(),
        ensures
            r == range_clear(self.inner.eps.bits@, start as int, count as int),
    {
        self.inner.eps_free(start, count)
    }

    /// Claims a free run of endpoints.
    pub fn alloc_eps(&mut self, start: EpId, count: usize)
        requires
            start + count <= old(self).inner.eps.bits@.len(),
            range_clear(old(self).inner.eps.bits@, start as int, count as int),
        ensures
            final(self).inner.eps.bits@ == with_range(
                old(self).inner.eps.bits@,
                start as int,
                count as int,
                true,
            ),
            final(self).inner.eps.first_user == old(self).inner.eps.first_user,
            final(self).mem_base == old(self).mem_base,
            final(self).inner.queue == old(self).inner.queue,
    {
        self.inner.alloc_eps(start, count);
    }

    /// Returns a fully allocated run of endpoints.
    pub fn free_eps(&mut self, start: EpId, count: usize)
        requires
            start + count <= old(self).inner.eps.bits@.len(),
            range_set(old(self).inner.eps.bits@, start as int, count as int),
        ensures
            final(self).inner.eps.bits@ == with_range(
                old(self).inner.eps.bits@,
                start as int,
                count as int,
                false,
            ),
            final(self).inner.eps.first_user == old(self).inner.eps.first_user,
            final(self).mem_base == old(self).mem_base,
            final(self).inner.queue == old(self).inner.queue,
    {
        self.inner.free_eps(start, count);
    }

    /// Programs a send endpoint for a send gate.
    pub fn config_snd_ep(
        &mut self,
        tcu: &mut Tcu,
        ep: EpId,
        vpe: ActId,
        sg: usize,
        table: &CapTable,
    ) -> (r: Result<(), Error>)
        requires
            old(tcu).wf(),
            old(self).inner.tile_id < old(tcu).spec_tiles(),
            old(self).inner.key == old(tcu).keys@[old(self).inner.tile_id as int],
            ep < crate::tcu::AVAIL_EPS,
            sg < table.objs.sgates@.len(),
            table.objs.sgates@[sg as int].rgate < table.objs.rgates@.len(),
            table.objs.rgates@[table.objs.sgates@[sg as int].rgate as int].spec_activated(),
            vpe < 0x10000,
            table.objs.sgates@[sg as int].label < 0x1_0000_0000,
            table.objs.sgates@[sg as int].credits < 0x400,
            table.objs.rgates@[table.objs.sgates@[sg as int].rgate as int].msg_order < 0x40,
            table.objs.rgates@[table.objs.sgates@[sg as int].rgate as int].loc->Some_0.0 < 0x10000,
            table.objs.rgates@[table.objs.sgates@[sg as int].rgate as int].loc->Some_0.1 < 0x10000,
        ensures
            final(tcu).wf(),
            final(tcu).spec_tiles() == old(tcu).spec_tiles(),
            final(tcu).keys == old(tcu).keys,
            *final(self) == *old(self),
            r is Ok,
            ({
                let t = old(self).inner.tile_id as int;
                let sgo = table.objs.sgates@[sg as int];
                let rgo = table.objs.rgates@[sgo.rgate as int];
                let r0 = final(tcu).ep_reg(t, ep as int, 0);
                let r1 = final(tcu).ep_reg(t, ep as int, 1);
                &&& crate::tcu::ep_kind(r0) == crate::tcu::EP_KIND_SEND
                &&& crate::tcu::ep_msg_order(r0) == rgo.msg_order
                &&& crate::tcu::snd_cur(r0) == sgo.credits
                &&& crate::tcu::snd_max(r0) == sgo.credits
                &&& crate::tcu::snd_dst_ep(r0) == rgo.loc->Some_0.1 as u64
                &&& crate::tcu::snd_act(r1) == spec_ep_act(old(self).inner.shared, vpe)
                &&& crate::tcu::snd_tgt_tile(r1) == rgo.loc->Some_0.0 as u64
                &&& crate::tcu::snd_label(r1) == sgo.label
            }),
    {
        self.inner.config_snd_ep(tcu, ep, vpe, sg, table)
    }

    /// Programs a memory endpoint for a memory gate.
    pub fn config_mem_ep(
        &mut self,
        tcu: &mut Tcu,
        ep: EpId,
        vpe: ActId,
        mg: usize,
        pe_id: TileId,
        table: &CapTable,
    ) -> (r: Result<(), Error>)
        requires
            old(tcu).wf(),
            old(self).inner.tile_id < old(tcu).spec_tiles(),
            old(self).inner.key == old(tcu).keys@[old(self).inner.tile_id as int],
            ep < crate::tcu::AVAIL_EPS,
            mg < table.objs.mgates@.len(),
            vpe < 0x10000,
            pe_id < 0x10000,
            table.objs.mgates@[mg as int].perms < 0x10,
        ensures
            final(tcu).wf(),
            final(tcu).spec_tiles() == old(tcu).spec_tiles(),
            final(tcu).keys == old(tcu).keys,
            *final(self) == *old(self),
            r is Ok,
            ({
                let t = old(self).inner.tile_id as int;
                let mgo = table.objs.mgates@[mg as int];
                let r0 = final(tcu).ep_reg(t, ep as int, 0);
                &&& crate::tcu::ep_kind(r0) == crate::tcu::EP_KIND_MEM
                &&& crate::tcu::mem_perms(r0) == mgo.perms
                &&& crate::tcu::mem_act(r0) == spec_ep_act(old(self).inner.shared, vpe)
                &&& crate::tcu::mem_tile(r0) == pe_id as u64
                &&& final(tcu).ep_reg(t, ep as int, 1) == mgo.offset
                &&& final(tcu).ep_reg(t, ep as int, 2) == mgo.size
            }),
    {
        self.inner.config_mem_ep(tcu, ep, vpe, mg, pe_id, table)
    }

    /// Invalidates a hardware endpoint, notifying the resident stub about
    /// dropped unread messages when asked to.
    pub fn invalidate_ep(
        &mut self,
        tcu: &mut Tcu,
        table: &CapTable,
        vpe: ActId,
        ep: EpId,
        force: bool,
        notify: bool,
    ) -> (r: Result<(), Error>)
        requires
            old(tcu).wf(),
            old(self).inner.tile_id < old(tcu).spec_tiles(),
            old(self).inner.key == old(tcu).keys@[old(self).inner.tile_id as int],
            ep < crate::tcu::AVAIL_EPS,
            old(self).inner.queue.next_id < u64::MAX,
            old(self).inner.queue.inv(),
        ensures
            final(self).inner.queue.inv(),
            final(tcu).wf(),
            final(tcu).spec_tiles() == old(tcu).spec_tiles(),
            final(tcu).keys == old(tcu).keys,
            final(self).mem_base == old(self).mem_base,
            ({
                let t = old(self).inner.tile_id as int;
                let r0 = old(tcu).ep_reg(t, ep as int, 0);
                let r2 = old(tcu).ep_reg(t, ep as int, 2);
                let unread = if crate::tcu::ep_kind(r0) == crate::tcu::EP_KIND_RECV {
                    crate::tcu::rcv_unread(r2)
                } else {
                    0
                };
                let refused = crate::tcu::ep_kind(r0) == crate::tcu::EP_KIND_SEND && !force
                    && crate::tcu::snd_cur(r0) != crate::tcu::snd_max(r0);
                &&& (refused ==> r is Err && r->Err_0.code == crate::err::Code::NoCredits
                    && final(self).inner.queue == old(self).inner.queue)
                &&& (!refused && unread != 0 && notify ==> {
                    ||| (r is Ok && submitted_msgs(final(self).inner.queue) == submitted_msgs(
                        old(self).inner.queue,
                    ).push(
                        (
                            old(self).inner.queue.next_id,
                            crate::sidecalls::spec_encode(
                                Sidecall::RemMsgs { act: vpe as u64, unread_mask: unread },
                            ),
                        ),
                    ))
                    ||| (r is Err && r->Err_0.code == crate::err::Code::ActivityGone
                        && final(self).inner.queue == old(self).inner.queue)
                })
                &&& (!refused && !(unread != 0 && notify) ==> r is Ok && final(self).inner.queue
                    == old(self).inner.queue)
                &&& (!refused && vpe < table.acts@.len() && table.acts@[vpe as int].alive
                    ==> r is Ok)
                &&& (!refused ==> crate::tcu::ep_kind(final(tcu).ep_reg(t, ep as int, 0)) == 0)
            }),
    {
        self.inner.invalidate_ep(tcu, table, vpe, ep, force, notify)
    }

    /// Invalidates reply endpoints at the receive side that target this
    /// PE's given send endpoint.
    pub fn invalidate_reply_eps(
        &self,
        tcu: &mut Tcu,
        recv_pe: TileId,
        recv_ep: EpId,
        send_ep: EpId,
        recv_key: u64,
    ) -> (r: Result<(), Error>)
        requires
            old(tcu).wf(),
            recv_pe < old(tcu).spec_tiles(),
            recv_ep < crate::tcu::AVAIL_EPS,
            recv_key == old(tcu).keys@[recv_pe as int],
        ensures
            final(tcu).wf(),
            final(tcu).spec_tiles() == old(tcu).spec_tiles(),
            final(tcu).keys == old(tcu).keys,
            r is Ok,
            final(tcu).ep_regs@ == crate::ktcu::regs_after_reply_inv(
                old(tcu).ep_regs@,
                recv_pe as int,
                recv_ep as int,
                self.inner.tile_id as int,
                send_ep as int,
            ),
            final(tcu).ep_keys@ == crate::ktcu::keys_after_reply_inv(
                old(tcu).ep_keys@,
                old(tcu).ep_regs@,
                recv_pe as int,
                recv_ep as int,
                self.inner.tile_id as int,
                send_ep as int,
            ),
    {
        self.inner.invalidate_reply_eps(tcu, recv_pe, recv_ep, send_ep, recv_key)
    }

    /// Starts or stops a VPE on the PE.
    pub fn vpe_ctrl_async(&mut self, table: &CapTable, vpe: ActId, ctrl: u64) -> (r: Result<
        Event,
        Error,
    >)
        requires
            old(self).inner.queue.next_id < u64::MAX,
            old(self).inner.queue.inv(),
        ensures
            final(self).inner.queue.inv(),
            match r {
                Result::Ok(ev) => submitted_msgs(final(self).inner.queue) == submitted_msgs(
                    old(self).inner.queue,
                ).push((ev, spec_encode(Sidecall::ActivityCtrl { act: vpe as u64, ctrl }))),
                Result::Err(e) => e.code == crate::err::Code::ActivityGone,
            },
    {
        self.inner.activity_ctrl_async(table, vpe, ctrl)
    }

    /// Asks the stub to map a page range for a VPE.
    pub fn map_async(
        &mut self,
        table: &CapTable,
        vpe: ActId,
        virt: Goff,
        glob: Goff,
        pages: u64,
        perm: u64,
    ) -> (r: Result<Event, Error>)
        requires
            old(self).inner.queue.next_id < u64::MAX,
            old(self).inner.queue.inv(),
        ensures
            final(self).inner.queue.inv(),
            match r {
                Result::Ok(ev) => submitted_msgs(final(self).inner.queue) == submitted_msgs(
                    old(self).inner.queue,
                ).push(
                    (
                        ev,
                        spec_encode(
                            Sidecall::MapRange { act: vpe as u64, virt, global: glob, pages, perm },
                        ),
                    ),
                ),
                Result::Err(e) => e.code == crate::err::Code::ActivityGone,
            },
    {
        self.inner.map_async(table, vpe, virt, glob, pages, perm)
    }

    /// Asks the stub to unmap a page range of a VPE.
    pub fn unmap_async(&mut self, table: &CapTable, vpe: ActId, virt: Goff, pages: u64) -> (r:
        Result<Event, Error>)
        requires
            old(self).inner.queue.next_id < u64::MAX,
            old(self).inner.queue.inv(),
        ensures
            final(self).inner.queue.inv(),
            match r {
                Result::Ok(ev) => submitted_msgs(final(self).inner.queue) == submitted_msgs(
                    old(self).inner.queue,
                ).push(
                    (
                        ev,
                        spec_encode(
                            Sidecall::MapRange {
                                act: vpe as u64,
                                virt,
                                global: 0,
                                pages,
                                perm: 0,
                            },
                        ),
                    ),
                ),
                Result::Err(e) => e.code == crate::err::Code::ActivityGone
                    && final(self).inner.queue == old(self).inner.queue,
            },
    {
        self.inner.unmap_async(table, vpe, virt, pages)
    }

    /// Asks the stub to translate a virtual address of a VPE.
    pub fn translate_async(&mut self, table: &CapTable, vpe: ActId, virt: Goff, perm: u64) -> (r:
        Result<Event, Error>)
        requires
            old(self).inner.queue.next_id < u64::MAX,
            old(self).inner.queue.inv(),
        ensures
            final(self).inner.queue.inv(),
            match r {
                Result::Ok(ev) => submitted_msgs(final(self).inner.queue) == submitted_msgs(
                    old(self).inner.queue,
                ).push((ev, spec_encode(Sidecall::Translate { act: vpe as u64, virt, perm }))),
                Result::Err(e) => e.code == crate::err::Code::ActivityGone,
            },
    {
        self.inner.translate_async(table, vpe, virt, perm)
    }

    /// Tells the resident stub about an endpoint invalidation the VPE did
    /// not issue itself.
    pub fn notify_invalidate(&mut self, table: &CapTable, vpe: ActId, ep: EpId) -> (r: Result<
        Event,
        Error,
    >)
        requires
            old(self).inner.queue.next_id < u64::MAX,
            old(self).inner.queue.inv(),
        ensures
            final(self).inner.queue.inv(),
            match r {
                Result::Ok(ev) => submitted_msgs(final(self).inner.queue) == submitted_msgs(
                    old(self).inner.queue,
                ).push((ev, spec_encode(Sidecall::EpInval { act: vpe as u64, ep: ep as u64 }))),
                Result::Err(e) => e.code == crate::err::Code::ActivityGone,
            },
    {
        self.inner.notify_invalidate(table, vpe, ep)
    }

    /// Handles a call from the resident stub.
    pub fn handle_call_async(&self, msg: &Vec<u64>) -> (r: (Vec<u64>, Option<(u64, u64)>))
        ensures
            msg@.len() == 3 && msg@[0] == crate::tilemux::OP_EXIT ==> r.1 == Option::Some(
                (msg@[1], msg@[2]),
            ),
    {
        self.inner.handle_call_async(msg)
    }
}

} // verus!
