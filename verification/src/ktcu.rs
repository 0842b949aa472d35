//! The kernel-side TCU driver: remote register read, write and
//! configuration primitives over the modelled communication unit.
//!
//! Every remote access first loads the target tile's attestation key into
//! the kernel's scratch endpoint; skipping that step leaves the registers
//! unreadable.  The driver functions take the key the kernel holds for the
//! tile, so each contract promises success outright once the key matches.

use vstd::prelude::*;

use crate::err::{Code, Error};
use crate::kobj::{ActId, EpId, Goff, Label, TileId};
use crate::tcu::{
    ep_kind, ep_regs_after_cmd, ext_cmd_outcome, rcv_occupied, rcv_unread, snd_cur, snd_dst_ep,
    snd_max, snd_tgt_tile, Tcu, AVAIL_EPS, EP_KIND_MEM, EP_KIND_RECV, EP_KIND_SEND,
    EXT_OP_ATTEST, EXT_OP_GEN_KEY, EXT_OP_INV_EP, EXT_OP_RESET,
};

verus! {

/// Loads a key context into the kernel's scratch endpoint.  Every remote
/// register access below goes through this gate first.
pub fn config_local_ep_key(tcu: &mut Tcu, key: u64)
    ensures
        *final(tcu) == (Tcu { cur_key: key, ..*old(tcu) }),
{
    tcu.cur_key = key;
}

/// Issues one extended command and busy-polls the command register until
/// it reports idle; the poll is a bounded spin by design.  Decodes the
/// embedded 5-bit error code into the kernel's error type.
pub fn do_ext_cmd(tcu: &mut Tcu, tile: TileId, cmd: u64, key: u64) -> (r: Result<u64, Error>)
    requires
        old(tcu).wf(),
        tile < old(tcu).spec_tiles(),
        key == old(tcu).keys@[tile as int],
    ensures
        final(tcu).wf(),
        final(tcu).spec_tiles() == old(tcu).spec_tiles(),
        final(tcu).keys == old(tcu).keys,
        final(tcu).features == old(tcu).features,
        final(tcu).ep_keys == old(tcu).ep_keys,
        final(tcu).ep_regs@ == ep_regs_after_cmd(old(tcu).ep_regs@, tile as int, cmd),
        forall|t: int|
            0 <= t < old(tcu).spec_tiles() && t != tile ==> final(tcu).ext_cmd@[t] == old(
                tcu,
            ).ext_cmd@[t],
        final(tcu).attested@ == (if cmd & 0xF == EXT_OP_ATTEST {
            old(tcu).attested@.update(tile as int, true)
        } else {
            old(tcu).attested@
        }),
        ({
            let outcome = ext_cmd_outcome(old(tcu).ep_regs@, tile as int, cmd);
            match r {
                Result::Ok(v) => outcome.0 == Code::Success && v == outcome.1,
                Result::Err(e) => outcome.0 != Code::Success && e.code == outcome.0,
            }
        }),
{
    config_local_ep_key(tcu, key);
    let ghost keyed = *tcu;
    match tcu.try_write_ext_cmd(tile, cmd) {
        Ok(()) => (),
        Err(_) => {
            proof {
                assert(false);
            }
        },
    }
    // one poll finds the command already complete: the unit executes
    // extended commands in bounded cycles
    let word = tcu.ext_cmd[tile];
    proof {
        let outcome = ext_cmd_outcome(keyed.ep_regs@, tile as int, cmd);
        lemma_outcome_val_bounded(keyed.ep_regs@, tile as int, cmd);
        crate::tcu::lemma_ext_result_decode(outcome.0, outcome.1);
    }
    if word & 0xF != 0 {
        proof {
            assert(false);
        }
    }
    let codeword = (word >> 4) & 0x1F;
    let code = Code::from_val(codeword);
    proof {
        crate::err::lemma_code_round_trip(ext_cmd_outcome(keyed.ep_regs@, tile as int, cmd).0);
    }
    if code == Code::Success {
        Ok(word >> 9)
    } else {
        Err(Error::new(code))
    }
}

/// The result a command packs into the register fits the result field.
proof fn lemma_outcome_val_bounded(regs: Seq<u64>, t: int, cmd: u64)
    ensures
        ext_cmd_outcome(regs, t, cmd).1 <= 0xFFFF_FFFF,
{
    let v = ext_cmd_outcome(regs, t, cmd).1;
    if v != 0 {
        let ep = ((cmd >> 9) & 0xFFFF) as int;
        let r2 = regs[Tcu::reg_pos(t, ep, 2)];
        assert(r2 >> 32 <= 0xFFFF_FFFF) by (bit_vector);
    }
}

/// Takes kernel privileges away from a tile by clearing the privilege bit
/// of its FEATURES register; done once the tile is attested, before any
/// user activity runs on it.
pub fn deprivilege_tile(tcu: &mut Tcu, tile: TileId, key: u64) -> (r: Result<(), Error>)
    requires
        old(tcu).wf(),
        tile < old(tcu).spec_tiles(),
        key == old(tcu).keys@[tile as int],
    ensures
        final(tcu).wf(),
        final(tcu).spec_tiles() == old(tcu).spec_tiles(),
        final(tcu).keys == old(tcu).keys,
        final(tcu).ep_regs@ == old(tcu).ep_regs@,
        final(tcu).attested == old(tcu).attested,
        r is Ok,
        final(tcu).features@ == old(tcu).features@.update(
            tile as int,
            old(tcu).features@[tile as int] & !1,
        ),
{
    config_local_ep_key(tcu, key);
    let features = match tcu.try_read_features(tile) {
        Ok(v) => v,
        Err(_) => {
            proof {
                assert(false);
            }
            0
        },
    };
    match tcu.try_write_features(tile, features & !1u64) {
        Ok(()) => Ok(()),
        Err(_) => {
            proof {
                assert(false);
            }
            Err(Error::new(Code::NoPerm))
        },
    }
}

/// Resets a tile through the extended-command protocol.
pub fn reset_tile(tcu: &mut Tcu, tile: TileId, key: u64) -> (r: Result<(), Error>)
    requires
        old(tcu).wf(),
        tile < old(tcu).spec_tiles(),
        key == old(tcu).keys@[tile as int],
    ensures
        final(tcu).wf(),
        final(tcu).spec_tiles() == old(tcu).spec_tiles(),
        final(tcu).keys == old(tcu).keys,
        final(tcu).ep_regs@ == old(tcu).ep_regs@,
        r is Ok,
{
    proof {
        assert(EXT_OP_RESET & 0xF == EXT_OP_RESET && EXT_OP_RESET != EXT_OP_INV_EP
            && EXT_OP_RESET != EXT_OP_ATTEST) by (bit_vector);
    }
    do_ext_cmd(tcu, tile, EXT_OP_RESET, key).map(|_v| ())
}

/// Runs the attestation exchange with a tile; the crypto itself happens
/// inside the unit and is opaque here.
pub fn attest_tile_remote(tcu: &mut Tcu, tile: TileId, arg: u64, key: u64) -> (r: Result<
    (),
    Error,
>)
    requires
        old(tcu).wf(),
        tile < old(tcu).spec_tiles(),
        key == old(tcu).keys@[tile as int],
        arg < 0x80,
    ensures
        final(tcu).wf(),
        final(tcu).spec_tiles() == old(tcu).spec_tiles(),
        final(tcu).keys == old(tcu).keys,
        final(tcu).features == old(tcu).features,
        final(tcu).ep_regs@ == old(tcu).ep_regs@,
        final(tcu).attested@ == old(tcu).attested@.update(tile as int, true),
        r is Ok,
{
    let cmd = EXT_OP_ATTEST | (arg << 9);
    proof {
        assert((EXT_OP_ATTEST | (arg << 9)) & 0xF == EXT_OP_ATTEST && EXT_OP_ATTEST
            != EXT_OP_INV_EP && EXT_OP_ATTEST != EXT_OP_RESET) by (bit_vector)
            requires
                arg < 0x80,
        ;
    }
    do_ext_cmd(tcu, tile, cmd, key).map(|_v| ())
}

/// Asks an attested tile to derive the shared key.
pub fn gen_key_tile_remote(tcu: &mut Tcu, tile: TileId, key: u64) -> (r: Result<(), Error>)
    requires
        old(tcu).wf(),
        tile < old(tcu).spec_tiles(),
        key == old(tcu).keys@[tile as int],
    ensures
        final(tcu).wf(),
        final(tcu).spec_tiles() == old(tcu).spec_tiles(),
        final(tcu).keys == old(tcu).keys,
        final(tcu).features == old(tcu).features,
        final(tcu).ep_regs@ == old(tcu).ep_regs@,
        final(tcu).attested@ == old(tcu).attested@,
        r is Ok,
{
    proof {
        assert(EXT_OP_GEN_KEY & 0xF == EXT_OP_GEN_KEY && EXT_OP_GEN_KEY != EXT_OP_INV_EP
            && EXT_OP_GEN_KEY != EXT_OP_ATTEST) by (bit_vector);
    }
    do_ext_cmd(tcu, tile, EXT_OP_GEN_KEY, key).map(|_v| ())
}

/// Reads a remote endpoint's three registers, under the tile's key.
pub fn read_ep_remote(tcu: &mut Tcu, tile: TileId, ep: EpId, key: u64) -> (r: Result<
    (u64, u64, u64),
    Error,
>)
    requires
        old(tcu).wf(),
        tile < old(tcu).spec_tiles(),
        ep < AVAIL_EPS,
        key == old(tcu).keys@[tile as int],
    ensures
        *final(tcu) == (Tcu { cur_key: key, ..*old(tcu) }),
        match r {
            Result::Ok(regs) => {
                &&& regs.0 == old(tcu).ep_reg(tile as int, ep as int, 0)
                &&& regs.1 == old(tcu).ep_reg(tile as int, ep as int, 1)
                &&& regs.2 == old(tcu).ep_reg(tile as int, ep as int, 2)
            },
            Result::Err(_) => false,
        },
{
    config_local_ep_key(tcu, key);
    let r0 = match tcu.try_read_ep_reg(tile, ep, 0) {
        Ok(v) => v,
        Err(e) => {
            proof {
                assert(false);
            }
            return Err(e);
        },
    };
    let r1 = match tcu.try_read_ep_reg(tile, ep, 1) {
        Ok(v) => v,
        Err(e) => {
            proof {
                assert(false);
            }
            return Err(e);
        },
    };
    let r2 = match tcu.try_read_ep_reg(tile, ep, 2) {
        Ok(v) => v,
        Err(e) => {
            proof {
                assert(false);
            }
            return Err(e);
        },
    };
    Ok((r0, r1, r2))
}

/// Writes a remote endpoint's three registers, under the tile's key.
pub fn write_ep_remote(
    tcu: &mut Tcu,
    tile: TileId,
    ep: EpId,
    regs: (u64, u64, u64),
    key: u64,
) -> (r: Result<(), Error>)
    requires
        old(tcu).wf(),
        tile < old(tcu).spec_tiles(),
        ep < AVAIL_EPS,
        key == old(tcu).keys@[tile as int],
    ensures
        final(tcu).wf(),
        final(tcu).spec_tiles() == old(tcu).spec_tiles(),
        final(tcu).keys == old(tcu).keys,
        final(tcu).features == old(tcu).features,
        final(tcu).attested == old(tcu).attested,
        final(tcu).ep_keys == old(tcu).ep_keys,
        r is Ok,
        final(tcu).ep_regs@ == old(tcu).ep_regs@.update(
            Tcu::reg_pos(tile as int, ep as int, 0),
            regs.0,
        ).update(Tcu::reg_pos(tile as int, ep as int, 1), regs.1).update(
            Tcu::reg_pos(tile as int, ep as int, 2),
            regs.2,
        ),
{
    config_local_ep_key(tcu, key);
    let x = tcu.try_write_ep_reg(tile, ep, 0, regs.0);
    let y = tcu.try_write_ep_reg(tile, ep, 1, regs.1);
    let z = tcu.try_write_ep_reg(tile, ep, 2, regs.2);
    proof {
        assert(x is Ok && y is Ok && z is Ok);
    }
    Ok(())
}

/// Builds the register triple of a send endpoint.
pub fn config_send(
    act: ActId,
    lbl: Label,
    tile: TileId,
    dst_ep: EpId,
    msg_order: u64,
    credits: u64,
) -> (r: (u64, u64, u64))
    requires
        act < 0x10000,
        tile < 0x10000,
        dst_ep < 0x10000,
        msg_order < 0x40,
        credits < 0x400,
        lbl < 0x1_0000_0000,
    ensures
        ep_kind(r.0) == EP_KIND_SEND,
        crate::tcu::ep_msg_order(r.0) == msg_order,
        snd_cur(r.0) == credits,
        snd_max(r.0) == credits,
        snd_dst_ep(r.0) == dst_ep,
        crate::tcu::snd_act(r.1) == act,
        snd_tgt_tile(r.1) == tile,
        crate::tcu::snd_label(r.1) == lbl,
        r.2 == 0,
{
    let r0 = EP_KIND_SEND | (msg_order << 4) | (credits << 10) | (credits << 20) | (
    (dst_ep as u64) << 37);
    let r1 = (act as u64) | ((tile as u64) << 16) | (lbl << 32);
    proof {
        let de = dst_ep as u64;
        let mo = msg_order;
        let cr = credits;
        assert((1u64 | (mo << 4) | (cr << 10) | (cr << 20) | (de << 37)) & 0x7 == 1 && ((1u64 | (
        mo << 4) | (cr << 10) | (cr << 20) | (de << 37)) >> 4) & 0x3F == mo && ((1u64 | (
        mo << 4) | (cr << 10) | (cr << 20) | (de << 37)) >> 10) & 0x3FF == cr && ((1u64 | (mo
            << 4) | (cr << 10) | (cr << 20) | (de << 37)) >> 20) & 0x3FF == cr && ((1u64 | (mo
            << 4) | (cr << 10) | (cr << 20) | (de << 37)) >> 37) & 0xFFFF == de) by (bit_vector)
            requires
                mo < 0x40,
                cr < 0x400,
                de < 0x10000,
        ;
        let a = act as u64;
        let t = tile as u64;
        assert((a | (t << 16) | (lbl << 32)) & 0xFFFF == a && ((a | (t << 16) | (lbl << 32)) >> 16)
            & 0xFFFF == t && (a | (t << 16) | (lbl << 32)) >> 32 == lbl) by (bit_vector)
            requires
                a < 0x10000,
                t < 0x10000,
                lbl < 0x1_0000_0000,
        ;
    }
    (r0, r1, 0)
}

/// Builds the register triple of a receive endpoint with no message
/// received yet.
pub fn config_recv(
    act: ActId,
    buf: Goff,
    buf_ord: u64,
    msg_ord: u64,
    reply_eps: Option<EpId>,
) -> (r: (u64, u64, u64))
    requires
        act < 0x10000,
        buf_ord < 0x40,
        msg_ord < 0x40,
        match reply_eps {
            Option::Some(e) => e < 0x10000,
            Option::None => true,
        },
    ensures
        ep_kind(r.0) == EP_KIND_RECV,
        crate::tcu::ep_msg_order(r.0) == msg_ord,
        crate::tcu::rcv_act(r.0) == act,
        crate::tcu::rcv_buf_ord(r.0) == buf_ord,
        crate::tcu::rcv_reply_eps(r.0) == (match reply_eps {
            Option::Some(e) => e as u64,
            Option::None => 0xFFFF,
        }),
        r.1 == buf,
        r.2 == 0,
        rcv_occupied(r.2) == 0,
        rcv_unread(r.2) == 0,
{
    let rpl: u64 = match reply_eps {
        Some(e) => e as u64,
        None => 0xFFFF,
    };
    let r0 = EP_KIND_RECV | (msg_ord << 4) | (rpl << 19) | (buf_ord << 35) | ((act as u64) << 41);
    proof {
        let mo = msg_ord;
        let bo = buf_ord;
        let a = act as u64;
        assert((2u64 | (mo << 4) | (rpl << 19) | (bo << 35) | (a << 41)) & 0x7 == 2 && ((2u64 | (
        mo << 4) | (rpl << 19) | (bo << 35) | (a << 41)) >> 4) & 0x3F == mo && ((2u64 | (mo << 4)
            | (rpl << 19) | (bo << 35) | (a << 41)) >> 19) & 0xFFFF == rpl && ((2u64 | (mo << 4)
            | (rpl << 19) | (bo << 35) | (a << 41)) >> 35) & 0x3F == bo && ((2u64 | (mo << 4) | (
        rpl << 19) | (bo << 35) | (a << 41)) >> 41) & 0xFFFF == a) by (bit_vector)
            requires
                mo < 0x40,
                bo < 0x40,
                rpl <= 0xFFFF,
                a < 0x10000,
        ;
        assert(0u64 & 0xFFFF_FFFF == 0 && 0u64 >> 32 == 0) by (bit_vector);
    }
    (r0, buf, 0)
}

/// Builds the register triple of a memory endpoint.
pub fn config_mem(act: ActId, tile: TileId, addr: Goff, size: u64, perms: u64) -> (r: (u64, u64, u64))
    requires
        act < 0x10000,
        tile < 0x10000,
        perms < 0x10,
    ensures
        ep_kind(r.0) == EP_KIND_MEM,
        crate::tcu::mem_perms(r.0) == perms,
        crate::tcu::mem_act(r.0) == act,
        crate::tcu::mem_tile(r.0) == tile,
        r.1 == addr,
        r.2 == size,
{
    let r0 = EP_KIND_MEM | (perms << 4) | ((act as u64) << 8) | ((tile as u64) << 24);
    proof {
        let p = perms;
        let a = act as u64;
        let t = tile as u64;
        assert((3u64 | (p << 4) | (a << 8) | (t << 24)) & 0x7 == 3 && ((3u64 | (p << 4) | (a << 8)
            | (t << 24)) >> 4) & 0xF == p && ((3u64 | (p << 4) | (a << 8) | (t << 24)) >> 8)
            & 0xFFFF == a && ((3u64 | (p << 4) | (a << 8) | (t << 24)) >> 24) & 0xFFFF == t)
            by (bit_vector)
            requires
                p < 0x10,
                a < 0x10000,
                t < 0x10000,
        ;
    }
    (r0, addr, size)
}

/// Invalidates a remote endpoint: erases its key word, then issues the
/// invalidation command.  Returns the mask of unread message slots the
/// endpoint still held.  Without `force`, a send endpoint with credits in
/// flight refuses with `NoCredits`.
pub fn invalidate_ep_remote(
    tcu: &mut Tcu,
    tile: TileId,
    ep: EpId,
    force: bool,
    key: u64,
) -> (r: Result<u64, Error>)
    requires
        old(tcu).wf(),
        tile < old(tcu).spec_tiles(),
        ep < AVAIL_EPS,
        key == old(tcu).keys@[tile as int],
    ensures
        final(tcu).wf(),
        final(tcu).spec_tiles() == old(tcu).spec_tiles(),
        final(tcu).keys == old(tcu).keys,
        final(tcu).features == old(tcu).features,
        final(tcu).attested@ == old(tcu).attested@,
        forall|t: int|
            0 <= t < old(tcu).spec_tiles() && t != tile ==> final(tcu).ext_cmd@[t] == old(
                tcu,
            ).ext_cmd@[t],
        final(tcu).ep_keys@ == old(tcu).ep_keys@.update(
            tile as int * AVAIL_EPS + ep as int,
            crate::tcu::ERASE_KEY,
        ),
        ({
            let r0 = old(tcu).ep_reg(tile as int, ep as int, 0);
            let r2 = old(tcu).ep_reg(tile as int, ep as int, 2);
            match r {
                Result::Ok(unread) => {
                    &&& !(ep_kind(r0) == EP_KIND_SEND && !force && snd_cur(r0) != snd_max(r0))
                    &&& unread == (if ep_kind(r0) == EP_KIND_RECV {
                        rcv_unread(r2)
                    } else {
                        0
                    })
                    &&& final(tcu).ep_regs@ == old(tcu).ep_regs@.update(
                        Tcu::reg_pos(tile as int, ep as int, 0),
                        0u64,
                    ).update(Tcu::reg_pos(tile as int, ep as int, 1), 0u64).update(
                        Tcu::reg_pos(tile as int, ep as int, 2),
                        0u64,
                    )
                },
                Result::Err(e) => {
                    &&& ep_kind(r0) == EP_KIND_SEND && !force && snd_cur(r0) != snd_max(r0)
                    &&& e.code == Code::NoCredits
                    &&& final(tcu).ep_regs@ == old(tcu).ep_regs@
                },
            }
        }),
        force ==> r is Ok,
{
    // erase the endpoint's key so stale contexts cannot reach it
    config_local_ep_key(tcu, key);
    let k = tcu.try_write_ep_key(tile, ep, crate::tcu::ERASE_KEY);
    proof {
        assert(k is Ok);
    }
    let f: u64 = if force {
        1
    } else {
        0
    };
    let cmd = EXT_OP_INV_EP | ((ep as u64) << 9) | (f << 25);
    proof {
        let e = ep as u64;
        assert((1u64 | (e << 9) | (f << 25)) & 0xF == 1 && ((1u64 | (e << 9) | (f << 25)) >> 9)
            & 0xFFFF == e && ((1u64 | (e << 9) | (f << 25)) >> 25) & 1 == f) by (bit_vector)
            requires
                e < 64,
                f <= 1,
        ;
    }
    do_ext_cmd(tcu, tile, cmd, key)
}

/// Whether reply slot `i` of the receive endpoint `(recv_tile, recv_ep)`
/// is occupied, lies within the buffer, names a valid endpoint, and that
/// endpoint's registers target the send endpoint `(send_tile, send_ep)`.
pub open spec fn reply_slot_matched(
    regs: Seq<u64>,
    recv_tile: int,
    recv_ep: int,
    send_tile: int,
    send_ep: int,
    i: int,
) -> bool {
    let r0 = regs[Tcu::reg_pos(recv_tile, recv_ep, 0)];
    let r2 = regs[Tcu::reg_pos(recv_tile, recv_ep, 2)];
    let base = crate::tcu::rcv_reply_eps(r0) as int;
    &&& 0 <= i < 32
    &&& (rcv_occupied(r2) >> (i as u64)) & 1 == 1
    &&& (crate::tcu::rcv_buf_ord(r0) < 6 ==> (i as u64) < (1u64 << crate::tcu::rcv_buf_ord(r0)))
    &&& base + i < AVAIL_EPS
    &&& snd_tgt_tile(regs[Tcu::reg_pos(recv_tile, base + i, 1)]) == send_tile
    &&& snd_dst_ep(regs[Tcu::reg_pos(recv_tile, base + i, 0)]) == send_ep
}

/// The base of the receive endpoint's reply slots.
pub open spec fn reply_base(regs: Seq<u64>, recv_tile: int, recv_ep: int) -> int {
    crate::tcu::rcv_reply_eps(regs[Tcu::reg_pos(recv_tile, recv_ep, 0)]) as int
}

/// The endpoint registers after the reply walk: every matched reply
/// slot's three registers are zero, everything else keeps its value.
pub open spec fn regs_after_reply_inv(
    regs: Seq<u64>,
    recv_tile: int,
    recv_ep: int,
    send_tile: int,
    send_ep: int,
) -> Seq<u64> {
    Seq::new(
        regs.len(),
        |p: int|
            if exists|i: int|
                #[trigger] reply_slot_matched(regs, recv_tile, recv_ep, send_tile, send_ep, i) && (
                p == Tcu::reg_pos(recv_tile, reply_base(regs, recv_tile, recv_ep) + i, 0) || p
                    == Tcu::reg_pos(recv_tile, reply_base(regs, recv_tile, recv_ep) + i, 1) || p
                    == Tcu::reg_pos(recv_tile, reply_base(regs, recv_tile, recv_ep) + i, 2)) {
                0
            } else {
                regs[p]
            },
    )
}

/// The endpoint key words after the reply walk: every matched reply
/// slot's key is erased, everything else keeps its value.
pub open spec fn keys_after_reply_inv(
    keys: Seq<u64>,
    regs: Seq<u64>,
    recv_tile: int,
    recv_ep: int,
    send_tile: int,
    send_ep: int,
) -> Seq<u64> {
    Seq::new(
        keys.len(),
        |p: int|
            if exists|i: int|
                #[trigger] reply_slot_matched(regs, recv_tile, recv_ep, send_tile, send_ep, i) && p
                    == recv_tile * AVAIL_EPS + reply_base(regs, recv_tile, recv_ep) + i {
                crate::tcu::ERASE_KEY
            } else {
                keys[p]
            },
    )
}

/// Walks a receive endpoint's reply slots on its tile and invalidates
/// exactly those reply endpoints that still target the given send
/// endpoint; used when a send gate is revoked while replies might be in
/// flight.  Reply slots beyond the occupied mask's width cannot hold
/// messages and are not visited.
#[verifier::rlimit(100)]
#[verifier::spinoff_prover]
#[verifier::loop_isolation(false)]
pub fn inv_reply_remote(
    tcu: &mut Tcu,
    recv_tile: TileId,
    recv_ep: EpId,
    send_tile: TileId,
    send_ep: EpId,
    key: u64,
) -> (r: Result<(), Error>)
    requires
        old(tcu).wf(),
        recv_tile < old(tcu).spec_tiles(),
        recv_ep < AVAIL_EPS,
        key == old(tcu).keys@[recv_tile as int],
    ensures
        final(tcu).wf(),
        final(tcu).spec_tiles() == old(tcu).spec_tiles(),
        final(tcu).keys == old(tcu).keys,
        final(tcu).features == old(tcu).features,
        final(tcu).attested@ == old(tcu).attested@,
        r is Ok,
        final(tcu).ep_regs@ == regs_after_reply_inv(
            old(tcu).ep_regs@,
            recv_tile as int,
            recv_ep as int,
            send_tile as int,
            send_ep as int,
        ),
        final(tcu).ep_keys@ == keys_after_reply_inv(
            old(tcu).ep_keys@,
            old(tcu).ep_regs@,
            recv_tile as int,
            recv_ep as int,
            send_tile as int,
            send_ep as int,
        ),
        forall|t: int|
            0 <= t < old(tcu).spec_tiles() && t != recv_tile ==> final(tcu).ext_cmd@[t] == old(
                tcu,
            ).ext_cmd@[t],
{
    let ghost regs0 = tcu.ep_regs@;
    let ghost keys0 = tcu.ep_keys@;
    let ghost rt = recv_tile as int;
    let ghost st = send_tile as int;
    let ghost sep = send_ep as int;
    let regs = match read_ep_remote(tcu, recv_tile, recv_ep, key) {
        Ok(v) => v,
        Err(e) => {
            proof {
                assert(false);
            }
            return Err(e);
        },
    };
    // with no occupied slot there is no reply endpoint to invalidate
    let occupied = regs.2 & 0xFFFF_FFFF;
    if occupied == 0 {
        proof {
            assert forall|i: int| !reply_slot_matched(regs0, rt, recv_ep as int, st, sep, i) by {
                if 0 <= i < 32 {
                    let iu = i as u64;
                    assert((0u64 >> iu) & 1 == 0) by (bit_vector);
                }
            }
            assert(tcu.ep_regs@ =~= regs_after_reply_inv(regs0, rt, recv_ep as int, st, sep));
            assert(tcu.ep_keys@ =~= keys_after_reply_inv(
                keys0,
                regs0,
                rt,
                recv_ep as int,
                st,
                sep,
            ));
        }
        return Ok(());
    }
    let buf_ord = (regs.0 >> 35) & 0x3F;
    let reply_eps = (regs.0 >> 19) & 0xFFFF;
    proof {
        let r0 = regs.0;
        assert(((r0 >> 19) & 0xFFFF) <= 0xFFFF) by (bit_vector);
        assert(((r0 >> 35) & 0x3F) <= 0x3F) by (bit_vector);
    }
    let ghost base = reply_eps as int;
    let mut i: u64 = 0;
    while i < 32
        invariant
            i <= 32,
            tcu.wf(),
            tcu.spec_tiles() == old(tcu).spec_tiles(),
            tcu.keys == old(tcu).keys,
            tcu.features == old(tcu).features,
            tcu.attested@ == old(tcu).attested@,
            base == reply_base(regs0, rt, recv_ep as int),
            occupied == rcv_occupied(regs0[Tcu::reg_pos(rt, recv_ep as int, 2)]),
            buf_ord == crate::tcu::rcv_buf_ord(regs0[Tcu::reg_pos(rt, recv_ep as int, 0)]),
            tcu.ep_regs@ == Seq::new(
                regs0.len(),
                |p: int|
                    if exists|ii: int|
                        ii < i && #[trigger] reply_slot_matched(regs0, rt, recv_ep as int, st, sep, ii)
                            && (p == Tcu::reg_pos(rt, base + ii, 0) || p == Tcu::reg_pos(
                            rt,
                            base + ii,
                            1,
                        ) || p == Tcu::reg_pos(rt, base + ii, 2)) {
                        0
                    } else {
                        regs0[p]
                    },
            ),
            tcu.ep_keys@ == Seq::new(
                keys0.len(),
                |p: int|
                    if exists|ii: int|
                        ii < i && #[trigger] reply_slot_matched(regs0, rt, recv_ep as int, st, sep, ii)
                            && p == rt * AVAIL_EPS + base + ii {
                        crate::tcu::ERASE_KEY
                    } else {
                        keys0[p]
                    },
            ),
            forall|t: int|
                0 <= t < old(tcu).spec_tiles() && t != rt ==> tcu.ext_cmd@[t] == old(
                    tcu,
                ).ext_cmd@[t],
        decreases 32 - i,
    {
        let ghost pre_regs = tcu.ep_regs@;
        let ghost pre_keys = tcu.ep_keys@;
        let in_buf = if buf_ord < 6 {
            i < (1u64 << buf_ord)
        } else {
            true
        };
        let mut matched = false;
        if in_buf && (occupied >> i) & 1 == 1 {
            let slot = reply_eps + i;
            if slot < AVAIL_EPS as u64 {
                let rregs = match read_ep_remote(tcu, recv_tile, slot as usize, key) {
                    Ok(v) => v,
                    Err(e) => {
                        proof {
                            assert(false);
                        }
                        return Err(e);
                    },
                };
                proof {
                    // no earlier pass touched this slot, so its registers
                    // still hold their original values
                    tcu.lemma_reg_pos(rt, base + i as int, 0);
                    tcu.lemma_reg_pos(rt, base + i as int, 1);
                    tcu.lemma_reg_pos(rt, base + i as int, 2);
                    assert forall|idx: int| 0 <= idx < 3 implies #[trigger] pre_regs[Tcu::reg_pos(
                        rt,
                        base + i as int,
                        idx,
                    )] == regs0[Tcu::reg_pos(rt, base + i as int, idx)] by {
                        assert forall|ii: int|
                            ii < i && #[trigger] reply_slot_matched(
                                regs0,
                                rt,
                                recv_ep as int,
                                st,
                                sep,
                                ii,
                            ) implies Tcu::reg_pos(rt, base + i as int, idx) != Tcu::reg_pos(
                            rt,
                            base + ii,
                            0,
                        ) && Tcu::reg_pos(rt, base + i as int, idx) != Tcu::reg_pos(rt, base + ii, 1)
                            && Tcu::reg_pos(rt, base + i as int, idx) != Tcu::reg_pos(
                            rt,
                            base + ii,
                            2,
                        ) by {
                            crate::tcu::lemma_reg_pos_injective(
                                rt,
                                base + i as int,
                                idx,
                                rt,
                                base + ii,
                            );
                        }
                    }
                }
                // is that replying to the sender?
                let tgt_tile = (rregs.1 >> 16) & 0xFFFF;
                let crd_ep = (rregs.0 >> 37) & 0xFFFF;
                if crd_ep == send_ep as u64 && tgt_tile == send_tile as u64 {
                    proof {
                        assert(reply_slot_matched(regs0, rt, recv_ep as int, st, sep, i as int));
                    }
                    matched = true;
                    let iv = invalidate_ep_remote(tcu, recv_tile, slot as usize, true, key);
                    proof {
                        assert(iv is Ok);
                    }
                }
            }
        }
        proof {
            if matched {
                assert(tcu.ep_regs@ =~= Seq::new(
                    regs0.len(),
                    |p: int|
                        if exists|ii: int|
                            ii < i + 1 && #[trigger] reply_slot_matched(
                                regs0,
                                rt,
                                recv_ep as int,
                                st,
                                sep,
                                ii,
                            ) && (p == Tcu::reg_pos(rt, base + ii, 0) || p == Tcu::reg_pos(
                                rt,
                                base + ii,
                                1,
                            ) || p == Tcu::reg_pos(rt, base + ii, 2)) {
                            0
                        } else {
                            regs0[p]
                        },
                ));
                assert(tcu.ep_keys@ =~= Seq::new(
                    keys0.len(),
                    |p: int|
                        if exists|ii: int|
                            ii < i + 1 && #[trigger] reply_slot_matched(
                                regs0,
                                rt,
                                recv_ep as int,
                                st,
                                sep,
                                ii,
                            ) && p == rt * AVAIL_EPS + base + ii {
                            crate::tcu::ERASE_KEY
                        } else {
                            keys0[p]
                        },
                ));
            } else {
                assert(!reply_slot_matched(regs0, rt, recv_ep as int, st, sep, i as int));
                assert(tcu.ep_regs@ =~= Seq::new(
                    regs0.len(),
                    |p: int|
                        if exists|ii: int|
                            ii < i + 1 && #[trigger] reply_slot_matched(
                                regs0,
                                rt,
                                recv_ep as int,
                                st,
                                sep,
                                ii,
                            ) && (p == Tcu::reg_pos(rt, base + ii, 0) || p == Tcu::reg_pos(
                                rt,
                                base + ii,
                                1,
                            ) || p == Tcu::reg_pos(rt, base + ii, 2)) {
                            0
                        } else {
                            regs0[p]
                        },
                ));
                assert(tcu.ep_keys@ =~= Seq::new(
                    keys0.len(),
                    |p: int|
                        if exists|ii: int|
                            ii < i + 1 && #[trigger] reply_slot_matched(
                                regs0,
                                rt,
                                recv_ep as int,
                                st,
                                sep,
                                ii,
                            ) && p == rt * AVAIL_EPS + base + ii {
                            crate::tcu::ERASE_KEY
                        } else {
                            keys0[p]
                        },
                ));
            }
        }
        i += 1;
    }
    proof {
        assert forall|ii: int|
            reply_slot_matched(regs0, rt, recv_ep as int, st, sep, ii) implies ii < 32 by {}
        assert(tcu.ep_regs@ =~= regs_after_reply_inv(regs0, rt, recv_ep as int, st, sep));
        assert(tcu.ep_keys@ =~= keys_after_reply_inv(keys0, regs0, rt, recv_ep as int, st, sep));
    }
    Ok(())
}

} // verus!
