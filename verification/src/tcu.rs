//! The tagged communication unit (TCU), modelled at register level.
//!
//! Every tile carries a register file: a FEATURES register whose lowest
//! bit grants kernel privileges, an extended-command register, one
//! attestation key, and three registers plus one key word per endpoint.
//! Remote access is gated by the key: a read or write reaches a tile's
//! registers only while the kernel's scratch endpoint holds that tile's
//! attestation key context.
//!
//! The extended-command register follows the driver's wire protocol: the
//! low 4 bits hold the opcode and read 0 (`IDLE`) once the command is
//! done, bits 4..9 hold the error code, and bits 9 and up hold the
//! command's result.  Commands complete in bounded cycles, so the model
//! folds the busy-poll into the write.
//!
//! Endpoint register layout: bits 0..3 of the first register hold the
//! kind.  A send endpoint keeps current credits in bits 10..20, maximum
//! credits in bits 20..30 and the destination (for reply endpoints: the
//! send endpoint replied for) in bits 37..53 of the first register, and
//! the target tile in bits 16..32 of the second.  A receive endpoint keeps
//! its reply-endpoint base in bits 19..35, its buffer order in bits
//! 35..41 and its activity in bits 41..57 of the first register, the
//! buffer address in the second, and the occupied mask (low half) with
//! the unread mask (high half) in the third.  Both channel kinds keep the
//! message order in bits 4..10; a memory endpoint keeps permissions,
//! activity and target tile in the first register and the window's
//! address and size in the other two.

use vstd::prelude::*;

use crate::err::{Code, Error};
use crate::kobj::{EpId, TileId};

verus! {

/// Endpoints below this index are PMP-reserved.
pub const PMEM_PROT_EPS: usize = 4;

/// Send endpoint of the resident stub towards the kernel.
pub const KPEX_SEP: usize = 4;

/// Receive endpoint of the resident stub for kernel calls.
pub const KPEX_REP: usize = 5;

/// Receive endpoint of the resident stub for side-calls.
pub const TMSIDE_REP: usize = 6;

/// Reply endpoint paired with the side-call receive endpoint.
pub const TMSIDE_RPLEP: usize = 7;

/// First endpoint the per-tile allocator hands to activities.
pub const FIRST_USER_EP: usize = 8;

/// Number of endpoints each tile's TCU provides.
pub const AVAIL_EPS: usize = 64;

/// Registers per endpoint.
pub const EP_REGS: usize = 3;

/// Extended-command register value once a command finished.
pub const EXT_OP_IDLE: u64 = 0;

/// Opcode: invalidate one endpoint.
pub const EXT_OP_INV_EP: u64 = 1;

/// Opcode: reset the tile.
pub const EXT_OP_RESET: u64 = 2;

/// Opcode: run the attestation exchange.
pub const EXT_OP_ATTEST: u64 = 3;

/// Opcode: generate the shared key after attestation.
pub const EXT_OP_GEN_KEY: u64 = 4;

/// Endpoint kind: not configured.
pub const EP_KIND_INVALID: u64 = 0;

/// Endpoint kind: send channel.
pub const EP_KIND_SEND: u64 = 1;

/// Endpoint kind: receive channel.
pub const EP_KIND_RECV: u64 = 2;

/// Endpoint kind: memory window.
pub const EP_KIND_MEM: u64 = 3;

/// The key word written over an endpoint's key to erase it.
pub const ERASE_KEY: u64 = 0;

/// The kind field of an endpoint's first register.
pub open spec fn ep_kind(r0: u64) -> u64 {
    r0 & 0x7
}

/// Current credits of a send endpoint.
pub open spec fn snd_cur(r0: u64) -> u64 {
    (r0 >> 10) & 0x3FF
}

/// Maximum credits of a send endpoint.
pub open spec fn snd_max(r0: u64) -> u64 {
    (r0 >> 20) & 0x3FF
}

/// Destination endpoint of a send endpoint; for a reply endpoint, the
/// send endpoint it replies on behalf of.
pub open spec fn snd_dst_ep(r0: u64) -> u64 {
    (r0 >> 37) & 0xFFFF
}

/// Target tile of a send endpoint.
pub open spec fn snd_tgt_tile(r1: u64) -> u64 {
    (r1 >> 16) & 0xFFFF
}

/// Reply-endpoint base of a receive endpoint.
pub open spec fn rcv_reply_eps(r0: u64) -> u64 {
    (r0 >> 19) & 0xFFFF
}

/// Buffer order of a receive endpoint.
pub open spec fn rcv_buf_ord(r0: u64) -> u64 {
    (r0 >> 35) & 0x3F
}

/// Occupied-slot mask of a receive endpoint.
pub open spec fn rcv_occupied(r2: u64) -> u64 {
    r2 & 0xFFFF_FFFF
}

/// Unread-slot mask of a receive endpoint.
pub open spec fn rcv_unread(r2: u64) -> u64 {
    r2 >> 32
}

/// Message order of a send or receive endpoint.
pub open spec fn ep_msg_order(r0: u64) -> u64 {
    (r0 >> 4) & 0x3F
}

/// Activity a send endpoint is configured for.
pub open spec fn snd_act(r1: u64) -> u64 {
    r1 & 0xFFFF
}

/// Label a send endpoint stamps on its messages.
pub open spec fn snd_label(r1: u64) -> u64 {
    r1 >> 32
}

/// Activity a receive endpoint is configured for.
pub open spec fn rcv_act(r0: u64) -> u64 {
    (r0 >> 41) & 0xFFFF
}

/// Permissions of a memory endpoint.
pub open spec fn mem_perms(r0: u64) -> u64 {
    (r0 >> 4) & 0xF
}

/// Activity a memory endpoint is configured for.
pub open spec fn mem_act(r0: u64) -> u64 {
    (r0 >> 8) & 0xFFFF
}

/// Target tile of a memory endpoint.
pub open spec fn mem_tile(r0: u64) -> u64 {
    (r0 >> 24) & 0xFFFF
}

/// The communication units of the whole machine, flattened into one
/// register array per register kind, plus the key context the kernel's
/// scratch endpoint currently holds.
#[derive(Debug)]
pub struct Tcu {
    /// FEATURES register of each tile.
    pub features: Vec<u64>,
    /// Extended-command register of each tile.
    pub ext_cmd: Vec<u64>,
    /// Attestation key of each tile.
    pub keys: Vec<u64>,
    /// Whether each tile passed the attestation exchange.
    pub attested: Vec<bool>,
    /// `EP_REGS` registers per endpoint per tile, flattened.
    pub ep_regs: Vec<u64>,
    /// One key word per endpoint per tile, flattened.
    pub ep_keys: Vec<u64>,
    /// The key context loaded into the kernel's scratch endpoint.
    pub cur_key: u64,
}

impl Tcu {
    /// Number of tiles the register arrays describe.
    pub open spec fn spec_tiles(self) -> int {
        self.features@.len() as int
    }

    /// All register arrays sized to the tile count.
    pub open spec fn wf(self) -> bool {
        &&& self.ext_cmd@.len() == self.spec_tiles()
        &&& self.keys@.len() == self.spec_tiles()
        &&& self.attested@.len() == self.spec_tiles()
        &&& self.ep_regs@.len() == self.spec_tiles() * (EP_REGS * AVAIL_EPS)
        &&& self.ep_keys@.len() == self.spec_tiles() * AVAIL_EPS
        &&& self.spec_tiles() <= 4096
    }

    /// Whether the loaded key context opens tile `t`.
    pub open spec fn key_ok(self, t: int) -> bool {
        self.cur_key == self.keys@[t]
    }

    /// Flat position of register `idx` of endpoint `ep` on tile `t`.
    pub open spec fn reg_pos(t: int, ep: int, idx: int) -> int {
        t * (EP_REGS * AVAIL_EPS) + ep * EP_REGS + idx
    }

    /// Register `idx` of endpoint `ep` on tile `t`.
    pub open spec fn ep_reg(self, t: int, ep: int, idx: int) -> u64 {
        self.ep_regs@[Tcu::reg_pos(t, ep, idx)]
    }

    /// A machine of `n` tiles whose register files answer to `key`.
    pub fn new(n: usize, key: u64) -> (r: Tcu)
        requires
            n <= 4096,
        ensures
            r.wf(),
            r.spec_tiles() == n,
            r.cur_key == 0,
            forall|t: int| 0 <= t < n ==> #[trigger] r.keys@[t] == key,
            forall|t: int| 0 <= t < n ==> #[trigger] r.features@[t] == 1,
            forall|t: int| 0 <= t < n ==> !(#[trigger] r.attested@[t]),
            forall|i: int| 0 <= i < r.ep_regs@.len() ==> #[trigger] r.ep_regs@[i] == 0,
    {
        let mut features: Vec<u64> = Vec::new();
        let mut ext_cmd: Vec<u64> = Vec::new();
        let mut keys: Vec<u64> = Vec::new();
        let mut attested: Vec<bool> = Vec::new();
        let mut t: usize = 0;
        while t < n
            invariant
                t <= n,
                features@.len() == t,
                ext_cmd@.len() == t,
                keys@.len() == t,
                attested@.len() == t,
                forall|x: int| 0 <= x < t ==> #[trigger] keys@[x] == key,
                forall|x: int| 0 <= x < t ==> #[trigger] features@[x] == 1,
                forall|x: int| 0 <= x < t ==> !(#[trigger] attested@[x]),
            decreases n - t,
        {
            features.push(1);
            ext_cmd.push(0);
            keys.push(key);
            attested.push(false);
            t += 1;
        }
        proof {
            assert(n * (EP_REGS * AVAIL_EPS) <= 4096 * 192) by (nonlinear_arith)
                requires
                    0 <= (n as int) <= 4096,
            ;
            assert(n * AVAIL_EPS <= 4096 * 64) by (nonlinear_arith)
                requires
                    0 <= (n as int) <= 4096,
            ;
        }
        let total_regs = n * (EP_REGS * AVAIL_EPS);
        let mut ep_regs: Vec<u64> = Vec::new();
        let mut i: usize = 0;
        while i < total_regs
            invariant
                i <= total_regs,
                ep_regs@.len() == i,
                forall|j: int| 0 <= j < i ==> #[trigger] ep_regs@[j] == 0,
            decreases total_regs - i,
        {
            ep_regs.push(0);
            i += 1;
        }
        let total_keys = n * AVAIL_EPS;
        let mut ep_keys: Vec<u64> = Vec::new();
        let mut k: usize = 0;
        while k < total_keys
            invariant
                k <= total_keys,
                ep_keys@.len() == k,
            decreases total_keys - k,
        {
            ep_keys.push(0);
            k += 1;
        }
        Tcu { features, ext_cmd, keys, attested, ep_regs, ep_keys, cur_key: 0 }
    }

    /// Number of tiles.
    pub fn num_tiles(&self) -> (n: usize)
        ensures
            n == self.spec_tiles(),
    {
        self.features.len()
    }

    /// Bounds of a flat register position.
    pub proof fn lemma_reg_pos(self, t: int, ep: int, idx: int)
        requires
            self.wf(),
            0 <= t < self.spec_tiles(),
            0 <= ep < AVAIL_EPS,
            0 <= idx < EP_REGS,
        ensures
            0 <= Tcu::reg_pos(t, ep, idx) < self.ep_regs@.len(),
            Tcu::reg_pos(t, ep, idx) < self.spec_tiles() * (EP_REGS * AVAIL_EPS),
    {
        assert(t * 192 + ep * 3 + idx < (t + 1) * 192 <= self.spec_tiles() * 192) by (nonlinear_arith)
            requires
                0 <= t,
                t < self.spec_tiles(),
                0 <= ep < 64,
                0 <= idx < 3,
        ;
    }

    /// Reads one endpoint register; refused without the tile's key.
    pub fn try_read_ep_reg(&self, tile: TileId, ep: EpId, idx: usize) -> (r: Result<u64, Error>)
        requires
            self.wf(),
            tile < self.spec_tiles(),
            ep < AVAIL_EPS,
            idx < EP_REGS,
        ensures
            match r {
                Result::Ok(v) => self.key_ok(tile as int) && v == self.ep_reg(
                    tile as int,
                    ep as int,
                    idx as int,
                ),
                Result::Err(e) => !self.key_ok(tile as int) && e.code == Code::NoPerm,
            },
    {
        if self.cur_key != self.keys[tile] {
            return Err(Error::new(Code::NoPerm));
        }
        proof {
            self.lemma_reg_pos(tile as int, ep as int, idx as int);
        }
        Ok(self.ep_regs[tile * (EP_REGS * AVAIL_EPS) + ep * EP_REGS + idx])
    }

    /// Writes one endpoint register; refused without the tile's key.
    pub fn try_write_ep_reg(&mut self, tile: TileId, ep: EpId, idx: usize, v: u64) -> (r: Result<
        (),
        Error,
    >)
        requires
            old(self).wf(),
            tile < old(self).spec_tiles(),
            ep < AVAIL_EPS,
            idx < EP_REGS,
        ensures
            final(self).wf(),
            final(self).spec_tiles() == old(self).spec_tiles(),
            final(self).cur_key == old(self).cur_key,
            final(self).features == old(self).features,
            final(self).ext_cmd == old(self).ext_cmd,
            final(self).keys == old(self).keys,
            final(self).attested == old(self).attested,
            final(self).ep_keys == old(self).ep_keys,
            match r {
                Result::Ok(()) => old(self).key_ok(tile as int) && final(self).ep_regs@ == old(
                    self,
                ).ep_regs@.update(Tcu::reg_pos(tile as int, ep as int, idx as int), v),
                Result::Err(e) => {
                    &&& !old(self).key_ok(tile as int)
                    &&& e.code == Code::NoPerm
                    &&& *final(self) == *old(self)
                },
            },
    {
        if self.cur_key != self.keys[tile] {
            return Err(Error::new(Code::NoPerm));
        }
        proof {
            self.lemma_reg_pos(tile as int, ep as int, idx as int);
        }
        self.ep_regs[tile * (EP_REGS * AVAIL_EPS) + ep * EP_REGS + idx] = v;
        Ok(())
    }

    /// Writes one endpoint key word; refused without the tile's key.
    pub fn try_write_ep_key(&mut self, tile: TileId, ep: EpId, v: u64) -> (r: Result<(), Error>)
        requires
            old(self).wf(),
            tile < old(self).spec_tiles(),
            ep < AVAIL_EPS,
        ensures
            final(self).wf(),
            final(self).spec_tiles() == old(self).spec_tiles(),
            final(self).cur_key == old(self).cur_key,
            final(self).features == old(self).features,
            final(self).ext_cmd == old(self).ext_cmd,
            final(self).keys == old(self).keys,
            final(self).attested == old(self).attested,
            final(self).ep_regs == old(self).ep_regs,
            match r {
                Result::Ok(()) => old(self).key_ok(tile as int) && final(self).ep_keys@ == old(
                    self,
                ).ep_keys@.update(tile as int * AVAIL_EPS + ep as int, v),
                Result::Err(e) => {
                    &&& !old(self).key_ok(tile as int)
                    &&& e.code == Code::NoPerm
                    &&& *final(self) == *old(self)
                },
            },
    {
        if self.cur_key != self.keys[tile] {
            return Err(Error::new(Code::NoPerm));
        }
        proof {
            let nt = old(self).spec_tiles();
            assert(tile * 64 + ep < (tile + 1) * 64 <= nt * 64) by (nonlinear_arith)
                requires
                    0 <= (tile as int) < nt,
                    0 <= (ep as int) < 64,
            ;
        }
        self.ep_keys[tile * AVAIL_EPS + ep] = v;
        Ok(())
    }

    /// Reads the FEATURES register; refused without the tile's key.
    pub fn try_read_features(&self, tile: TileId) -> (r: Result<u64, Error>)
        requires
            self.wf(),
            tile < self.spec_tiles(),
        ensures
            match r {
                Result::Ok(v) => self.key_ok(tile as int) && v == self.features@[tile as int],
                Result::Err(e) => !self.key_ok(tile as int) && e.code == Code::NoPerm,
            },
    {
        if self.cur_key != self.keys[tile] {
            return Err(Error::new(Code::NoPerm));
        }
        Ok(self.features[tile])
    }

    /// Writes the FEATURES register; refused without the tile's key.
    pub fn try_write_features(&mut self, tile: TileId, v: u64) -> (r: Result<(), Error>)
        requires
            old(self).wf(),
            tile < old(self).spec_tiles(),
        ensures
            final(self).wf(),
            final(self).spec_tiles() == old(self).spec_tiles(),
            final(self).cur_key == old(self).cur_key,
            final(self).ext_cmd == old(self).ext_cmd,
            final(self).keys == old(self).keys,
            final(self).attested == old(self).attested,
            final(self).ep_regs == old(self).ep_regs,
            final(self).ep_keys == old(self).ep_keys,
            match r {
                Result::Ok(()) => old(self).key_ok(tile as int) && final(self).features@ == old(
                    self,
                ).features@.update(tile as int, v),
                Result::Err(e) => {
                    &&& !old(self).key_ok(tile as int)
                    &&& e.code == Code::NoPerm
                    &&& *final(self) == *old(self)
                },
            },
    {
        if self.cur_key != self.keys[tile] {
            return Err(Error::new(Code::NoPerm));
        }
        self.features[tile] = v;
        Ok(())
    }

    /// Writes the extended-command register, which makes the unit run the
    /// command; the register then holds `IDLE`, the error code and the
    /// result, packed as the protocol prescribes.  Refused without the
    /// tile's key.
    #[verifier::rlimit(60)]
    pub fn try_write_ext_cmd(&mut self, tile: TileId, cmd: u64) -> (r: Result<(), Error>)
        requires
            old(self).wf(),
            tile < old(self).spec_tiles(),
        ensures
            final(self).wf(),
            final(self).spec_tiles() == old(self).spec_tiles(),
            final(self).cur_key == old(self).cur_key,
            final(self).keys == old(self).keys,
            final(self).features == old(self).features,
            final(self).ep_keys == old(self).ep_keys,
            match r {
                Result::Ok(()) => {
                    &&& old(self).key_ok(tile as int)
                    &&& final(self).ext_cmd@.len() == old(self).ext_cmd@.len()
                    &&& forall|t: int|
                        0 <= t < old(self).ext_cmd@.len() && t != tile
                            ==> final(self).ext_cmd@[t] == old(self).ext_cmd@[t]
                    &&& final(self).ext_cmd@[tile as int] == ext_result_of(old(self).ep_regs@, tile as int, cmd)
                    &&& final(self).ep_regs@ == ep_regs_after_cmd(old(self).ep_regs@, tile as int, cmd)
                    &&& final(self).attested@ == (if cmd & 0xF == EXT_OP_ATTEST {
                        old(self).attested@.update(tile as int, true)
                    } else {
                        old(self).attested@
                    })
                },
                Result::Err(e) => {
                    &&& !old(self).key_ok(tile as int)
                    &&& e.code == Code::NoPerm
                    &&& *final(self) == *old(self)
                },
            },
    {
        if self.cur_key != self.keys[tile] {
            return Err(Error::new(Code::NoPerm));
        }
        let ghost pre = *self;
        let op = cmd & 0xF;
        let mut code = Code::Success;
        let mut val: u64 = 0;
        if op == EXT_OP_INV_EP {
            let ep = ((cmd >> 9) & 0xFFFF) as usize;
            let force = ((cmd >> 25) & 1) == 1;
            if ep >= AVAIL_EPS {
                code = Code::InvArgs;
            } else {
                proof {
                    self.lemma_reg_pos(tile as int, ep as int, 0);
                    self.lemma_reg_pos(tile as int, ep as int, 1);
                    self.lemma_reg_pos(tile as int, ep as int, 2);
                }
                let base = tile * (EP_REGS * AVAIL_EPS) + ep * EP_REGS;
                let r0 = self.ep_regs[base];
                let r2 = self.ep_regs[base + 2];
                if r0 & 0x7 == EP_KIND_SEND && !force && (r0 >> 10) & 0x3FF != (r0 >> 20) & 0x3FF {
                    code = Code::NoCredits;
                } else {
                    if r0 & 0x7 == EP_KIND_RECV {
                        val = r2 >> 32;
                        proof {
                            assert(r2 >> 32 <= 0xFFFF_FFFF) by (bit_vector);
                        }
                    }
                    self.ep_regs[base] = 0;
                    self.ep_regs[base + 1] = 0;
                    self.ep_regs[base + 2] = 0;
                }
            }
        } else if op == EXT_OP_RESET {
        } else if op == EXT_OP_ATTEST {
            self.attested[tile] = true;
        } else if op == EXT_OP_GEN_KEY {
        } else {
            code = Code::InvArgs;
        }
        let cv = code.val();
        let res = (cv << 4) | (val << 9);
        self.ext_cmd[tile] = res;
        proof {
            assert(((cmd >> 9) & 0xFFFF) <= 0xFFFF) by (bit_vector);
            assert(ext_cmd_outcome(pre.ep_regs@, tile as int, cmd) == (code, val));
            assert(self.ext_cmd@[tile as int] == ext_result_of(pre.ep_regs@, tile as int, cmd));
            assert(self.ep_regs@ =~= ep_regs_after_cmd(pre.ep_regs@, tile as int, cmd));
        }
        Ok(())
    }
}

/// The packed value the extended-command register holds after a command:
/// `IDLE` in the low bits, the error code above them, the result on top.
pub open spec fn ext_result(code: Code, val: u64) -> u64 {
    (code.spec_val() << 4) | (val << 9)
}

/// The error code and result a command produces on the given endpoint
/// registers.
pub open spec fn ext_cmd_outcome(regs: Seq<u64>, t: int, cmd: u64) -> (Code, u64) {
    let op = cmd & 0xF;
    if op == EXT_OP_INV_EP {
        let ep = ((cmd >> 9) & 0xFFFF) as int;
        let force = ((cmd >> 25) & 1) == 1;
        if ep >= AVAIL_EPS {
            (Code::InvArgs, 0)
        } else {
            let r0 = regs[Tcu::reg_pos(t, ep, 0)];
            let r2 = regs[Tcu::reg_pos(t, ep, 2)];
            if ep_kind(r0) == EP_KIND_SEND && !force && snd_cur(r0) != snd_max(r0) {
                (Code::NoCredits, 0)
            } else {
                (Code::Success, if ep_kind(r0) == EP_KIND_RECV { rcv_unread(r2) } else { 0 })
            }
        }
    } else if op == EXT_OP_RESET || op == EXT_OP_ATTEST || op == EXT_OP_GEN_KEY {
        (Code::Success, 0)
    } else {
        (Code::InvArgs, 0)
    }
}

/// The extended-command register's value after a command.
pub open spec fn ext_result_of(regs: Seq<u64>, t: int, cmd: u64) -> u64 {
    ext_result(ext_cmd_outcome(regs, t, cmd).0, ext_cmd_outcome(regs, t, cmd).1)
}

/// The endpoint registers after a command: a successful invalidation
/// clears the endpoint's three registers, everything else leaves them.
pub open spec fn ep_regs_after_cmd(regs: Seq<u64>, t: int, cmd: u64) -> Seq<u64> {
    let op = cmd & 0xF;
    if op == EXT_OP_INV_EP {
        let ep = ((cmd >> 9) & 0xFFFF) as int;
        if ep < AVAIL_EPS && ext_cmd_outcome(regs, t, cmd).0 == Code::Success {
            regs.update(Tcu::reg_pos(t, ep, 0), 0u64).update(Tcu::reg_pos(t, ep, 1), 0u64).update(
                Tcu::reg_pos(t, ep, 2),
                0u64,
            )
        } else {
            regs
        }
    } else {
        regs
    }
}

/// Register positions of distinct endpoints never collide.
pub proof fn lemma_reg_pos_injective(t1: int, e1: int, i1: int, t2: int, e2: int)
    requires
        0 <= t1,
        0 <= t2,
        0 <= e1 < AVAIL_EPS,
        0 <= e2 < AVAIL_EPS,
        0 <= i1 < EP_REGS,
    ensures
        t1 != t2 || e1 != e2 ==> forall|i2: int|
            0 <= i2 < EP_REGS ==> Tcu::reg_pos(t1, e1, i1) != Tcu::reg_pos(t2, e2, i2),
{
    if t1 != t2 || e1 != e2 {
        assert forall|i2: int| 0 <= i2 < EP_REGS implies Tcu::reg_pos(t1, e1, i1) != Tcu::reg_pos(
            t2,
            e2,
            i2,
        ) by {
            assert(t1 * 192 + e1 * 3 + i1 != t2 * 192 + e2 * 3 + i2) by (nonlinear_arith)
                requires
                    0 <= t1,
                    0 <= t2,
                    0 <= e1 < 64,
                    0 <= e2 < 64,
                    0 <= i1 < 3,
                    0 <= i2 < 3,
                    t1 != t2 || e1 != e2,
            ;
        }
    }
}

/// Decoding the packed extended-command result recovers the opcode state,
/// the error code and the result exactly.
pub proof fn lemma_ext_result_decode(code: Code, val: u64)
    requires
        val <= 0xFFFF_FFFF,
    ensures
        ext_result(code, val) & 0xF == EXT_OP_IDLE,
        (ext_result(code, val) >> 4) & 0x1F == code.spec_val(),
        ext_result(code, val) >> 9 == val,
{
    let cv = code.spec_val();
    assert(cv < 32);
    assert(((cv << 4) | (val << 9)) & 0xF == 0 && (((cv << 4) | (val << 9)) >> 4) & 0x1F == cv
        && ((cv << 4) | (val << 9)) >> 9 == val) by (bit_vector)
        requires
            cv < 32,
            val <= 0xFFFF_FFFF,
    ;
}

} // verus!
