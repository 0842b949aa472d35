//! The side-call protocol: small fixed-format messages the kernel sends
//! to a tile's resident stub, and the replies coming back.
//!
//! A message is an opcode word followed by its typed payload; a reply is
//! an error word followed by up to two payload words.  Encoding and
//! decoding are exact inverses, so nothing is lost on the wire.

use vstd::prelude::*;

use crate::err::{Code, Error};
use crate::kobj::{ActId, EpId, Goff};

verus! {

/// Opcode of `ActInit`.
pub const OP_ACT_INIT: u64 = 1;

/// Opcode of `ActivityCtrl`.
pub const OP_ACT_CTRL: u64 = 2;

/// Opcode of `DeriveQuota`.
pub const OP_DERIVE_QUOTA: u64 = 3;

/// Opcode of `GetQuota`.
pub const OP_GET_QUOTA: u64 = 4;

/// Opcode of `SetQuota`.
pub const OP_SET_QUOTA: u64 = 5;

/// Opcode of `RemoveQuotas`.
pub const OP_REMOVE_QUOTAS: u64 = 6;

/// Opcode of `MapRange`; an unmap is a map of the null address with no
/// permissions.
pub const OP_MAP: u64 = 7;

/// Opcode of `Translate`.
pub const OP_TRANSLATE: u64 = 8;

/// Opcode of `EpInval`.
pub const OP_EP_INVAL: u64 = 9;

/// Opcode of `RemMsgs`.
pub const OP_REM_MSGS: u64 = 10;

/// Opcode of `ResetStats`.
pub const OP_RESET_STATS: u64 = 11;

/// A side-call message to a tile-resident stub.
#[derive(Clone, Copy, Debug, PartialEq, Eq, Structural)]
pub enum Sidecall {
    /// Introduce an activity with its quota identifiers and its first
    /// standard endpoint.
    ActInit { act: u64, time_quota: u64, pt_quota: u64, eps_start: u64 },
    /// Start or stop an activity.
    ActivityCtrl { act: u64, ctrl: u64 },
    /// Split new time and page-table quotas off existing ones.
    DeriveQuota { parent_time: u64, parent_pts: u64, time: u64, pts: u64 },
    /// Read two quota meters.
    GetQuota { time: u64, pts: u64 },
    /// Overwrite one quota.
    SetQuota { id: u64, time: u64, pts: u64 },
    /// Drop two quotas.
    RemoveQuotas { time: u64, pts: u64 },
    /// Map a page range; the permission word 0 with global address 0
    /// unmaps it.
    MapRange { act: u64, virt: Goff, global: Goff, pages: u64, perm: u64 },
    /// Translate a virtual address.
    Translate { act: u64, virt: Goff, perm: u64 },
    /// Tell the stub one of its endpoints was invalidated.
    EpInval { act: u64, ep: u64 },
    /// Tell the stub which unread messages were dropped with an endpoint.
    RemMsgs { act: u64, unread_mask: u64 },
    /// Reset the stub's statistics.
    ResetStats,
}

/// The wire form of a side-call.
pub open spec fn spec_encode(c: Sidecall) -> Seq<u64> {
    match c {
        Sidecall::ActInit { act, time_quota, pt_quota, eps_start } => seq![
            OP_ACT_INIT,
            act,
            time_quota,
            pt_quota,
            eps_start,
        ],
        Sidecall::ActivityCtrl { act, ctrl } => seq![OP_ACT_CTRL, act, ctrl],
        Sidecall::DeriveQuota { parent_time, parent_pts, time, pts } => seq![
            OP_DERIVE_QUOTA,
            parent_time,
            parent_pts,
            time,
            pts,
        ],
        Sidecall::GetQuota { time, pts } => seq![OP_GET_QUOTA, time, pts],
        Sidecall::SetQuota { id, time, pts } => seq![OP_SET_QUOTA, id, time, pts],
        Sidecall::RemoveQuotas { time, pts } => seq![OP_REMOVE_QUOTAS, time, pts],
        Sidecall::MapRange { act, virt, global, pages, perm } => seq![
            OP_MAP,
            act,
            virt,
            global,
            pages,
            perm,
        ],
        Sidecall::Translate { act, virt, perm } => seq![OP_TRANSLATE, act, virt, perm],
        Sidecall::EpInval { act, ep } => seq![OP_EP_INVAL, act, ep],
        Sidecall::RemMsgs { act, unread_mask } => seq![OP_REM_MSGS, act, unread_mask],
        Sidecall::ResetStats => seq![OP_RESET_STATS],
    }
}

/// What a word sequence decodes to, if anything.
pub open spec fn spec_decode(w: Seq<u64>) -> Option<Sidecall> {
    if w.len() == 0 {
        Option::None
    } else if w[0] == OP_ACT_INIT && w.len() == 5 {
        Option::Some(
            Sidecall::ActInit { act: w[1], time_quota: w[2], pt_quota: w[3], eps_start: w[4] },
        )
    } else if w[0] == OP_ACT_CTRL && w.len() == 3 {
        Option::Some(Sidecall::ActivityCtrl { act: w[1], ctrl: w[2] })
    } else if w[0] == OP_DERIVE_QUOTA && w.len() == 5 {
        Option::Some(
            Sidecall::DeriveQuota { parent_time: w[1], parent_pts: w[2], time: w[3], pts: w[4] },
        )
    } else if w[0] == OP_GET_QUOTA && w.len() == 3 {
        Option::Some(Sidecall::GetQuota { time: w[1], pts: w[2] })
    } else if w[0] == OP_SET_QUOTA && w.len() == 4 {
        Option::Some(Sidecall::SetQuota { id: w[1], time: w[2], pts: w[3] })
    } else if w[0] == OP_REMOVE_QUOTAS && w.len() == 3 {
        Option::Some(Sidecall::RemoveQuotas { time: w[1], pts: w[2] })
    } else if w[0] == OP_MAP && w.len() == 6 {
        Option::Some(
            Sidecall::MapRange { act: w[1], virt: w[2], global: w[3], pages: w[4], perm: w[5] },
        )
    } else if w[0] == OP_TRANSLATE && w.len() == 4 {
        Option::Some(Sidecall::Translate { act: w[1], virt: w[2], perm: w[3] })
    } else if w[0] == OP_EP_INVAL && w.len() == 3 {
        Option::Some(Sidecall::EpInval { act: w[1], ep: w[2] })
    } else if w[0] == OP_REM_MSGS && w.len() == 3 {
        Option::Some(Sidecall::RemMsgs { act: w[1], unread_mask: w[2] })
    } else if w[0] == OP_RESET_STATS && w.len() == 1 {
        Option::Some(Sidecall::ResetStats)
    } else {
        Option::None
    }
}

/// Law: decoding undoes encoding for every side-call.
pub proof fn lemma_sidecall_round_trip(c: Sidecall)
    ensures
        spec_decode(spec_encode(c)) == Option::Some(c),
{
}

/// Builds the wire form of a side-call.
pub fn encode(c: &Sidecall) -> (w: Vec<u64>)
    ensures
        w@ == spec_encode(*c),
{
    let mut v: Vec<u64> = Vec::new();
    match c {
        Sidecall::ActInit { act, time_quota, pt_quota, eps_start } => {
            v.push(OP_ACT_INIT);
            v.push(*act);
            v.push(*time_quota);
            v.push(*pt_quota);
            v.push(*eps_start);
        },
        Sidecall::ActivityCtrl { act, ctrl } => {
            v.push(OP_ACT_CTRL);
            v.push(*act);
            v.push(*ctrl);
        },
        Sidecall::DeriveQuota { parent_time, parent_pts, time, pts } => {
            v.push(OP_DERIVE_QUOTA);
            v.push(*parent_time);
            v.push(*parent_pts);
            v.push(*time);
            v.push(*pts);
        },
        Sidecall::GetQuota { time, pts } => {
            v.push(OP_GET_QUOTA);
            v.push(*time);
            v.push(*pts);
        },
        Sidecall::SetQuota { id, time, pts } => {
            v.push(OP_SET_QUOTA);
            v.push(*id);
            v.push(*time);
            v.push(*pts);
        },
        Sidecall::RemoveQuotas { time, pts } => {
            v.push(OP_REMOVE_QUOTAS);
            v.push(*time);
            v.push(*pts);
        },
        Sidecall::MapRange { act, virt, global, pages, perm } => {
            v.push(OP_MAP);
            v.push(*act);
            v.push(*virt);
            v.push(*global);
            v.push(*pages);
            v.push(*perm);
        },
        Sidecall::Translate { act, virt, perm } => {
            v.push(OP_TRANSLATE);
            v.push(*act);
            v.push(*virt);
            v.push(*perm);
        },
        Sidecall::EpInval { act, ep } => {
            v.push(OP_EP_INVAL);
            v.push(*act);
            v.push(*ep);
        },
        Sidecall::RemMsgs { act, unread_mask } => {
            v.push(OP_REM_MSGS);
            v.push(*act);
            v.push(*unread_mask);
        },
        Sidecall::ResetStats => {
            v.push(OP_RESET_STATS);
        },
    }
    proof {
        assert(v@ =~= spec_encode(*c));
    }
    v
}

/// Decodes a wire message.
pub fn decode(w: &Vec<u64>) -> (r: Option<Sidecall>)
    ensures
        r == spec_decode(w@),
{
    if w.len() == 0 {
        return None;
    }
    let op = w[0];
    if op == OP_ACT_INIT && w.len() == 5 {
        Some(Sidecall::ActInit { act: w[1], time_quota: w[2], pt_quota: w[3], eps_start: w[4] })
    } else if op == OP_ACT_CTRL && w.len() == 3 {
        Some(Sidecall::ActivityCtrl { act: w[1], ctrl: w[2] })
    } else if op == OP_DERIVE_QUOTA && w.len() == 5 {
        Some(Sidecall::DeriveQuota { parent_time: w[1], parent_pts: w[2], time: w[3], pts: w[4] })
    } else if op == OP_GET_QUOTA && w.len() == 3 {
        Some(Sidecall::GetQuota { time: w[1], pts: w[2] })
    } else if op == OP_SET_QUOTA && w.len() == 4 {
        Some(Sidecall::SetQuota { id: w[1], time: w[2], pts: w[3] })
    } else if op == OP_REMOVE_QUOTAS && w.len() == 3 {
        Some(Sidecall::RemoveQuotas { time: w[1], pts: w[2] })
    } else if op == OP_MAP && w.len() == 6 {
        Some(Sidecall::MapRange { act: w[1], virt: w[2], global: w[3], pages: w[4], perm: w[5] })
    } else if op == OP_TRANSLATE && w.len() == 4 {
        Some(Sidecall::Translate { act: w[1], virt: w[2], perm: w[3] })
    } else if op == OP_EP_INVAL && w.len() == 3 {
        Some(Sidecall::EpInval { act: w[1], ep: w[2] })
    } else if op == OP_REM_MSGS && w.len() == 3 {
        Some(Sidecall::RemMsgs { act: w[1], unread_mask: w[2] })
    } else if op == OP_RESET_STATS && w.len() == 1 {
        Some(Sidecall::ResetStats)
    } else {
        None
    }
}

/// The wire form of a reply: error code first, then two payload words.
pub open spec fn spec_encode_reply(code: Code, val1: u64, val2: u64) -> Seq<u64> {
    seq![code.spec_val(), val1, val2]
}

/// Builds the wire form of a reply.
pub fn encode_reply(code: Code, val1: u64, val2: u64) -> (w: Vec<u64>)
    ensures
        w@ == spec_encode_reply(code, val1, val2),
{
    let mut v: Vec<u64> = Vec::new();
    v.push(code.val());
    v.push(val1);
    v.push(val2);
    proof {
        assert(v@ =~= spec_encode_reply(code, val1, val2));
    }
    v
}

/// Parses a reply: the error code decides between the payload and the
/// error it names.
pub fn parse_reply(w: &Vec<u64>) -> (r: Result<(u64, u64), Error>)
    ensures
        match r {
            Result::Ok(vals) => {
                &&& w@.len() == 3
                &&& Code::spec_from_val(w@[0]) == Code::Success
                &&& vals.0 == w@[1]
                &&& vals.1 == w@[2]
            },
            Result::Err(e) => {
                &&& (w@.len() != 3 ==> e.code == Code::InvArgs)
                &&& (w@.len() == 3 ==> e.code == Code::spec_from_val(w@[0]) && e.code
                    != Code::Success)
            },
        },
{
    if w.len() != 3 {
        return Err(Error::new(Code::InvArgs));
    }
    let code = Code::from_val(w[0]);
    if code == Code::Success {
        Ok((w[1], w[2]))
    } else {
        Err(Error::new(code))
    }
}

} // verus!
