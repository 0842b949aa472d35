//! Endpoint allocation, the register-level driver, and the teardown paths
//! that cross from the capability table into the hardware model.

use capmux::caps::{CapTable, Capability};
use capmux::epalloc::EpAlloc;
use capmux::err::Code;
use capmux::kobj::{EPObject, KObject, RGateObject, SGateObject, SideEffect};
use capmux::ktcu;
use capmux::sel::SelRange;
use capmux::sidecalls::{encode, Sidecall};
use capmux::tcu::{Tcu, AVAIL_EPS, FIRST_USER_EP};
use capmux::tilemux::TileMux;

const KEY: u64 = 0x5A5A;

#[test]
fn alloc_then_free_restores_the_bitset() {
    let mut a = EpAlloc::new(AVAIL_EPS, FIRST_USER_EP);
    let before: Vec<bool> = (0..AVAIL_EPS).map(|i| a.is_set(i)).collect();
    let start = a.find_eps(4).unwrap();
    assert_eq!(start, FIRST_USER_EP);
    a.alloc_eps(start, 4);
    assert!(!a.eps_free(start, 4));
    a.free_eps(start, 4);
    let after: Vec<bool> = (0..AVAIL_EPS).map(|i| a.is_set(i)).collect();
    assert_eq!(before, after);
}

#[test]
fn find_eps_first_fit_skips_occupied_runs() {
    let mut a = EpAlloc::new(AVAIL_EPS, FIRST_USER_EP);
    // occupy one slot in the middle of the first candidate run
    a.alloc_eps(FIRST_USER_EP + 2, 1);
    let start = a.find_eps(4).unwrap();
    assert_eq!(start, FIRST_USER_EP + 3);
    assert!(a.eps_free(start, 4));
}

#[test]
fn find_eps_reports_no_space() {
    let mut a = EpAlloc::new(AVAIL_EPS, FIRST_USER_EP);
    a.alloc_eps(FIRST_USER_EP, AVAIL_EPS - FIRST_USER_EP);
    let e = a.find_eps(1).unwrap_err();
    assert_eq!(e.code(), Code::NoSpace);
}

#[test]
fn remote_access_needs_the_key_context() {
    let tcu = Tcu::new(2, KEY);
    // the scratch endpoint starts without the tile's context
    let e = tcu.try_read_ep_reg(1, 3, 0).unwrap_err();
    assert_eq!(e.code(), Code::NoPerm);
}

#[test]
fn ep_registers_round_trip() {
    let mut tcu = Tcu::new(2, KEY);
    ktcu::write_ep_remote(&mut tcu, 1, 9, (11, 22, 33), KEY).unwrap();
    let regs = ktcu::read_ep_remote(&mut tcu, 1, 9, KEY).unwrap();
    assert_eq!(regs, (11, 22, 33));
}

#[test]
fn deprivilege_clears_the_privilege_bit() {
    let mut tcu = Tcu::new(2, KEY);
    assert_eq!(tcu.features[1], 1);
    ktcu::deprivilege_tile(&mut tcu, 1, KEY).unwrap();
    assert_eq!(tcu.features[1], 0);
}

#[test]
fn invalidation_returns_the_unread_mask_and_clears_the_slot() {
    let mut tcu = Tcu::new(2, KEY);
    // a receive endpoint with three occupied slots, two of them unread
    let r0 = ktcu::config_recv(7, 0x4000, 8, 8, Some(16)).0;
    let r2 = 0b111u64 | (0b101u64 << 32);
    ktcu::write_ep_remote(&mut tcu, 1, 10, (r0, 0x4000, r2), KEY).unwrap();
    let unread = ktcu::invalidate_ep_remote(&mut tcu, 1, 10, true, KEY).unwrap();
    assert_eq!(unread, 0b101);
    let regs = ktcu::read_ep_remote(&mut tcu, 1, 10, KEY).unwrap();
    assert_eq!(regs, (0, 0, 0));
}

#[test]
fn invalidation_without_force_respects_credits() {
    let mut tcu = Tcu::new(2, KEY);
    // a send endpoint with one of two credits outstanding
    let regs = ktcu::config_send(7, 0xAB, 0, 5, 8, 2);
    ktcu::write_ep_remote(&mut tcu, 1, 12, regs, KEY).unwrap();
    let spent = (regs.0 & !(0x3FFu64 << 10)) | (1u64 << 10);
    ktcu::write_ep_remote(&mut tcu, 1, 12, (spent, regs.1, regs.2), KEY).unwrap();
    let e = ktcu::invalidate_ep_remote(&mut tcu, 1, 12, false, KEY).unwrap_err();
    assert_eq!(e.code(), Code::NoCredits);
    // with all credits back, no force is needed
    ktcu::write_ep_remote(&mut tcu, 1, 12, regs, KEY).unwrap();
    assert_eq!(ktcu::invalidate_ep_remote(&mut tcu, 1, 12, false, KEY).unwrap(), 0);
}

fn mux_on(tcu: &mut Tcu, table: &mut CapTable, tile: usize) -> TileMux {
    TileMux::new(tile, KEY, true, false, 0x8000, table, tcu)
}

#[test]
fn invalidate_ep_notifies_exactly_once_about_unread_messages() {
    let mut table = CapTable::new();
    let act = table.create_activity(100_000, false);
    let mut tcu = Tcu::new(3, KEY);
    let mut mux = mux_on(&mut tcu, &mut table, 1);
    // a receive endpoint holding unread messages
    let r0 = ktcu::config_recv(act, 0x4000, 8, 8, None).0;
    let unread_mask = 0b1101u64;
    let r2 = 0b1111u64 | (unread_mask << 32);
    ktcu::write_ep_remote(&mut tcu, 1, 20, (r0, 0x4000, r2), KEY).unwrap();
    mux.invalidate_ep(&mut tcu, &table, act, 20, true, true).unwrap();
    // exactly one side-call, carrying exactly the unread mask
    assert_eq!(mux.queue.sent.len(), 1);
    let expected = encode(&Sidecall::RemMsgs { act: act as u64, unread_mask });
    assert_eq!(mux.queue.sent[0].msg, expected);
    assert!(mux.queue.queue.is_empty());
}

#[test]
fn invalidate_ep_stays_silent_without_notify() {
    let mut table = CapTable::new();
    let act = table.create_activity(100_000, false);
    let mut tcu = Tcu::new(3, KEY);
    let mut mux = mux_on(&mut tcu, &mut table, 1);
    let r0 = ktcu::config_recv(act, 0x4000, 8, 8, None).0;
    let r2 = 0b11u64 | (0b11u64 << 32);
    ktcu::write_ep_remote(&mut tcu, 1, 20, (r0, 0x4000, r2), KEY).unwrap();
    mux.invalidate_ep(&mut tcu, &table, act, 20, true, false).unwrap();
    assert_eq!(mux.queue.sent.len(), 0);
    assert!(mux.queue.queue.is_empty());
}

#[test]
fn invalidate_ep_skips_the_sidecall_for_a_dead_activity() {
    let mut table = CapTable::new();
    let act = table.create_activity(100_000, false);
    table.acts[act].alive = false;
    let mut tcu = Tcu::new(3, KEY);
    let mut mux = mux_on(&mut tcu, &mut table, 1);
    let r0 = ktcu::config_recv(act, 0x4000, 8, 8, None).0;
    let r2 = 0b1u64 | (0b1u64 << 32);
    ktcu::write_ep_remote(&mut tcu, 1, 20, (r0, 0x4000, r2), KEY).unwrap();
    let e = mux
        .invalidate_ep(&mut tcu, &table, act, 20, true, true)
        .unwrap_err();
    assert_eq!(e.code(), Code::ActivityGone);
    assert_eq!(mux.queue.sent.len(), 0);
}

#[test]
fn revoking_a_send_gate_tears_its_endpoints_down() {
    // activity X holds a receive gate (8, 8) and a send gate bound to it
    // with one credit; revoking the send gate's capability must
    // invalidate its endpoint, invalidate reply endpoints targeting it at
    // the receive side, and leave the receive gate capability intact
    let mut table = CapTable::new();
    let act = table.create_activity(100_000, false);
    let rg = table.objs.rgates.len();
    table.objs.rgates.push(RGateObject {
        order: 8,
        msg_order: 8,
        addr: 0x4000,
        loc: None,
        ep: None,
        event: 70,
    });
    // the receive gate is activated on tile 0, endpoint 10
    let rep = table.objs.eps.len();
    table.objs.eps.push(EPObject {
        is_pmp: false,
        tile: 0,
        ep: 10,
        num: 1,
        act: Some(act),
    });
    table.objs.rgates[rg].loc = Some((0, 10));
    table.objs.rgates[rg].ep = Some(rep);
    // the send gate, activated on tile 1, endpoint 16
    let sg = table.objs.sgates.len();
    table.objs.sgates.push(SGateObject {
        label: 0x1234,
        credits: 1,
        rgate: rg,
        ep: None,
    });
    let sep = table.objs.eps.len();
    table.objs.eps.push(EPObject {
        is_pmp: false,
        tile: 1,
        ep: 16,
        num: 1,
        act: Some(act),
    });
    table.objs.sgates[sg].ep = Some(sep);
    table
        .insert(Capability::new(act, 10, KObject::RGate(rg)))
        .unwrap();
    table
        .insert(Capability::new(act, 11, KObject::SGate(sg)))
        .unwrap();
    let mut eff = Vec::new();
    table
        .revoke_async(act, SelRange::new(11), true, &mut eff)
        .unwrap();
    assert_eq!(
        eff,
        vec![
            SideEffect::InvalidateReplyEps {
                recv_tile: 0,
                recv_ep: 10,
                send_tile: 1,
                send_ep: 16
            },
            SideEffect::InvalidateEp { tile: 1, act, ep: 16, notify: true },
            SideEffect::FreeEps { tile: 1, ep: 16, num: 1 },
        ]
    );
    // the receive gate's capability survives, still activated
    assert!(table.get(act, 10).is_some());
    assert!(table.get(act, 11).is_none());
    assert!(table.objs.rgates[rg].loc.is_some());
}

#[test]
fn reply_endpoints_targeting_a_revoked_sender_are_invalidated() {
    let mut table = CapTable::new();
    let _act = table.create_activity(100_000, false);
    let mut tcu = Tcu::new(3, KEY);
    let mux = mux_on(&mut tcu, &mut table, 1);
    // the receive endpoint on tile 0, slot 10: one occupied slot, reply
    // endpoints starting at 24
    let r0 = ktcu::config_recv(7, 0x4000, 3, 3, Some(24)).0;
    let r2 = 0b1u64;
    ktcu::write_ep_remote(&mut tcu, 0, 10, (r0, 0x4000, r2), KEY).unwrap();
    // its first reply endpoint targets tile 1, send endpoint 16
    let reply = ktcu::config_send(7, 0, 1, 16, 3, 1);
    ktcu::write_ep_remote(&mut tcu, 0, 24, reply, KEY).unwrap();
    mux.invalidate_reply_eps(&mut tcu, 0, 10, 16, KEY).unwrap();
    let regs = ktcu::read_ep_remote(&mut tcu, 0, 24, KEY).unwrap();
    assert_eq!(regs, (0, 0, 0));
}

#[test]
fn tilemux_allocates_and_frees_user_endpoints() {
    let mut table = CapTable::new();
    let mut tcu = Tcu::new(3, KEY);
    let mut mux = mux_on(&mut tcu, &mut table, 2);
    assert_eq!(mux.tile_id(), 2);
    let start = mux.find_eps(2).unwrap();
    assert_eq!(start, FIRST_USER_EP);
    assert!(mux.eps_free(start, 2));
    mux.alloc_eps(start, 2);
    assert!(!mux.eps_free(start, 2));
    mux.free_eps(start, 2);
    assert!(mux.eps_free(start, 2));
}

#[test]
fn resident_activities_are_counted_on_the_tile_object() {
    let mut table = CapTable::new();
    let act = table.create_activity(100_000, false);
    let mut tcu = Tcu::new(3, KEY);
    let mut mux = mux_on(&mut tcu, &mut table, 1);
    assert!(!mux.has_activities());
    mux.add_activity(act, &mut table);
    assert!(mux.has_activities());
    assert_eq!(table.objs.tiles[mux.tile()].vpes, 1);
    mux.rem_activity(act, &mut table);
    assert!(!mux.has_activities());
    assert_eq!(table.objs.tiles[mux.tile()].vpes, 0);
}
