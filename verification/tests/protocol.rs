//! The side-call wire protocol, the FIFO send queue, and the boot path
//! through the tile manager.

use capmux::caps::CapTable;
use capmux::err::Code;
use capmux::lazy::{LazyStaticCell, LazyStaticRefCell, LazyStaticUnsafeCell};
use capmux::platform::{Platform, TileDesc};
use capmux::sendqueue::{QState, SendQueue, ThreadMng};
use capmux::sidecalls::{decode, encode, encode_reply, parse_reply, Sidecall};
use capmux::tcu::Tcu;
use capmux::tilemng::{attest_tile_master, find_tile, TileMng};

const KEY: u64 = 0x77;

#[test]
fn sidecalls_survive_the_wire() {
    let calls = vec![
        Sidecall::ActInit { act: 3, time_quota: 9, pt_quota: 8, eps_start: 16 },
        Sidecall::ActivityCtrl { act: 3, ctrl: 1 },
        Sidecall::DeriveQuota { parent_time: 1, parent_pts: 2, time: 3, pts: 4 },
        Sidecall::GetQuota { time: 1, pts: 2 },
        Sidecall::SetQuota { id: 5, time: 6, pts: 7 },
        Sidecall::RemoveQuotas { time: 1, pts: 2 },
        Sidecall::MapRange { act: 3, virt: 0x1000, global: 0x8000, pages: 4, perm: 3 },
        Sidecall::Translate { act: 3, virt: 0x2000, perm: 1 },
        Sidecall::EpInval { act: 3, ep: 17 },
        Sidecall::RemMsgs { act: 3, unread_mask: 0b101 },
        Sidecall::ResetStats,
    ];
    for c in calls {
        let w = encode(&c);
        assert_eq!(decode(&w), Some(c));
    }
    // a garbled message decodes to nothing
    assert_eq!(decode(&vec![]), None);
    assert_eq!(decode(&vec![99, 1, 2]), None);
}

#[test]
fn replies_carry_code_and_payload() {
    let ok = encode_reply(Code::Success, 11, 22);
    assert_eq!(parse_reply(&ok).unwrap(), (11, 22));
    let bad = encode_reply(Code::InvArgs, 0, 0);
    assert_eq!(parse_reply(&bad).unwrap_err().code(), Code::InvArgs);
    assert_eq!(parse_reply(&vec![1, 2]).unwrap_err().code(), Code::InvArgs);
}

#[test]
fn error_codes_round_trip_through_registers() {
    for v in 0..9u64 {
        let c = Code::from_val(v);
        assert_eq!(c.val(), v);
    }
    assert_eq!(Code::from_val(31), Code::Unknown);
    assert_eq!(Code::from_val(17), Code::Unknown);
}

#[test]
fn three_sends_complete_in_submission_order() {
    let mut q = SendQueue::new(7, 1);
    let mut tm = ThreadMng::new();
    let e1 = q.send(vec![1]).unwrap();
    let e2 = q.send(vec![2]).unwrap();
    let e3 = q.send(vec![3]).unwrap();
    // only the first went on the wire; the rest are backed up in order
    assert_eq!(q.sent.len(), 1);
    assert_eq!(q.queue.len(), 2);
    assert_eq!(q.state, QState::Waiting);
    // each reply completes the oldest outstanding send
    q.received_reply(&mut tm, vec![10]);
    assert_eq!(tm.notified.last().unwrap().0, e1);
    assert_eq!(q.sent.len(), 2);
    q.received_reply(&mut tm, vec![20]);
    assert_eq!(tm.notified.last().unwrap().0, e2);
    assert_eq!(q.sent.len(), 3);
    q.received_reply(&mut tm, vec![30]);
    assert_eq!(tm.notified.last().unwrap().0, e3);
    assert_eq!(q.state, QState::Idle);
    // the wire saw the messages in submission order
    let wire: Vec<u64> = q.sent.iter().map(|e| e.msg[0]).collect();
    assert_eq!(wire, vec![1, 2, 3]);
    // and each event carries its own reply
    assert_eq!(tm.fetch(e1).unwrap(), vec![10]);
    assert_eq!(tm.fetch(e2).unwrap(), vec![20]);
    assert_eq!(tm.fetch(e3).unwrap(), vec![30]);
    assert!(tm.fetch(e3).is_none());
}

#[test]
fn dropping_a_waiting_queue_wakes_the_waiter() {
    let mut q = SendQueue::new(7, 1);
    let mut tm = ThreadMng::new();
    let ev = q.send(vec![1]).unwrap();
    q.shut_down(&mut tm);
    // the waiter gets an empty reply instead of hanging
    assert_eq!(tm.fetch(ev).unwrap(), Vec::<u64>::new());
    assert_eq!(q.state, QState::Idle);
}

fn small_platform() -> Platform {
    let kernel = TileDesc {
        user: false,
        shared: false,
        isa: 1,
        tile_type: 0,
        supports_tilemux: false,
        rbuf: 0,
    };
    let user = TileDesc {
        user: true,
        shared: true,
        isa: 2,
        tile_type: 1,
        supports_tilemux: true,
        rbuf: 0x8000,
    };
    Platform::new(0, vec![kernel, user, user])
}

#[test]
fn boot_attests_and_deprivileges_user_tiles() {
    let platform = small_platform();
    let mut table = CapTable::new();
    let mut tcu = Tcu::new(3, KEY);
    let mng = TileMng::init(&platform, KEY, &mut table, &mut tcu);
    assert_eq!(mng.len(), 2);
    // user tiles lost their privilege bit and are attested
    assert!(tcu.attested[1] && tcu.attested[2]);
    assert_eq!(tcu.features[1], 0);
    assert_eq!(tcu.features[2], 0);
    // the kernel tile keeps its privileges
    assert_eq!(tcu.features[0], 1);
}

#[test]
fn tile_manager_finds_muxes_and_tiles() {
    let platform = small_platform();
    let mut table = CapTable::new();
    let mut tcu = Tcu::new(3, KEY);
    let mut mng = TileMng::init(&platform, KEY, &mut table, &mut tcu);
    let i = mng.find_mux(2).unwrap();
    assert_eq!(mng.tilemux(i).tile_id(), 2);
    assert!(mng.find_mux(0).is_none());
    let wanted = TileDesc {
        user: true,
        shared: false,
        isa: 2,
        tile_type: 9,
        supports_tilemux: true,
        rbuf: 0,
    };
    let t = find_tile(&platform, &wanted).unwrap();
    assert!(t == 1 || t == 2);
    assert_eq!(platform.kernel_tile(), 0);
    assert!(platform.is_shared(1));
    assert_eq!(platform.rbuf_tilemux(1), 0x8000);
}

#[test]
fn attestation_marks_the_tile() {
    let mut tcu = Tcu::new(2, KEY);
    assert!(!tcu.attested[1]);
    attest_tile_master(&mut tcu, 1, KEY).unwrap();
    assert!(tcu.attested[1]);
}

#[test]
fn sidecall_requests_reach_the_queue_in_order() {
    let mut table = CapTable::new();
    let act = table.create_activity(100_000, false);
    let mut tcu = Tcu::new(2, KEY);
    let mut mux = capmux::tilemux::TileMux::new(1, KEY, true, false, 0, &mut table, &mut tcu);
    let e1 = mux
        .activity_init_async(&table, act, 9, 8, 16)
        .unwrap();
    let e2 = mux.activity_ctrl_async(&table, act, 1).unwrap();
    assert_eq!(
        mux.queue.sent[0].msg,
        encode(&Sidecall::ActInit { act: act as u64, time_quota: 9, pt_quota: 8, eps_start: 16 })
    );
    assert_eq!(
        mux.queue.queue[0].msg,
        encode(&Sidecall::ActivityCtrl { act: act as u64, ctrl: 1 })
    );
    // the embedder delivers the replies; each event claims its own
    let mut tm = ThreadMng::new();
    mux.queue.received_reply(&mut tm, encode_reply(Code::Success, 1, 2));
    mux.queue.received_reply(&mut tm, encode_reply(Code::Success, 3, 4));
    assert_eq!(
        capmux::tilemux::TileMux::receive_async(&mut tm, e1).unwrap(),
        (1, 2)
    );
    assert_eq!(
        capmux::tilemux::TileMux::receive_async(&mut tm, e2).unwrap(),
        (3, 4)
    );
    let e = capmux::tilemux::TileMux::receive_async(&mut tm, 99).unwrap_err();
    assert_eq!(e.code(), Code::RecvGone);
}

#[test]
fn quota_and_translate_replies_are_decoded() {
    let mut table = CapTable::new();
    let mut tcu = Tcu::new(2, KEY);
    let mux = capmux::tilemux::TileMux::new(1, KEY, true, false, 0, &mut table, &mut tcu);
    // total 7, remaining 5 for time; total 9, remaining 2 for page tables
    let (time_q, pts_q) = {
        let r = mux.get_quota_response(3, 4, (7u64 << 32) | 5, (9u64 << 32) | 2);
        (r.0, r.1)
    };
    assert_eq!(time_q, ((1 << 8) | 3, 7, 5));
    assert_eq!(pts_q, ((1 << 8) | 4, 9, 2));
    assert_eq!(
        capmux::tilemux::TileMux::translate_response(0x1234_5678),
        0x1234_5000
    );
}

#[test]
fn exit_calls_from_the_stub_are_answered() {
    let mut table = CapTable::new();
    let mut tcu = Tcu::new(2, KEY);
    let mux = capmux::tilemux::TileMux::new(1, KEY, true, false, 0, &mut table, &mut tcu);
    let (reply, action) = mux.handle_call_async(&vec![capmux::tilemux::OP_EXIT, 4, 1]);
    assert_eq!(action, Some((4, 1)));
    assert_eq!(parse_reply(&reply).unwrap(), (0, 0));
    let (reply, action) = mux.handle_call_async(&vec![99]);
    assert_eq!(action, None);
    assert_eq!(parse_reply(&reply).unwrap_err().code(), Code::InvArgs);
}

#[test]
fn lazy_cells_initialize_once_and_hand_values_out() {
    let mut c: LazyStaticCell<u64> = LazyStaticCell::default();
    assert!(!c.is_some());
    assert_eq!(c.set(5), None);
    assert!(c.is_some());
    assert_eq!(c.get(), 5);
    assert_eq!(c.set(6), Some(5));
    assert_eq!(c.get(), 6);
    c.unset();
    assert!(!c.is_some());

    let mut r: LazyStaticRefCell<Vec<u64>> = LazyStaticRefCell::default();
    assert_eq!(r.set(vec![1, 2]), None);
    assert_eq!(r.borrow().len(), 2);
    r.borrow_mut().push(3);
    assert_eq!(r.borrow().len(), 3);
    assert_eq!(r.unset(), vec![1, 2, 3]);
    assert!(!r.is_some());

    let mut u: LazyStaticUnsafeCell<u64> = LazyStaticUnsafeCell::default();
    assert_eq!(u.set(9), None);
    assert_eq!(*u.get(), 9);
    *u.get_mut() = 10;
    assert_eq!(u.unset(), 10);
}

#[test]
fn pemux_face_forwards_to_the_tile_multiplexer() {
    let mut table = CapTable::new();
    let act = table.create_activity(100_000, false);
    let mut tcu = Tcu::new(2, KEY);
    let mut pemux = capmux::pemux::PEMux::new(1, KEY, true, false, 0, &mut table, &mut tcu);
    assert_eq!(pemux.pe_id(), 1);
    assert!(!pemux.has_vpes());
    pemux.add_vpe(act, &mut table);
    assert!(pemux.has_vpes());
    pemux.rem_vpe(act, &mut table);
    assert!(!pemux.has_vpes());
    pemux.set_mem_base(0x9000);
    assert_eq!(pemux.eps_base(), 0x9000);
    let start = pemux.find_eps(1).unwrap();
    pemux.alloc_eps(start, 1);
    assert!(!pemux.eps_free(start, 1));
    pemux.free_eps(start, 1);
}
