//! Capability-table behaviour: insertion, cloning, quota bookkeeping and
//! the scope of revocation.

use capmux::caps::{CapTable, Capability, ActMeta};
use capmux::err::Code;
use capmux::kobj::{KObject, SemObject, ServObject, CAP_SIZE, KOBJ_SIZE};
use capmux::sel::SelRange;

fn fresh_table(quota: u64) -> (CapTable, usize) {
    let mut t = CapTable::new();
    let act = t.create_activity(quota, false);
    (t, act)
}

fn sem_obj(t: &mut CapTable) -> KObject {
    let i = t.objs.sems.len();
    t.objs.sems.push(SemObject { counter: 0, revoked: false });
    KObject::Sem(i)
}

#[test]
fn insert_and_lookup() {
    let (mut t, act) = fresh_table(10_000);
    let o = sem_obj(&mut t);
    t.insert(Capability::new(act, 5, o)).unwrap();
    assert!(t.get(act, 5).is_some());
    assert!(t.get(act, 6).is_none());
    assert!(!t.unused(act, 5));
    assert!(t.unused(act, 6));
    assert!(!t.is_empty());
}

#[test]
fn range_lookup_by_overlap() {
    let (mut t, act) = fresh_table(10_000);
    let o = sem_obj(&mut t);
    t.insert(Capability::new_range(act, SelRange::new_range(10, 4), o))
        .unwrap();
    // every selector of the range resolves to the same capability
    assert!(t.get(act, 10).is_some());
    assert!(t.get(act, 13).is_some());
    assert!(t.get(act, 14).is_none());
    assert!(!t.range_unused(act, &SelRange::new_range(12, 8)));
    assert!(t.range_unused(act, &SelRange::new_range(14, 8)));
}

#[test]
fn insert_fails_without_quota() {
    // quota below one capability's cost
    let (mut t, act) = fresh_table(CAP_SIZE + KOBJ_SIZE - 1);
    let o = sem_obj(&mut t);
    let e = t.insert(Capability::new(act, 1, o)).unwrap_err();
    assert_eq!(e.code(), Code::NoSpace);
    assert!(t.get(act, 1).is_none());
}

#[test]
fn quota_debits_and_refunds_exactly() {
    let quota = 10 * (CAP_SIZE + KOBJ_SIZE);
    let (mut t, act) = fresh_table(quota);
    let k = t.acts[act].kmem;
    assert_eq!(t.objs.kmems[k].left, quota);
    let o1 = sem_obj(&mut t);
    let o2 = sem_obj(&mut t);
    t.insert(Capability::new(act, 1, o1)).unwrap();
    assert_eq!(t.objs.kmems[k].left, quota - (CAP_SIZE + KOBJ_SIZE));
    t.insert_as_child(Capability::new(act, 2, o2), 1).unwrap();
    assert_eq!(t.objs.kmems[k].left, quota - 2 * (CAP_SIZE + KOBJ_SIZE));
    // a derived clone costs the record alone
    t.obtain(act, 3, act, 1, true).unwrap();
    assert_eq!(
        t.objs.kmems[k].left,
        quota - 2 * (CAP_SIZE + KOBJ_SIZE) - CAP_SIZE
    );
    // revoking everything inserted restores the balance exactly
    let mut eff = Vec::new();
    t.revoke_async(act, SelRange::new_range(1, 3), true, &mut eff)
        .unwrap();
    assert_eq!(t.objs.kmems[k].left, quota);
    assert!(t.is_empty());
}

#[test]
fn revoke_of_unused_range_is_a_noop() {
    let (mut t, act) = fresh_table(10_000);
    let o = sem_obj(&mut t);
    t.insert(Capability::new(act, 1, o)).unwrap();
    let before_left = t.objs.kmems[t.acts[act].kmem].left;
    let mut eff = Vec::new();
    // nothing lives at 100..108
    t.revoke_async(act, SelRange::new_range(100, 8), true, &mut eff)
        .unwrap();
    t.revoke_async(act, SelRange::new_range(100, 8), false, &mut eff)
        .unwrap();
    assert!(eff.is_empty());
    assert!(t.get(act, 1).is_some());
    assert_eq!(t.objs.kmems[t.acts[act].kmem].left, before_left);
}

#[test]
fn revoke_parent_takes_child_along() {
    let (mut t, act) = fresh_table(10_000);
    let op = sem_obj(&mut t);
    let oc = sem_obj(&mut t);
    t.insert(Capability::new(act, 1, op)).unwrap();
    t.insert_as_child(Capability::new(act, 2, oc), 1).unwrap();
    let mut eff = Vec::new();
    t.revoke_async(act, SelRange::new(1), true, &mut eff).unwrap();
    assert!(t.get(act, 1).is_none());
    assert!(t.get(act, 2).is_none());
}

#[test]
fn revoke_children_keeps_the_target() {
    // a with children b, c; b with child d
    let (mut t, act) = fresh_table(10_000);
    let oa = sem_obj(&mut t);
    let ob = sem_obj(&mut t);
    let oc = sem_obj(&mut t);
    let od = sem_obj(&mut t);
    t.insert(Capability::new(act, 1, oa)).unwrap();
    t.insert_as_child(Capability::new(act, 2, ob), 1).unwrap();
    t.insert_as_child(Capability::new(act, 3, oc), 1).unwrap();
    t.insert_as_child(Capability::new(act, 4, od), 2).unwrap();
    let mut eff = Vec::new();
    t.revoke_async(act, SelRange::new(1), false, &mut eff).unwrap();
    assert!(t.get(act, 1).is_some());
    assert!(t.get(act, 2).is_none());
    assert!(t.get(act, 3).is_none());
    assert!(t.get(act, 4).is_none());
}

#[test]
fn revoke_subtree_spares_siblings() {
    // a with children b, c; b with child d; revoking b removes b and d only
    let (mut t, act) = fresh_table(10_000);
    let oa = sem_obj(&mut t);
    let ob = sem_obj(&mut t);
    let oc = sem_obj(&mut t);
    let od = sem_obj(&mut t);
    t.insert(Capability::new(act, 1, oa)).unwrap();
    t.insert_as_child(Capability::new(act, 2, ob), 1).unwrap();
    t.insert_as_child(Capability::new(act, 3, oc), 1).unwrap();
    t.insert_as_child(Capability::new(act, 4, od), 2).unwrap();
    let mut eff = Vec::new();
    t.revoke_async(act, SelRange::new(2), true, &mut eff).unwrap();
    assert!(t.get(act, 1).is_some());
    assert!(t.get(act, 2).is_none());
    assert!(t.get(act, 3).is_some());
    assert!(t.get(act, 4).is_none());
}

#[test]
fn obtain_clones_across_activities() {
    let mut t = CapTable::new();
    let server = t.create_activity(10_000, false);
    let client = t.create_activity(10_000, false);
    let o = sem_obj(&mut t);
    t.insert(Capability::new(server, 1, o)).unwrap();
    t.obtain(client, 7, server, 1, true).unwrap();
    let c = t.get(client, 7).unwrap();
    assert!(c.derived);
    assert_eq!(c.get(), o);
    // revoking the server's subtree strips the client's clone
    let mut eff = Vec::new();
    t.revoke_async(server, SelRange::new(1), true, &mut eff).unwrap();
    assert!(t.get(client, 7).is_none());
}

#[test]
fn obtain_as_parent_reparents_the_original() {
    let (mut t, act) = fresh_table(10_000);
    let o = sem_obj(&mut t);
    t.insert(Capability::new(act, 1, o)).unwrap();
    t.obtain(act, 2, act, 1, false).unwrap();
    // the original is now below the clone: revoking the clone's subtree
    // removes both
    let mut eff = Vec::new();
    t.revoke_async(act, SelRange::new(2), true, &mut eff).unwrap();
    assert!(t.get(act, 1).is_none());
    assert!(t.get(act, 2).is_none());
}

#[test]
fn revoke_blocked_by_resident_activities() {
    let (mut t, act) = fresh_table(10_000);
    let ti = t.objs.tiles.len();
    t.objs.tiles.push(capmux::kobj::TileObject {
        tile: 1,
        parent: None,
        eps_total: 56,
        eps_left: 56,
        vpes: 1,
        derived: false,
    });
    t.insert(Capability::new(act, 8, KObject::Tile(ti))).unwrap();
    let mut eff = Vec::new();
    let e = t
        .revoke_async(act, SelRange::new(8), true, &mut eff)
        .unwrap_err();
    assert_eq!(e.code(), Code::NotRevocable);
    assert!(t.get(act, 8).is_some());
    // once the tile is idle the revoke goes through
    t.objs.tiles[ti].vpes = 0;
    t.revoke_async(act, SelRange::new(8), true, &mut eff).unwrap();
    assert!(t.get(act, 8).is_none());
}

#[test]
fn revoke_blocked_by_outstanding_kmem_quota() {
    let (mut t, act) = fresh_table(10_000);
    let kj = t.objs.kmems.len();
    t.objs.kmems.push(capmux::kobj::KMemObject {
        quota: 500,
        left: 200,
        alive: true,
        parent: None,
    });
    t.insert(Capability::new(act, 9, KObject::KMem(kj))).unwrap();
    let mut eff = Vec::new();
    let e = t
        .revoke_async(act, SelRange::new(9), true, &mut eff)
        .unwrap_err();
    assert_eq!(e.code(), Code::NotRevocable);
}

#[test]
fn revoked_service_is_aborted() {
    let (mut t, act) = fresh_table(10_000);
    let v = t.objs.servs.len();
    t.objs.servs.push(ServObject { sel: 3, aborted: false });
    t.insert(Capability::new(act, 3, KObject::Serv(v))).unwrap();
    let mut eff = Vec::new();
    t.revoke_async(act, SelRange::new(3), true, &mut eff).unwrap();
    assert!(t.objs.servs[v].aborted);
}

#[test]
fn revoke_all_clears_the_table() {
    let (mut t, act) = fresh_table(10_000);
    let o1 = sem_obj(&mut t);
    let o2 = sem_obj(&mut t);
    let o3 = sem_obj(&mut t);
    t.insert(Capability::new(act, 1, o1)).unwrap();
    t.insert_as_child(Capability::new(act, 2, o2), 1).unwrap();
    t.insert(Capability::new(act, 30, o3)).unwrap();
    let mut eff = Vec::new();
    t.revoke_all_async(&mut eff);
    assert!(t.is_empty());
    assert_eq!(t.objs.kmems[t.acts[act].kmem].left, 10_000);
}

#[test]
fn single_selector_revoke_records_the_release_actions() {
    let mut t = CapTable::new();
    let act = t.create_activity(10_000, false);
    let x = t.objs.sems.len();
    t.objs.sems.push(capmux::kobj::SemObject { counter: 2, revoked: false });
    t.insert(Capability::new(act, 4, KObject::Sem(x))).unwrap();
    let mut eff = Vec::new();
    // a free selector is a successful no-op
    t.revoke_one_async(act, 9, &mut eff).unwrap();
    assert!(eff.is_empty());
    // revoking the semaphore retires it; a semaphore release has no
    // hardware half, so the recorded actions stay empty
    t.revoke_one_async(act, 4, &mut eff).unwrap();
    assert!(t.get(act, 4).is_none());
    assert!(t.objs.sems[x].revoked);
    assert!(eff.is_empty());
}

#[test]
fn capability_accessors() {
    let mut t = CapTable::new();
    let act = t.create_activity(10_000, false);
    let _ = ActMeta { kmem: 0, alive: true, is_root: false };
    let o = sem_obj(&mut t);
    let c = Capability::new_range(act, SelRange::new_range(4, 3), o);
    assert_eq!(c.sel(), 4);
    assert_eq!(c.len(), 3);
    assert_eq!(c.sel_range().start, 4);
    assert_eq!(c.get(), o);
    assert!(!c.has_parent());
    assert_eq!(c.cost(), CAP_SIZE + KOBJ_SIZE);
}

#[test]
fn selector_range_rules() {
    let a = SelRange::new_range(4, 4);
    let b = SelRange::new_range(7, 2);
    let c = SelRange::new_range(8, 2);
    assert!(a.contains(4) && a.contains(7) && !a.contains(8));
    assert!(a.overlaps(&b) && b.overlaps(&a));
    assert!(!a.overlaps(&c));
}
