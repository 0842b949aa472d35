//! The tile manager: the registry of per-tile multiplexers, and the boot
//! path that attests every user tile and takes its kernel privileges
//! away before handing it to a multiplexer.
//!
//! Attestation itself — nonces, signatures, key exchange — happens in
//! the communication unit and is opaque here; what the kernel relies on
//! is the unit's attested flag and the key context that remote register
//! access is gated by.

use vstd::prelude::*;

use crate::caps::CapTable;
use crate::err::Error;
use crate::kobj::TileId;
use crate::ktcu;
use crate::platform::{user_seq, Platform, TileDesc};
use crate::tcu::Tcu;
use crate::tilemux::TileMux;

verus! {

/// The registry of tile multiplexers, one per user tile in discovery
/// order.
#[derive(Debug)]
pub struct TileMng {
    /// The multiplexers; index `i` drives the `i`-th user tile.
    pub muxes: Vec<TileMux>,
}

/// Runs the attestation exchange with one tile and waits for its
/// acknowledgment; the crypto runs inside the communication unit.
pub fn attest_tile_master(tcu: &mut Tcu, tile: TileId, key: u64) -> (r: Result<(), Error>)
    requires
        old(tcu).wf(),
        tile < old(tcu).spec_tiles(),
        key == old(tcu).keys@[tile as int],
    ensures
        final(tcu).wf(),
        final(tcu).spec_tiles() == old(tcu).spec_tiles(),
        final(tcu).keys == old(tcu).keys,
        final(tcu).features == old(tcu).features,
        final(tcu).attested@ == old(tcu).attested@.update(tile as int, true),
        r is Ok,
{
    let a = ktcu::attest_tile_remote(tcu, tile, 0, key);
    proof {
        assert(a is Ok);
    }
    let g = ktcu::gen_key_tile_remote(tcu, tile, key);
    proof {
        assert(g is Ok);
    }
    Ok(())
}

impl TileMng {
    /// Brings every user tile under management: attests it, takes its
    /// kernel privileges away, and creates its multiplexer.
    #[verifier::loop_isolation(false)]
    pub fn init(platform: &Platform, key: u64, table: &mut CapTable, tcu: &mut Tcu) -> (r: TileMng)
        requires
            old(table).wf(),
            old(table).quota_inv(),
            old(table).lefts_ok(),
            old(tcu).wf(),
            platform.tiles@.len() <= old(tcu).spec_tiles(),
            platform.tiles@.len() <= 0x10000,
            forall|t: int| 0 <= t < old(tcu).spec_tiles() ==> #[trigger] old(tcu).keys@[t] == key,
            forall|t: int|
                0 <= t < platform.tiles@.len() ==> (#[trigger] platform.tiles@[t]).rbuf
                    <= 0xFFFF_FFFF_FFFF,
        ensures
            final(table).wf(),
            final(table).quota_inv(),
            final(table).lefts_ok(),
            final(tcu).wf(),
            final(tcu).spec_tiles() == old(tcu).spec_tiles(),
            final(tcu).keys == old(tcu).keys,
            // one multiplexer per user tile, in ascending tile order, so
            // the registry's tile identifiers are distinct
            r.muxes@.len() == user_seq(platform.tiles@).len(),
            forall|i: int|
                0 <= i < r.muxes@.len() ==> (#[trigger] r.muxes@[i]).tile_id == user_seq(
                    platform.tiles@,
                )[i] && r.muxes@[i].queue.inv() && r.muxes@[i].queue.next_id == 0
                    && r.muxes@[i].shared == platform.tiles@[user_seq(platform.tiles@)[i] as int].shared,
            forall|i: int, j: int|
                0 <= i < j < r.muxes@.len() ==> (#[trigger] r.muxes@[i]).tile_id != (
                #[trigger] r.muxes@[j]).tile_id,
            // every user tile is attested and deprivileged; nothing else
            // is touched
            forall|t: int|
                0 <= t < platform.tiles@.len() && (#[trigger] platform.tiles@[t]).user
                    ==> final(tcu).attested@[t] && final(tcu).features@[t]
                    == old(tcu).features@[t] & !1,
            forall|t: int|
                0 <= t < old(tcu).spec_tiles() && !(t < platform.tiles@.len()
                    && platform.tiles@[t].user) ==> #[trigger] final(tcu).attested@[t]
                    == old(tcu).attested@[t],
            forall|t: int|
                0 <= t < old(tcu).spec_tiles() && !(t < platform.tiles@.len()
                    && platform.tiles@[t].user) ==> #[trigger] final(tcu).features@[t]
                    == old(tcu).features@[t],
    {
        proof {
            crate::platform::lemma_user_seq(platform.tiles@);
        }
        let ghost tcu_in = *tcu;
        let user = platform.user_tiles();
        let mut muxes: Vec<TileMux> = Vec::new();
        let mut i: usize = 0;
        while i < user.len()
            invariant
                i <= user@.len(),
                user@ == user_seq(platform.tiles@),
                table.wf(),
                table.quota_inv(),
                table.lefts_ok(),
                tcu.wf(),
                tcu.spec_tiles() == tcu_in.spec_tiles(),
                tcu.keys == tcu_in.keys,
                muxes@.len() == i,
                forall|j: int|
                    0 <= j < i ==> (#[trigger] muxes@[j]).tile_id == user@[j]
                        && muxes@[j].queue.inv() && muxes@[j].queue.next_id == 0 && muxes@[j].shared
                        == platform.tiles@[user@[j] as int].shared,
                forall|j: int|
                    0 <= j < i ==> tcu.attested@[#[trigger] user@[j] as int] && tcu.features@[user@[j] as int]
                        == tcu_in.features@[user@[j] as int] & !1,
                forall|t: int|
                    0 <= t < tcu_in.spec_tiles() && !user@.subrange(0, i as int).contains(
                        t as usize,
                    ) ==> #[trigger] tcu.attested@[t] == tcu_in.attested@[t]
                        && tcu.features@[t] == tcu_in.features@[t],
            decreases user@.len() - i,
        {
            let tile = user[i];
            proof {
                // earlier passes touched strictly smaller tiles, so this
                // tile's registers still hold their boot values
                assert(user@[i as int] == user_seq(platform.tiles@)[i as int]);
                assert(user_seq(platform.tiles@)[i as int] < platform.tiles@.len());
                assert((tile as int) < tcu.spec_tiles());
                assert(((tile as int) as usize) == tile);
                assert(!user@.subrange(0, i as int).contains(tile)) by {
                    if user@.subrange(0, i as int).contains(tile) {
                        let k = choose|k: int|
                            0 <= k < i && user@.subrange(0, i as int)[k] == tile;
                        assert(user@[k] == user_seq(platform.tiles@)[k]);
                        assert(user_seq(platform.tiles@)[k] < user_seq(platform.tiles@)[i as int]);
                    }
                }
                assert(!user@.subrange(0, i as int).contains(((tile as int) as usize)));
                assert(0 <= (tile as int) && (tile as int) < tcu_in.spec_tiles());
                assert(tcu.attested@[tile as int] == tcu_in.attested@[tile as int]);
                assert(tcu.features@[tile as int] == tcu_in.features@[tile as int]);
            }
            let ghost tcu0 = *tcu;
            let a = attest_tile_master(tcu, tile, key);
            proof {
                assert(a is Ok);
            }
            let d = ktcu::deprivilege_tile(tcu, tile, key);
            proof {
                assert(d is Ok);
            }
            let desc = platform.tile_desc(tile);
            let mux = TileMux::new(
                tile,
                key,
                desc.shared,
                desc.supports_tilemux,
                desc.rbuf,
                table,
                tcu,
            );
            muxes.push(mux);
            proof {
                assert forall|j: int|
                    0 <= j < i + 1 implies tcu.attested@[#[trigger] user@[j] as int]
                    && tcu.features@[user@[j] as int] == tcu_in.features@[user@[j] as int]
                    & !1 by {
                    if j < i {
                        assert(user@[j] == user_seq(platform.tiles@)[j]);
                        assert(user_seq(platform.tiles@)[j] < user_seq(platform.tiles@)[i as int]);
                        assert(user@[j] != tile as int);
                        assert(tcu0.attested@[user@[j] as int] && tcu0.features@[user@[j] as int]
                            == tcu_in.features@[user@[j] as int] & !1);
                    } else {
                        assert(user@[j] == tile as usize);
                    }
                }
                assert forall|t: int|
                    0 <= t < tcu_in.spec_tiles() && !user@.subrange(0, i as int + 1).contains(
                        t as usize,
                    ) implies #[trigger] tcu.attested@[t] == tcu_in.attested@[t]
                    && tcu.features@[t] == tcu_in.features@[t] by {
                    assert(!user@.subrange(0, i as int).contains(t as usize)) by {
                        if user@.subrange(0, i as int).contains(t as usize) {
                            let k = choose|k: int|
                                0 <= k < i && user@.subrange(0, i as int)[k] == t as usize;
                            assert(user@.subrange(0, i as int + 1)[k] == t as usize);
                        }
                    }
                    assert(t != tile as int) by {
                        if t == tile as int {
                            assert(user@.subrange(0, i as int + 1)[i as int] == tile);
                        }
                    }
                    assert(tcu0.attested@[t] == tcu_in.attested@[t]);
                    assert(tcu0.features@[t] == tcu_in.features@[t]);
                }
            }
            i += 1;
        }
        proof {
            assert forall|t: int|
                0 <= t < platform.tiles@.len() && (#[trigger] platform.tiles@[t]).user
                    implies tcu.attested@[t] && tcu.features@[t] == tcu_in.features@[t] & !1 by {
                assert(user_seq(platform.tiles@).contains(t as usize));
                let j = choose|j: int| 0 <= j < user@.len() && user@[j] == t as usize;
                assert(tcu.attested@[user@[j] as int]);
            }
            assert forall|t: int|
                0 <= t < tcu_in.spec_tiles() && !(t < platform.tiles@.len()
                    && platform.tiles@[t].user) implies #[trigger] tcu.attested@[t]
                == tcu_in.attested@[t] by {
                assert(!user@.subrange(0, i as int).contains(t as usize)) by {
                    if user@.subrange(0, i as int).contains(t as usize) {
                        let k = choose|k: int|
                            0 <= k < i && user@.subrange(0, i as int)[k] == t as usize;
                        assert(user@[k] == user_seq(platform.tiles@)[k]);
                        assert(platform.tiles@[user_seq(platform.tiles@)[k] as int].user);
                        assert(user_seq(platform.tiles@)[k] < platform.tiles@.len());
                        assert((t as usize) as int == t);
                    }
                }
            }
            assert forall|t: int|
                0 <= t < tcu_in.spec_tiles() && !(t < platform.tiles@.len()
                    && platform.tiles@[t].user) implies #[trigger] tcu.features@[t]
                == tcu_in.features@[t] by {
                assert(!user@.subrange(0, i as int).contains(t as usize)) by {
                    if user@.subrange(0, i as int).contains(t as usize) {
                        let k = choose|k: int|
                            0 <= k < i && user@.subrange(0, i as int)[k] == t as usize;
                        assert(user@[k] == user_seq(platform.tiles@)[k]);
                        assert(platform.tiles@[user_seq(platform.tiles@)[k] as int].user);
                        assert(user_seq(platform.tiles@)[k] < platform.tiles@.len());
                        assert((t as usize) as int == t);
                    }
                }
                assert(tcu.attested@[t] == tcu_in.attested@[t]);
            }
            assert(tcu_in == *old(tcu));
        }
        TileMng { muxes }
    }

    /// Number of managed tiles.
    pub fn len(&self) -> (r: usize)
        ensures
            r == self.muxes@.len(),
    {
        self.muxes.len()
    }

    /// A mutable reference to the multiplexer at registry index `idx`.
    pub fn tilemux(&mut self, idx: usize) -> (r: &mut TileMux)
        requires
            idx < old(self).muxes@.len(),
        ensures
            *r == old(self).muxes@[idx as int],
            final(self).muxes@ == old(self).muxes@.update(idx as int, *final(r)),
    {
        proof {
            assert(old(self).muxes@ == old(self).muxes@.update(
                idx as int,
                old(self).muxes@[idx as int],
            ));
        }
        &mut self.muxes[idx]
    }

    /// Registry index of the multiplexer driving `tile`, if any.
    pub fn find_mux(&self, tile: TileId) -> (r: Option<usize>)
        ensures
            match r {
                Option::Some(i) => i < self.muxes@.len() && self.muxes@[i as int].tile_id == tile
                    && forall|j: int|
                    0 <= j < i ==> (#[trigger] self.muxes@[j]).tile_id != tile,
                Option::None => forall|i: int|
                    0 <= i < self.muxes@.len() ==> (#[trigger] self.muxes@[i]).tile_id != tile,
            },
    {
        let mut i: usize = 0;
        while i < self.muxes.len()
            invariant
                i <= self.muxes@.len(),
                forall|j: int| 0 <= j < i ==> (#[trigger] self.muxes@[j]).tile_id != tile,
            decreases self.muxes@.len() - i,
        {
            if self.muxes[i].tile_id == tile {
                return Some(i);
            }
            i += 1;
        }
        None
    }
}

/// Finds a user tile matching a wanted descriptor by instruction set or
/// tile type.
/// Whether a tile carries user activities and matches a wanted
/// descriptor by instruction set or tile type.
pub open spec fn tile_matches(d: TileDesc, wanted: TileDesc) -> bool {
    d.user && (d.isa == wanted.isa || d.tile_type == wanted.tile_type)
}

pub fn find_tile(platform: &Platform, wanted: &TileDesc) -> (r: Option<TileId>)
    ensures
        match r {
            Option::Some(t) => t < platform.tiles@.len() && tile_matches(
                platform.tiles@[t as int],
                *wanted,
            ) && forall|t2: int|
                0 <= t2 < t ==> !tile_matches(#[trigger] platform.tiles@[t2], *wanted),
            Option::None => forall|t2: int|
                0 <= t2 < platform.tiles@.len() ==> !tile_matches(
                    #[trigger] platform.tiles@[t2],
                    *wanted,
                ),
        },
{
    let mut t: usize = 0;
    while t < platform.tiles.len()
        invariant
            t <= platform.tiles@.len(),
            forall|t2: int|
                0 <= t2 < t ==> !tile_matches(#[trigger] platform.tiles@[t2], *wanted),
        decreases platform.tiles@.len() - t,
    {
        let d = platform.tile_desc(t);
        if d.user && (d.isa == wanted.isa || d.tile_type == wanted.tile_type) {
            return Some(t);
        }
        t += 1;
    }
    None
}

} // verus!
