//! The platform description the kernel is booted with: which tile it
//! runs on itself, which tiles carry user activities, and what each tile
//! looks like.

use vstd::prelude::*;

use crate::kobj::{Goff, TileId};

verus! {

/// What the kernel knows about one tile.
#[derive(Clone, Copy, Debug, PartialEq, Eq, Structural)]
pub struct TileDesc {
    /// Whether user activities run here; the kernel tile is not a user
    /// tile.
    pub user: bool,
    /// Whether several activities share the tile at once.
    pub shared: bool,
    /// Instruction-set identifier.
    pub isa: u64,
    /// Coarse tile type identifier.
    pub tile_type: u64,
    /// Whether a resident multiplexer stub runs on the tile.
    pub supports_tilemux: bool,
    /// Base of the receive buffers the stub uses for kernel channels.
    pub rbuf: Goff,
}

/// The boot-time platform description.
#[derive(Debug)]
pub struct Platform {
    /// The tile the kernel itself runs on.
    pub kernel: TileId,
    /// One descriptor per tile.
    pub tiles: Vec<TileDesc>,
}

/// The identifiers of the user tiles among `tiles`, in ascending order.
pub open spec fn user_seq(tiles: Seq<TileDesc>) -> Seq<TileId>
    decreases tiles.len(),
{
    if tiles.len() == 0 {
        Seq::empty()
    } else {
        let rest = user_seq(tiles.drop_last());
        if tiles.last().user {
            rest.push((tiles.len() - 1) as usize)
        } else {
            rest
        }
    }
}

/// The user-tile sequence names exactly the user tiles, each once, in
/// strictly ascending order.
pub proof fn lemma_user_seq(tiles: Seq<TileDesc>)
    requires
        tiles.len() <= usize::MAX,
    ensures
        forall|k: int|
            0 <= k < user_seq(tiles).len() ==> #[trigger] user_seq(tiles)[k] < tiles.len()
                && tiles[user_seq(tiles)[k] as int].user,
        forall|k1: int, k2: int|
            0 <= k1 < k2 < user_seq(tiles).len() ==> #[trigger] user_seq(tiles)[k1]
                < #[trigger] user_seq(tiles)[k2],
        forall|t: int|
            0 <= t < tiles.len() && (#[trigger] tiles[t]).user ==> user_seq(tiles).contains(
                t as usize,
            ),
    decreases tiles.len(),
{
    if tiles.len() > 0 {
        lemma_user_seq(tiles.drop_last());
        let rest = user_seq(tiles.drop_last());
        assert forall|k: int|
            0 <= k < user_seq(tiles).len() implies #[trigger] user_seq(tiles)[k] < tiles.len()
            && tiles[user_seq(tiles)[k] as int].user by {
            if tiles.last().user && k == user_seq(tiles).len() - 1 {
                assert(user_seq(tiles)[k] == (tiles.len() - 1) as usize);
            } else {
                assert(user_seq(tiles)[k] == rest[k]);
                assert(rest[k] < tiles.drop_last().len());
                assert(tiles.drop_last()[rest[k] as int] == tiles[rest[k] as int]);
            }
        }
        assert forall|k1: int, k2: int|
            0 <= k1 < k2 < user_seq(tiles).len() implies #[trigger] user_seq(tiles)[k1]
            < #[trigger] user_seq(tiles)[k2] by {
            if tiles.last().user && k2 == user_seq(tiles).len() - 1 {
                assert(user_seq(tiles)[k1] == rest[k1]);
                assert(rest[k1] < tiles.drop_last().len());
            } else {
                assert(user_seq(tiles)[k1] == rest[k1]);
                assert(user_seq(tiles)[k2] == rest[k2]);
            }
        }
        assert forall|t: int|
            0 <= t < tiles.len() && (#[trigger] tiles[t]).user implies user_seq(tiles).contains(
            t as usize,
        ) by {
            if t < tiles.len() - 1 {
                assert(tiles.drop_last()[t] == tiles[t]);
                assert(rest.contains(t as usize));
                let k = choose|k: int| 0 <= k < rest.len() && rest[k] == t as usize;
                assert(user_seq(tiles)[k] == t as usize);
            } else {
                assert(tiles.last().user);
                assert(user_seq(tiles).last() == t as usize);
            }
        }
    }
}

impl Platform {
    /// A platform of the given tiles with the kernel on `kernel`.
    pub fn new(kernel: TileId, tiles: Vec<TileDesc>) -> (r: Platform)
        requires
            kernel < tiles@.len(),
            !tiles@[kernel as int].user,
        ensures
            r.kernel == kernel,
            r.tiles == tiles,
    {
        Platform { kernel, tiles }
    }

    /// The tile the kernel runs on.
    pub fn kernel_tile(&self) -> (r: TileId)
        ensures
            r == self.kernel,
    {
        self.kernel
    }

    /// The identifiers of all user tiles, in ascending order.
    pub fn user_tiles(&self) -> (r: Vec<TileId>)
        ensures
            r@ == user_seq(self.tiles@),
    {
        let mut v: Vec<TileId> = Vec::new();
        let mut t: usize = 0;
        while t < self.tiles.len()
            invariant
                t <= self.tiles@.len(),
                v@ == user_seq(self.tiles@.subrange(0, t as int)),
            decreases self.tiles@.len() - t,
        {
            proof {
                assert(self.tiles@.subrange(0, t as int + 1).drop_last() =~= self.tiles@.subrange(
                    0,
                    t as int,
                ));
                assert(self.tiles@.subrange(0, t as int + 1).last() == self.tiles@[t as int]);
            }
            if self.tiles[t].user {
                v.push(t);
            }
            t += 1;
        }
        proof {
            assert(self.tiles@.subrange(0, self.tiles@.len() as int) =~= self.tiles@);
        }
        v
    }

    /// The descriptor of one tile.
    pub fn tile_desc(&self, tile: TileId) -> (r: TileDesc)
        requires
            tile < self.tiles@.len(),
        ensures
            r == self.tiles@[tile as int],
    {
        self.tiles[tile]
    }

    /// Whether several activities share the tile at once; endpoint
    /// configurations on a shared tile carry the activity they belong to.
    pub fn is_shared(&self, tile: TileId) -> (r: bool)
        requires
            tile < self.tiles@.len(),
        ensures
            r == self.tiles@[tile as int].shared,
    {
        self.tiles[tile].shared
    }

    /// Base of the receive buffers the tile's resident stub uses.
    pub fn rbuf_tilemux(&self, tile: TileId) -> (r: Goff)
        requires
            tile < self.tiles@.len(),
        ensures
            r == self.tiles@[tile as int].rbuf,
    {
        self.tiles[tile].rbuf
    }
}

} // verus!
