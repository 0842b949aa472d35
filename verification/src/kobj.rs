//! Kernel objects: the payloads behind capabilities.
//!
//! Objects can be shared by several capabilities (a clone made by `obtain`
//! references the same object), so they live in an arena, the [`ObjStore`],
//! and a [`KObject`] names its variant together with the arena index of the
//! record.  Each variant owns exactly the state needed to reconstruct or
//! invalidate itself when its capability is revoked.

use vstd::prelude::*;

verus! {

/// Identifies an activity: a process-like unit resident on a tile.
pub type ActId = usize;

/// Identifies a tile: one compute node of the many-core fabric.
pub type TileId = usize;

/// Identifies one hardware endpoint slot of a tile's TCU.
pub type EpId = usize;

/// The label stamped on messages sent through a send endpoint.
pub type Label = u64;

/// A global offset: an address in the machine-wide address space.
pub type Goff = u64;

/// Kernel-memory cost of one capability record.
pub const CAP_SIZE: u64 = 128;

/// Kernel-memory cost of the object a non-derived capability owns.
pub const KOBJ_SIZE: u64 = 64;

/// A receive endpoint descriptor: buffer address and order, activation
/// state, and the hardware location it was activated on.
#[derive(Clone, Copy, Debug)]
pub struct RGateObject {
    /// Log2 of the receive buffer size.
    pub order: u64,
    /// Log2 of one message slot's size.
    pub msg_order: u64,
    /// Buffer address; meaningful once activated.
    pub addr: Goff,
    /// The hardware endpoint the descriptor is activated on, if any.
    pub loc: Option<(TileId, EpId)>,
    /// Index of the EP binding in the store, if activated.
    pub ep: Option<usize>,
    /// The event signalled on activation.
    pub event: u64,
}

impl RGateObject {
    /// Whether the descriptor is bound to a hardware endpoint.
    pub open spec fn spec_activated(self) -> bool {
        self.loc is Some
    }

    /// Whether the descriptor is bound to a hardware endpoint.
    pub fn activated(&self) -> (r: bool)
        ensures
            r == self.spec_activated(),
    {
        self.loc.is_some()
    }
}

/// A send endpoint descriptor: label, credits and the receive gate it
/// targets.
#[derive(Clone, Copy, Debug)]
pub struct SGateObject {
    /// Label carried by every message sent through this gate.
    pub label: Label,
    /// Number of messages that may be in flight at once.
    pub credits: u64,
    /// Index of the targeted receive gate in the store.
    pub rgate: usize,
    /// Index of the EP binding in the store, if activated.
    pub ep: Option<usize>,
}

/// A memory region descriptor: physical extent and permissions.
#[derive(Clone, Copy, Debug)]
pub struct MGateObject {
    /// Tile whose memory the region lives in.
    pub tile: TileId,
    /// Start of the region.
    pub offset: Goff,
    /// Length of the region in bytes.
    pub size: u64,
    /// Permission bits (read/write/execute).
    pub perms: u64,
    /// Index of the EP binding in the store, if activated.
    pub ep: Option<usize>,
}

/// A hardware endpoint binding: one `(tile, ep)` slot together with the
/// activity that last configured it.
#[derive(Clone, Copy, Debug)]
pub struct EPObject {
    /// Whether this is a fixed-function PMP endpoint (not sharable).
    pub is_pmp: bool,
    /// The tile the slot belongs to.
    pub tile: TileId,
    /// The slot index within the tile's endpoint file.
    pub ep: EpId,
    /// How many consecutive slots the binding covers (1 + reply slots).
    pub num: u64,
    /// The activity the slot is configured for, if any.
    pub act: Option<ActId>,
}

/// A tile object: the endpoint quota handed to an activity, and the count
/// of activities resident through this object.
#[derive(Clone, Copy, Debug)]
pub struct TileObject {
    /// The tile this object stands for.
    pub tile: TileId,
    /// The tile object this one's endpoint quota was carved from.
    pub parent: Option<usize>,
    /// Endpoint quota handed out with this object.
    pub eps_total: u64,
    /// Endpoints of the quota still unclaimed.
    pub eps_left: u64,
    /// Number of activities resident via this object.
    pub vpes: u64,
    /// Whether the object only references quota owned elsewhere.
    pub derived: bool,
}

/// A kernel-memory quota ledger.  `left` of an alive ledger, plus the cost
/// of the live capabilities charged to it and the quota lent to derived
/// ledgers, always equals `quota`.
#[derive(Clone, Copy, Debug)]
pub struct KMemObject {
    /// The total quota this ledger was created with.
    pub quota: u64,
    /// The part not currently allocated or lent.
    pub left: u64,
    /// Cleared when the owning capability is revoked.
    pub alive: bool,
    /// The ledger this one borrowed its quota from, if derived.
    pub parent: Option<usize>,
}

/// A service registration.
#[derive(Clone, Copy, Debug)]
pub struct ServObject {
    /// The selector the server offers the service under.
    pub sel: u64,
    /// Set when the service's capability was revoked.
    pub aborted: bool,
}

/// A session handle held by a client of a service.
#[derive(Clone, Copy, Debug)]
pub struct SessObject {
    /// Index of the service in the store.
    pub serv: usize,
    /// Server-chosen identification word.
    pub ident: u64,
}

/// A page-table mapping range.
#[derive(Clone, Copy, Debug)]
pub struct MapObject {
    /// Global physical address the range maps to.
    pub glob: Goff,
    /// Permission flags of the mapping.
    pub flags: u64,
    /// Whether the range is currently mapped.
    pub mapped: bool,
}

/// A counting semaphore.
#[derive(Clone, Copy, Debug)]
pub struct SemObject {
    /// Current counter value.
    pub counter: u64,
    /// Set when the owning capability is revoked.
    pub revoked: bool,
}

/// Names the variant of a capability's payload and the index of its record
/// in the [`ObjStore`].
#[derive(Clone, Copy, Debug, PartialEq, Eq, Structural)]
pub enum KObject {
    /// An activity; the index names the activity itself.
    Act(usize),
    Tile(usize),
    KMem(usize),
    MGate(usize),
    SGate(usize),
    RGate(usize),
    EP(usize),
    Serv(usize),
    Sess(usize),
    Mapping(usize),
    Sem(usize),
}

/// The arena that owns every kernel object.  Records are never moved, so
/// an index names the same object for the kernel's lifetime; records whose
/// capabilities are gone merely stay behind as dead entries.
#[derive(Debug)]
pub struct ObjStore {
    pub rgates: Vec<RGateObject>,
    pub sgates: Vec<SGateObject>,
    pub mgates: Vec<MGateObject>,
    pub eps: Vec<EPObject>,
    pub tiles: Vec<TileObject>,
    pub kmems: Vec<KMemObject>,
    pub servs: Vec<ServObject>,
    pub sesss: Vec<SessObject>,
    pub maps: Vec<MapObject>,
    pub sems: Vec<SemObject>,
}

impl ObjStore {
    /// An empty store.
    pub fn new() -> (s: ObjStore)
        ensures
            s.rgates@.len() == 0,
            s.sgates@.len() == 0,
            s.mgates@.len() == 0,
            s.eps@.len() == 0,
            s.tiles@.len() == 0,
            s.kmems@.len() == 0,
            s.servs@.len() == 0,
            s.sesss@.len() == 0,
            s.maps@.len() == 0,
            s.sems@.len() == 0,
    {
        ObjStore {
            rgates: Vec::new(),
            sgates: Vec::new(),
            mgates: Vec::new(),
            eps: Vec::new(),
            tiles: Vec::new(),
            kmems: Vec::new(),
            servs: Vec::new(),
            sesss: Vec::new(),
            maps: Vec::new(),
            sems: Vec::new(),
        }
    }

    /// Whether an object reference points inside the store.
    pub open spec fn obj_in_bounds(self, obj: KObject) -> bool {
        match obj {
            KObject::Act(_) => true,
            KObject::Tile(i) => i < self.tiles@.len(),
            KObject::KMem(i) => i < self.kmems@.len(),
            KObject::MGate(i) => i < self.mgates@.len(),
            KObject::SGate(i) => i < self.sgates@.len()
                && self.sgates@[i as int].rgate < self.rgates@.len(),
            KObject::RGate(i) => i < self.rgates@.len(),
            KObject::EP(i) => i < self.eps@.len(),
            KObject::Serv(i) => i < self.servs@.len(),
            KObject::Sess(i) => i < self.sesss@.len()
                && self.sesss@[i as int].serv < self.servs@.len(),
            KObject::Mapping(i) => i < self.maps@.len(),
            KObject::Sem(i) => i < self.sems@.len(),
        }
    }
}

/// A hardware or cross-component action that a capability's release asks
/// for.  Revocation records the actions in order instead of performing
/// them inline, and the embedding kernel loop applies them; a failing
/// application is logged and ignored, so revocation cannot get stuck on an
/// unresponsive tile.
#[derive(Clone, Copy, Debug, PartialEq, Eq, Structural)]
pub enum SideEffect {
    /// Invalidate a hardware endpoint; notify the resident stub about
    /// dropped messages if asked to.
    InvalidateEp { tile: TileId, act: ActId, ep: EpId, notify: bool },
    /// Tell the resident stub that an endpoint of it was invalidated.
    NotifyInvalidate { tile: TileId, act: ActId, ep: EpId },
    /// Invalidate every reply endpoint of a receive endpoint that targets
    /// the given send endpoint.
    InvalidateReplyEps { recv_tile: TileId, recv_ep: EpId, send_tile: TileId, send_ep: EpId },
    /// Return endpoint slots to the tile's allocator.
    FreeEps { tile: TileId, ep: EpId, num: u64 },
    /// Tear the activity down: its root capability subtree is gone.
    RemoveActivity { act: ActId },
    /// Unmap a virtual page range of a still-running activity.
    Unmap { act: ActId, virt: Goff, pages: u64 },
}

} // verus!
