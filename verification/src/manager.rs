//! The session manager: multiplexes players to map instances, owns the
//! per-pid persistence lifecycle (load, periodic save, unlocking save,
//! cached-record eviction), runs the friend-invite table, and dispatches
//! inbound game events to the right instance.
//!
//! Persistence itself is a collaborator: the manager emits retrieve and save
//! requests correlated by pid and consumes completions as ordinary calls on
//! a later tick. A completion for a pid no longer in the expected state is a
//! documented no-op, not an error.

use vstd::prelude::*;
use crate::collision::CollisionArray;
use crate::events::{EQueue, GameEvent, GenericPlayerEvent, GenericServerResponse, ServerEvent};
use crate::instance::{applied_response, chat_broadcast, entity_data_answered, entity_update_fn, generic_event_applied, Instance, lookup_player, move_update_fn, player_index, ticked};
use crate::player::Player;
use crate::playerdata::PlayerData;
use crate::spatial::cell_coords;
use crate::{add_clamped, clamped, concat_map, find_first, lemma_find_first_spec, str_eq};

verus! {

broadcast use crate::spatial::SpatialHash::lemma_same_config_refl;

/// Ticks an offline cached record survives before eviction.
pub const PLAYER_DATA_TIMEOUT: i32 = 45;

/// Ticks between periodic saves of an online player.
pub const PLAYER_SAVE_TIMEOUT: i32 = 90;

/// Ticks a friend invite stays open.
pub const FRIEND_REQUEST_TIMEOUT: i32 = 120;

/// The per-pid lifecycle entry: exactly one exists per known pid at a time.
/// Offline pids cache their last record and age toward eviction; online pids
/// record their connection, and their age drives the periodic save instead.
pub enum PlayerDataEntry {
    RawData { data: PlayerData, age: i32 },
    ActivePlayer { net_id: i32, age: i32 },
}

/// What one aging step asks the manager to do with an entry.
pub enum DataTickResult {
    Idle,
    Save,
    Timeout,
}

impl PlayerDataEntry {
    pub fn new_active(net_id: i32) -> (r: Self)
        ensures
            r == (PlayerDataEntry::ActivePlayer { net_id, age: 0i32 }),
    {
        PlayerDataEntry::ActivePlayer { net_id, age: 0 }
    }

    pub fn new_inactive(data: PlayerData) -> (r: Self)
        ensures
            r == (PlayerDataEntry::RawData { data, age: 0i32 }),
    {
        PlayerDataEntry::RawData { data, age: 0 }
    }

    /// Ages the entry one tick: a cached record past its timeout asks to be
    /// evicted; an active player past the save interval asks to be saved,
    /// and their age resets.
    pub fn tick(&mut self) -> (r: DataTickResult)
        ensures
            match *old(self) {
                PlayerDataEntry::RawData { data, age } => {
                    let aged = clamped(age + 1);
                    if aged > PLAYER_DATA_TIMEOUT {
                        r == DataTickResult::Timeout
                            && *final(self) == (PlayerDataEntry::RawData {
                                data, age: aged as i32 })
                    } else {
                        r == DataTickResult::Idle
                            && *final(self) == (PlayerDataEntry::RawData {
                                data, age: aged as i32 })
                    }
                },
                PlayerDataEntry::ActivePlayer { net_id, age } => {
                    let aged = clamped(age + 1);
                    if aged > PLAYER_SAVE_TIMEOUT {
                        r == DataTickResult::Save
                            && *final(self) == (PlayerDataEntry::ActivePlayer {
                                net_id, age: 0i32 })
                    } else {
                        r == DataTickResult::Idle
                            && *final(self) == (PlayerDataEntry::ActivePlayer {
                                net_id, age: aged as i32 })
                    }
                },
            },
    {
        match self {
            PlayerDataEntry::RawData { data: _, age } => {
                *age = add_clamped(*age, 1);
                if *age > PLAYER_DATA_TIMEOUT {
                    return DataTickResult::Timeout;
                }
            },
            PlayerDataEntry::ActivePlayer { net_id: _, age } => {
                *age = add_clamped(*age, 1);
                if *age > PLAYER_SAVE_TIMEOUT {
                    *age = 0;
                    return DataTickResult::Save;
                }
            },
        }
        DataTickResult::Idle
    }

    pub fn is_active(&self) -> (r: bool)
        ensures
            r == (*self matches PlayerDataEntry::ActivePlayer { .. }),
    {
        match self {
            PlayerDataEntry::ActivePlayer { .. } => true,
            _ => false,
        }
    }

    /// The connection of an online player; `None` for an offline record.
    pub fn get_net_id(&self) -> (r: Option<i32>)
        ensures
            match *self {
                PlayerDataEntry::RawData { .. } => r is None,
                PlayerDataEntry::ActivePlayer { net_id, .. } => r == Some(net_id),
            },
    {
        match self {
            PlayerDataEntry::RawData { .. } => None,
            PlayerDataEntry::ActivePlayer { net_id, .. } => Some(*net_id),
        }
    }
}

/// An operation the manager asks the persistence collaborator to perform.
pub enum DbRequest {
    /// Fetch the record of `pid`; `lock` claims ownership for this server.
    Retrieve { pid: i32, lock: bool },
    /// Store a snapshot of `pid`; `unlock` releases ownership.
    Save { pid: i32, data: PlayerData, unlock: bool },
}

/// The lifecycle entries keyed by a pid.
pub open spec fn by_pid(pid: i32) -> spec_fn((i32, PlayerDataEntry)) -> bool {
    |e: (i32, PlayerDataEntry)| e.0 == pid
}

/// The location entries keyed by a net_id.
pub open spec fn by_conn(net_id: i32) -> spec_fn((i32, usize)) -> bool {
    |e: (i32, usize)| e.0 == net_id
}

/// The wait lists keyed by a pid.
pub open spec fn by_wait_pid(pid: i32) -> spec_fn((i32, Vec<i32>)) -> bool {
    |e: (i32, Vec<i32>)| e.0 == pid
}

/// The pending full loads keyed by a pid.
pub open spec fn by_load_pid(pid: i32) -> spec_fn((i32, i32)) -> bool {
    |e: (i32, i32)| e.0 == pid
}

/// The friend invites keyed by the (inviter, invitee) pair.
pub open spec fn by_pair(pair: (i32, i32)) -> spec_fn(((i32, i32), i32)) -> bool {
    |e: ((i32, i32), i32)| e.0 == pair
}

/// Position of a pid in a lifecycle table.
pub open spec fn entry_index(entries: Seq<(i32, PlayerDataEntry)>, pid: i32) -> Option<int> {
    find_first(entries, by_pid(pid))
}

/// Whether a pid is currently online according to a lifecycle table.
pub open spec fn pid_active(entries: Seq<(i32, PlayerDataEntry)>, pid: i32) -> bool {
    match entry_index(entries, pid) {
        Some(j) => entries[j].1 is ActivePlayer,
        None => false,
    }
}

/// A grid a fresh instance can be built on.
pub open spec fn grid_ok(c: CollisionArray) -> bool {
    &&& c.wf()
    &&& c.spec_width() >= 1
    &&& c.spec_height() >= 1
    &&& ({
        let tl = c.spec_topleft();
        let br = ((tl.0 + c.spec_width() - 1) as i32, (tl.1 + c.spec_height() - 1) as i32);
        (cell_coords(br, crate::spatial::GRID_SIZE as int).0
            - cell_coords(tl, crate::spatial::GRID_SIZE as int).0 + 1)
            * (cell_coords(br, crate::spatial::GRID_SIZE as int).1
                - cell_coords(tl, crate::spatial::GRID_SIZE as int).1 + 1)
            <= usize::MAX
    })
}

/// A registered map whose grid a fresh instance can be built on.
pub open spec fn map_def_ok(m: (String, CollisionArray)) -> bool {
    grid_ok(m.1)
}

/// The top-level coordinator of one server: its instances, the lifecycle
/// table, the correlation tables of in-flight loads, and the friend invites.
pub struct GameManager {
    server_name: String,
    equeue: EQueue,
    instances: Vec<Instance>,
    /// net_id of each online player, with the index of their instance.
    player_locations: Vec<(i32, usize)>,
    /// One lifecycle entry per known pid.
    player_datas: Vec<(i32, PlayerDataEntry)>,
    /// pids whose records are being fetched for lookups, with the waiting
    /// connections.
    datagets: Vec<(i32, Vec<i32>)>,
    /// pids whose records are being fetched for a join, with the joining
    /// connection.
    full_datagets: Vec<(i32, i32)>,
    /// Open friend invites, keyed by (inviter pid, invitee pid), with ages.
    friend_invites: Vec<((i32, i32), i32)>,
    /// The static map definitions the host supplied.
    maps: Vec<(String, CollisionArray)>,
    /// Persistence operations awaiting the collaborator.
    db_requests: Vec<DbRequest>,
    /// Raised by the shutdown path; no further ticks do work.
    stopped: bool,
}

impl GameManager {
    pub closed spec fn instances(self) -> Seq<Instance> {
        self.instances@
    }

    pub closed spec fn locations(self) -> Seq<(i32, usize)> {
        self.player_locations@
    }

    pub closed spec fn entries(self) -> Seq<(i32, PlayerDataEntry)> {
        self.player_datas@
    }

    pub closed spec fn waits(self) -> Seq<(i32, Vec<i32>)> {
        self.datagets@
    }

    pub closed spec fn loads(self) -> Seq<(i32, i32)> {
        self.full_datagets@
    }

    pub closed spec fn invites(self) -> Seq<((i32, i32), i32)> {
        self.friend_invites@
    }

    pub closed spec fn maps(self) -> Seq<(String, CollisionArray)> {
        self.maps@
    }

    pub closed spec fn requests(self) -> Seq<DbRequest> {
        self.db_requests@
    }

    pub closed spec fn queue(self) -> EQueue {
        self.equeue
    }

    pub closed spec fn is_stopped(self) -> bool {
        self.stopped
    }

    /// The name this server writes into the records it owns.
    pub closed spec fn spec_server_name(self) -> String {
        self.server_name
    }

    pub open spec fn wf(self) -> bool {
        &&& forall|k: int| 0 <= k < self.instances().len()
            ==> (#[trigger] self.instances()[k]).wf()
        &&& forall|k: int| 0 <= k < self.locations().len()
            ==> (#[trigger] self.locations()[k]).1 < self.instances().len()
        &&& forall|k: int| 0 <= k < self.maps().len()
            ==> map_def_ok(#[trigger] self.maps()[k])
    }

    /// Well-formedness only looks at the instances, locations and maps.
    pub proof fn lemma_wf_frame(a: GameManager, b: GameManager)
        requires
            a.wf(),
            b.instances() == a.instances(),
            b.locations() == a.locations(),
            b.maps() == a.maps(),
        ensures
            b.wf(),
    {
        assert forall|k: int| 0 <= k < b.instances().len() implies
            (#[trigger] b.instances()[k]).wf() by {
            assert(a.instances()[k].wf());
        }
        assert forall|k: int| 0 <= k < b.locations().len() implies
            (#[trigger] b.locations()[k]).1 < b.instances().len() by {
            assert(a.locations()[k].1 < a.instances().len());
        }
        assert forall|k: int| 0 <= k < b.maps().len() implies
            map_def_ok(#[trigger] b.maps()[k]) by {
            assert(map_def_ok(a.maps()[k]));
        }
    }

    /// A fresh manager with no instances, no known pids and empty queues.
    pub fn new(server_name: String) -> (r: Self)
        ensures
            r.wf(),
            r.instances() == Seq::<Instance>::empty(),
            r.locations() == Seq::<(i32, usize)>::empty(),
            r.entries() == Seq::<(i32, PlayerDataEntry)>::empty(),
            r.waits() == Seq::<(i32, Vec<i32>)>::empty(),
            r.loads() == Seq::<(i32, i32)>::empty(),
            r.invites() == Seq::<((i32, i32), i32)>::empty(),
            r.maps() == Seq::<(String, CollisionArray)>::empty(),
            r.requests() == Seq::<DbRequest>::empty(),
            r.queue().games() == Seq::<GameEvent>::empty(),
            r.queue().servers() == Seq::<ServerEvent>::empty(),
            !r.is_stopped(),
    {
        GameManager {
            server_name,
            equeue: EQueue::new(),
            instances: Vec::new(),
            player_locations: Vec::new(),
            player_datas: Vec::new(),
            datagets: Vec::new(),
            full_datagets: Vec::new(),
            friend_invites: Vec::new(),
            maps: Vec::new(),
            db_requests: Vec::new(),
            stopped: false,
        }
    }

    /// Replaces the event channel (done once, at wiring time).
    pub fn set_equeue(&mut self, e: EQueue)
        ensures
            final(self).queue() == e,
            final(self).instances() == old(self).instances(),
            final(self).locations() == old(self).locations(),
            final(self).maps() == old(self).maps(),
            final(self).entries() == old(self).entries(),
            final(self).waits() == old(self).waits(),
            final(self).loads() == old(self).loads(),
            final(self).invites() == old(self).invites(),
            final(self).requests() == old(self).requests(),
            final(self).is_stopped() == old(self).is_stopped(),
    {
        self.equeue = e;
    }

    pub fn set_server_name(&mut self, name: String)
        ensures
            final(self).instances() == old(self).instances(),
            final(self).locations() == old(self).locations(),
            final(self).maps() == old(self).maps(),
            final(self).entries() == old(self).entries(),
            final(self).queue() == old(self).queue(),
    {
        self.server_name = name;
    }

    /// Registers a map definition the host loaded, so joins to that name
    /// can start an instance.
    pub fn register_map(&mut self, mapname: String, col: CollisionArray)
        requires
            old(self).wf(),
            map_def_ok((mapname, col)),
        ensures
            final(self).wf(),
            final(self).maps() == old(self).maps().push((mapname, col)),
            final(self).entries() == old(self).entries(),
            final(self).instances() == old(self).instances(),
            final(self).queue() == old(self).queue(),
    {
        self.maps.push((mapname, col));
        proof {
            assert forall|k: int| 0 <= k < self.instances().len() implies
                (#[trigger] self.instances()[k]).wf() by {
                assert(old(self).instances()[k].wf());
            }
            assert forall|k: int| 0 <= k < self.locations().len() implies
                (#[trigger] self.locations()[k]).1 < self.instances().len() by {
                assert(old(self).locations()[k].1 < old(self).instances().len());
            }
            assert forall|k: int| 0 <= k < self.maps().len() implies
                map_def_ok(#[trigger] self.maps()[k]) by {
                if k < old(self).maps().len() {
                    assert(map_def_ok(old(self).maps()[k]));
                }
            }
        }
    }

    /// Raises an inbound intent, exactly as the transport would.
    pub fn push_game_event(&mut self, e: GameEvent)
        ensures
            final(self).queue().games() == old(self).queue().games().push(e),
            final(self).queue().servers() == old(self).queue().servers(),
            final(self).instances() == old(self).instances(),
            final(self).locations() == old(self).locations(),
            final(self).maps() == old(self).maps(),
            final(self).entries() == old(self).entries(),
    {
        self.equeue.push_game(e);
    }

    /// Hands the transport everything the simulation produced, in order.
    pub fn drain_server_events(&mut self) -> (r: Vec<ServerEvent>)
        ensures
            r@ == old(self).queue().servers(),
            final(self).queue().servers() == Seq::<ServerEvent>::empty(),
            final(self).queue().games() == old(self).queue().games(),
            final(self).instances() == old(self).instances(),
            final(self).locations() == old(self).locations(),
            final(self).maps() == old(self).maps(),
            final(self).entries() == old(self).entries(),
    {
        self.equeue.iter_server()
    }

    /// Hands the persistence collaborator the pending operations, in order.
    pub fn drain_db_requests(&mut self) -> (r: Vec<DbRequest>)
        ensures
            r@ == old(self).requests(),
            final(self).requests() == Seq::<DbRequest>::empty(),
            final(self).instances() == old(self).instances(),
            final(self).locations() == old(self).locations(),
            final(self).maps() == old(self).maps(),
            final(self).entries() == old(self).entries(),
            final(self).queue() == old(self).queue(),
    {
        let mut out: Vec<DbRequest> = Vec::new();
        core::mem::swap(&mut self.db_requests, &mut out);
        out
    }

    pub fn is_shutting_down(&self) -> (r: bool)
        ensures
            r == self.is_stopped(),
    {
        self.stopped
    }

    /// Position of a pid in the lifecycle table.
    fn get_entry_index(&self, pid: i32) -> (r: Option<usize>)
        ensures
            match r {
                Some(i) => i < self.entries().len() && self.entries()[i as int].0 == pid
                    && entry_index(self.entries(), pid) == Some(i as int),
                None => entry_index(self.entries(), pid) is None,
            },
    {
        let n = self.player_datas.len();
        let mut i: usize = 0;
        while i < n
            invariant
                n == self.player_datas@.len(),
                i <= n,
                forall|k: int| 0 <= k < i ==> (#[trigger] self.player_datas@[k]).0 != pid,
            decreases n - i,
        {
            if self.player_datas[i].0 == pid {
                proof {
                    lemma_find_first_spec(self.player_datas@, by_pid(pid));
                    match entry_index(self.player_datas@, pid) {
                        Some(j) => {
                            assert(by_pid(pid)(self.player_datas@[j]));
                            assert(j == i) by {
                                if j < i {
                                    assert(self.player_datas@[j].0 != pid);
                                }
                                if i < j {
                                    assert(!by_pid(pid)(self.player_datas@[i as int]));
                                }
                            }
                        },
                        None => {
                            assert(!by_pid(pid)(self.player_datas@[i as int]));
                        },
                    }
                }
                return Some(i);
            }
            i = i + 1;
        }
        proof {
            lemma_find_first_spec(self.player_datas@, by_pid(pid));
            if let Some(j) = entry_index(self.player_datas@, pid) {
                assert(by_pid(pid)(self.player_datas@[j]));
            }
        }
        None
    }

    /// Position of a net_id in the location table.
    fn get_location_index(&self, net_id: i32) -> (r: Option<usize>)
        ensures
            match r {
                Some(i) => i < self.locations().len() && self.locations()[i as int].0 == net_id
                    && find_first(self.locations(), by_conn(net_id)) == Some(i as int),
                None => find_first(self.locations(), by_conn(net_id)) is None,
            },
    {
        let n = self.player_locations.len();
        let mut i: usize = 0;
        while i < n
            invariant
                n == self.player_locations@.len(),
                i <= n,
                forall|k: int| 0 <= k < i ==> (#[trigger] self.player_locations@[k]).0 != net_id,
            decreases n - i,
        {
            if self.player_locations[i].0 == net_id {
                proof {
                    lemma_find_first_spec(self.player_locations@, by_conn(net_id));
                    match find_first(self.player_locations@, by_conn(net_id)) {
                        Some(j) => {
                            assert(by_conn(net_id)(self.player_locations@[j]));
                            assert(j == i) by {
                                if j < i {
                                    assert(self.player_locations@[j].0 != net_id);
                                }
                                if i < j {
                                    assert(!by_conn(net_id)(self.player_locations@[i as int]));
                                }
                            }
                        },
                        None => {
                            assert(!by_conn(net_id)(self.player_locations@[i as int]));
                        },
                    }
                }
                return Some(i);
            }
            i = i + 1;
        }
        proof {
            lemma_find_first_spec(self.player_locations@, by_conn(net_id));
            if let Some(j) = find_first(self.player_locations@, by_conn(net_id)) {
                assert(by_conn(net_id)(self.player_locations@[j]));
            }
        }
        None
    }

    /// Join request. A pid that is already online is rejected: the new
    /// connection is force-disconnected and nothing else changes — in
    /// particular the existing entry is untouched. Otherwise the record is
    /// requested from persistence with a lock, and the connection is
    /// remembered until the load completes.
    pub fn player_joined(&mut self, net_id: i32, pid: i32)
        requires
            old(self).wf(),
        ensures
            entries_unique(old(self).entries()) ==> entries_unique(final(self).entries()),
            final(self).wf(),
            if pid_active(old(self).entries(), pid) {
                &&& final(self).entries() == old(self).entries()
                &&& final(self).loads() == old(self).loads()
                &&& final(self).requests() == old(self).requests()
                &&& final(self).locations() == old(self).locations()
                &&& final(self).instances() == old(self).instances()
                &&& final(self).queue().servers() == old(self).queue().servers().push(
                    ServerEvent::PlayerForceDisconnect { net_id })
                &&& final(self).queue().games() == old(self).queue().games()
            } else {
                &&& final(self).entries() == old(self).entries()
                &&& final(self).locations() == old(self).locations()
                &&& final(self).instances() == old(self).instances()
                &&& final(self).queue() == old(self).queue()
                &&& (match find_first(old(self).loads(), by_load_pid(pid)) {
                    Some(j) => final(self).loads() == old(self).loads().update(j, (pid, net_id)),
                    None => final(self).loads() == old(self).loads().push((pid, net_id)),
                })
                &&& final(self).requests() == old(self).requests().push(
                    DbRequest::Retrieve { pid, lock: true })
            },
            player_joined_transition(net_id, pid, *old(self), *final(self)),
    {
        proof {
            reveal(player_joined_transition);
        }
        if let Some(i) = self.get_entry_index(pid) {
            if self.player_datas[i].1.is_active() {
                self.equeue.push_server(ServerEvent::PlayerForceDisconnect { net_id });
                proof {
                    Self::lemma_wf_frame(*old(self), *self);
                }
                return;
            }
        }
        self.set_load(pid, net_id);
        self.db_requests.push(DbRequest::Retrieve { pid, lock: true });
        proof {
            Self::lemma_wf_frame(*old(self), *self);
        }
    }

    /// Records (or rebinds) the connection waiting for a pid's full load.
    fn set_load(&mut self, pid: i32, net_id: i32)
        ensures
            match find_first(old(self).loads(), by_load_pid(pid)) {
                Some(j) => final(self).loads() == old(self).loads().update(j, (pid, net_id)),
                None => final(self).loads() == old(self).loads().push((pid, net_id)),
            },
            final(self).entries() == old(self).entries(),
            final(self).locations() == old(self).locations(),
            final(self).instances() == old(self).instances(),
            final(self).maps() == old(self).maps(),
            final(self).waits() == old(self).waits(),
            final(self).invites() == old(self).invites(),
            final(self).requests() == old(self).requests(),
            final(self).queue() == old(self).queue(),
            final(self).is_stopped() == old(self).is_stopped(),
    {
        let n = self.full_datagets.len();
        let mut i: usize = 0;
        while i < n
            invariant
                n == self.full_datagets@.len(),
                i <= n,
                forall|k: int| 0 <= k < i ==> (#[trigger] self.full_datagets@[k]).0 != pid,
                *self == *old(self),
            decreases n - i,
        {
            if self.full_datagets[i].0 == pid {
                proof {
                    lemma_find_first_spec(self.full_datagets@, by_load_pid(pid));
                    match find_first(self.full_datagets@, by_load_pid(pid)) {
                        Some(j) => {
                            assert(by_load_pid(pid)(self.full_datagets@[j]));
                            assert(j == i) by {
                                if j < i {
                                    assert(self.full_datagets@[j].0 != pid);
                                }
                                if i < j {
                                    assert(!by_load_pid(pid)(self.full_datagets@[i as int]));
                                }
                            }
                        },
                        None => {
                            assert(!by_load_pid(pid)(self.full_datagets@[i as int]));
                        },
                    }
                }
                self.full_datagets.set(i, (pid, net_id));
                return;
            }
            i = i + 1;
        }
        proof {
            lemma_find_first_spec(self.full_datagets@, by_load_pid(pid));
            if let Some(j) = find_first(self.full_datagets@, by_load_pid(pid)) {
                assert(by_load_pid(pid)(self.full_datagets@[j]));
            }
        }
        self.full_datagets.push((pid, net_id));
    }

    /// Stores the lifecycle entry of a pid, replacing any previous one:
    /// exactly one entry per pid at any time.
    fn store_entry(&mut self, pid: i32, entry: PlayerDataEntry)
        ensures
            match entry_index(old(self).entries(), pid) {
                Some(j) => final(self).entries() == old(self).entries().update(j, (pid, entry)),
                None => final(self).entries() == old(self).entries().push((pid, entry)),
            },
            match entry_index(final(self).entries(), pid) {
                Some(j) => final(self).entries()[j] == (pid, entry),
                None => false,
            },
            final(self).instances() == old(self).instances(),
            final(self).locations() == old(self).locations(),
            final(self).maps() == old(self).maps(),
            final(self).waits() == old(self).waits(),
            final(self).loads() == old(self).loads(),
            final(self).invites() == old(self).invites(),
            final(self).requests() == old(self).requests(),
            final(self).queue() == old(self).queue(),
            final(self).is_stopped() == old(self).is_stopped(),
            final(self).spec_server_name() == old(self).spec_server_name(),
            entries_unique(old(self).entries()) ==> entries_unique(final(self).entries()),
    {
        if let Some(i) = self.get_entry_index(pid) {
            proof {
                lemma_find_first_spec(self.player_datas@, by_pid(pid));
            }
            self.player_datas.set(i, (pid, entry));
            proof {
                if entries_unique(old(self).entries()) {
                    assert forall|a: int, b: int| 0 <= a < b < self.entries().len() implies
                        (#[trigger] self.entries()[a]).0 != (#[trigger] self.entries()[b]).0 by {
                        assert(old(self).entries()[i as int].0 == pid);
                        assert(self.entries()[a].0 == old(self).entries()[a].0);
                        assert(self.entries()[b].0 == old(self).entries()[b].0);
                    }
                }
            }
            proof {
                lemma_find_first_spec(self.player_datas@, by_pid(pid));
                match entry_index(self.player_datas@, pid) {
                    Some(j2) => {
                        assert(by_pid(pid)(self.player_datas@[j2]));
                        if j2 < i {
                            assert(self.player_datas@[j2] == old(self).entries()[j2]);
                            assert(!by_pid(pid)(old(self).entries()[j2]));
                        }
                        if (i as int) < j2 {
                            assert(by_pid(pid)(self.player_datas@[i as int]));
                        }
                    },
                    None => {
                        assert(by_pid(pid)(self.player_datas@[i as int]));
                    },
                }
            }
        } else {
            proof {
                lemma_find_first_spec(self.player_datas@, by_pid(pid));
            }
            self.player_datas.push((pid, entry));
            proof {
                if entries_unique(old(self).entries()) {
                    assert forall|a: int, b: int| 0 <= a < b < self.entries().len() implies
                        (#[trigger] self.entries()[a]).0 != (#[trigger] self.entries()[b]).0 by {
                        if b == old(self).entries().len() {
                            assert(!by_pid(pid)(old(self).entries()[a]));
                        }
                    }
                }
                let n = old(self).entries().len() as int;
                lemma_find_first_spec(self.player_datas@, by_pid(pid));
                match entry_index(self.player_datas@, pid) {
                    Some(j2) => {
                        assert(by_pid(pid)(self.player_datas@[j2]));
                        if j2 < n {
                            assert(self.player_datas@[j2] == old(self).entries()[j2]);
                            assert(!by_pid(pid)(old(self).entries()[j2]));
                        }
                    },
                    None => {
                        assert(by_pid(pid)(self.player_datas@[n]));
                    },
                }
            }
        }
    }

    /// Binds (or rebinds) a connection to an instance index.
    fn store_location(&mut self, net_id: i32, idx: usize)
        requires
            idx < old(self).instances().len(),
        ensures
            match find_first(old(self).locations(), by_conn(net_id)) {
                Some(j) => final(self).locations() == old(self).locations().update(
                    j, (net_id, idx)),
                None => final(self).locations() == old(self).locations().push((net_id, idx)),
            },
            match find_first(final(self).locations(), by_conn(net_id)) {
                Some(j) => final(self).locations()[j] == (net_id, idx),
                None => false,
            },
            final(self).instances() == old(self).instances(),
            final(self).maps() == old(self).maps(),
            final(self).entries() == old(self).entries(),
            final(self).waits() == old(self).waits(),
            final(self).loads() == old(self).loads(),
            final(self).invites() == old(self).invites(),
            final(self).requests() == old(self).requests(),
            final(self).queue() == old(self).queue(),
            final(self).is_stopped() == old(self).is_stopped(),
            final(self).spec_server_name() == old(self).spec_server_name(),
    {
        if let Some(i) = self.get_location_index(net_id) {
            proof {
                lemma_find_first_spec(self.player_locations@, by_conn(net_id));
            }
            self.player_locations.set(i, (net_id, idx));
            proof {
                lemma_find_first_spec(self.player_locations@, by_conn(net_id));
                match find_first(self.player_locations@, by_conn(net_id)) {
                    Some(j2) => {
                        assert(by_conn(net_id)(self.player_locations@[j2]));
                        if j2 < i {
                            assert(self.player_locations@[j2] == old(self).locations()[j2]);
                            assert(!by_conn(net_id)(old(self).locations()[j2]));
                        }
                        if (i as int) < j2 {
                            assert(by_conn(net_id)(self.player_locations@[i as int]));
                        }
                    },
                    None => {
                        assert(by_conn(net_id)(self.player_locations@[i as int]));
                    },
                }
            }
        } else {
            proof {
                lemma_find_first_spec(self.player_locations@, by_conn(net_id));
            }
            self.player_locations.push((net_id, idx));
            proof {
                let n = old(self).locations().len() as int;
                lemma_find_first_spec(self.player_locations@, by_conn(net_id));
                match find_first(self.player_locations@, by_conn(net_id)) {
                    Some(j2) => {
                        assert(by_conn(net_id)(self.player_locations@[j2]));
                        if j2 < n {
                            assert(self.player_locations@[j2] == old(self).locations()[j2]);
                            assert(!by_conn(net_id)(old(self).locations()[j2]));
                        }
                    },
                    None => {
                        assert(by_conn(net_id)(self.player_locations@[n]));
                    },
                }
            }
        }
    }

    /// The running instance of a map name, if one exists.
    fn find_instance(&self, mapname: &str) -> (r: Option<usize>)
        ensures
            match r {
                Some(i) => i < self.instances().len()
                    && self.instances()[i as int].spec_mapname()@ == mapname@,
                None => true,
            },
    {
        let n = self.instances.len();
        let mut i: usize = 0;
        while i < n
            invariant
                n == self.instances@.len(),
                i <= n,
            decreases n - i,
        {
            if str_eq(self.instances[i].map_name(), mapname) {
                return Some(i);
            }
            i = i + 1;
        }
        None
    }

    /// The instance a map name should use: the first running one, or a fresh
    /// one started from the registered map definition (or, for an unknown
    /// name, from a minimal one-cell grid, so the join fails soft instead of
    /// crashing).
    fn get_or_start_instance(&mut self, mapname: &str) -> (idx: usize)
        requires
            old(self).wf(),
        ensures
            final(self).wf(),
            idx < final(self).instances().len(),
            final(self).instances()[idx as int].spec_mapname()@ == mapname@,
            old(self).instances().len() <= final(self).instances().len(),
            forall|k: int| 0 <= k < old(self).instances().len() ==>
                #[trigger] final(self).instances()[k] == old(self).instances()[k],
            final(self).locations() == old(self).locations(),
            final(self).maps() == old(self).maps(),
            final(self).entries() == old(self).entries(),
            final(self).waits() == old(self).waits(),
            final(self).loads() == old(self).loads(),
            final(self).invites() == old(self).invites(),
            final(self).requests() == old(self).requests(),
            final(self).queue() == old(self).queue(),
            final(self).is_stopped() == old(self).is_stopped(),
            final(self).spec_server_name() == old(self).spec_server_name(),
    {
        if let Some(i) = self.find_instance(mapname) {
            return i;
        }
        let mut col: Option<CollisionArray> = None;
        let nm = self.maps.len();
        let mut i: usize = 0;
        while i < nm
            invariant
                nm == self.maps@.len(),
                i <= nm,
                self.wf(),
                *self == *old(self),
                match col {
                    Some(c) => grid_ok(c),
                    None => true,
                },
            decreases nm - i,
        {
            if str_eq(self.maps[i].0.as_str(), mapname) {
                proof {
                    assert(map_def_ok(self.maps()[i as int]));
                }
                let c = self.maps[i].1.duplicate();
                col = Some(c);
                i = nm;
            } else {
                i = i + 1;
            }
        }
        let grid = match col {
            Some(c) => c,
            None => CollisionArray::from_used_rect((0, 0), (0, 0)),
        };
        let name = String::from_str(mapname);
        let inst = Instance::new(name, grid);
        let idx = self.instances.len();
        self.instances.push(inst);
        proof {
            assert forall|k: int| 0 <= k < self.instances().len() implies
                (#[trigger] self.instances()[k]).wf() by {
                if k < old(self).instances().len() {
                    assert(old(self).instances()[k].wf());
                }
            }
            assert forall|k: int| 0 <= k < self.locations().len() implies
                (#[trigger] self.locations()[k]).1 < self.instances().len() by {
                assert(old(self).locations()[k].1 < old(self).instances().len());
            }
            assert forall|k: int| 0 <= k < self.maps().len() implies
                map_def_ok(#[trigger] self.maps()[k]) by {
                assert(map_def_ok(old(self).maps()[k]));
            }
        }
        idx
    }

    /// Runs one closure of work on the instance a connection is bound to;
    /// a connection bound nowhere does nothing. The instance is taken out
    /// and put back at the same index, so bindings stay valid.
    fn instance_index_of(&self, net_id: i32) -> (r: Option<usize>)
        requires
            self.wf(),
        ensures
            match r {
                Some(idx) => idx < self.instances().len()
                    && (match find_first(self.locations(), by_conn(net_id)) {
                        Some(li) => self.locations()[li].1 == idx,
                        None => false,
                    }),
                None => find_first(self.locations(), by_conn(net_id)) is None,
            },
    {
        match self.get_location_index(net_id) {
            Some(li) => Some(self.player_locations[li].1),
            None => None,
        }
    }

    /// Restores well-formedness bookkeeping after an instance was taken out
    /// and put back at its index.
    proof fn lemma_wf_after_instance_update(a: GameManager, b: GameManager, idx: int)
        requires
            a.wf(),
            b.instances().len() == a.instances().len(),
            0 <= idx < a.instances().len(),
            b.instances()[idx].wf(),
            forall|k: int| 0 <= k < a.instances().len() && k != idx
                ==> #[trigger] b.instances()[k] == a.instances()[k],
            b.locations() == a.locations(),
            b.maps() == a.maps(),
        ensures
            b.wf(),
    {
        assert forall|k: int| 0 <= k < b.instances().len() implies
            (#[trigger] b.instances()[k]).wf() by {
            if k != idx {
                assert(b.instances()[k] == a.instances()[k]);
                assert(a.instances()[k].wf());
            }
        }
        assert forall|k: int| 0 <= k < b.locations().len() implies
            (#[trigger] b.locations()[k]).1 < b.instances().len() by {
            assert(a.locations()[k].1 < a.instances().len());
        }
        assert forall|k: int| 0 <= k < b.maps().len() implies
            map_def_ok(#[trigger] b.maps()[k]) by {
            assert(map_def_ok(a.maps()[k]));
        }
    }

    /// Forwards a buffered move intent to the mover's instance.
    pub fn player_move(&mut self, x: i32, y: i32, speed: i32, net_id: i32)
        requires
            old(self).wf(),
        ensures
            final(self).wf(),
            final(self).entries() == old(self).entries(),
            final(self).queue() == old(self).queue(),
            final(self).requests() == old(self).requests(),
            final(self).locations() == old(self).locations(),
            final(self).maps() == old(self).maps(),
            match find_first(old(self).locations(), by_conn(net_id)) {
                Some(li) => ({
                    let idx = old(self).locations()[li].1 as int;
                    let pre = old(self).instances()[idx];
                    let post = final(self).instances()[idx];
                    &&& final(self).instances().len() == old(self).instances().len()
                    &&& (forall|k: int| 0 <= k < old(self).instances().len() && k != idx
                        ==> final(self).instances()[k] == old(self).instances()[k])
                    &&& post.hash() == pre.hash()
                    &&& post.ents() == pre.ents()
                    &&& (match player_index(pre.players(), net_id) {
                        Some(j) => post.players() == pre.players().update(j, (net_id, (Player {
                            nextmove: crate::player::buffer_after_insert(
                                pre.players()[j].1.nextmove, pre.players()[j].1.nextnextmove,
                                (x, y, speed)).0,
                            nextnextmove: crate::player::buffer_after_insert(
                                pre.players()[j].1.nextmove, pre.players()[j].1.nextnextmove,
                                (x, y, speed)).1,
                            ..pre.players()[j].1
                        }))),
                        None => post == pre,
                    })
                }),
                None => *final(self) == *old(self),
            },
            player_move_transition(x, y, speed, net_id, *old(self), *final(self)),
    {
        proof {
            reveal(player_move_transition);
        }
        if let Some(idx) = self.instance_index_of(net_id) {
            let mut inst = self.instances.remove(idx);
            inst.player_move(x, y, speed, net_id);
            self.instances.insert(idx, (inst));
            proof {
                assert(self.instances@ =~= old(self).instances().update(
                    idx as int, self.instances@[idx as int]));
                Self::lemma_wf_after_instance_update(*old(self), *self, idx as int);
            }
        }
    }

    /// Completion of a persistence load. For a pid someone waited to look
    /// up, the waiters get the public part of the record. For a pid someone
    /// waited to join with, a valid record spawns them into the instance of
    /// their last map and makes the pid Active; an invalid record
    /// force-disconnects the connection. A completion nobody waited for
    /// only refreshes the offline cache; a malformed one is dropped.
    pub fn on_db_retrieved(&mut self, pid: i32, data: Option<PlayerData>)
        requires
            old(self).wf(),
        ensures
            final(self).wf(),
            final(self).maps() == old(self).maps(),
            final(self).invites() == old(self).invites(),
            final(self).requests() == old(self).requests(),
            final(self).is_stopped() == old(self).is_stopped(),
            entries_unique(old(self).entries()) ==> entries_unique(final(self).entries()),
            old(self).queue().games() == final(self).queue().games(),
            old(self).queue().servers().is_prefix_of(final(self).queue().servers()),
            match find_first(old(self).waits(), by_wait_pid(pid)) {
                Some(wi) => final(self).waits() == old(self).waits().remove(wi),
                None => final(self).waits() == old(self).waits(),
            },
            match find_first(old(self).loads(), by_load_pid(pid)) {
                Some(lj) => final(self).loads() == old(self).loads().remove(lj),
                None => final(self).loads() == old(self).loads(),
            },
            ({
                let base = old(self).queue().servers().len() as int;
                match (find_first(old(self).waits(), by_wait_pid(pid)), data) {
                    (Some(wi), Some(d)) => d.wf() ==> ({
                        let waiters = old(self).waits()[wi].1@;
                        &&& final(self).queue().servers().len() >= base + waiters.len()
                        &&& forall|k: int| 0 <= k < waiters.len()
                            ==> (#[trigger] final(self).queue().servers()[base + k] matches
                                ServerEvent::PlayerDataResponse { data: dk, net_id: nk }
                                && nk == waiters[k] && dk.pid == d.pid && dk.name == d.name
                                && dk.x == d.x && dk.y == d.y && dk.gold == 0
                                && dk.friends@.len() == 0)
                    }),
                    _ => true,
                }
            }),
            match (find_first(old(self).loads(), by_load_pid(pid)), data) {
                (Some(lj), Some(d)) => d.wf() ==> ({
                    let net = old(self).loads()[lj].1;
                    &&& (match entry_index(old(self).entries(), pid) {
                        Some(ei) => final(self).entries() == old(self).entries().update(
                            ei, (pid, (PlayerDataEntry::ActivePlayer { net_id: net, age: 0i32 }))),
                        None => final(self).entries() == old(self).entries().push(
                            (pid, (PlayerDataEntry::ActivePlayer { net_id: net, age: 0i32 }))),
                    })
                    &&& (match find_first(final(self).locations(), by_conn(net)) {
                        Some(li) => ({
                            let idx = final(self).locations()[li].1 as int;
                            &&& idx < final(self).instances().len()
                            &&& final(self).instances()[idx].spec_mapname()@ == d.location@
                            &&& final(self).instances()[idx].players().len() >= 1
                            &&& ({
                                let joined = final(self).instances()[idx].players().last();
                                &&& joined.0 == net
                                &&& joined.1.ticks_since_move == 0
                                &&& joined.1.nextmove is None
                                &&& joined.1.nextnextmove is None
                                &&& joined.1.data_version == 0
                                &&& joined.1.data.pid == d.pid
                                &&& joined.1.data.name == d.name
                                &&& joined.1.data.x == d.x
                                &&& joined.1.data.y == d.y
                                &&& joined.1.data.gold == d.gold
                                &&& joined.1.data.server_name == old(self).spec_server_name()
                                &&& joined.1.data.location@ == d.location@
                            })
                        }),
                        None => false,
                    })
                    &&& ({
                        let wbase = old(self).queue().servers().len() as int
                            + (match find_first(old(self).waits(), by_wait_pid(pid)) {
                                Some(wi) => old(self).waits()[wi].1@.len() as int,
                                None => 0,
                            });
                        &&& final(self).queue().servers().len() > wbase
                        &&& (final(self).queue().servers()[wbase] matches
                            ServerEvent::PlayerDataResponse { data: dd, net_id: nd }
                            && nd == net
                            && crate::playerdata::like(dd, (PlayerData {
                                server_name: old(self).spec_server_name(), ..d })))
                    })
                }),
                _ => true,
            },
            match (find_first(old(self).loads(), by_load_pid(pid)), data) {
                (Some(lj), Some(d)) => !d.wf() ==> ({
                    &&& final(self).queue().servers() == old(self).queue().servers().push(
                        ServerEvent::PlayerForceDisconnect { net_id: old(self).loads()[lj].1 })
                    &&& final(self).entries() == old(self).entries()
                    &&& final(self).locations() == old(self).locations()
                    &&& final(self).instances() == old(self).instances()
                }),
                (Some(lj), None) => ({
                    &&& final(self).queue().servers() == old(self).queue().servers().push(
                        ServerEvent::PlayerForceDisconnect { net_id: old(self).loads()[lj].1 })
                    &&& final(self).entries() == old(self).entries()
                    &&& final(self).locations() == old(self).locations()
                    &&& final(self).instances() == old(self).instances()
                }),
                _ => true,
            },
            match (find_first(old(self).loads(), by_load_pid(pid)), data) {
                (None, Some(d)) => d.wf() ==> ({
                    &&& (match entry_index(old(self).entries(), pid) {
                        Some(ei) => final(self).entries() == old(self).entries().update(
                            ei, (pid, (PlayerDataEntry::RawData { data: d, age: 0i32 }))),
                        None => final(self).entries() == old(self).entries().push(
                            (pid, (PlayerDataEntry::RawData { data: d, age: 0i32 }))),
                    })
                    &&& final(self).locations() == old(self).locations()
                    &&& final(self).instances() == old(self).instances()
                }),
                _ => true,
            },
            match (find_first(old(self).loads(), by_load_pid(pid)), data) {
                (None, Some(d)) => !d.wf() ==> ({
                    &&& final(self).entries() == old(self).entries()
                    &&& final(self).locations() == old(self).locations()
                    &&& final(self).instances() == old(self).instances()
                    &&& final(self).queue().servers() == old(self).queue().servers()
                }),
                (None, None) => ({
                    &&& final(self).entries() == old(self).entries()
                    &&& final(self).locations() == old(self).locations()
                    &&& final(self).instances() == old(self).instances()
                    &&& final(self).queue().servers() == old(self).queue().servers()
                }),
                _ => true,
            },
    {
        let valid = match &data {
            Some(d) => d.check_wf(),
            None => false,
        };
        proof {
            assert(old(self).queue().servers().is_prefix_of(self.queue().servers())) by {
                assert(old(self).queue().servers() =~= self.queue().servers().subrange(
                    0, old(self).queue().servers().len() as int));
            }
        }

        if let Some(wi) = self.get_wait_index(pid) {
            let (_, waiters) = self.datagets.remove(wi);
            proof {
                Self::lemma_wf_frame(*old(self), *self);
            }
            if valid {
                let minimal = match &data {
                    Some(d) => Some(d.get_minimal()),
                    None => None,
                };
                if let Some(m) = minimal {
                    let ghost base = old(self).queue().servers().len() as int;
                    let nw = waiters.len();
                    let mut w: usize = 0;
                    while w < nw
                        invariant
                            nw == waiters@.len(),
                            w <= nw,
                            self.wf(),
                            old(self).queue().servers().is_prefix_of(self.queue().servers()),
                            self.queue().games() == old(self).queue().games(),
                            self.maps() == old(self).maps(),
                            self.invites() == old(self).invites(),
                            self.instances() == old(self).instances(),
                            self.locations() == old(self).locations(),
                            self.entries() == old(self).entries(),
                            self.loads() == old(self).loads(),
                            self.requests() == old(self).requests(),
                            self.is_stopped() == old(self).is_stopped(),
                            wi < old(self).waits().len(),
                            self.waits() == old(self).waits().remove(wi as int),
                            self.spec_server_name() == old(self).spec_server_name(),
                            base == old(self).queue().servers().len(),
                            waiters@ == old(self).waits()[wi as int].1@,
                            data matches Some(d) && m.name == d.name && m.pid == d.pid
                                && m.x == d.x && m.y == d.y,
                            m.gold == 0 && m.friends@.len() == 0,
                            self.queue().servers().len() == base + w,
                            forall|k: int| 0 <= k < w
                                ==> (#[trigger] self.queue().servers()[base + k] matches
                                    ServerEvent::PlayerDataResponse { data: dk, net_id: nk }
                                    && nk == waiters@[k] && dk.name == m.name && dk.pid == m.pid
                                    && dk.x == m.x && dk.y == m.y && dk.gold == 0
                                    && dk.friends@.len() == 0),
                        decreases nw - w,
                    {
                        let ghost pre = *self;
                        let ghost prev = self.queue().servers();
                        let ev = ServerEvent::PlayerDataResponse {
                            data: m.clone(),
                            net_id: waiters[w],
                        };
                        self.equeue.push_server(ev);
                        proof {
                            crate::lemma_prefix_push(old(self).queue().servers(), prev, ev);
                            Self::lemma_wf_frame(pre, *self);
                        }
                        w = w + 1;
                    }
                }
            }
        }
        let ghost wend = self.queue().servers();
        proof {
            assert(wend.is_prefix_of(self.queue().servers())) by {
                assert(wend =~= self.queue().servers().subrange(0, wend.len() as int));
            }
        }

        let load = self.take_load(pid);
        if let Some(net_id) = load {
            if valid {
                if let Some(mut d) = data {
                    let ghost d0 = d;
                    d.server_name = self.server_name.clone();
                    let ghost prev = self.queue().servers();
                    let ev = ServerEvent::PlayerDataResponse { data: d.clone(), net_id };
                    self.equeue.push_server(ev);
                    proof {
                        crate::lemma_prefix_push(old(self).queue().servers(), prev, ev);
                        crate::lemma_prefix_push(wend, prev, ev);
                    }
                    let ghost mid0 = *self;
                    let location = d.location.clone();
                    let idx = self.get_or_start_instance(location.as_str());
                    let player = Player::new(d);
                    let ghost gplayer = player;
                    let ghost mid1 = *self;
                    let ghost prev2 = self.queue().servers();
                    let mut inst = self.instances.remove(idx);
                    inst.spawn_player(player, net_id, &mut self.equeue);
                    self.instances.insert(idx, inst);
                    proof {
                        assert(self.instances@ =~= mid1.instances().update(
                            idx as int, self.instances@[idx as int]));
                        Self::lemma_wf_after_instance_update(mid1, *self, idx as int);
                        assert(prev2.is_prefix_of(self.queue().servers())) by {
                            assert(prev2 =~= self.queue().servers().subrange(
                                0, prev2.len() as int));
                        }
                        crate::lemma_prefix_trans(old(self).queue().servers(), prev2,
                            self.queue().servers());
                        crate::lemma_prefix_trans(wend, prev2, self.queue().servers());
                        assert(self.instances()[idx as int].spec_mapname()@ == d0.location@);
                        assert(self.instances()[idx as int].players().last()
                            == (net_id, (Player {
                                data: (PlayerData {
                                    location: mid1.instances()[idx as int].spec_mapname(),
                                    ..gplayer.data
                                }),
                                ..gplayer
                            })));
                    }
                    self.store_location(net_id, idx);
                    self.store_entry(pid, PlayerDataEntry::new_active(net_id));
                    proof {
                        let ghost after_spawn_instances = self.instances();
                        assert forall|k: int| 0 <= k < self.locations().len() implies
                            (#[trigger] self.locations()[k]).1 < self.instances().len() by {
                            assert(self.instances().len() == mid1.instances().len());
                            lemma_find_first_spec(mid1.locations(), by_conn(net_id));
                            match find_first(mid1.locations(), by_conn(net_id)) {
                                Some(j) => {
                                    assert(self.locations()
                                        == mid1.locations().update(j, (net_id, idx)));
                                    if k != j {
                                        assert(self.locations()[k] == mid1.locations()[k]);
                                        assert(mid1.locations()[k].1 < mid1.instances().len());
                                    }
                                },
                                None => {
                                    assert(self.locations()
                                        == mid1.locations().push((net_id, idx)));
                                    if k < mid1.locations().len() {
                                        assert(self.locations()[k] == mid1.locations()[k]);
                                        assert(mid1.locations()[k].1 < mid1.instances().len());
                                    }
                                },
                            }
                        }
                        assert forall|k: int| 0 <= k < self.instances().len() implies
                            (#[trigger] self.instances()[k]).wf() by {
                        }
                        assert forall|k: int| 0 <= k < self.maps().len() implies
                            map_def_ok(#[trigger] self.maps()[k]) by {
                            assert(map_def_ok(mid1.maps()[k]));
                        }
                        assert(wend.len() as int
                            == old(self).queue().servers().len() as int
                            + (match find_first(old(self).waits(), by_wait_pid(pid)) {
                                Some(wi0) => old(self).waits()[wi0].1@.len() as int,
                                None => 0,
                            }));
                        assert(self.queue().servers()[wend.len() as int] == ev) by {
                            assert(prev2[wend.len() as int] == ev);
                        }
                        assert((ev matches ServerEvent::PlayerDataResponse { data: dd, net_id: nd }
                            && nd == net_id
                            && crate::playerdata::like(dd, (PlayerData {
                                server_name: old(self).spec_server_name(), ..d0 }))));
                    }
                }
            } else {
                let ghost prev = self.queue().servers();
                let ev = ServerEvent::PlayerForceDisconnect { net_id };
                self.equeue.push_server(ev);
                proof {
                    crate::lemma_prefix_push(old(self).queue().servers(), prev, ev);
                    crate::lemma_prefix_push(wend, prev, ev);
                    Self::lemma_wf_frame(*old(self), *self);
                }
            }
        } else {
            if valid {
                if let Some(d) = data {
                    let ghost mid = *self;
                    self.store_entry(pid, PlayerDataEntry::new_inactive(d));
                    proof {
                        Self::lemma_wf_frame(mid, *self);
                    }
                }
            }
        }
        proof {
            let base2 = old(self).queue().servers().len() as int;
            if find_first(old(self).waits(), by_wait_pid(pid)) is Some
                && data is Some && data->0.wf() {
                let wi0 = find_first(old(self).waits(), by_wait_pid(pid))->0;
                let waiters0 = old(self).waits()[wi0].1@;
                assert forall|k: int| 0 <= k < waiters0.len() implies
                    (#[trigger] self.queue().servers()[base2 + k] matches
                        ServerEvent::PlayerDataResponse { data: dk, net_id: nk }
                        && nk == waiters0[k] && dk.pid == data->0.pid
                        && dk.name == data->0.name && dk.x == data->0.x
                        && dk.y == data->0.y && dk.gold == 0
                        && dk.friends@.len() == 0) by {
                    assert(self.queue().servers()[base2 + k] == wend[base2 + k]);
                }
            }
        }
    }

    /// Position of a pid in the lookup wait table.
    fn get_wait_index(&self, pid: i32) -> (r: Option<usize>)
        ensures
            match r {
                Some(i) => i < self.waits().len() && self.waits()[i as int].0 == pid
                    && find_first(self.waits(), by_wait_pid(pid)) == Some(i as int),
                None => find_first(self.waits(), by_wait_pid(pid)) is None,
            },
    {
        let n = self.datagets.len();
        let mut i: usize = 0;
        while i < n
            invariant
                n == self.datagets@.len(),
                i <= n,
                forall|k: int| 0 <= k < i ==> (#[trigger] self.datagets@[k]).0 != pid,
            decreases n - i,
        {
            if self.datagets[i].0 == pid {
                proof {
                    lemma_find_first_spec(self.datagets@, by_wait_pid(pid));
                    match find_first(self.datagets@, by_wait_pid(pid)) {
                        Some(j) => {
                            assert(by_wait_pid(pid)(self.datagets@[j]));
                            assert(j == i) by {
                                if j < i {
                                    assert(self.datagets@[j].0 != pid);
                                }
                                if i < j {
                                    assert(!by_wait_pid(pid)(self.datagets@[i as int]));
                                }
                            }
                        },
                        None => {
                            assert(!by_wait_pid(pid)(self.datagets@[i as int]));
                        },
                    }
                }
                return Some(i);
            }
            i = i + 1;
        }
        proof {
            lemma_find_first_spec(self.datagets@, by_wait_pid(pid));
            if let Some(j) = find_first(self.datagets@, by_wait_pid(pid)) {
                assert(by_wait_pid(pid)(self.datagets@[j]));
            }
        }
        None
    }

    /// Takes the pending full load of a pid out of the table, if one waits.
    fn take_load(&mut self, pid: i32) -> (r: Option<i32>)
        ensures
            final(self).instances() == old(self).instances(),
            final(self).locations() == old(self).locations(),
            final(self).maps() == old(self).maps(),
            final(self).entries() == old(self).entries(),
            final(self).waits() == old(self).waits(),
            final(self).invites() == old(self).invites(),
            final(self).requests() == old(self).requests(),
            final(self).queue() == old(self).queue(),
            final(self).is_stopped() == old(self).is_stopped(),
            final(self).spec_server_name() == old(self).spec_server_name(),
            match find_first(old(self).loads(), by_load_pid(pid)) {
                Some(j) => r == Some(old(self).loads()[j].1)
                    && final(self).loads() == old(self).loads().remove(j),
                None => r is None && final(self).loads() == old(self).loads(),
            },
    {
        let n = self.full_datagets.len();
        let mut i: usize = 0;
        while i < n
            invariant
                n == self.full_datagets@.len(),
                i <= n,
                forall|k: int| 0 <= k < i ==> (#[trigger] self.full_datagets@[k]).0 != pid,
                *self == *old(self),
            decreases n - i,
        {
            if self.full_datagets[i].0 == pid {
                proof {
                    lemma_find_first_spec(self.full_datagets@, by_load_pid(pid));
                    match find_first(self.full_datagets@, by_load_pid(pid)) {
                        Some(j) => {
                            assert(by_load_pid(pid)(self.full_datagets@[j]));
                            assert(j == i) by {
                                if j < i {
                                    assert(self.full_datagets@[j].0 != pid);
                                }
                                if i < j {
                                    assert(!by_load_pid(pid)(self.full_datagets@[i as int]));
                                }
                            }
                        },
                        None => {
                            assert(!by_load_pid(pid)(self.full_datagets@[i as int]));
                        },
                    }
                }
                let entry = self.full_datagets.remove(i);
                return Some(entry.1);
            }
            i = i + 1;
        }
        proof {
            lemma_find_first_spec(self.full_datagets@, by_load_pid(pid));
            if let Some(j) = find_first(self.full_datagets@, by_load_pid(pid)) {
                assert(by_load_pid(pid)(self.full_datagets@[j]));
            }
        }
        None
    }

    /// The connection of a pid, `None` when the pid is not online here.
    pub fn get_pid_net_id(&self, pid: i32) -> (r: Option<i32>)
        ensures
            match entry_index(self.entries(), pid) {
                Some(j) => match self.entries()[j].1 {
                    PlayerDataEntry::ActivePlayer { net_id, .. } => r == Some(net_id),
                    PlayerDataEntry::RawData { .. } => r is None,
                },
                None => r is None,
            },
    {
        match self.get_entry_index(pid) {
            Some(i) => self.player_datas[i].1.get_net_id(),
            None => None,
        }
    }

    /// The connection of a pid that is online here, `None` otherwise
    /// (same as `get_pid_net_id`; kept for callers that think in terms of
    /// the live player).
    pub fn get_pid_active_player(&self, pid: i32) -> (r: Option<i32>)
        ensures
            match entry_index(self.entries(), pid) {
                Some(j) => match self.entries()[j].1 {
                    PlayerDataEntry::ActivePlayer { net_id, .. } => r == Some(net_id),
                    PlayerDataEntry::RawData { .. } => r is None,
                },
                None => r is None,
            },
    {
        self.get_pid_net_id(pid)
    }

    /// A copy of the live record of a connection, `None` when the connection
    /// is not bound to an instance or not resident there.
    pub fn get_net_id_playerdata(&self, net_id: i32) -> (r: Option<PlayerData>)
        requires
            self.wf(),
        ensures
            match find_first(self.locations(), by_conn(net_id)) {
                Some(j) => match lookup_player(
                    self.instances()[self.locations()[j].1 as int].players(), net_id) {
                    Some(p) => r is Some && crate::playerdata::like(r->0, p.data),
                    None => r is None,
                },
                None => r is None,
            },
    {
        let li = match self.get_location_index(net_id) {
            Some(li) => li,
            None => {
                return None;
            },
        };
        let idx = self.player_locations[li].1;
        match self.instances[idx].get_net_id_playerdata(net_id) {
            Some(p) => Some(p.data.clone()),
            None => None,
        }
    }

    /// Saves the record of an online pid without unlocking it; offline or
    /// unknown pids are left alone.
    pub fn save_dataentry(&mut self, pid: i32)
        requires
            old(self).wf(),
        ensures
            final(self).wf(),
            final(self).entries() == old(self).entries(),
            final(self).queue() == old(self).queue(),
            final(self).instances() == old(self).instances(),
            final(self).locations() == old(self).locations(),
            final(self).maps() == old(self).maps(),
            final(self).invites() == old(self).invites(),
            old(self).requests().is_prefix_of(final(self).requests()),
            match entry_index(old(self).entries(), pid) {
                Some(ei) => match old(self).entries()[ei].1 {
                    PlayerDataEntry::ActivePlayer { net_id, .. } =>
                        match find_first(old(self).locations(), by_conn(net_id)) {
                            Some(li) => ({
                                let idx = old(self).locations()[li].1 as int;
                                match lookup_player(old(self).instances()[idx].players(),
                                    net_id) {
                                    Some(p) => exists|dd: PlayerData|
                                        #[trigger] crate::playerdata::like(dd, p.data)
                                        && final(self).requests() == old(self).requests().push(
                                            DbRequest::Save { pid, data: dd, unlock: false }),
                                    None => final(self).requests() == old(self).requests(),
                                }
                            }),
                            None => final(self).requests() == old(self).requests(),
                        },
                    PlayerDataEntry::RawData { .. } =>
                        final(self).requests() == old(self).requests(),
                },
                None => final(self).requests() == old(self).requests(),
            },
    {
        proof {
            assert(old(self).requests().is_prefix_of(self.requests())) by {
                assert(old(self).requests()
                    =~= self.requests().subrange(0, old(self).requests().len() as int));
            }
        }
        let net_id = match self.get_pid_net_id(pid) {
            Some(n) => n,
            None => {
                return;
            },
        };
        let data = match self.get_net_id_playerdata(net_id) {
            Some(d) => d,
            None => {
                return;
            },
        };
        let ghost prev = self.requests();
        self.db_requests.push(DbRequest::Save { pid, data, unlock: false });
        proof {
            crate::lemma_prefix_push(old(self).requests(), prev,
                self.requests().last());
            Self::lemma_wf_frame(*old(self), *self);
        }
    }

    /// Consumes a session that ended: clears the server claim on the record
    /// and emits an unlocking save.
    pub fn save_unlocking(&mut self, player: Player)
        requires
            old(self).wf(),
        ensures
            final(self).wf(),
            final(self).requests() == old(self).requests().push(DbRequest::Save {
                pid: player.data.pid,
                data: (PlayerData { server_name: final(self).last_saved_name(), ..player.data }),
                unlock: true,
            }),
            final(self).last_saved_name()@ == Seq::<char>::empty(),
            final(self).entries() == old(self).entries(),
            final(self).queue() == old(self).queue(),
            final(self).instances() == old(self).instances(),
            final(self).locations() == old(self).locations(),
            final(self).maps() == old(self).maps(),
            final(self).invites() == old(self).invites(),
    {
        let mut p = player;
        let pid = p.pid();
        p.data.server_name = String::new();
        self.db_requests.push(DbRequest::Save { pid, data: p.into_data(), unlock: true });
        proof {
            Self::lemma_wf_frame(*old(self), *self);
        }
    }

    /// The (empty) server name an unlocking save writes into the record.
    pub closed spec fn last_saved_name(self) -> String {
        match self.db_requests@.last() {
            DbRequest::Save { data, .. } => data.server_name,
            _ => self.server_name,
        }
    }

    /// Disconnect: the player leaves their instance, their record is saved
    /// with the lock released, and their lifecycle entry becomes an offline
    /// cache with a fresh age. A connection bound nowhere is a no-op (a
    /// stale disconnect, not an error).
    pub fn player_despawn(&mut self, net_id: i32)
        requires
            old(self).wf(),
        ensures
            entries_unique(old(self).entries()) ==> entries_unique(final(self).entries()),
            final(self).wf(),
            final(self).maps() == old(self).maps(),
            old(self).queue().games() == final(self).queue().games(),
            old(self).queue().servers() == final(self).queue().servers(),
            match find_first(old(self).locations(), by_conn(net_id)) {
                Some(li) => ({
                    let idx = old(self).locations()[li].1 as int;
                    &&& final(self).locations() == old(self).locations().remove(li)
                    &&& final(self).instances().len() == old(self).instances().len()
                    &&& (forall|k: int| 0 <= k < old(self).instances().len() && k != idx
                        ==> final(self).instances()[k] == old(self).instances()[k])
                    &&& (match player_index(old(self).instances()[idx].players(), net_id) {
                        Some(j) => ({
                            let p = old(self).instances()[idx].players()[j].1;
                            &&& final(self).instances()[idx].players()
                                == old(self).instances()[idx].players().remove(j)
                            &&& final(self).requests().len() == old(self).requests().len() + 1
                            &&& (final(self).requests().last() matches DbRequest::Save {
                                pid: rp, data: dd, unlock: true }
                                && rp == p.data.pid
                                && dd == (PlayerData { server_name: dd.server_name, ..p.data })
                                && dd.server_name@ == Seq::<char>::empty())
                            &&& exists|cached: PlayerData|
                                #[trigger] crate::playerdata::like(cached, p.data)
                                && (match entry_index(old(self).entries(), p.data.pid) {
                                    Some(ei) => final(self).entries()
                                        == old(self).entries().update(ei, (p.data.pid,
                                            (PlayerDataEntry::RawData {
                                                data: cached, age: 0i32 }))),
                                    None => final(self).entries()
                                        == old(self).entries().push((p.data.pid,
                                            (PlayerDataEntry::RawData {
                                                data: cached, age: 0i32 }))),
                                })
                        }),
                        None => final(self).instances()[idx] == old(self).instances()[idx]
                            && final(self).requests() == old(self).requests()
                            && final(self).entries() == old(self).entries(),
                    })
                }),
                None => *final(self) == *old(self),
            },
            player_despawn_transition(net_id, *old(self), *final(self)),
    {
        proof {
            reveal(player_despawn_transition);
        }
        let li = match self.get_location_index(net_id) {
            Some(li) => li,
            None => {
                return;
            },
        };
        let idx = self.player_locations[li].1;
        self.player_locations.remove(li);
        proof {
            assert forall|k: int| 0 <= k < self.locations().len() implies
                (#[trigger] self.locations()[k]).1 < self.instances().len() by {
                assert(old(self).locations().remove(li as int)[k]
                    == self.locations()[k]);
                if k < li {
                    assert(old(self).locations()[k].1 < old(self).instances().len());
                } else {
                    assert(old(self).locations()[k + 1].1 < old(self).instances().len());
                }
            }
            assert forall|k: int| 0 <= k < self.instances().len() implies
                (#[trigger] self.instances()[k]).wf() by {
                assert(old(self).instances()[k].wf());
            }
            assert forall|k: int| 0 <= k < self.maps().len() implies
                map_def_ok(#[trigger] self.maps()[k]) by {
                assert(map_def_ok(old(self).maps()[k]));
            }
        }
        let ghost mid = *self;
        let mut inst = self.instances.remove(idx);
        let despawned = inst.despawn_player(net_id);
        self.instances.insert(idx, inst);
        proof {
            assert(self.instances@ =~= mid.instances().update(
                idx as int, self.instances@[idx as int]));
            Self::lemma_wf_after_instance_update(mid, *self, idx as int);
        }
        if let Some(p) = despawned {
            let pid = p.pid();
            let data_for_entry = p.data.clone();
            let ghost mid2 = *self;
            self.save_unlocking(p);
            self.store_entry(pid, PlayerDataEntry::new_inactive(data_for_entry));
            proof {
                Self::lemma_wf_frame(mid2, *self);
            }
        }
    }

    /// Cross-instance transfer: the player leaves their old instance, is
    /// repositioned, spawns into the instance of the named map, and their
    /// binding moves over — with no event processed in between.
    pub fn player_join_instance(&mut self, mapname: &str, x: i32, y: i32, net_id: i32)
        requires
            old(self).wf(),
        ensures
            final(self).wf(),
            final(self).maps() == old(self).maps(),
            final(self).entries() == old(self).entries(),
            final(self).loads() == old(self).loads(),
            final(self).invites() == old(self).invites(),
            final(self).requests() == old(self).requests(),
            old(self).queue().games() == final(self).queue().games(),
            old(self).queue().servers().is_prefix_of(final(self).queue().servers()),
            ({
                match find_first(old(self).locations(), by_conn(net_id)) {
                    Some(li) => ({
                        let old_idx = old(self).locations()[li].1 as int;
                        match player_index(old(self).instances()[old_idx].players(), net_id) {
                            Some(j) => ({
                                let p0 = old(self).instances()[old_idx].players()[j].1;
                                &&& find_first(final(self).locations(), by_conn(net_id)) is Some
                                &&& ({
                                    let ni = find_first(final(self).locations(),
                                        by_conn(net_id))->0;
                                    let new_idx = final(self).locations()[ni].1 as int;
                                    let ninst = final(self).instances()[new_idx];
                                    &&& new_idx < final(self).instances().len()
                                    &&& ninst.spec_mapname()@ == mapname@
                                    &&& ninst.players().len() > 0
                                    &&& ninst.players().last().0 == net_id
                                    &&& ninst.players().last().1 == (Player {
                                        data: (PlayerData {
                                            x: x,
                                            y: y,
                                            location: ninst.spec_mapname(),
                                            ..p0.data
                                        }),
                                        speed: 0,
                                        ticks_since_move: 0,
                                        ..p0
                                    })
                                    &&& (new_idx != old_idx ==>
                                        final(self).instances()[old_idx].players()
                                            == old(self).instances()[old_idx].players().remove(j))
                                    &&& final(self).queue().servers()
                                        == old(self).queue().servers()
                                        + seq![ServerEvent::GenericResponse {
                                            response: GenericServerResponse::LoadMap {
                                                mapname: ninst.spec_mapname(),
                                            },
                                            net_id,
                                        }]
                                        + concat_map(ninst.hash().adjacent_seq((x, y)),
                                            move_update_fn(ninst.players(), net_id))
                                        + concat_map(ninst.ents().hash().adjacent_seq((x, y)),
                                            entity_update_fn(ninst.ents().list(), net_id))
                                })
                            }),
                            None => final(self).locations() == old(self).locations()
                                && final(self).instances() == old(self).instances()
                                && final(self).queue() == old(self).queue(),
                        }
                    }),
                    None => *final(self) == *old(self),
                }
            }),
            player_join_instance_transition(mapname@, x, y, net_id, *old(self), *final(self)),
    {
        proof {
            reveal(player_join_instance_transition);
        }
        proof {
            assert(old(self).queue().servers().is_prefix_of(self.queue().servers())) by {
                assert(old(self).queue().servers() =~= self.queue().servers().subrange(
                    0, old(self).queue().servers().len() as int));
            }
        }
        let li = match self.get_location_index(net_id) {
            Some(li) => li,
            None => {
                return;
            },
        };
        let old_idx = self.player_locations[li].1;
        let ghost mid0 = *self;
        let mut inst = self.instances.remove(old_idx);
        let despawned = inst.despawn_player(net_id);
        self.instances.insert(old_idx, inst);
        proof {
            assert(self.instances@ =~= mid0.instances().update(
                old_idx as int, self.instances@[old_idx as int]));
            Self::lemma_wf_after_instance_update(mid0, *self, old_idx as int);
        }
        let mut p = match despawned {
            Some(p) => p,
            None => {
                proof {
                    assert(self.instances() =~= old(self).instances());
                }
                return;
            },
        };
        proof {
            let inst0 = mid0.instances()[old_idx as int];
            assert(inst0.wf());
            crate::instance::lemma_player_index_spec(inst0.players(), net_id);
            if let Some(j) = player_index(inst0.players(), net_id) {
                assert(inst0.players()[j].1.wf());
            }
        }
        p.set_full_pos(x, y, 0);
        proof {
            assert(p.wf());
        }
        let new_idx = self.get_or_start_instance(mapname);
        let ghost mid1 = *self;
        let ghost prev = self.queue().servers();
        let ghost pg = p;
        let mut newinst = self.instances.remove(new_idx);
        newinst.spawn_player(p, net_id, &mut self.equeue);
        self.instances.insert(new_idx, newinst);
        proof {
            assert(self.instances@ =~= mid1.instances().update(
                new_idx as int, self.instances@[new_idx as int]));
            Self::lemma_wf_after_instance_update(mid1, *self, new_idx as int);
            assert(prev.is_prefix_of(self.queue().servers())) by {
                assert(prev =~= self.queue().servers().subrange(0, prev.len() as int));
            }
            crate::lemma_prefix_trans(old(self).queue().servers(), prev,
                self.queue().servers());
        }
        let ghost mid2 = *self;
        self.store_location(net_id, new_idx);
        proof {
            assert forall|k: int| 0 <= k < self.locations().len() implies
                (#[trigger] self.locations()[k]).1 < self.instances().len() by {
                lemma_find_first_spec(mid2.locations(), by_conn(net_id));
                match find_first(mid2.locations(), by_conn(net_id)) {
                    Some(j) => {
                        assert(self.locations() == mid2.locations().update(j, (net_id, new_idx)));
                        if k != j {
                            assert(self.locations()[k] == mid2.locations()[k]);
                            assert(mid2.locations()[k].1 < mid2.instances().len());
                        }
                    },
                    None => {
                        assert(self.locations() == mid2.locations().push((net_id, new_idx)));
                        if k < mid2.locations().len() {
                            assert(self.locations()[k] == mid2.locations()[k]);
                            assert(mid2.locations()[k].1 < mid2.instances().len());
                        }
                    },
                }
            }
            assert forall|k: int| 0 <= k < self.instances().len() implies
                (#[trigger] self.instances()[k]).wf() by {
            }
            assert forall|k: int| 0 <= k < self.maps().len() implies
                map_def_ok(#[trigger] self.maps()[k]) by {
                assert(map_def_ok(mid2.maps()[k]));
            }
            let inst0 = old(self).instances()[old_idx as int];
            let jj = player_index(inst0.players(), net_id)->0;
            let p0 = inst0.players()[jj].1;
            assert(pg == (Player {
                data: (PlayerData { x: x, y: y, ..p0.data }),
                speed: 0,
                ticks_since_move: 0,
                ..p0
            }));
            match find_first(self.locations(), by_conn(net_id)) {
                Some(ni) => {
                    assert(self.locations()[ni] == (net_id, new_idx));
                },
                None => {
                    assert(false);
                },
            }
            let ninst = self.instances()[new_idx as int];
            assert(ninst == mid2.instances()[new_idx as int]);
            assert(ninst.spec_mapname() == mid1.instances()[new_idx as int].spec_mapname());
            assert(ninst.players()
                == mid1.instances()[new_idx as int].players().push((net_id, (Player {
                    data: (PlayerData { location: ninst.spec_mapname(), ..pg.data }),
                    ..pg
                }))));
            assert(ninst.players().last().1 == (Player {
                data: (PlayerData { x: x, y: y, location: ninst.spec_mapname(), ..p0.data }),
                speed: 0,
                ticks_since_move: 0,
                ..p0
            }));
            if new_idx as int != old_idx as int {
                assert(self.instances()[old_idx as int].players()
                    == inst0.players().remove(jj));
            }
            assert(self.queue().servers() == old(self).queue().servers()
                + seq![ServerEvent::GenericResponse {
                    response: GenericServerResponse::LoadMap {
                        mapname: ninst.spec_mapname(),
                    },
                    net_id,
                }]
                + concat_map(ninst.hash().adjacent_seq((x, y)),
                    move_update_fn(ninst.players(), net_id))
                + concat_map(ninst.ents().hash().adjacent_seq((x, y)),
                    entity_update_fn(ninst.ents().list(), net_id)));
        }
    }

    /// Position of an invite pair in the invite table.
    fn get_invite_index(&self, pair: (i32, i32)) -> (r: Option<usize>)
        ensures
            match r {
                Some(i) => i < self.invites().len() && self.invites()[i as int].0 == pair
                    && find_first(self.invites(), by_pair(pair)) == Some(i as int),
                None => find_first(self.invites(), by_pair(pair)) is None,
            },
    {
        let n = self.friend_invites.len();
        let mut i: usize = 0;
        while i < n
            invariant
                n == self.friend_invites@.len(),
                i <= n,
                forall|k: int| 0 <= k < i ==> (#[trigger] self.friend_invites@[k]).0 != pair,
            decreases n - i,
        {
            let entry = self.friend_invites[i];
            if entry.0.0 == pair.0 && entry.0.1 == pair.1 {
                proof {
                    lemma_find_first_spec(self.friend_invites@, by_pair(pair));
                    match find_first(self.friend_invites@, by_pair(pair)) {
                        Some(j) => {
                            assert(by_pair(pair)(self.friend_invites@[j]));
                            assert(j == i) by {
                                if j < i {
                                    assert(self.friend_invites@[j].0 != pair);
                                }
                                if i < j {
                                    assert(!by_pair(pair)(self.friend_invites@[i as int]));
                                }
                            }
                        },
                        None => {
                            assert(!by_pair(pair)(self.friend_invites@[i as int]));
                        },
                    }
                }
                return Some(i);
            }
            i = i + 1;
        }
        proof {
            lemma_find_first_spec(self.friend_invites@, by_pair(pair));
            if let Some(j) = find_first(self.friend_invites@, by_pair(pair)) {
                assert(by_pair(pair)(self.friend_invites@[j]));
            }
        }
        None
    }

    /// Friend-request and friend-accept flows live here; anything else a
    /// player raises is forwarded to their instance.
    ///
    /// A request while the same invite is pending is suppressed (idempotent);
    /// accepting an invite that does not exist — including one that has
    /// already timed out — yields a "friend invite expired" notice to the
    /// accepter and changes nothing else, never an error.
    pub fn handle_generic_event(&mut self, event: GenericPlayerEvent, from_net_id: i32)
        requires
            old(self).wf(),
        ensures
            final(self).wf(),
            final(self).maps() == old(self).maps(),
            final(self).entries() == old(self).entries(),
            final(self).loads() == old(self).loads(),
            final(self).requests() == old(self).requests(),
            old(self).queue().servers().is_prefix_of(final(self).queue().servers()),
            ({
                match event {
                    GenericPlayerEvent::FriendAccept { pid } => ({
                        let accepter = manager_pid_of(*old(self), from_net_id);
                        match accepter {
                            Some(invited_pid) => if find_first(old(self).invites(),
                                by_pair((pid, invited_pid))) is None {
                                &&& final(self).invites() == old(self).invites()
                                &&& final(self).locations() == old(self).locations()
                                &&& final(self).instances() == old(self).instances()
                                &&& final(self).queue().servers().len()
                                    == old(self).queue().servers().len() + 1
                                &&& (final(self).queue().servers().last() matches
                                    ServerEvent::PlayerChat { text, from, from_pid, is_dm, net_id }
                                    && text@ == "Friend invite expired."@
                                    && from@ == Seq::<char>::empty()
                                    && from_pid == -1 && !is_dm && net_id == from_net_id)
                            } else {
                                ({
                                    let ii = find_first(old(self).invites(),
                                        by_pair((pid, invited_pid)))->0;
                                    &&& final(self).invites() == old(self).invites().remove(ii)
                                    &&& final(self).locations() == old(self).locations()
                                    &&& (match entry_index(old(self).entries(), pid) {
                                        Some(ei) => match old(self).entries()[ei].1 {
                                            PlayerDataEntry::ActivePlayer { net_id: inviter_net, .. } => ({
                                                &&& final(self).queue().servers().len()
                                                    == old(self).queue().servers().len() + 2
                                                &&& (final(self).queue().servers().last() matches
                                                    ServerEvent::PlayerChat {
                                                        text, from, is_dm, net_id, .. }
                                                    && text@ == "Friend invite accepted!"@
                                                    && from@ == Seq::<char>::empty() && !is_dm
                                                    && net_id == from_net_id)
                                                &&& (final(self).queue().servers()[
                                                    old(self).queue().servers().len() as int]
                                                    matches ServerEvent::PlayerChat {
                                                        text, from, is_dm, net_id, .. }
                                                    && text@ == "Friend invite accepted!"@
                                                    && from@ == Seq::<char>::empty() && !is_dm
                                                    && net_id == inviter_net)
                                                &&& (match manager_player_of(*final(self), from_net_id) {
                                                    Some(p2) => p2.data.friends@.contains(pid)
                                                        && p2.private_data_just_updated,
                                                    None => false,
                                                })
                                                &&& (match manager_player_of(*final(self), inviter_net) {
                                                    Some(p3) => p3.data.friends@.contains(invited_pid)
                                                        && p3.private_data_just_updated,
                                                    None => true,
                                                })
                                            }),
                                            PlayerDataEntry::RawData { .. } =>
                                                final(self).instances() == old(self).instances()
                                                    && final(self).queue().servers()
                                                        == old(self).queue().servers(),
                                        },
                                        None => final(self).instances() == old(self).instances()
                                            && final(self).queue().servers()
                                                == old(self).queue().servers(),
                                    })
                                })
                            },
                            None => *final(self) == *old(self),
                        }
                    }),
                    GenericPlayerEvent::FriendRequest { pid } => ({
                        let invited = match entry_index(old(self).entries(), pid) {
                            Some(ei) => match old(self).entries()[ei].1 {
                                PlayerDataEntry::ActivePlayer { net_id: n, .. } => Some(n),
                                PlayerDataEntry::RawData { .. } => None::<i32>,
                            },
                            None => None::<i32>,
                        };
                        &&& final(self).instances() == old(self).instances()
                        &&& final(self).locations() == old(self).locations()
                        &&& (match (invited, manager_player_of(*old(self), from_net_id)) {
                            (Some(invited_net), Some(ip)) => if invited_net != from_net_id {
                                match find_first(old(self).invites(),
                                    by_pair((ip.data.pid, pid))) {
                                    None => final(self).invites()
                                        == old(self).invites().push(((ip.data.pid, pid), 0i32))
                                        && final(self).queue().servers()
                                            == old(self).queue().servers().push(
                                                ServerEvent::GenericResponse {
                                                    response: GenericServerResponse::GotFriendRequest {
                                                        pid: ip.data.pid,
                                                        name: ip.data.name,
                                                    },
                                                    net_id: invited_net,
                                                }),
                                    Some(_) => final(self).invites() == old(self).invites()
                                        && final(self).queue().servers()
                                            == old(self).queue().servers(),
                                }
                            } else {
                                final(self).invites() == old(self).invites()
                                    && final(self).queue().servers()
                                        == old(self).queue().servers()
                            },
                            _ => final(self).invites() == old(self).invites()
                                && final(self).queue().servers() == old(self).queue().servers(),
                        })
                    }),
                    _ => match find_first(old(self).locations(), by_conn(from_net_id)) {
                        Some(li) => ({
                            let idx = old(self).locations()[li].1 as int;
                            &&& final(self).invites() == old(self).invites()
                            &&& final(self).locations() == old(self).locations()
                            &&& final(self).instances().len() == old(self).instances().len()
                            &&& (forall|k: int| 0 <= k < old(self).instances().len() && k != idx
                                ==> final(self).instances()[k] == old(self).instances()[k])
                            &&& generic_event_applied(event, from_net_id,
                                old(self).instances()[idx], final(self).instances()[idx],
                                old(self).queue(), final(self).queue())
                        }),
                        None => *final(self) == *old(self),
                    },
                }
            }),
            handle_generic_event_transition(event, from_net_id, *old(self), *final(self)),
    {
        proof {
            reveal(handle_generic_event_transition);
        }
        proof {
            assert(old(self).queue().servers().is_prefix_of(self.queue().servers())) by {
                assert(old(self).queue().servers() =~= self.queue().servers().subrange(
                    0, old(self).queue().servers().len() as int));
            }
        }
        match event {
            GenericPlayerEvent::FriendRequest { pid } => {
                let invited_net_id = match self.get_pid_net_id(pid) {
                    Some(n) => n,
                    None => {
                        return;
                    },
                };
                if invited_net_id == from_net_id {
                    return;
                }
                let (inviter_pid, inviter_name) = match self.get_net_id_playerdata(from_net_id) {
                    Some(d) => (d.pid, d.name),
                    None => {
                        return;
                    },
                };
                if self.get_invite_index((inviter_pid, pid)).is_none() {
                    self.friend_invites.push(((inviter_pid, pid), 0));
                    let ev = ServerEvent::GenericResponse {
                        response: GenericServerResponse::GotFriendRequest {
                            pid: inviter_pid,
                            name: inviter_name,
                        },
                        net_id: invited_net_id,
                    };
                    let ghost prev = self.queue().servers();
                    self.equeue.push_server(ev);
                    proof {
                        crate::lemma_prefix_push(old(self).queue().servers(), prev, ev);
                        Self::lemma_wf_frame(*old(self), *self);
                    }
                }
                proof {
                    Self::lemma_wf_frame(*old(self), *self);
                }
            },
            GenericPlayerEvent::FriendAccept { pid } => {
                let invited_pid = match self.get_my_pid(from_net_id) {
                    Some(p) => p,
                    None => {
                        return;
                    },
                };
                if let Some(ii) = self.get_invite_index((pid, invited_pid)) {
                    self.friend_invites.remove(ii);
                    proof {
                        Self::lemma_wf_frame(*old(self), *self);
                    }
                    if let Some(inviter_net_id) = self.get_pid_net_id(pid) {
                        let ghost s1 = *self;
                        self.add_friend(from_net_id, pid);
                        let ghost s2 = *self;
                        self.add_friend(inviter_net_id, invited_pid);
                        let ghost s3 = *self;
                        let ghost prev1 = self.queue().servers();
                        self.equeue.push_server(ServerEvent::PlayerChat {
                            text: String::from_str("Friend invite accepted!"),
                            from: String::new(),
                            from_pid: -1,
                            is_dm: false,
                            net_id: inviter_net_id,
                        });
                        let ghost prev2 = self.queue().servers();
                        self.equeue.push_server(ServerEvent::PlayerChat {
                            text: String::from_str("Friend invite accepted!"),
                            from: String::new(),
                            from_pid: -1,
                            is_dm: false,
                            net_id: from_net_id,
                        });
                        proof {
                            assert(old(self).queue().servers().is_prefix_of(prev1)) by {
                                assert(old(self).queue().servers() =~= prev1.subrange(
                                    0, old(self).queue().servers().len() as int));
                            }
                            crate::lemma_prefix_push(old(self).queue().servers(), prev1,
                                prev2.last());
                            crate::lemma_prefix_push(old(self).queue().servers(), prev2,
                                self.queue().servers().last());
                            assert(self.queue().servers()[
                                old(self).queue().servers().len() as int] == prev2.last());
                            // Removing the invite and pushing events leave every
                            // player lookup alone, so the two friend additions
                            // account for all record changes.
                            assert forall|n: i32| #[trigger] manager_player_of(s1, n)
                                == manager_player_of(*old(self), n) by {}
                            assert forall|n: i32| #[trigger] manager_player_of(*self, n)
                                == manager_player_of(s3, n) by {}
                            let a1 = manager_player_of(s1, from_net_id);
                            assert(a1 is Some);
                            let b1 = manager_player_of(s2, from_net_id)->0;
                            assert(b1.data.friends@.contains(pid)) by {
                                assert(b1.data.friends@.last() == pid);
                            }
                            if inviter_net_id != from_net_id {
                                assert(manager_player_of(s3, from_net_id) == Some(b1));
                                match manager_player_of(s2, inviter_net_id) {
                                    Some(a2) => {
                                        let b2 = manager_player_of(s3, inviter_net_id)->0;
                                        assert(b2.data.friends@.contains(invited_pid)) by {
                                            assert(b2.data.friends@.last() == invited_pid);
                                        }
                                    },
                                    None => {
                                        assert(manager_player_of(s3, inviter_net_id) is None);
                                    },
                                }
                            } else {
                                let b2 = manager_player_of(s3, from_net_id)->0;
                                assert(b2.data.friends@ == b1.data.friends@.push(invited_pid));
                                assert(b2.data.friends@.contains(pid)) by {
                                    let k = b1.data.friends@.len() - 1;
                                    assert(b2.data.friends@[k] == pid);
                                }
                                assert(b2.data.friends@.contains(invited_pid)) by {
                                    assert(b2.data.friends@.last() == invited_pid);
                                }
                            }
                        }
                    }
                } else {
                    let ghost prev = self.queue().servers();
                    let ev = ServerEvent::PlayerChat {
                        text: String::from_str("Friend invite expired."),
                        from: String::new(),
                        from_pid: -1,
                        is_dm: false,
                        net_id: from_net_id,
                    };
                    self.equeue.push_server(ev);
                    proof {
                        crate::lemma_prefix_push(old(self).queue().servers(), prev, ev);
                        Self::lemma_wf_frame(*old(self), *self);
                    }
                }
            },
            _ => {
                if let Some(idx) = self.instance_index_of(from_net_id) {
                    let ghost mid = *self;
                    let mut inst = self.instances.remove(idx);
                    let mut q = EQueue::new();
                    core::mem::swap(&mut self.equeue, &mut q);
                    inst.handle_generic_event(event, from_net_id, &mut q);
                    core::mem::swap(&mut self.equeue, &mut q);
                    self.instances.insert(idx, inst);
                    proof {
                        assert(self.instances@ =~= mid.instances().update(
                            idx as int, self.instances@[idx as int]));
                        Self::lemma_wf_after_instance_update(mid, *self, idx as int);
                        assert(old(self).queue().servers().is_prefix_of(
                            self.queue().servers()));
                    }
                }
            },
        }
    }

    /// The pid of the player a connection is bound to, if any.
    fn get_my_pid(&self, net_id: i32) -> (r: Option<i32>)
        requires
            self.wf(),
        ensures
            r == manager_pid_of(*self, net_id),
    {
        let li = match self.get_location_index(net_id) {
            Some(li) => li,
            None => {
                return None;
            },
        };
        let idx = self.player_locations[li].1;
        match self.instances[idx].get_net_id_playerdata(net_id) {
            Some(p) => Some(p.pid()),
            None => None,
        }
    }

    /// Pushes a pid onto the friend list of the player a connection is bound
    /// to, and marks their private data changed.
    fn add_friend(&mut self, net_id: i32, friend_pid: i32)
        requires
            old(self).wf(),
        ensures
            final(self).wf(),
            final(self).maps() == old(self).maps(),
            final(self).entries() == old(self).entries(),
            final(self).loads() == old(self).loads(),
            final(self).invites() == old(self).invites(),
            final(self).requests() == old(self).requests(),
            final(self).locations() == old(self).locations(),
            final(self).queue() == old(self).queue(),
            match manager_player_of(*old(self), net_id) {
                Some(a) => match manager_player_of(*final(self), net_id) {
                    Some(b) => b.data.friends@ == a.data.friends@.push(friend_pid)
                        && b.private_data_just_updated,
                    None => false,
                },
                None => manager_player_of(*final(self), net_id) is None,
            },
            forall|n: i32| n != net_id ==> #[trigger] manager_player_of(*final(self), n)
                == manager_player_of(*old(self), n),
    {
        let li = match self.get_location_index(net_id) {
            Some(li) => li,
            None => {
                proof {
                    assert forall|n: i32| n != net_id implies
                        #[trigger] manager_player_of(*self, n)
                            == manager_player_of(*old(self), n) by {
                    }
                }
                return;
            },
        };
        let idx = self.player_locations[li].1;
        let ghost mid = *self;
        let mut inst = self.instances.remove(idx);
        inst.add_friend_to(net_id, friend_pid);
        self.instances.insert(idx, inst);
        proof {
            assert(self.instances@ =~= mid.instances().update(
                idx as int, self.instances@[idx as int]));
            Self::lemma_wf_after_instance_update(mid, *self, idx as int);
            let pre_inst = old(self).instances()[idx as int];
            let post_inst = self.instances()[idx as int];
            match player_index(pre_inst.players(), net_id) {
                Some(j) => {
                    crate::instance::lemma_player_index_spec(pre_inst.players(), net_id);
                    assert(manager_player_of(*old(self), net_id)
                        == Some(pre_inst.players()[j].1));
                    assert(manager_player_of(*self, net_id)
                        == Some(post_inst.players()[j].1));
                    assert(post_inst.players()[j].1.data.friends@
                        == pre_inst.players()[j].1.data.friends@.push(friend_pid));
                },
                None => {
                    assert(manager_player_of(*old(self), net_id) is None);
                    assert(post_inst.players() == pre_inst.players());
                    assert(manager_player_of(*self, net_id) is None);
                },
            }
            assert forall|n: i32| n != net_id implies
                #[trigger] manager_player_of(*self, n)
                    == manager_player_of(*old(self), n) by {
                lemma_find_first_spec(old(self).locations(), by_conn(n));
                match find_first(old(self).locations(), by_conn(n)) {
                    Some(li2) => {
                        let idx2 = old(self).locations()[li2].1 as int;
                        if idx2 == idx {
                            match player_index(pre_inst.players(), net_id) {
                                Some(jn) => {
                                    crate::instance::lemma_player_index_spec(
                                        pre_inst.players(), net_id);
                                    assert(post_inst.players().len()
                                        == pre_inst.players().len());
                                    assert forall|m: int| 0 <= m < pre_inst.players().len()
                                        implies (#[trigger] post_inst.players()[m]).0
                                            == pre_inst.players()[m].0 by {
                                        if m != jn {
                                            assert(post_inst.players()[m]
                                                == pre_inst.players()[m]);
                                        }
                                    }
                                    crate::instance::lemma_player_index_spec(
                                        pre_inst.players(), n);
                                    crate::instance::lemma_player_index_spec(
                                        post_inst.players(), n);
                                    match player_index(pre_inst.players(), n) {
                                        Some(j) => {
                                            assert(post_inst.players()[j].0 == n);
                                            match player_index(post_inst.players(), n) {
                                                Some(j2) => {
                                                    assert(j2 == j) by {
                                                        if j2 < j {
                                                            assert(pre_inst.players()[j2].0
                                                                != n);
                                                        }
                                                        if j < j2 {
                                                            assert(post_inst.players()[j].0
                                                                != n);
                                                        }
                                                    }
                                                    assert(j != jn);
                                                    assert(post_inst.players()[j]
                                                        == pre_inst.players()[j]);
                                                },
                                                None => {
                                                    assert(post_inst.players()[j].0 != n);
                                                },
                                            }
                                        },
                                        None => {
                                            if let Some(j2) = player_index(
                                                post_inst.players(), n) {
                                                assert(post_inst.players()[j2].0 == n);
                                                assert(pre_inst.players()[j2].0 != n);
                                            }
                                        },
                                    }
                                },
                                None => {
                                    assert(post_inst.players() == pre_inst.players());
                                },
                            }
                        }
                    },
                    None => {
                    },
                }
            }
        }
    }

    /// Relays a direct message to its target, if the target pid is online
    /// here; otherwise the message is dropped (it belongs to another
    /// server).
    pub fn on_dm_received(&mut self, from: String, text: String, target_pid: i32)
        requires
            old(self).wf(),
        ensures
            final(self).wf(),
            final(self).entries() == old(self).entries(),
            match entry_index(old(self).entries(), target_pid) {
                Some(j) => match old(self).entries()[j].1 {
                    PlayerDataEntry::ActivePlayer { net_id, .. } =>
                        final(self).queue().servers() == old(self).queue().servers().push(
                            ServerEvent::PlayerChat {
                                text: text,
                                from: from,
                                from_pid: -1i32,
                                is_dm: true,
                                net_id: net_id,
                            }),
                    PlayerDataEntry::RawData { .. } =>
                        final(self).queue().servers() == old(self).queue().servers(),
                },
                None => final(self).queue().servers() == old(self).queue().servers(),
            },
            final(self).queue().games() == old(self).queue().games(),
            on_dm_received_transition(from, text, target_pid, *old(self), *final(self)),
    {
        proof {
            reveal(on_dm_received_transition);
        }
        if let Some(net_id) = self.get_pid_net_id(target_pid) {
            self.equeue.push_server(ServerEvent::PlayerChat {
                text,
                from,
                from_pid: -1,
                is_dm: true,
                net_id,
            });
            proof {
                Self::lemma_wf_frame(*old(self), *self);
            }
        }
    }

    /// Answers a data lookup: a known pid's record (live or cached) is
    /// answered at once; an unknown pid starts (or joins) a non-locking
    /// retrieval, answered when it completes.
    pub fn player_retrieve_data(&mut self, pid: i32, net_id: i32)
        requires
            old(self).wf(),
        ensures
            entries_unique(old(self).entries()) ==> entries_unique(final(self).entries()),
            final(self).wf(),
            final(self).entries() == old(self).entries(),
            final(self).maps() == old(self).maps(),
            final(self).instances() == old(self).instances(),
            final(self).locations() == old(self).locations(),
            final(self).invites() == old(self).invites(),
            old(self).queue().servers().is_prefix_of(final(self).queue().servers()),
            final(self).queue().games() == old(self).queue().games(),
            match entry_index(old(self).entries(), pid) {
                Some(ei) => ({
                    &&& final(self).waits() == old(self).waits()
                    &&& final(self).requests() == old(self).requests()
                    &&& (match old(self).entries()[ei].1 {
                        PlayerDataEntry::RawData { data: d, .. } =>
                            final(self).queue().servers().len()
                                == old(self).queue().servers().len() + 1
                                && (final(self).queue().servers().last() matches
                                    ServerEvent::PlayerDataResponse { data: dd, net_id: to }
                                    && to == net_id && crate::playerdata::like(dd, d)),
                        PlayerDataEntry::ActivePlayer { net_id: owner, .. } =>
                            match find_first(old(self).locations(), by_conn(owner)) {
                                Some(li) => match lookup_player(old(self).instances()[
                                    old(self).locations()[li].1 as int].players(), owner) {
                                    Some(p) => final(self).queue().servers().len()
                                        == old(self).queue().servers().len() + 1
                                        && (final(self).queue().servers().last() matches
                                            ServerEvent::PlayerDataResponse {
                                                data: dd, net_id: to }
                                            && to == net_id
                                            && crate::playerdata::like(dd, p.data)),
                                    None => final(self).queue().servers()
                                        == old(self).queue().servers(),
                                },
                                None => final(self).queue().servers()
                                    == old(self).queue().servers(),
                            },
                    })
                }),
                None => ({
                    &&& final(self).queue().servers() == old(self).queue().servers()
                    &&& (match find_first(old(self).waits(), by_wait_pid(pid)) {
                        Some(wi) => final(self).waits().len() == old(self).waits().len()
                            && final(self).waits()[wi].0 == pid
                            && final(self).waits()[wi].1@ == old(self).waits()[wi].1@.push(net_id)
                            && (forall|k: int| 0 <= k < old(self).waits().len() && k != wi
                                ==> final(self).waits()[k] == old(self).waits()[k])
                            && final(self).requests() == old(self).requests(),
                        None => final(self).waits().len() == old(self).waits().len() + 1
                            && final(self).waits().last().0 == pid
                            && final(self).waits().last().1@ == seq![net_id]
                            && (forall|k: int| 0 <= k < old(self).waits().len()
                                ==> final(self).waits()[k] == old(self).waits()[k])
                            && final(self).requests() == old(self).requests().push(
                                DbRequest::Retrieve { pid, lock: false }),
                    })
                }),
            },
            player_retrieve_data_transition(pid, net_id, *old(self), *final(self)),
    {
        proof {
            reveal(player_retrieve_data_transition);
        }
        proof {
            assert(old(self).queue().servers().is_prefix_of(self.queue().servers())) by {
                assert(old(self).queue().servers() =~= self.queue().servers().subrange(
                    0, old(self).queue().servers().len() as int));
            }
        }
        if let Some(i) = self.get_entry_index(pid) {
            let data = match &self.player_datas[i].1 {
                PlayerDataEntry::RawData { data, .. } => Some(data.clone()),
                PlayerDataEntry::ActivePlayer { net_id: owner, .. } => {
                    let owner_net = *owner;
                    self.get_net_id_playerdata(owner_net)
                },
            };
            if let Some(d) = data {
                let ghost prev = self.queue().servers();
                let ev = ServerEvent::PlayerDataResponse { data: d, net_id };
                self.equeue.push_server(ev);
                proof {
                    crate::lemma_prefix_push(old(self).queue().servers(), prev, ev);
                    Self::lemma_wf_frame(*old(self), *self);
                }
            }
            return;
        }
        if let Some(wi) = self.get_wait_index(pid) {
            let (wpid, mut waiters) = self.datagets.remove(wi);
            waiters.push(net_id);
            self.datagets.insert(wi, (wpid, waiters));
            proof {
                Self::lemma_wf_frame(*old(self), *self);
            }
        } else {
            let mut waiters: Vec<i32> = Vec::new();
            waiters.push(net_id);
            self.datagets.push((pid, waiters));
            self.db_requests.push(DbRequest::Retrieve { pid, lock: false });
            proof {
                Self::lemma_wf_frame(*old(self), *self);
            }
        }
    }

    /// Forwards an entity data request to the asker's instance.
    pub fn player_retrieve_edata(&mut self, x: i32, y: i32, entity_id: i32, net_id: i32)
        requires
            old(self).wf(),
        ensures
            final(self).wf(),
            final(self).entries() == old(self).entries(),
            final(self).instances() == old(self).instances(),
            final(self).locations() == old(self).locations(),
            final(self).requests() == old(self).requests(),
            old(self).queue().servers().is_prefix_of(final(self).queue().servers()),
            final(self).queue().games() == old(self).queue().games(),
            match find_first(old(self).locations(), by_conn(net_id)) {
                Some(li) => entity_data_answered(x, y, entity_id, net_id,
                    old(self).instances()[old(self).locations()[li].1 as int],
                    old(self).queue(), final(self).queue()),
                None => *final(self) == *old(self),
            },
            player_retrieve_edata_transition(x, y, entity_id, net_id, *old(self), *final(self)),
    {
        proof {
            reveal(player_retrieve_edata_transition);
        }
        proof {
            assert(old(self).queue().servers().is_prefix_of(self.queue().servers())) by {
                assert(old(self).queue().servers() =~= self.queue().servers().subrange(
                    0, old(self).queue().servers().len() as int));
            }
        }
        if let Some(idx) = self.instance_index_of(net_id) {
            let ghost mid = *self;
            let mut q = EQueue::new();
            core::mem::swap(&mut self.equeue, &mut q);
            self.instances[idx].get_entity_data(x, y, entity_id, net_id, &mut q);
            core::mem::swap(&mut self.equeue, &mut q);
            proof {
                Self::lemma_wf_frame(mid, *self);
            }
        }
    }

    /// Forwards chat from a connection to its instance.
    pub fn broadcast_chat(&mut self, text: String, target_pid: i32, net_id: i32)
        requires
            old(self).wf(),
        ensures
            final(self).wf(),
            final(self).entries() == old(self).entries(),
            final(self).locations() == old(self).locations(),
            final(self).invites() == old(self).invites(),
            final(self).requests() == old(self).requests(),
            old(self).queue().servers().is_prefix_of(final(self).queue().servers()),
            old(self).queue().games().is_prefix_of(final(self).queue().games()),
            match find_first(old(self).locations(), by_conn(net_id)) {
                Some(li) => final(self).instances() == old(self).instances()
                    && chat_broadcast(text, target_pid, net_id,
                        old(self).instances()[old(self).locations()[li].1 as int],
                        final(self).instances()[old(self).locations()[li].1 as int],
                        old(self).queue(), final(self).queue()),
                None => *final(self) == *old(self),
            },
            broadcast_chat_transition(text, target_pid, net_id, *old(self), *final(self)),
    {
        proof {
            reveal(broadcast_chat_transition);
        }
        proof {
            assert(old(self).queue().servers().is_prefix_of(self.queue().servers())) by {
                assert(old(self).queue().servers() =~= self.queue().servers().subrange(
                    0, old(self).queue().servers().len() as int));
            }
            assert(old(self).queue().games().is_prefix_of(self.queue().games())) by {
                assert(old(self).queue().games() =~= self.queue().games().subrange(
                    0, old(self).queue().games().len() as int));
            }
        }
        if let Some(idx) = self.instance_index_of(net_id) {
            let ghost mid = *self;
            let mut inst = self.instances.remove(idx);
            let mut q = EQueue::new();
            core::mem::swap(&mut self.equeue, &mut q);
            inst.broadcast_chat(text, target_pid, net_id, &mut q);
            core::mem::swap(&mut self.equeue, &mut q);
            self.instances.insert(idx, inst);
            proof {
                assert(self.instances@ =~= mid.instances().update(
                    idx as int, self.instances@[idx as int]));
                Self::lemma_wf_after_instance_update(mid, *self, idx as int);
                assert(old(self).queue().servers().is_prefix_of(self.queue().servers()));
                assert(old(self).queue().games().is_prefix_of(self.queue().games()));
            }
        }
    }

    /// Shutdown: every online player is despawned, saved with the lock
    /// released and force-disconnected; the tables empty out and the manager
    /// stops doing work.
    pub fn full_save(&mut self)
        requires
            old(self).wf(),
        ensures
            final(self).wf(),
            final(self).is_stopped(),
            final(self).locations() == Seq::<(i32, usize)>::empty(),
            final(self).entries() == Seq::<(i32, PlayerDataEntry)>::empty(),
            entries_unique(final(self).entries()),
            final(self).maps() == old(self).maps(),
            final(self).invites() == old(self).invites(),
            final(self).queue().games() == old(self).queue().games(),
            old(self).queue().servers().is_prefix_of(final(self).queue().servers()),
            old(self).requests().is_prefix_of(final(self).requests()),
            forall|k: int| old(self).requests().len() <= k < final(self).requests().len()
                ==> (#[trigger] final(self).requests()[k] matches DbRequest::Save {
                    unlock: true, data, .. } && data.server_name@ == Seq::<char>::empty()),
            forall|k: int| old(self).queue().servers().len() <= k
                < final(self).queue().servers().len()
                ==> forced_disconnect_of(old(self).locations(),
                    #[trigger] final(self).queue().servers()[k]),
            final(self).queue().servers().len() - old(self).queue().servers().len()
                == final(self).requests().len() - old(self).requests().len(),
    {
        let ghost mut done: int = 0;
        while self.player_locations.len() > 0
            invariant
                self.wf(),
                0 <= done <= old(self).locations().len(),
                self.locations() == old(self).locations().skip(done),
                self.maps() == old(self).maps(),
                self.invites() == old(self).invites(),
                self.entries() == old(self).entries(),
                self.queue().games() == old(self).queue().games(),
                old(self).queue().servers().is_prefix_of(self.queue().servers()),
                old(self).requests().is_prefix_of(self.requests()),
                forall|k: int| old(self).requests().len() <= k < self.requests().len()
                    ==> (#[trigger] self.requests()[k] matches DbRequest::Save {
                        unlock: true, data, .. } && data.server_name@ == Seq::<char>::empty()),
                forall|k: int| old(self).queue().servers().len() <= k
                    < self.queue().servers().len()
                    ==> forced_disconnect_of(old(self).locations(),
                        #[trigger] self.queue().servers()[k]),
                self.queue().servers().len() - old(self).queue().servers().len()
                    == self.requests().len() - old(self).requests().len(),
            decreases self.player_locations@.len(),
        {
            let ghost pre = *self;
            let entry = self.player_locations[0];
            let net_id = entry.0;
            let idx = entry.1;
            proof {
                assert(pre.locations()[0].1 < pre.instances().len());
            }
            self.player_locations.remove(0);
            proof {
                assert(entry == old(self).locations()[done]);
                assert(self.locations() =~= old(self).locations().skip(done + 1));
                assert forall|k: int| 0 <= k < self.locations().len() implies
                    (#[trigger] self.locations()[k]).1 < self.instances().len() by {
                    assert(self.locations()[k] == pre.locations()[k + 1]);
                    assert(pre.locations()[k + 1].1 < pre.instances().len());
                }
                assert forall|k: int| 0 <= k < self.instances().len() implies
                    (#[trigger] self.instances()[k]).wf() by {
                    assert(pre.instances()[k].wf());
                }
                assert forall|k: int| 0 <= k < self.maps().len() implies
                    map_def_ok(#[trigger] self.maps()[k]) by {
                    assert(map_def_ok(pre.maps()[k]));
                }
            }
            let ghost mid = *self;
            let mut inst = self.instances.remove(idx);
            let despawned = inst.despawn_player(net_id);
            self.instances.insert(idx, inst);
            proof {
                assert(self.instances@ =~= mid.instances().update(
                    idx as int, self.instances@[idx as int]));
                Self::lemma_wf_after_instance_update(mid, *self, idx as int);
            }
            if let Some(p) = despawned {
                let ghost mid1 = *self;
                self.save_unlocking(p);
                proof {
                    crate::lemma_prefix_push(old(self).requests(), mid1.requests(),
                        self.requests().last());
                }
                let ghost mid2 = *self;
                self.equeue.push_server(ServerEvent::PlayerForceDisconnect { net_id });
                proof {
                    Self::lemma_wf_frame(mid2, *self);
                    crate::lemma_prefix_push(old(self).queue().servers(),
                        mid2.queue().servers(), self.queue().servers().last());
                    assert forall|k: int| old(self).queue().servers().len() <= k
                        < self.queue().servers().len() implies
                        forced_disconnect_of(old(self).locations(),
                            #[trigger] self.queue().servers()[k]) by {
                        if k < mid2.queue().servers().len() {
                            assert(self.queue().servers()[k] == mid2.queue().servers()[k]);
                        } else {
                            assert(old(self).locations()[done].0 == net_id);
                            assert(self.queue().servers()[k]
                                == (ServerEvent::PlayerForceDisconnect {
                                    net_id: old(self).locations()[done].0 }));
                        }
                    }
                }
            }
            proof {
                done = done + 1;
            }
        }
        let ghost before_clear = *self;
        self.player_datas.clear();
        self.stopped = true;
        proof {
            Self::lemma_wf_frame(before_clear, *self);
            assert(self.locations() =~= Seq::<(i32, usize)>::empty());
            assert(self.entries() =~= Seq::<(i32, PlayerDataEntry)>::empty());
            assert(self.queue() == before_clear.queue());
        }
    }

    /// How many instances run.
    pub fn instance_count(&self) -> (r: usize)
        ensures
            r == self.instances().len(),
    {
        self.instances.len()
    }

    /// Hands the host the script invocations one instance raised this tick.
    pub fn drain_instance_triggers(&mut self, idx: usize) -> (r: Vec<crate::instance::ScriptTrigger>)
        requires
            old(self).wf(),
            idx < old(self).instances().len(),
        ensures
            final(self).wf(),
            final(self).entries() == old(self).entries(),
            final(self).queue() == old(self).queue(),
            r@ == old(self).instances()[idx as int].triggers(),
    {
        let ghost mid = *self;
        let mut inst = self.instances.remove(idx);
        let out = inst.drain_triggers();
        self.instances.insert(idx, inst);
        proof {
            assert(self.instances@ =~= mid.instances().update(
                idx as int, self.instances@[idx as int]));
            Self::lemma_wf_after_instance_update(mid, *self, idx as int);
        }
        out
    }

    /// Applies one script response at once (an interaction answer), or
    /// queues it for the next tick (a walk answer).
    pub fn apply_entity_response(&mut self, idx: usize, entity_id: i32,
        response: crate::entity::ScriptResponse, deferred: bool)
        requires
            old(self).wf(),
            idx < old(self).instances().len(),
        ensures
            final(self).wf(),
            final(self).entries() == old(self).entries(),
            final(self).locations() == old(self).locations(),
            final(self).instances().len() == old(self).instances().len(),
            forall|k: int| 0 <= k < old(self).instances().len() && k != idx
                ==> final(self).instances()[k] == old(self).instances()[k],
            old(self).queue().servers().is_prefix_of(final(self).queue().servers()),
            old(self).queue().games().is_prefix_of(final(self).queue().games()),
            deferred ==> final(self).queue() == old(self).queue()
                && final(self).instances()[idx as int].responses()
                    == old(self).instances()[idx as int].responses().push((entity_id, response))
                && final(self).instances()[idx as int].players()
                    == old(self).instances()[idx as int].players()
                && final(self).instances()[idx as int].ents()
                    == old(self).instances()[idx as int].ents(),
            !deferred ==> applied_response(entity_id, response,
                old(self).instances()[idx as int], final(self).instances()[idx as int],
                old(self).queue(), final(self).queue()),
    {
        proof {
            assert(old(self).queue().servers().is_prefix_of(self.queue().servers())) by {
                assert(old(self).queue().servers() =~= self.queue().servers().subrange(
                    0, old(self).queue().servers().len() as int));
            }
            assert(old(self).queue().games().is_prefix_of(self.queue().games())) by {
                assert(old(self).queue().games() =~= self.queue().games().subrange(
                    0, old(self).queue().games().len() as int));
            }
        }
        let ghost mid = *self;
        let mut inst = self.instances.remove(idx);
        if deferred {
            inst.submit_entity_response(entity_id, response);
        } else {
            let mut q = EQueue::new();
            core::mem::swap(&mut self.equeue, &mut q);
            inst.handle_entity_response(entity_id, response, &mut q);
            core::mem::swap(&mut self.equeue, &mut q);
        }
        self.instances.insert(idx, inst);
        proof {
            assert(self.instances@ =~= mid.instances().update(
                idx as int, self.instances@[idx as int]));
            Self::lemma_wf_after_instance_update(mid, *self, idx as int);
            assert(old(self).queue().servers().is_prefix_of(self.queue().servers()));
            assert(old(self).queue().games().is_prefix_of(self.queue().games()));
        }
    }

    /// One manager tick: ages every lifecycle entry (saving online players
    /// on their interval, evicting timed-out caches), ages and expires the
    /// friend invites, and dispatches every game event raised since the last
    /// tick. A stopped manager does nothing.
    pub fn tick(&mut self)
        requires
            old(self).wf(),
        ensures
            final(self).wf(),
            old(self).is_stopped() ==> *final(self) == *old(self),
            entries_unique(old(self).entries()) ==> entries_unique(final(self).entries()),
            !old(self).is_stopped() ==> manager_ticked(*old(self), *final(self)),
    {
        if self.stopped {
            return;
        }

        let mut kept: Vec<(i32, PlayerDataEntry)> = Vec::new();
        let mut saves: Vec<i32> = Vec::new();
        let ghost mut done1: int = 0;
        proof {
            assert(old(self).entries().skip(0) =~= old(self).entries());
            assert(old(self).entries().take(0) =~= Seq::<(i32, PlayerDataEntry)>::empty());
        }
        while self.player_datas.len() > 0
            invariant
                self.wf(),
                0 <= done1 <= old(self).entries().len(),
                self.entries() == old(self).entries().skip(done1),
                kept@ == aged_entries(old(self).entries().take(done1)),
                saves@ == save_pids(old(self).entries().take(done1)),
                entries_unique(old(self).entries()) ==> entries_unique(kept@),
                entries_unique(old(self).entries()) ==> forall|a: int| 0 <= a < kept@.len()
                    ==> key_among(old(self).entries(), done1, (#[trigger] kept@[a]).0),
                self.maps() == old(self).maps(),
                self.locations() == old(self).locations(),
                self.instances() == old(self).instances(),
                self.invites() == old(self).invites(),
                self.queue() == old(self).queue(),
                self.requests() == old(self).requests(),
            decreases self.player_datas@.len(),
        {
            let ghost pre = *self;
            let (pid, mut e) = self.player_datas.remove(0);
            let ghost orig = (pid, e);
            proof {
                Self::lemma_wf_frame(pre, *self);
                assert(orig == old(self).entries()[done1]);
                assert(self.entries() =~= old(self).entries().skip(done1 + 1));
                assert(old(self).entries().take(done1 + 1).drop_last()
                    =~= old(self).entries().take(done1));
                assert(old(self).entries().take(done1 + 1).last()
                    == old(self).entries()[done1]);
            }
            let ghost kept0 = kept@;
            match e.tick() {
                DataTickResult::Idle => {
                    kept.push((pid, e));
                },
                DataTickResult::Save => {
                    saves.push(pid);
                    kept.push((pid, e));
                },
                DataTickResult::Timeout => {},
            }
            proof {
                assert(kept@ == aged_entries(old(self).entries().take(done1 + 1)));
                assert(saves@ == save_pids(old(self).entries().take(done1 + 1)));
                if entries_unique(old(self).entries()) {
                    let es = old(self).entries();
                    assert forall|a: int| 0 <= a < kept@.len() implies
                        key_among(es, done1 + 1, (#[trigger] kept@[a]).0) by {
                        if a < kept0.len() {
                            assert(kept@[a] == kept0[a]);
                            assert(key_among(es, done1, kept0[a].0));
                            let o = choose|o: int| 0 <= o < done1
                                && (#[trigger] es[o]).0 == kept0[a].0;
                            assert(0 <= o < done1 + 1 && es[o].0 == kept@[a].0);
                        } else {
                            assert(kept@[a].0 == es[done1].0);
                            assert(0 <= done1 < done1 + 1 && es[done1].0 == kept@[a].0);
                        }
                    }
                    assert forall|a: int, b: int| 0 <= a < b < kept@.len() implies
                        (#[trigger] kept@[a]).0 != (#[trigger] kept@[b]).0 by {
                        if b < kept0.len() {
                            assert(kept0[a].0 != kept0[b].0);
                        } else if a < kept0.len() {
                            assert(key_among(es, done1, kept0[a].0));
                            let o = choose|o: int| 0 <= o < done1
                                && (#[trigger] es[o]).0 == kept0[a].0;
                            assert(es[o].0 != es[done1].0);
                            assert(kept@[b].0 == es[done1].0);
                        }
                    }
                    assert(entries_unique(kept@));
                }
                done1 = done1 + 1;
            }
        }
        let ghost pre_swap = *self;
        core::mem::swap(&mut self.player_datas, &mut kept);
        proof {
            Self::lemma_wf_frame(pre_swap, *self);
            assert(old(self).entries().take(old(self).entries().len() as int)
                =~= old(self).entries());
            assert(self.entries() == aged_entries(old(self).entries()));
            if entries_unique(old(self).entries()) {
                assert(entries_unique(aged_entries(old(self).entries())));
            }
        }

        let ns = saves.len();
        let mut i: usize = 0;
        proof {
            assert(self.requests().is_prefix_of(self.requests())) by {
                assert(self.requests()
                    =~= self.requests().subrange(0, self.requests().len() as int));
            }
        }
        while i < ns
            invariant
                ns == saves@.len(),
                i <= ns,
                self.wf(),
                self.entries() == aged_entries(old(self).entries()),
                self.maps() == old(self).maps(),
                self.locations() == old(self).locations(),
                self.instances() == old(self).instances(),
                self.invites() == old(self).invites(),
                self.queue() == old(self).queue(),
                old(self).requests().is_prefix_of(self.requests()),
            decreases ns - i,
        {
            let ghost pit = *self;
            self.save_dataentry(saves[i]);
            proof {
                crate::lemma_prefix_trans(old(self).requests(), pit.requests(),
                    self.requests());
            }
            i = i + 1;
        }

        let mut kept_invites: Vec<((i32, i32), i32)> = Vec::new();
        let ghost mut done3: int = 0;
        proof {
            assert(old(self).invites().skip(0) =~= old(self).invites());
            assert(old(self).invites().take(0) =~= Seq::<((i32, i32), i32)>::empty());
        }
        while self.friend_invites.len() > 0
            invariant
                self.wf(),
                0 <= done3 <= old(self).invites().len(),
                self.invites() == old(self).invites().skip(done3),
                kept_invites@ == aged_invites(old(self).invites().take(done3)),
                self.entries() == aged_entries(old(self).entries()),
                self.maps() == old(self).maps(),
                self.locations() == old(self).locations(),
                self.instances() == old(self).instances(),
                self.queue() == old(self).queue(),
                old(self).requests().is_prefix_of(self.requests()),
            decreases self.friend_invites@.len(),
        {
            let ghost pre = *self;
            let (pair, age) = self.friend_invites.remove(0);
            proof {
                Self::lemma_wf_frame(pre, *self);
                assert((pair, age) == old(self).invites()[done3]);
                assert(self.invites() =~= old(self).invites().skip(done3 + 1));
                assert(old(self).invites().take(done3 + 1).drop_last()
                    =~= old(self).invites().take(done3));
                assert(old(self).invites().take(done3 + 1).last()
                    == old(self).invites()[done3]);
            }
            let aged = add_clamped(age, 1);
            if aged < FRIEND_REQUEST_TIMEOUT {
                kept_invites.push((pair, aged));
            }
            proof {
                assert(kept_invites@ == aged_invites(old(self).invites().take(done3 + 1)));
                done3 = done3 + 1;
            }
        }
        let ghost pre_swap2 = *self;
        core::mem::swap(&mut self.friend_invites, &mut kept_invites);
        proof {
            Self::lemma_wf_frame(pre_swap2, *self);
            assert(old(self).invites().take(old(self).invites().len() as int)
                =~= old(self).invites());
            assert(self.invites() == aged_invites(old(self).invites()));
        }

        let ghost pre_drain = *self;
        let mut events = self.equeue.iter_game();
        proof {
            Self::lemma_wf_frame(pre_drain, *self);
        }
        let ghost gmid = *self;
        let ghost events0 = events@;
        let ghost mut dtrace: Seq<GameManager> = seq![gmid];
        let ghost mut dispatched: int = 0;
        proof {
            assert(manager_aged(*old(self), gmid));
            assert(events0 == old(self).queue().games());
            assert(events0.skip(0) =~= events0);
        }
        while events.len() > 0
            invariant
                self.wf(),
                manager_aged(*old(self), gmid),
                entries_unique(old(self).entries()) ==> entries_unique(self.entries()),
                0 <= dispatched <= events0.len(),
                events@ == events0.skip(dispatched),
                dtrace.len() == dispatched + 1,
                dtrace[0] == gmid,
                dtrace[dispatched] == *self,
                forall|k: int| 0 <= k < dispatched ==> game_event_dispatched(
                    events0[k], dtrace[k], #[trigger] dtrace[k + 1]),
            decreases events@.len(),
        {
            let ghost pit = *self;
            let e = events.remove(0);
            proof {
                assert(e == events0[dispatched]);
                assert(events@ =~= events0.skip(dispatched + 1));
            }
            match e {
                GameEvent::PlayerMove { x, y, speed, net_id } => {
                    self.player_move(x, y, speed, net_id);
                },
                GameEvent::PlayerJoined { net_id, pid } => {
                    self.player_joined(net_id, pid);
                },
                GameEvent::PlayerDisconnected { net_id } => {
                    self.player_despawn(net_id);
                },
                GameEvent::PlayerJoinInstance { mapname, x, y, net_id } => {
                    self.player_join_instance(mapname.as_str(), x, y, net_id);
                },
                GameEvent::PlayerChat { text, target_pid, net_id } => {
                    self.broadcast_chat(text, target_pid, net_id);
                },
                GameEvent::PlayerDm { text, from, from_pid: _, target_pid } => {
                    self.on_dm_received(from, text, target_pid);
                },
                GameEvent::GenericEvent { event, net_id } => {
                    self.handle_generic_event(event, net_id);
                },
                GameEvent::PDataRequest { pid, net_id } => {
                    self.player_retrieve_data(pid, net_id);
                },
                GameEvent::EDataRequest { x, y, entity_id, net_id } => {
                    self.player_retrieve_edata(x, y, entity_id, net_id);
                },
            }
            proof {
                assert(game_event_dispatched(events0[dispatched], pit, *self));
                dtrace = dtrace.push(*self);
                dispatched = dispatched + 1;
            }
        }
        proof {
            assert(dispatched == events0.len());
            assert(tick_dispatch_trace(*old(self), *self, dtrace));
            assert(manager_ticked(*old(self), *self));
        }
    }

    /// Runs one simulation tick on every instance, in order.
    pub fn tick_instances(&mut self)
        requires
            old(self).wf(),
        ensures
            final(self).wf(),
            final(self).maps() == old(self).maps(),
            final(self).entries() == old(self).entries(),
            final(self).loads() == old(self).loads(),
            final(self).invites() == old(self).invites(),
            final(self).requests() == old(self).requests(),
            final(self).locations() == old(self).locations(),
            old(self).queue().servers().is_prefix_of(final(self).queue().servers()),
            old(self).queue().games().is_prefix_of(final(self).queue().games()),
            final(self).instances().len() == old(self).instances().len(),
            exists|qs: Seq<EQueue>| #[trigger] instances_tick_trace(
                *old(self), *final(self), qs),
    {
        let n = self.instances.len();
        let mut i: usize = 0;
        let ghost mut qs: Seq<EQueue> = seq![self.queue()];
        while i < n
            invariant
                i <= n,
                n == self.instances@.len(),
                n == old(self).instances().len(),
                self.wf(),
                self.maps() == old(self).maps(),
                self.entries() == old(self).entries(),
                self.loads() == old(self).loads(),
                self.invites() == old(self).invites(),
                self.requests() == old(self).requests(),
                self.locations() == old(self).locations(),
                old(self).queue().servers().is_prefix_of(self.queue().servers()),
                old(self).queue().games().is_prefix_of(self.queue().games()),
                qs.len() == i + 1,
                qs[0] == old(self).queue(),
                qs[i as int] == self.queue(),
                forall|k: int| 0 <= k < i ==> ticked(old(self).instances()[k],
                    self.instances()[k], (#[trigger] qs[k]), qs[k + 1]),
                forall|k: int| i <= k < n ==>
                    #[trigger] self.instances()[k] == old(self).instances()[k],
            decreases n - i,
        {
            let ghost mid = *self;
            proof {
                assert(mid.instances()[i as int].wf());
            }
            let mut inst = self.instances.remove(i);
            let mut q = EQueue::new();
            core::mem::swap(&mut self.equeue, &mut q);
            let ghost qpre = q;
            inst.tick(&mut q);
            let ghost qpost = q;
            core::mem::swap(&mut self.equeue, &mut q);
            self.instances.insert(i, inst);
            proof {
                assert(self.instances@ =~= mid.instances().update(
                    i as int, self.instances@[i as int]));
                Self::lemma_wf_after_instance_update(mid, *self, i as int);
                assert(qpre == mid.queue());
                assert(qpost == self.queue());
                crate::instance::lemma_ticked_intro(old(self).instances()[i as int],
                    self.instances()[i as int], qpre, qpost);
                qs = qs.push(self.queue());
                crate::lemma_prefix_trans(old(self).queue().servers(),
                    mid.queue().servers(), self.queue().servers());
                crate::lemma_prefix_trans(old(self).queue().games(),
                    mid.queue().games(), self.queue().games());
            }
            i = i + 1;
        }
        proof {
            assert(instances_tick_trace(*old(self), *self, qs));
        }
    }
}

/// A lifecycle entry after one tick of aging: ages clamp upward; an online
/// player who crossed the save interval has their age reset.
pub open spec fn entry_aged(e: PlayerDataEntry) -> PlayerDataEntry {
    match e {
        PlayerDataEntry::RawData { data, age } => (PlayerDataEntry::RawData {
            data, age: clamped(age + 1) as i32 }),
        PlayerDataEntry::ActivePlayer { net_id, age } => if clamped(age + 1)
            > PLAYER_SAVE_TIMEOUT {
            (PlayerDataEntry::ActivePlayer { net_id, age: 0i32 })
        } else {
            (PlayerDataEntry::ActivePlayer { net_id, age: clamped(age + 1) as i32 })
        },
    }
}

/// Whether an entry survives one tick of aging: an offline cached record is
/// evicted once its age passes the data timeout; an online player always stays.
pub open spec fn entry_survives(e: PlayerDataEntry) -> bool {
    match e {
        PlayerDataEntry::RawData { age, .. } => clamped(age + 1) <= PLAYER_DATA_TIMEOUT,
        PlayerDataEntry::ActivePlayer { .. } => true,
    }
}

/// The lifecycle table after one tick: every entry aged, timed-out caches
/// evicted, order kept.
pub open spec fn aged_entries(s: Seq<(i32, PlayerDataEntry)>) -> Seq<(i32, PlayerDataEntry)>
    decreases s.len(),
{
    if s.len() == 0 {
        Seq::empty()
    } else {
        let rest = aged_entries(s.drop_last());
        let p = s.last();
        if entry_survives(p.1) {
            rest.push((p.0, entry_aged(p.1)))
        } else {
            rest
        }
    }
}

/// The pids whose online entries crossed the save interval this tick, in
/// table order.
pub open spec fn save_pids(s: Seq<(i32, PlayerDataEntry)>) -> Seq<i32>
    decreases s.len(),
{
    if s.len() == 0 {
        Seq::empty()
    } else {
        let rest = save_pids(s.drop_last());
        match s.last().1 {
            PlayerDataEntry::ActivePlayer { age, .. } => if clamped(age + 1)
                > PLAYER_SAVE_TIMEOUT {
                rest.push(s.last().0)
            } else {
                rest
            },
            PlayerDataEntry::RawData { .. } => rest,
        }
    }
}

/// The invite table after one tick: every invite aged, expired ones dropped,
/// order kept.
pub open spec fn aged_invites(s: Seq<((i32, i32), i32)>) -> Seq<((i32, i32), i32)>
    decreases s.len(),
{
    if s.len() == 0 {
        Seq::empty()
    } else {
        let rest = aged_invites(s.drop_last());
        let (pair, age) = s.last();
        if clamped(age + 1) < FRIEND_REQUEST_TIMEOUT {
            rest.push((pair, clamped(age + 1) as i32))
        } else {
            rest
        }
    }
}

/// The contract of `player_move`, as a relation between manager states.
#[verifier::opaque]
pub open spec fn player_move_transition(x: i32, y: i32, speed: i32, net_id: i32, mpre: GameManager, mpost: GameManager) -> bool {
    &&& (mpost.wf())
    &&& (mpost.entries() == mpre.entries())
    &&& (mpost.queue() == mpre.queue())
    &&& (mpost.requests() == mpre.requests())
    &&& (mpost.locations() == mpre.locations())
    &&& (mpost.maps() == mpre.maps())
    &&& (match find_first(mpre.locations(), by_conn(net_id)) {
                Some(li) => ({
                    let idx = mpre.locations()[li].1 as int;
                    let pre = mpre.instances()[idx];
                    let post = mpost.instances()[idx];
                    &&& mpost.instances().len() == mpre.instances().len()
                    &&& (forall|k: int| 0 <= k < mpre.instances().len() && k != idx
                        ==> mpost.instances()[k] == mpre.instances()[k])
                    &&& post.hash() == pre.hash()
                    &&& post.ents() == pre.ents()
                    &&& (match player_index(pre.players(), net_id) {
                        Some(j) => post.players() == pre.players().update(j, (net_id, (Player {
                            nextmove: crate::player::buffer_after_insert(
                                pre.players()[j].1.nextmove, pre.players()[j].1.nextnextmove,
                                (x, y, speed)).0,
                            nextnextmove: crate::player::buffer_after_insert(
                                pre.players()[j].1.nextmove, pre.players()[j].1.nextnextmove,
                                (x, y, speed)).1,
                            ..pre.players()[j].1
                        }))),
                        None => post == pre,
                    })
                }),
                None => mpost == mpre,
            })
}

/// The contract of `player_joined`, as a relation between manager states.
#[verifier::opaque]
pub open spec fn player_joined_transition(net_id: i32, pid: i32, mpre: GameManager, mpost: GameManager) -> bool {
    &&& (mpost.wf())
    &&& (if pid_active(mpre.entries(), pid) {
                &&& mpost.entries() == mpre.entries()
                &&& mpost.loads() == mpre.loads()
                &&& mpost.requests() == mpre.requests()
                &&& mpost.locations() == mpre.locations()
                &&& mpost.instances() == mpre.instances()
                &&& mpost.queue().servers() == mpre.queue().servers().push(
                    ServerEvent::PlayerForceDisconnect { net_id })
                &&& mpost.queue().games() == mpre.queue().games()
            } else {
                &&& mpost.entries() == mpre.entries()
                &&& mpost.locations() == mpre.locations()
                &&& mpost.instances() == mpre.instances()
                &&& mpost.queue() == mpre.queue()
                &&& (match find_first(mpre.loads(), by_load_pid(pid)) {
                    Some(j) => mpost.loads() == mpre.loads().update(j, (pid, net_id)),
                    None => mpost.loads() == mpre.loads().push((pid, net_id)),
                })
                &&& mpost.requests() == mpre.requests().push(
                    DbRequest::Retrieve { pid, lock: true })
            })
}

/// The contract of `player_despawn`, as a relation between manager states.
#[verifier::opaque]
pub open spec fn player_despawn_transition(net_id: i32, mpre: GameManager, mpost: GameManager) -> bool {
    &&& (mpost.wf())
    &&& (mpost.maps() == mpre.maps())
    &&& (mpre.queue().games() == mpost.queue().games())
    &&& (mpre.queue().servers() == mpost.queue().servers())
    &&& (match find_first(mpre.locations(), by_conn(net_id)) {
                Some(li) => ({
                    let idx = mpre.locations()[li].1 as int;
                    &&& mpost.locations() == mpre.locations().remove(li)
                    &&& mpost.instances().len() == mpre.instances().len()
                    &&& (forall|k: int| 0 <= k < mpre.instances().len() && k != idx
                        ==> mpost.instances()[k] == mpre.instances()[k])
                    &&& (match player_index(mpre.instances()[idx].players(), net_id) {
                        Some(j) => ({
                            let p = mpre.instances()[idx].players()[j].1;
                            &&& mpost.instances()[idx].players()
                                == mpre.instances()[idx].players().remove(j)
                            &&& mpost.requests().len() == mpre.requests().len() + 1
                            &&& (mpost.requests().last() matches DbRequest::Save {
                                pid: rp, data: dd, unlock: true }
                                && rp == p.data.pid
                                && dd == (PlayerData { server_name: dd.server_name, ..p.data })
                                && dd.server_name@ == Seq::<char>::empty())
                            &&& exists|cached: PlayerData|
                                #[trigger] crate::playerdata::like(cached, p.data)
                                && (match entry_index(mpre.entries(), p.data.pid) {
                                    Some(ei) => mpost.entries()
                                        == mpre.entries().update(ei, (p.data.pid,
                                            (PlayerDataEntry::RawData {
                                                data: cached, age: 0i32 }))),
                                    None => mpost.entries()
                                        == mpre.entries().push((p.data.pid,
                                            (PlayerDataEntry::RawData {
                                                data: cached, age: 0i32 }))),
                                })
                        }),
                        None => mpost.instances()[idx] == mpre.instances()[idx]
                            && mpost.requests() == mpre.requests()
                            && mpost.entries() == mpre.entries(),
                    })
                }),
                None => mpost == mpre,
            })
}

/// The contract of `player_join_instance`, as a relation between manager states.
#[verifier::opaque]
pub open spec fn player_join_instance_transition(mapname: Seq<char>, x: i32, y: i32, net_id: i32, mpre: GameManager, mpost: GameManager) -> bool {
    &&& (mpost.wf())
    &&& (mpost.maps() == mpre.maps())
    &&& (mpost.entries() == mpre.entries())
    &&& (mpost.loads() == mpre.loads())
    &&& (mpost.invites() == mpre.invites())
    &&& (mpost.requests() == mpre.requests())
    &&& (mpre.queue().games() == mpost.queue().games())
    &&& (mpre.queue().servers().is_prefix_of(mpost.queue().servers()))
    &&& (({
                match find_first(mpre.locations(), by_conn(net_id)) {
                    Some(li) => ({
                        let old_idx = mpre.locations()[li].1 as int;
                        match player_index(mpre.instances()[old_idx].players(), net_id) {
                            Some(j) => ({
                                let p0 = mpre.instances()[old_idx].players()[j].1;
                                &&& find_first(mpost.locations(), by_conn(net_id)) is Some
                                &&& ({
                                    let ni = find_first(mpost.locations(),
                                        by_conn(net_id))->0;
                                    let new_idx = mpost.locations()[ni].1 as int;
                                    let ninst = mpost.instances()[new_idx];
                                    &&& new_idx < mpost.instances().len()
                                    &&& ninst.spec_mapname()@ == mapname
                                    &&& ninst.players().len() > 0
                                    &&& ninst.players().last().0 == net_id
                                    &&& ninst.players().last().1 == (Player {
                                        data: (PlayerData {
                                            x: x,
                                            y: y,
                                            location: ninst.spec_mapname(),
                                            ..p0.data
                                        }),
                                        speed: 0,
                                        ticks_since_move: 0,
                                        ..p0
                                    })
                                    &&& (new_idx != old_idx ==>
                                        mpost.instances()[old_idx].players()
                                            == mpre.instances()[old_idx].players().remove(j))
                                    &&& mpost.queue().servers()
                                        == mpre.queue().servers()
                                        + seq![ServerEvent::GenericResponse {
                                            response: GenericServerResponse::LoadMap {
                                                mapname: ninst.spec_mapname(),
                                            },
                                            net_id,
                                        }]
                                        + concat_map(ninst.hash().adjacent_seq((x, y)),
                                            move_update_fn(ninst.players(), net_id))
                                        + concat_map(ninst.ents().hash().adjacent_seq((x, y)),
                                            entity_update_fn(ninst.ents().list(), net_id))
                                })
                            }),
                            None => mpost.locations() == mpre.locations()
                                && mpost.instances() == mpre.instances()
                                && mpost.queue() == mpre.queue(),
                        }
                    }),
                    None => mpost == mpre,
                }
            }))
}

/// The contract of `broadcast_chat`, as a relation between manager states.
#[verifier::opaque]
pub open spec fn broadcast_chat_transition(text: String, target_pid: i32, net_id: i32, mpre: GameManager, mpost: GameManager) -> bool {
    &&& (mpost.wf())
    &&& (mpost.entries() == mpre.entries())
    &&& (mpost.locations() == mpre.locations())
    &&& (mpost.invites() == mpre.invites())
    &&& (mpost.requests() == mpre.requests())
    &&& (mpre.queue().servers().is_prefix_of(mpost.queue().servers()))
    &&& (mpre.queue().games().is_prefix_of(mpost.queue().games()))
    &&& (match find_first(mpre.locations(), by_conn(net_id)) {
                Some(li) => mpost.instances() == mpre.instances()
                    && chat_broadcast(text, target_pid, net_id,
                        mpre.instances()[mpre.locations()[li].1 as int],
                        mpost.instances()[mpre.locations()[li].1 as int],
                        mpre.queue(), mpost.queue()),
                None => mpost == mpre,
            })
}

/// The contract of `on_dm_received`, as a relation between manager states.
#[verifier::opaque]
pub open spec fn on_dm_received_transition(from: String, text: String, target_pid: i32, mpre: GameManager, mpost: GameManager) -> bool {
    &&& (mpost.wf())
    &&& (mpost.entries() == mpre.entries())
    &&& (match entry_index(mpre.entries(), target_pid) {
                Some(j) => match mpre.entries()[j].1 {
                    PlayerDataEntry::ActivePlayer { net_id, .. } =>
                        mpost.queue().servers() == mpre.queue().servers().push(
                            ServerEvent::PlayerChat {
                                text: text,
                                from: from,
                                from_pid: -1i32,
                                is_dm: true,
                                net_id: net_id,
                            }),
                    PlayerDataEntry::RawData { .. } =>
                        mpost.queue().servers() == mpre.queue().servers(),
                },
                None => mpost.queue().servers() == mpre.queue().servers(),
            })
    &&& (mpost.queue().games() == mpre.queue().games())
}

/// The contract of `handle_generic_event`, as a relation between manager states.
#[verifier::opaque]
pub open spec fn handle_generic_event_transition(event: GenericPlayerEvent, from_net_id: i32, mpre: GameManager, mpost: GameManager) -> bool {
    &&& (mpost.wf())
    &&& (mpost.maps() == mpre.maps())
    &&& (mpost.entries() == mpre.entries())
    &&& (mpost.loads() == mpre.loads())
    &&& (mpost.requests() == mpre.requests())
    &&& (mpre.queue().servers().is_prefix_of(mpost.queue().servers()))
    &&& (({
                match event {
                    GenericPlayerEvent::FriendAccept { pid } => ({
                        let accepter = manager_pid_of(mpre, from_net_id);
                        match accepter {
                            Some(invited_pid) => if find_first(mpre.invites(),
                                by_pair((pid, invited_pid))) is None {
                                &&& mpost.invites() == mpre.invites()
                                &&& mpost.locations() == mpre.locations()
                                &&& mpost.instances() == mpre.instances()
                                &&& mpost.queue().servers().len()
                                    == mpre.queue().servers().len() + 1
                                &&& (mpost.queue().servers().last() matches
                                    ServerEvent::PlayerChat { text, from, from_pid, is_dm, net_id }
                                    && text@ == "Friend invite expired."@
                                    && from@ == Seq::<char>::empty()
                                    && from_pid == -1 && !is_dm && net_id == from_net_id)
                            } else {
                                ({
                                    let ii = find_first(mpre.invites(),
                                        by_pair((pid, invited_pid)))->0;
                                    &&& mpost.invites() == mpre.invites().remove(ii)
                                    &&& mpost.locations() == mpre.locations()
                                    &&& (match entry_index(mpre.entries(), pid) {
                                        Some(ei) => match mpre.entries()[ei].1 {
                                            PlayerDataEntry::ActivePlayer { net_id: inviter_net, .. } => ({
                                                &&& mpost.queue().servers().len()
                                                    == mpre.queue().servers().len() + 2
                                                &&& (mpost.queue().servers().last() matches
                                                    ServerEvent::PlayerChat {
                                                        text, from, is_dm, net_id, .. }
                                                    && text@ == "Friend invite accepted!"@
                                                    && from@ == Seq::<char>::empty() && !is_dm
                                                    && net_id == from_net_id)
                                                &&& (mpost.queue().servers()[
                                                    mpre.queue().servers().len() as int]
                                                    matches ServerEvent::PlayerChat {
                                                        text, from, is_dm, net_id, .. }
                                                    && text@ == "Friend invite accepted!"@
                                                    && from@ == Seq::<char>::empty() && !is_dm
                                                    && net_id == inviter_net)
                                                &&& (match manager_player_of(mpost, from_net_id) {
                                                    Some(p2) => p2.data.friends@.contains(pid)
                                                        && p2.private_data_just_updated,
                                                    None => false,
                                                })
                                                &&& (match manager_player_of(mpost, inviter_net) {
                                                    Some(p3) => p3.data.friends@.contains(invited_pid)
                                                        && p3.private_data_just_updated,
                                                    None => true,
                                                })
                                            }),
                                            PlayerDataEntry::RawData { .. } =>
                                                mpost.instances() == mpre.instances()
                                                    && mpost.queue().servers()
                                                        == mpre.queue().servers(),
                                        },
                                        None => mpost.instances() == mpre.instances()
                                            && mpost.queue().servers()
                                                == mpre.queue().servers(),
                                    })
                                })
                            },
                            None => mpost == mpre,
                        }
                    }),
                    GenericPlayerEvent::FriendRequest { pid } => ({
                        let invited = match entry_index(mpre.entries(), pid) {
                            Some(ei) => match mpre.entries()[ei].1 {
                                PlayerDataEntry::ActivePlayer { net_id: n, .. } => Some(n),
                                PlayerDataEntry::RawData { .. } => None::<i32>,
                            },
                            None => None::<i32>,
                        };
                        &&& mpost.instances() == mpre.instances()
                        &&& mpost.locations() == mpre.locations()
                        &&& (match (invited, manager_player_of(mpre, from_net_id)) {
                            (Some(invited_net), Some(ip)) => if invited_net != from_net_id {
                                match find_first(mpre.invites(),
                                    by_pair((ip.data.pid, pid))) {
                                    None => mpost.invites()
                                        == mpre.invites().push(((ip.data.pid, pid), 0i32))
                                        && mpost.queue().servers()
                                            == mpre.queue().servers().push(
                                                ServerEvent::GenericResponse {
                                                    response: GenericServerResponse::GotFriendRequest {
                                                        pid: ip.data.pid,
                                                        name: ip.data.name,
                                                    },
                                                    net_id: invited_net,
                                                }),
                                    Some(_) => mpost.invites() == mpre.invites()
                                        && mpost.queue().servers()
                                            == mpre.queue().servers(),
                                }
                            } else {
                                mpost.invites() == mpre.invites()
                                    && mpost.queue().servers()
                                        == mpre.queue().servers()
                            },
                            _ => mpost.invites() == mpre.invites()
                                && mpost.queue().servers() == mpre.queue().servers(),
                        })
                    }),
                    _ => match find_first(mpre.locations(), by_conn(from_net_id)) {
                        Some(li) => ({
                            let idx = mpre.locations()[li].1 as int;
                            &&& mpost.invites() == mpre.invites()
                            &&& mpost.locations() == mpre.locations()
                            &&& mpost.instances().len() == mpre.instances().len()
                            &&& (forall|k: int| 0 <= k < mpre.instances().len() && k != idx
                                ==> mpost.instances()[k] == mpre.instances()[k])
                            &&& generic_event_applied(event, from_net_id,
                                mpre.instances()[idx], mpost.instances()[idx],
                                mpre.queue(), mpost.queue())
                        }),
                        None => mpost == mpre,
                    },
                }
            }))
}

/// The contract of `player_retrieve_data`, as a relation between manager states.
#[verifier::opaque]
pub open spec fn player_retrieve_data_transition(pid: i32, net_id: i32, mpre: GameManager, mpost: GameManager) -> bool {
    &&& (mpost.wf())
    &&& (mpost.entries() == mpre.entries())
    &&& (mpost.maps() == mpre.maps())
    &&& (mpost.instances() == mpre.instances())
    &&& (mpost.locations() == mpre.locations())
    &&& (mpost.invites() == mpre.invites())
    &&& (mpre.queue().servers().is_prefix_of(mpost.queue().servers()))
    &&& (mpost.queue().games() == mpre.queue().games())
    &&& (match entry_index(mpre.entries(), pid) {
                Some(ei) => ({
                    &&& mpost.waits() == mpre.waits()
                    &&& mpost.requests() == mpre.requests()
                    &&& (match mpre.entries()[ei].1 {
                        PlayerDataEntry::RawData { data: d, .. } =>
                            mpost.queue().servers().len()
                                == mpre.queue().servers().len() + 1
                                && (mpost.queue().servers().last() matches
                                    ServerEvent::PlayerDataResponse { data: dd, net_id: to }
                                    && to == net_id && crate::playerdata::like(dd, d)),
                        PlayerDataEntry::ActivePlayer { net_id: owner, .. } =>
                            match find_first(mpre.locations(), by_conn(owner)) {
                                Some(li) => match lookup_player(mpre.instances()[
                                    mpre.locations()[li].1 as int].players(), owner) {
                                    Some(p) => mpost.queue().servers().len()
                                        == mpre.queue().servers().len() + 1
                                        && (mpost.queue().servers().last() matches
                                            ServerEvent::PlayerDataResponse {
                                                data: dd, net_id: to }
                                            && to == net_id
                                            && crate::playerdata::like(dd, p.data)),
                                    None => mpost.queue().servers()
                                        == mpre.queue().servers(),
                                },
                                None => mpost.queue().servers()
                                    == mpre.queue().servers(),
                            },
                    })
                }),
                None => ({
                    &&& mpost.queue().servers() == mpre.queue().servers()
                    &&& (match find_first(mpre.waits(), by_wait_pid(pid)) {
                        Some(wi) => mpost.waits().len() == mpre.waits().len()
                            && mpost.waits()[wi].0 == pid
                            && mpost.waits()[wi].1@ == mpre.waits()[wi].1@.push(net_id)
                            && (forall|k: int| 0 <= k < mpre.waits().len() && k != wi
                                ==> mpost.waits()[k] == mpre.waits()[k])
                            && mpost.requests() == mpre.requests(),
                        None => mpost.waits().len() == mpre.waits().len() + 1
                            && mpost.waits().last().0 == pid
                            && mpost.waits().last().1@ == seq![net_id]
                            && (forall|k: int| 0 <= k < mpre.waits().len()
                                ==> mpost.waits()[k] == mpre.waits()[k])
                            && mpost.requests() == mpre.requests().push(
                                DbRequest::Retrieve { pid, lock: false }),
                    })
                }),
            })
}

/// The contract of `player_retrieve_edata`, as a relation between manager states.
#[verifier::opaque]
pub open spec fn player_retrieve_edata_transition(x: i32, y: i32, entity_id: i32, net_id: i32, mpre: GameManager, mpost: GameManager) -> bool {
    &&& (mpost.wf())
    &&& (mpost.entries() == mpre.entries())
    &&& (mpost.instances() == mpre.instances())
    &&& (mpost.locations() == mpre.locations())
    &&& (mpost.requests() == mpre.requests())
    &&& (mpre.queue().servers().is_prefix_of(mpost.queue().servers()))
    &&& (mpost.queue().games() == mpre.queue().games())
    &&& (match find_first(mpre.locations(), by_conn(net_id)) {
                Some(li) => entity_data_answered(x, y, entity_id, net_id,
                    mpre.instances()[mpre.locations()[li].1 as int],
                    mpre.queue(), mpost.queue()),
                None => mpost == mpre,
            })
}

/// At most one lifecycle entry per pid: the uniqueness invariant of the
/// entry table, which update-or-push storage preserves.
pub open spec fn entries_unique(es: Seq<(i32, PlayerDataEntry)>) -> bool {
    forall|i: int, j: int| 0 <= i < j < es.len()
        ==> (#[trigger] es[i]).0 != (#[trigger] es[j]).0
}

/// Some entry among the first `bound` of the table carries the key.
pub open spec fn key_among(es: Seq<(i32, PlayerDataEntry)>, bound: int, key: i32) -> bool {
    exists|o: int| 0 <= o < bound && (#[trigger] es[o]).0 == key
}

/// One drained game event applied by its handler: the dispatch case split
/// of the manager tick.
pub open spec fn game_event_dispatched(e: GameEvent, mpre: GameManager, mpost: GameManager) -> bool {
    match e {
        GameEvent::PlayerMove { x, y, speed, net_id } =>
            player_move_transition(x, y, speed, net_id, mpre, mpost),
        GameEvent::PlayerJoined { net_id, pid } =>
            player_joined_transition(net_id, pid, mpre, mpost),
        GameEvent::PlayerDisconnected { net_id } =>
            player_despawn_transition(net_id, mpre, mpost),
        GameEvent::PlayerJoinInstance { mapname, x, y, net_id } =>
            player_join_instance_transition(mapname@, x, y, net_id, mpre, mpost),
        GameEvent::PlayerChat { text, target_pid, net_id } =>
            broadcast_chat_transition(text, target_pid, net_id, mpre, mpost),
        GameEvent::PlayerDm { text, from, target_pid, .. } =>
            on_dm_received_transition(from, text, target_pid, mpre, mpost),
        GameEvent::GenericEvent { event, net_id } =>
            handle_generic_event_transition(event, net_id, mpre, mpost),
        GameEvent::PDataRequest { pid, net_id } =>
            player_retrieve_data_transition(pid, net_id, mpre, mpost),
        GameEvent::EDataRequest { x, y, entity_id, net_id } =>
            player_retrieve_edata_transition(x, y, entity_id, net_id, mpre, mpost),
    }
}

/// The dispatch phase of a manager tick: from the aged state, the game
/// events drained this tick are applied in order, one handler transition
/// each.
pub open spec fn tick_dispatch_trace(pre: GameManager, post: GameManager, trace: Seq<GameManager>) -> bool {
    let events = pre.queue().games();
    &&& trace.len() == events.len() + 1
    &&& manager_aged(pre, trace[0])
    &&& trace[events.len() as int] == post
    &&& forall|k: int| 0 <= k < events.len() ==>
        game_event_dispatched(events[k], trace[k], #[trigger] trace[k + 1])
}

/// One whole manager tick of a running server: the aging phases, then the
/// in-order dispatch of every drained game event.
pub open spec fn manager_ticked(pre: GameManager, post: GameManager) -> bool {
    exists|trace: Seq<GameManager>| #[trigger] tick_dispatch_trace(pre, post, trace)
}

/// The per-instance tick loop threaded through the manager's one event
/// queue: `qs` is the chain of queue states, instance `k` making a full
/// `ticked` transition from `qs[k]` to `qs[k + 1]`.
pub open spec fn instances_tick_trace(pre: GameManager, post: GameManager, qs: Seq<EQueue>) -> bool {
    &&& qs.len() == pre.instances().len() + 1
    &&& qs[0] == pre.queue()
    &&& qs[pre.instances().len() as int] == post.queue()
    &&& post.instances().len() == pre.instances().len()
    &&& forall|k: int| 0 <= k < pre.instances().len() ==> ticked(pre.instances()[k],
        post.instances()[k], (#[trigger] qs[k]), qs[k + 1])
}

/// The manager state a running tick reaches after its aging phases, with the
/// game events drained and ready for dispatch: the lifecycle table and the
/// invite table are the aged tables, the periodic saves are queued, and
/// nothing else has moved yet.
pub open spec fn manager_aged(pre: GameManager, mid: GameManager) -> bool {
    &&& mid.wf()
    &&& mid.maps() == pre.maps()
    &&& mid.locations() == pre.locations()
    &&& mid.instances() == pre.instances()
    &&& mid.entries() == aged_entries(pre.entries())
    &&& mid.invites() == aged_invites(pre.invites())
    &&& mid.queue().servers() == pre.queue().servers()
    &&& mid.queue().games() == Seq::<GameEvent>::empty()
    &&& pre.requests().is_prefix_of(mid.requests())
}

/// The event is a forced disconnect of one of the given bound connections.
pub open spec fn forced_disconnect_of(locs: Seq<(i32, usize)>, ev: ServerEvent) -> bool {
    exists|i: int| 0 <= i < locs.len()
        && ev == (ServerEvent::PlayerForceDisconnect { net_id: (#[trigger] locs[i]).0 })
}

/// The live player a connection is bound to, as the manager sees it.
pub open spec fn manager_player_of(m: GameManager, net_id: i32) -> Option<Player> {
    match find_first(m.locations(), by_conn(net_id)) {
        Some(j) => lookup_player(m.instances()[m.locations()[j].1 as int].players(), net_id),
        None => None,
    }
}

/// The pid of the player a connection is bound to, as the manager sees it.
pub open spec fn manager_pid_of(m: GameManager, net_id: i32) -> Option<i32> {
    match manager_player_of(m, net_id) {
        Some(p) => Some(p.data.pid),
        None => None,
    }
}

} // verus!
