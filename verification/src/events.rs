//! The tick-scoped event channel: two ordered queues of tagged events, one
//! bound for the simulation (game events) and one bound for the transport
//! (server events). Draining detaches the current queue contents, so events
//! raised while reacting to other events land in a fresh queue and are
//! processed next tick: nothing is seen twice and nothing is lost.

use vstd::prelude::*;
use crate::playerdata::PlayerData;

verus! {

/// An intent raised by a player at any moment, carried inside a game event.
pub enum GenericPlayerEvent {
    Interaction { x: i32, y: i32, entity_id: i32 },
    SwapItems { from: usize, to: usize },
    EquipItem { from: usize },
    FriendRequest { pid: i32 },
    FriendAccept { pid: i32 },
    Malformed,
}

/// A structured notice the server may send a client at any moment.
pub enum GenericServerResponse {
    LoadMap { mapname: String },
    GotFriendRequest { pid: i32, name: String },
    NewFriend { pid: i32 },
    DespawnPlayer { pid: i32 },
    DataUpdate { pid: i32, data_version: i32 },
    Malformed,
}

/// An inbound intent: raised by the transport, consumed by the simulation
/// once per tick.
pub enum GameEvent {
    PlayerMove { x: i32, y: i32, speed: i32, net_id: i32 },
    PlayerJoined { net_id: i32, pid: i32 },
    PlayerDisconnected { net_id: i32 },
    /// Joins a player to an instance by map name; raised at instance level,
    /// handled at manager level.
    PlayerJoinInstance { mapname: String, x: i32, y: i32, net_id: i32 },
    PlayerChat { text: String, target_pid: i32, net_id: i32 },
    PlayerDm { text: String, from: String, from_pid: i32, target_pid: i32 },
    GenericEvent { event: GenericPlayerEvent, net_id: i32 },
    /// net_id of the requester, pid of the player whose data is requested.
    PDataRequest { pid: i32, net_id: i32 },
    EDataRequest { x: i32, y: i32, entity_id: i32, net_id: i32 },
}

/// An outbound notification: raised by the simulation, consumed by the
/// transport once per tick and addressed by `net_id`.
pub enum ServerEvent {
    PlayerMoveResponse { x: i32, y: i32, speed: i32, pid: i32, data_version: i32, net_id: i32 },
    PlayerDataResponse { data: PlayerData, net_id: i32 },
    PlayerForceDisconnect { net_id: i32 },
    /// An empty `from` displays as a raw text message.
    PlayerChat { text: String, from: String, from_pid: i32, is_dm: bool, net_id: i32 },
    EntityMoveResponse { x: i32, y: i32, speed: i32, entity_id: i32, data_version: i32, net_id: i32 },
    EntityDataResponse {
        interactable: bool,
        walkable: bool,
        related_scene: String,
        data: Vec<(String, String)>,
        entity_id: i32,
        net_id: i32,
    },
    GenericResponse { response: GenericServerResponse, net_id: i32 },
}

/// The two event queues, owned by the session manager and drained once per
/// tick.
pub struct EQueue {
    game_events: Vec<GameEvent>,
    server_events: Vec<ServerEvent>,
}

impl EQueue {
    /// The pending game events, oldest first.
    pub closed spec fn games(self) -> Seq<GameEvent> {
        self.game_events@
    }

    /// The pending server events, oldest first.
    pub closed spec fn servers(self) -> Seq<ServerEvent> {
        self.server_events@
    }

    /// Both queues start empty.
    pub fn new() -> (r: Self)
        ensures
            r.games() == Seq::<GameEvent>::empty(),
            r.servers() == Seq::<ServerEvent>::empty(),
    {
        EQueue { game_events: Vec::new(), server_events: Vec::new() }
    }

    /// Appends a transport-bound event; nothing else moves.
    pub fn push_server(&mut self, e: ServerEvent)
        ensures
            final(self).servers() == old(self).servers().push(e),
            final(self).games() == old(self).games(),
    {
        self.server_events.push(e);
    }

    /// Appends a simulation-bound event; nothing else moves.
    pub fn push_game(&mut self, e: GameEvent)
        ensures
            final(self).games() == old(self).games().push(e),
            final(self).servers() == old(self).servers(),
    {
        self.game_events.push(e);
    }

    /// Detaches and returns every server event pushed before this call, in
    /// push order; the queue is empty afterwards, so a second drain right
    /// after returns nothing.
    pub fn iter_server(&mut self) -> (r: Vec<ServerEvent>)
        ensures
            r@ == old(self).servers(),
            final(self).servers() == Seq::<ServerEvent>::empty(),
            final(self).games() == old(self).games(),
    {
        let mut out: Vec<ServerEvent> = Vec::new();
        core::mem::swap(&mut self.server_events, &mut out);
        out
    }

    /// Detaches and returns every game event pushed before this call, in
    /// push order; the queue is empty afterwards, so a second drain right
    /// after returns nothing.
    pub fn iter_game(&mut self) -> (r: Vec<GameEvent>)
        ensures
            r@ == old(self).games(),
            final(self).games() == Seq::<GameEvent>::empty(),
            final(self).servers() == old(self).servers(),
    {
        let mut out: Vec<GameEvent> = Vec::new();
        core::mem::swap(&mut self.game_events, &mut out);
        out
    }
}

impl Default for EQueue {
    fn default() -> (r: Self)
        ensures
            r.games() == Seq::<GameEvent>::empty(),
            r.servers() == Seq::<ServerEvent>::empty(),
    {
        EQueue::new()
    }
}

} // verus!
