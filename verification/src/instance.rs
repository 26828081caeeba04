//! One running copy of a map: the resident players, their spatial index, a
//! second index of world entities, the static collision grid, and the
//! per-tick simulation loop with its deferred work queues.

use vstd::prelude::*;
use crate::collision::CollisionArray;
use crate::entity::{aged_entity, Entities, Entity, ResponseType, ScriptResponse};
use crate::events::{EQueue, GameEvent, GenericPlayerEvent, GenericServerResponse, ServerEvent};
use crate::player::{Player, PendingMove};
use crate::playerdata::{PlayerData, MAX_ITEMS};
use crate::skills::Skill;
use crate::spatial::{cheb, cell_coords, MoveDelta, SpatialHash, find_id};
use crate::{add_clamped, clamped, concat_map, concat_map_prefix, find_first, lemma_concat_map_prefix_agree, lemma_find_first_spec};

verus! {

broadcast use crate::spatial::SpatialHash::lemma_same_config_refl;

/// A script invocation the host must perform: the entity's hook is called
/// with the triggering player, and the responses come back through
/// `handle_entity_response` (immediately for interactions) or
/// `submit_entity_response` (deferred to the next tick for walks).
pub struct ScriptTrigger {
    pub entity_id: i32,
    pub net_id: i32,
    pub kind: TriggerKind,
}

#[derive(Clone, Copy, PartialEq, Eq, Structural, Debug)]
pub enum TriggerKind {
    Walk,
    Interaction,
}

/// The entries keyed by a net_id.
pub open spec fn by_net_id(net_id: i32) -> spec_fn((i32, Player)) -> bool {
    |e: (i32, Player)| e.0 == net_id
}

/// Position of a net_id in a player table.
pub open spec fn player_index(players: Seq<(i32, Player)>, net_id: i32) -> Option<int> {
    find_first(players, by_net_id(net_id))
}

/// `player_index` finds the first (and with unique keys, only) entry of a
/// net_id, and `None` exactly when the net_id is not resident.
pub proof fn lemma_player_index_spec(players: Seq<(i32, Player)>, net_id: i32)
    ensures
        match player_index(players, net_id) {
            Some(j) => 0 <= j < players.len() && players[j].0 == net_id
                && (forall|k: int| 0 <= k < j ==> (#[trigger] players[k]).0 != net_id),
            None => forall|k: int| 0 <= k < players.len()
                ==> (#[trigger] players[k]).0 != net_id,
        },
{
    let pred = by_net_id(net_id);
    lemma_find_first_spec(players, pred);
    match find_first(players, pred) {
        Some(j) => {
            assert(pred(players[j]));
            assert forall|k: int| 0 <= k < j implies (#[trigger] players[k]).0 != net_id by {
                assert(!pred(players[k]));
            }
        },
        None => {
            assert forall|k: int| 0 <= k < players.len() implies
                (#[trigger] players[k]).0 != net_id by {
                assert(!pred(players[k]));
            }
        },
    }
}

/// The player a net_id maps to, if resident.
pub open spec fn lookup_player(players: Seq<(i32, Player)>, net_id: i32) -> Option<Player> {
    match player_index(players, net_id) {
        Some(j) => Some(players[j].1),
        None => None,
    }
}

/// The entity an id maps to, if registered.
pub open spec fn lookup_entity(ents: Seq<Entity>, entity_id: i32) -> Option<Entity> {
    match find_first(ents, crate::entity::by_entity_id(entity_id)) {
        Some(j) => Some(ents[j]),
        None => None,
    }
}

/// What one spatial-index entry contributes to a position broadcast: the
/// position of the player it denotes, sent to `to_net_id` (nothing for an
/// id no longer resident).
pub open spec fn move_update_fn(
    players: Seq<(i32, Player)>,
    to_net_id: i32,
) -> spec_fn((i32, i32)) -> Seq<ServerEvent> {
    |e: (i32, i32)| match lookup_player(players, e.0) {
        Some(p) => seq![ServerEvent::PlayerMoveResponse {
            x: p.data.x,
            y: p.data.y,
            speed: 0,
            pid: p.data.pid,
            data_version: p.data_version,
            net_id: to_net_id,
        }],
        None => Seq::empty(),
    }
}

/// What one spatial-index entry contributes to an entity broadcast: the
/// position of the entity it denotes, sent to `to_net_id`.
pub open spec fn entity_update_fn(
    ents: Seq<Entity>,
    to_net_id: i32,
) -> spec_fn((i32, i32)) -> Seq<ServerEvent> {
    |e: (i32, i32)| match lookup_entity(ents, e.0) {
        Some(en) => seq![ServerEvent::EntityMoveResponse {
            x: en.pos.0,
            y: en.pos.1,
            speed: 0,
            entity_id: e.0,
            data_version: en.public_data_version,
            net_id: to_net_id,
        }],
        None => Seq::empty(),
    }
}

/// Whether a committed move from `from` to `to` is legal: exactly one grid
/// step away (Chebyshev), onto an unblocked cell.
pub open spec fn move_allowed(from: (i32, i32), to: (i32, i32), col: CollisionArray) -> bool {
    &&& cheb((from.0 as int, from.1 as int), (to.0 as int, to.1 as int)) == 1
    &&& !col.blocked(to.0 as int, to.1 as int)
}

/// The move the movement step would look at: the pending one, else the
/// queued one.
pub open spec fn peeked_move(p: Player) -> Option<PendingMove> {
    if p.nextmove is Some {
        p.nextmove
    } else {
        p.nextnextmove
    }
}

/// The move the movement step commits for a player this tick, if any: the
/// peeked move, once its delay has elapsed (counting this tick), one step
/// away and unblocked.
pub open spec fn committed_move(p: Player, col: CollisionArray) -> Option<PendingMove> {
    let aged_ticks = clamped(p.ticks_since_move + 1);
    match peeked_move(p) {
        Some(m) => if aged_ticks >= m.2 && move_allowed((p.data.x, p.data.y), (m.0, m.1), col) {
            Some(m)
        } else {
            None
        },
        None => None,
    }
}

/// One player after the movement step: aged by a tick, the peeked move
/// committed or rejected once due (either way dequeued), the broadcast flag
/// lowered.
pub open spec fn step_player(p: Player, col: CollisionArray) -> Player {
    let aged = Player {
        ticks_since_move: clamped(p.ticks_since_move + 1) as i32,
        data_just_updated: false,
        ..p
    };
    match peeked_move(p) {
        Some(m) => if aged.ticks_since_move >= m.2 {
            let moved = match committed_move(p, col) {
                Some(c) => Player {
                    data: PlayerData { x: c.0, y: c.1, ..aged.data },
                    speed: c.2,
                    ticks_since_move: 0,
                    ..aged
                },
                None => aged,
            };
            Player { nextmove: moved.nextnextmove, nextnextmove: None, ..moved }
        } else {
            aged
        },
        None => aged,
    }
}

/// One player after the update-broadcast step: both change flags lowered.
pub open spec fn flags_cleared(p: Player) -> Player {
    Player { data_just_updated: false, private_data_just_updated: false, ..p }
}

/// The walk trigger one player's movement step raises, if it commits a move
/// onto a walkable position.
pub open spec fn walk_trigger_fn(
    col: CollisionArray,
    walkables: Seq<((i32, i32), i32)>,
) -> spec_fn((i32, Player)) -> Seq<ScriptTrigger> {
    |e: (i32, Player)| match committed_move(e.1, col) {
        Some(m) => match find_first(walkables, crate::entity::by_walk_pos((m.0, m.1))) {
            Some(j) => seq![ScriptTrigger {
                entity_id: walkables[j].1,
                net_id: e.0,
                kind: TriggerKind::Walk,
            }],
            None => Seq::empty(),
        },
        None => Seq::empty(),
    }
}

/// What one spatial-index entry contributes to a player-despawn flush: the
/// despawned pid, sent to the entry's net_id.
pub open spec fn despawn_event_fn(pid: i32) -> spec_fn((i32, i32)) -> Seq<ServerEvent> {
    |e: (i32, i32)| seq![ServerEvent::GenericResponse {
        response: GenericServerResponse::DespawnPlayer { pid },
        net_id: e.0,
    }]
}

/// What one deferred player despawn contributes to the flush: one notice per
/// entry adjacent to where the player stood.
pub open spec fn despawn_flush_fn(h: SpatialHash<i32>) -> spec_fn((i32, i32, i32)) -> Seq<ServerEvent> {
    |d: (i32, i32, i32)| concat_map(h.adjacent_seq((d.0, d.1)), despawn_event_fn(d.2))
}

/// The `(entity_id, net_id)` address of one entity-despawn notice.
pub open spec fn entity_despawn_pair_fn(entity_id: i32) -> spec_fn((i32, i32)) -> Seq<(i32, i32)> {
    |e: (i32, i32)| seq![(entity_id, e.0)]
}

/// The addresses of the notices one deferred entity despawn produces.
pub open spec fn entity_despawn_targets_fn(h: SpatialHash<i32>) -> spec_fn((i32, i32, i32)) -> Seq<(i32, i32)> {
    |d: (i32, i32, i32)| concat_map(h.adjacent_seq((d.0, d.1)), entity_despawn_pair_fn(d.2))
}

/// An entity-despawn notice: a blank data response that makes the client
/// drop the entity.
pub open spec fn is_entity_despawn_event(ev: ServerEvent, entity_id: i32, net_id: i32) -> bool {
    ev matches ServerEvent::EntityDataResponse {
        interactable, walkable, related_scene, data, entity_id: eid, net_id: nid }
        && !interactable && !walkable
        && related_scene@ == Seq::<char>::empty()
        && data@ == Seq::<(String, String)>::empty()
        && eid == entity_id && nid == net_id
}

/// What one resident player contributes to a zone chat: the message,
/// addressed to them.
pub open spec fn chat_fan_fn(text: String, from: String, from_pid: i32) -> spec_fn((i32, Player)) -> Seq<ServerEvent> {
    |e: (i32, Player)| seq![ServerEvent::PlayerChat {
        text: text,
        from: from,
        from_pid: from_pid,
        is_dm: false,
        net_id: e.0,
    }]
}

/// What one spatial-index entry contributes to one entity's broadcast.
pub open spec fn entity_move_fn(e: Entity) -> spec_fn((i32, i32)) -> Seq<ServerEvent> {
    |a: (i32, i32)| seq![ServerEvent::EntityMoveResponse {
        x: e.pos.0,
        y: e.pos.1,
        speed: e.last_speed,
        entity_id: e.entity_id,
        data_version: e.public_data_version,
        net_id: a.0,
    }]
}

/// What one entity contributes to the per-tick entity broadcast: its
/// position to everyone adjacent, when it just moved or changed.
pub open spec fn entity_broadcast_fn(h: SpatialHash<i32>) -> spec_fn(Entity) -> Seq<ServerEvent> {
    |e: Entity| if e.ticks_since_last_move == 0 || e.data_just_updated {
        concat_map(h.adjacent_seq(e.pos), entity_move_fn(e))
    } else {
        Seq::empty()
    }
}

/// What one spatial-index entry contributes when a player announces their
/// own just-completed move: the mover's position and speed, sent to the
/// entry's net_id.
pub open spec fn self_move_fn(p: Player) -> spec_fn((i32, i32)) -> Seq<ServerEvent> {
    |a: (i32, i32)| seq![ServerEvent::PlayerMoveResponse {
        x: p.data.x,
        y: p.data.y,
        speed: p.speed,
        pid: p.data.pid,
        data_version: p.data_version,
        net_id: a.0,
    }]
}

/// What one spatial-index entry contributes when a player announces a
/// public data change: the new data version, sent to the entry's net_id.
pub open spec fn data_update_fn(p: Player) -> spec_fn((i32, i32)) -> Seq<ServerEvent> {
    |a: (i32, i32)| seq![ServerEvent::GenericResponse {
        response: GenericServerResponse::DataUpdate {
            pid: p.data.pid,
            data_version: p.data_version,
        },
        net_id: a.0,
    }]
}

/// Everything the update-broadcast step emits for one player: a position
/// broadcast to the neighborhood when a move just completed, a data-version
/// notice to the neighborhood when public data changed, and one private
/// response carrying `rec` (a copy of their record) when private data
/// changed.
pub open spec fn update_events_fn(
    h: SpatialHash<i32>,
) -> spec_fn(((i32, Player), PlayerData)) -> Seq<ServerEvent> {
    |e: ((i32, Player), PlayerData)| (if e.0.1.ticks_since_move == 0 {
        concat_map(h.adjacent_seq((e.0.1.data.x, e.0.1.data.y)), self_move_fn(e.0.1))
    } else {
        Seq::empty()
    }) + (if e.0.1.data_just_updated {
        concat_map(h.adjacent_seq((e.0.1.data.x, e.0.1.data.y)), data_update_fn(e.0.1))
    } else {
        Seq::empty()
    }) + (if e.0.1.private_data_just_updated {
        seq![ServerEvent::PlayerDataResponse { data: e.1, net_id: e.0.0 }]
    } else {
        Seq::empty()
    })
}

/// The players of a table, each paired with the record copy sent to them.
pub open spec fn with_records(
    players: Seq<(i32, Player)>,
    recs: Seq<PlayerData>,
) -> Seq<((i32, Player), PlayerData)> {
    Seq::new(players.len(), |k: int| (players[k], recs[k]))
}

/// Exactly what applying one script response does: `handle_entity_response`'s
/// transition, one clause per effect.
pub open spec fn applied_response(entity_id: i32, response: ScriptResponse, pre: Instance, post: Instance, qpre: EQueue, qpost: EQueue) -> bool {
    &&& post.wf()
    &&& post.spec_mapname() == pre.spec_mapname()
    &&& post.collisions() == pre.collisions()
    &&& post.despawns() == pre.despawns()
    &&& post.responses() == pre.responses()
    &&& post.triggers() == pre.triggers()
    &&& post.spec_playercount() == pre.spec_playercount()
    &&& pre.hash().same_config(post.hash())
    &&& pre.ents().hash().same_config(post.ents().hash())
    &&& qpre.servers().is_prefix_of(qpost.servers())
    &&& qpre.games().is_prefix_of(qpost.games())
    &&& response.response matches ResponseType::MovePlayerToMap { mapname, x, y, net_id } ==> qpost.games() == qpre.games().push( GameEvent::PlayerJoinInstance { mapname, x, y, net_id }) && qpost.servers() == qpre.servers() && post.players() == pre.players() && post.ents() == pre.ents() && post.entity_despawns() == pre.entity_despawns()
    &&& response.response matches ResponseType::MovePlayer { x, y, speed, net_id } ==> qpost.servers() == qpre.servers() && qpost.games() == qpre.games() && post.ents() == pre.ents() && post.entity_despawns() == pre.entity_despawns() && match player_index(pre.players(), net_id) { Some(j) => post.players() == pre.players().update(j, (net_id, (Player { data: (PlayerData { x: x, y: y, ..pre.players()[j].1.data }), speed: speed, ticks_since_move: 0, ..pre.players()[j].1 }))), None => post.players() == pre.players(), }
    &&& response.response matches ResponseType::MoveSelf { x, y, speed } ==> qpost.servers() == qpre.servers() && qpost.games() == qpre.games() && post.players() == pre.players() && post.entity_despawns() == pre.entity_despawns() && post.ents().walkables() == pre.ents().walkables() && match find_first(pre.ents().list(), crate::entity::by_entity_id(entity_id)) { Some(j) => post.ents().list() == pre.ents().list().update(j, (Entity { pos: (x, y), last_speed: speed, ticks_since_last_move: 0, ..pre.ents().list()[j] })), None => post.ents().list() == pre.ents().list(), }
    &&& response.response matches ResponseType::GiveItem { item, net_id } ==> qpost.servers() == qpre.servers() && qpost.games() == qpre.games() && post.ents() == pre.ents() && post.entity_despawns() == pre.entity_despawns() && match player_index(pre.players(), net_id) { Some(j) => exists|ok: bool, p2: Player| #[trigger] crate::playerdata::inserted( pre.players()[j].1.data, item, p2.data, ok) && post.players() == pre.players().update(j, (net_id, p2)) && p2 == (Player { data: p2.data, private_data_just_updated: ok || pre.players()[j].1.private_data_just_updated, ..pre.players()[j].1 }), None => post.players() == pre.players(), }
    &&& response.response matches ResponseType::TakeItem { id_string, amount, net_id } ==> qpost.servers() == qpre.servers() && qpost.games() == qpre.games() && post.ents() == pre.ents() && post.entity_despawns() == pre.entity_despawns() && match player_index(pre.players(), net_id) { Some(j) => exists|ok: bool, p2: Player| #[trigger] crate::playerdata::removed( pre.players()[j].1.data, id_string@, amount as int, p2.data, ok) && post.players() == pre.players().update(j, (net_id, p2)) && p2 == (Player { data: p2.data, private_data_just_updated: ok || pre.players()[j].1.private_data_just_updated, ..pre.players()[j].1 }), None => post.players() == pre.players(), }
    &&& response.response matches ResponseType::ChangeGold { amount, net_id } ==> qpost.servers() == qpre.servers() && qpost.games() == qpre.games() && post.ents() == pre.ents() && post.entity_despawns() == pre.entity_despawns() && match player_index(pre.players(), net_id) { Some(j) => post.players() == pre.players().update(j, (net_id, (Player { data: (PlayerData { gold: clamped(pre.players()[j].1.data.gold + amount) as i32, ..pre.players()[j].1.data }), private_data_just_updated: true, ..pre.players()[j].1 }))), None => post.players() == pre.players(), }
    &&& response.response matches ResponseType::GiveXp { skill, amount, net_id } ==> qpost.servers() == qpre.servers() && qpost.games() == qpre.games() && post.ents() == pre.ents() && post.entity_despawns() == pre.entity_despawns() && match (player_index(pre.players(), net_id), crate::skills::skill_of_chars(skill@)) { (Some(j), Some(sk)) => exists|delta: int, p2: Player| #[trigger] crate::playerdata::xp_added( pre.players()[j].1.data, sk, amount, p2.data, delta) && post.players() == pre.players().update(j, (net_id, p2)) && (delta > 0 ==> p2 == (Player { data: p2.data, data_version: clamped(pre.players()[j].1.data_version + 1) as i32, data_just_updated: true, ..pre.players()[j].1 })) && (delta <= 0 ==> p2 == (Player { data: p2.data, private_data_just_updated: true, ..pre.players()[j].1 })), _ => post.players() == pre.players(), }
    &&& response.response matches ResponseType::DespawnSelf ==> qpost.servers() == qpre.servers() && qpost.games() == qpre.games() && post.players() == pre.players() && match find_first(pre.ents().list(), crate::entity::by_entity_id(entity_id)) { Some(j) => post.entity_despawns() == pre.entity_despawns() .push((pre.ents().list()[j].pos.0, pre.ents().list()[j].pos.1, entity_id)) && post.ents().list() == pre.ents().list().remove(j), None => post.entity_despawns() == pre.entity_despawns() && post.ents().list() == pre.ents().list(), }
    &&& response.response matches ResponseType::RegisterEntity { entity } ==> qpost.servers() == qpre.servers() && qpost.games() == qpre.games() && post.players() == pre.players() && post.entity_despawns() == pre.entity_despawns() && post.ents().list() == pre.ents().list().push( (Entity { entity_id: clamped(pre.ents().spec_last_id() + 1) as i32, ..entity })) && post.ents().walkables() == if entity.walkable { pre.ents().walkables().push( (entity.pos, clamped(pre.ents().spec_last_id() + 1) as i32)) } else { pre.ents().walkables() }
    &&& response.response matches ResponseType::SystemChatMessage { text, net_id } ==> qpost.games() == qpre.games() && post.players() == pre.players() && post.ents() == pre.ents() && post.entity_despawns() == pre.entity_despawns() && qpost.servers().len() == qpre.servers().len() + 1 && (qpost.servers().last() matches ServerEvent::PlayerChat { text: t, from, from_pid, is_dm, net_id: to } && t == text && from@ == Seq::<char>::empty() && from_pid == -1 && !is_dm && to == net_id)
    &&& response.response matches ResponseType::Null ==> qpost.servers() == qpre.servers() && qpost.games() == qpre.games() && post.players() == pre.players() && post.ents() == pre.ents() && post.entity_despawns() == pre.entity_despawns()
}

/// The transition of tick step one: `flush_deferred_despawns`.
pub open spec fn despawns_flushed(pre: Instance, post: Instance, qpre: EQueue, qpost: EQueue) -> bool {
    &&& post.wf()
    &&& post.despawns() == Seq::<(i32, i32, i32)>::empty()
    &&& post.players() == pre.players()
    &&& post.hash() == pre.hash()
    &&& post.collisions() == pre.collisions()
    &&& post.ents() == pre.ents()
    &&& post.entity_despawns() == pre.entity_despawns()
    &&& post.responses() == pre.responses()
    &&& post.triggers() == pre.triggers()
    &&& post.spec_playercount() == pre.spec_playercount()
    &&& post.spec_mapname() == pre.spec_mapname()
    &&& qpost.games() == qpre.games()
    &&& qpost.servers() == qpre.servers() + concat_map(pre.despawns(), despawn_flush_fn(pre.hash()))
}

/// The transition of tick step two: `flush_deferred_entity_despawns`.
pub open spec fn entity_despawns_flushed(pre: Instance, post: Instance, qpre: EQueue, qpost: EQueue) -> bool {
    &&& post.wf()
    &&& post.entity_despawns() == Seq::<(i32, i32, i32)>::empty()
    &&& post.players() == pre.players()
    &&& post.hash() == pre.hash()
    &&& post.collisions() == pre.collisions()
    &&& post.ents() == pre.ents()
    &&& post.despawns() == pre.despawns()
    &&& post.responses() == pre.responses()
    &&& post.triggers() == pre.triggers()
    &&& post.spec_playercount() == pre.spec_playercount()
    &&& post.spec_mapname() == pre.spec_mapname()
    &&& qpost.games() == qpre.games()
    &&& qpre.servers().is_prefix_of(qpost.servers())
    &&& ({ let targets = concat_map(pre.entity_despawns(), entity_despawn_targets_fn(pre.hash())); &&& qpost.servers().len() == qpre.servers().len() + targets.len() &&& forall|k: int| 0 <= k < targets.len() ==> is_entity_despawn_event( qpost.servers()[qpre.servers().len() + k], (#[trigger] targets[k]).0, targets[k].1) })
}

/// The transition of tick step four: `broadcast_player_updates`.
pub open spec fn updates_broadcast(pre: Instance, post: Instance, qpre: EQueue, qpost: EQueue) -> bool {
    &&& post.wf()
    &&& post.players().len() == pre.players().len()
    &&& forall|k: int| 0 <= k < pre.players().len() ==> #[trigger] post.players()[k] == (pre.players()[k].0, flags_cleared(pre.players()[k].1))
    &&& post.hash() == pre.hash()
    &&& post.collisions() == pre.collisions()
    &&& post.ents() == pre.ents()
    &&& post.despawns() == pre.despawns()
    &&& post.entity_despawns() == pre.entity_despawns()
    &&& post.responses() == pre.responses()
    &&& post.triggers() == pre.triggers()
    &&& post.spec_playercount() == pre.spec_playercount()
    &&& post.spec_mapname() == pre.spec_mapname()
    &&& qpost.games() == qpre.games()
    &&& exists|recs: Seq<PlayerData>| #![trigger with_records(pre.players(), recs)] recs.len() == pre.players().len() && (forall|k: int| 0 <= k < recs.len() ==> crate::playerdata::like( #[trigger] recs[k], pre.players()[k].1.data)) && qpost.servers() == qpre.servers() + concat_map( with_records(pre.players(), recs), update_events_fn(pre.hash()))
    &&& qpre.servers().is_prefix_of(qpost.servers())
}

/// The player list as the movement step sees it while resolving index `k`:
/// earlier players already stepped, the rest untouched, the mover taken out.
pub open spec fn resolve_view(ps: Seq<(i32, Player)>, col: CollisionArray, k: int) -> Seq<(i32, Player)> {
    Seq::new(ps.len(), |i: int| if i < k {
        (ps[i].0, step_player(ps[i].1, col))
    } else {
        ps[i]
    }).remove(k)
}

/// The index and notification effect of resolving player `k`'s movement: a
/// committed move that crosses a cell boundary relocates the mover's entry
/// from the old cell's bucket to the new cell's and sends the mover one
/// update per newly-adjacent player and entity (the delta expansion, the
/// mover excluded); a rejected, not-yet-due or absent move — or a commit
/// within one cell — leaves the index and the queue untouched.
pub open spec fn move_step(
    ps: Seq<(i32, Player)>,
    col: CollisionArray,
    ents: Entities,
    k: int,
    ha: SpatialHash<i32>,
    hb: SpatialHash<i32>,
    qa: EQueue,
    qb: EQueue,
) -> bool {
    let net_id = ps[k].0;
    let p0 = ps[k].1;
    match committed_move(p0, col) {
        Some(m) => {
            let co = ha.cell_of((p0.data.x, p0.data.y));
            let cn = ha.cell_of((m.0, m.1));
            if co == cn || !ha.cell_valid(co) || !ha.cell_valid(cn)
                || find_id(ha.bucket(co), net_id) is None {
                hb == ha && qb.servers() == qa.servers() && qb.games() == qa.games()
            } else {
                let j = find_id(ha.bucket(co), net_id)->0;
                let delta = (MoveDelta::Delta {
                    from: (co.0 as i32, co.1 as i32),
                    to: (cn.0 as i32, cn.1 as i32),
                    check_radius: ha.spec_check_radius(),
                    exclude_id: net_id,
                });
                &&& ha.same_config(hb)
                &&& hb.bucket(co) == ha.bucket(co).remove(j)
                &&& hb.bucket(cn) == ha.bucket(cn).push(ha.bucket(co)[j])
                &&& (forall|c: (int, int)| ha.cell_valid(c) && c != co && c != cn
                    ==> hb.bucket(c) == ha.bucket(c))
                &&& qb.games() == qa.games()
                &&& qb.servers() == qa.servers()
                    + concat_map(hb.delta_seq(delta),
                        move_update_fn(resolve_view(ps, col, k), net_id))
                    + concat_map(ents.hash().delta_seq(delta),
                        entity_update_fn(ents.list(), net_id))
            }
        },
        None => hb == ha && qb.servers() == qa.servers() && qb.games() == qa.games(),
    }
}

/// The movement step resolves the players in list order: `hq` is the chain
/// of intermediate index and queue states, one `move_step` transition per
/// player.
#[verifier::opaque]
pub open spec fn move_trace(
    ps: Seq<(i32, Player)>,
    col: CollisionArray,
    ents: Entities,
    hq: Seq<(SpatialHash<i32>, EQueue)>,
    hpre: SpatialHash<i32>,
    hpost: SpatialHash<i32>,
    qpre: EQueue,
    qpost: EQueue,
) -> bool {
    &&& hq.len() == ps.len() + 1
    &&& hq[0] == (hpre, qpre)
    &&& hq[ps.len() as int] == (hpost, qpost)
    &&& forall|k: int| 0 <= k < ps.len() ==>
        move_step(ps, col, ents, k, (#[trigger] hq[k]).0, hq[k + 1].0, hq[k].1, hq[k + 1].1)
}

/// The transition of tick step five: `resolve_movement`.
pub open spec fn movement_resolved(pre: Instance, post: Instance, qpre: EQueue, qpost: EQueue) -> bool {
    &&& post.wf()
    &&& post.players().len() == pre.players().len()
    &&& forall|k: int| 0 <= k < pre.players().len() ==> #[trigger] post.players()[k] == (pre.players()[k].0, step_player(pre.players()[k].1, pre.collisions()))
    &&& post.triggers() == pre.triggers() + concat_map(pre.players(), walk_trigger_fn(pre.collisions(), pre.ents().walkables()))
    &&& pre.hash().same_config(post.hash())
    &&& post.ents() == pre.ents()
    &&& post.collisions() == pre.collisions()
    &&& post.despawns() == pre.despawns()
    &&& post.entity_despawns() == pre.entity_despawns()
    &&& post.responses() == pre.responses()
    &&& post.spec_playercount() == pre.spec_playercount()
    &&& post.spec_mapname() == pre.spec_mapname()
    &&& qpost.games() == qpre.games()
    &&& qpre.servers().is_prefix_of(qpost.servers())
    &&& exists|hq: Seq<(SpatialHash<i32>, EQueue)>| #[trigger] move_trace(
        pre.players(), pre.collisions(), pre.ents(), hq,
        pre.hash(), post.hash(), qpre, qpost)
}

/// The transition of tick step six: `broadcast_entity_updates`.
pub open spec fn entities_broadcast(pre: Instance, post: Instance, qpre: EQueue, qpost: EQueue) -> bool {
    &&& post.wf()
    &&& post.ents().list().len() == pre.ents().list().len()
    &&& forall|k: int| 0 <= k < pre.ents().list().len() ==> #[trigger] post.ents().list()[k] == aged_entity(pre.ents().list()[k])
    &&& post.ents().walkables() == pre.ents().walkables()
    &&& post.ents().hash() == pre.ents().hash()
    &&& post.players() == pre.players()
    &&& post.hash() == pre.hash()
    &&& post.collisions() == pre.collisions()
    &&& post.despawns() == pre.despawns()
    &&& post.entity_despawns() == pre.entity_despawns()
    &&& post.responses() == pre.responses()
    &&& post.triggers() == pre.triggers()
    &&& post.spec_playercount() == pre.spec_playercount()
    &&& post.spec_mapname() == pre.spec_mapname()
    &&& qpost.games() == qpre.games()
    &&& qpost.servers() == qpre.servers() + concat_map(pre.ents().list(), entity_broadcast_fn(pre.hash()))
}

/// A queue of script responses applied in order along a trace of
/// intermediate states: step `k` takes state `k` to state `k + 1` by
/// applying response `k` (one `applied_response` transition each).
pub open spec fn valid_response_trace(
    rs: Seq<(i32, ScriptResponse)>,
    trace: Seq<(Instance, EQueue)>,
    pre: Instance,
    post: Instance,
    qpre: EQueue,
    qpost: EQueue,
) -> bool {
    &&& trace.len() == rs.len() + 1
    &&& trace[0] == (pre, qpre)
    &&& trace[rs.len() as int] == (post, qpost)
    &&& forall|k: int| 0 <= k < rs.len() ==> applied_response(
        (#[trigger] rs[k]).0, rs[k].1, trace[k].0, trace[k + 1].0, trace[k].1, trace[k + 1].1)
}

/// A queue of script responses applied in order, for some trace of
/// intermediate states.
pub open spec fn responses_applied(
    rs: Seq<(i32, ScriptResponse)>,
    pre: Instance,
    post: Instance,
    qpre: EQueue,
    qpost: EQueue,
) -> bool {
    exists|trace: Seq<(Instance, EQueue)>|
        #[trigger] valid_response_trace(rs, trace, pre, post, qpre, qpost)
}

/// The transition of tick step three: every deferred response applied in
/// submission order, starting from the state with the queue detached.
pub open spec fn responses_flushed(pre: Instance, post: Instance, qpre: EQueue, qpost: EQueue) -> bool {
    exists|start: Instance|
        #![trigger responses_applied(pre.responses(), start, post, qpre, qpost)]
        start.players() == pre.players()
            && start.hash() == pre.hash()
            && start.collisions() == pre.collisions()
            && start.ents() == pre.ents()
            && start.despawns() == pre.despawns()
            && start.entity_despawns() == pre.entity_despawns()
            && start.triggers() == pre.triggers()
            && start.spec_playercount() == pre.spec_playercount()
            && start.spec_mapname() == pre.spec_mapname()
            && start.responses() == Seq::<(i32, ScriptResponse)>::empty()
            && responses_applied(pre.responses(), start, post, qpre, qpost)
}

/// One tick decomposed into its six steps, in the required order, threaded
/// through the intermediate states `trace[1]` to `trace[5]`.
pub open spec fn tick_steps(
    trace: Seq<(Instance, EQueue)>,
    pre: Instance,
    post: Instance,
    qpre: EQueue,
    qpost: EQueue,
) -> bool {
    &&& trace.len() == 7
    &&& trace[0] == (pre, qpre)
    &&& trace[6] == (post, qpost)
    &&& despawns_flushed(trace[0].0, trace[1].0, trace[0].1, trace[1].1)
    &&& entity_despawns_flushed(trace[1].0, trace[2].0, trace[1].1, trace[2].1)
    &&& responses_flushed(trace[2].0, trace[3].0, trace[2].1, trace[3].1)
    &&& updates_broadcast(trace[3].0, trace[4].0, trace[3].1, trace[4].1)
    &&& movement_resolved(trace[4].0, trace[5].0, trace[4].1, trace[5].1)
    &&& entities_broadcast(trace[5].0, trace[6].0, trace[5].1, trace[6].1)
}

/// The transition of one player-raised intent: `handle_generic_event`.
pub open spec fn generic_event_applied(event: GenericPlayerEvent, net_id: i32, pre: Instance, post: Instance, qpre: EQueue, qpost: EQueue) -> bool {
    &&& post.wf()
    &&& post.ents() == pre.ents()
    &&& post.hash() == pre.hash()
    &&& post.collisions() == pre.collisions()
    &&& post.despawns() == pre.despawns()
    &&& post.entity_despawns() == pre.entity_despawns()
    &&& post.responses() == pre.responses()
    &&& post.spec_mapname() == pre.spec_mapname()
    &&& qpost.games() == qpre.games()
    &&& qpre.servers().is_prefix_of(qpost.servers())
    &&& event matches GenericPlayerEvent::Interaction { x, y, entity_id } ==> post.players() == pre.players()
    &&& event matches GenericPlayerEvent::SwapItems { from, to } ==> post.triggers() == pre.triggers() && qpost.servers() == qpre.servers() && ({ match player_index(pre.players(), net_id) { Some(j) => ({ let p = pre.players()[j].1; if from < MAX_ITEMS && to < MAX_ITEMS { post.players() == pre.players().update(j, (net_id, (Player { data: (PlayerData { items: post.players()[j].1.data.items, ..p.data }), private_data_just_updated: true, ..p }))) && post.players()[j].1.data.items@ == p.data.items@.update(from as int, p.data.items@[to as int]).update(to as int, p.data.items@[from as int]) } else { post.players() == pre.players() } }), None => post.players() == pre.players(), } })
    &&& event matches GenericPlayerEvent::EquipItem { from } ==> post.triggers() == pre.triggers() && qpost.servers() == qpre.servers() && ({ match player_index(pre.players(), net_id) { Some(j) => ({ let p = pre.players()[j].1; if from < MAX_ITEMS { post.players() == pre.players().update(j, (net_id, (Player { data: (PlayerData { items: post.players()[j].1.data.items, equipped_item: p.data.items@[from as int], ..p.data }), data_version: clamped(p.data_version + 1) as i32, data_just_updated: true, ..p }))) && post.players()[j].1.data.items@ == p.data.items@.update(from as int, p.data.equipped_item) } else { post.players() == pre.players() } }), None => post.players() == pre.players(), } })
    &&& (event matches GenericPlayerEvent::FriendRequest { pid } || event matches GenericPlayerEvent::FriendAccept { pid } || event matches GenericPlayerEvent::Malformed) ==> post == pre && qpost.servers() == qpre.servers()
}

/// The transition of a chat message: `broadcast_chat`.
pub open spec fn chat_broadcast(text: String, target_pid: i32, net_id: i32, pre: Instance, post: Instance, qpre: EQueue, qpost: EQueue) -> bool {
    &&& post.wf()
    &&& post == pre
    &&& match lookup_player(pre.players(), net_id) { Some(p) => if target_pid == -1 { qpost.servers() == qpre.servers() + concat_map(pre.players(), chat_fan_fn(text, p.data.name, p.data.pid)) && qpost.games() == qpre.games() } else if p.data.pid == target_pid { qpost.servers() == qpre.servers() && qpost.games() == qpre.games() } else { qpost.servers() == qpre.servers() && qpost.games() == qpre.games().push( GameEvent::PlayerDm { text: text, from: p.data.name, from_pid: p.data.pid, target_pid, }) }, None => qpost.servers() == qpre.servers() && qpost.games() == qpre.games(), }
}

/// The transition of one whole simulation tick: `tick`.
pub open spec fn ticked(pre: Instance, post: Instance, qpre: EQueue, qpost: EQueue) -> bool {
    &&& post.wf()
    &&& post.despawns() == Seq::<(i32, i32, i32)>::empty()
    &&& post.responses() == Seq::<(i32, ScriptResponse)>::empty()
    &&& post.collisions() == pre.collisions()
    &&& post.spec_mapname() == pre.spec_mapname()
    &&& pre.hash().same_config(post.hash())
    &&& qpre.servers().is_prefix_of(qpost.servers())
    &&& qpre.games().is_prefix_of(qpost.games())
    &&& exists|trace: Seq<(Instance, EQueue)>| #[trigger] tick_steps( trace, pre, post, qpre, qpost)
}

/// Packages `tick`'s postconditions into the `ticked` relation, keeping the
/// unfolding of the step relations out of callers' own proofs.
pub proof fn lemma_ticked_intro(pre: Instance, post: Instance, qpre: EQueue, qpost: EQueue)
    requires
        post.wf(),
        post.despawns() == Seq::<(i32, i32, i32)>::empty(),
        post.responses() == Seq::<(i32, ScriptResponse)>::empty(),
        post.collisions() == pre.collisions(),
        post.spec_mapname() == pre.spec_mapname(),
        pre.hash().same_config(post.hash()),
        qpre.servers().is_prefix_of(qpost.servers()),
        qpre.games().is_prefix_of(qpost.games()),
        exists|trace: Seq<(Instance, EQueue)>| #[trigger] tick_steps(
            trace, pre, post, qpre, qpost),
    ensures
        ticked(pre, post, qpre, qpost),
{
}

/// What answering an entity data request does: `get_entity_data`'s
/// effect on the event queue.
pub open spec fn entity_data_answered(x: i32, y: i32, entity_id: i32, net_id: i32, inst: Instance, qpre: EQueue, qpost: EQueue) -> bool {
    &&& qpost.games() == qpre.games()
    &&& ({ let h = inst.ents().hash(); let c = h.cell_of((x, y)); let target = if h.cell_valid(c) && find_id(h.bucket(c), entity_id) is Some { lookup_entity(inst.ents().list(), entity_id) } else { None }; match target { Some(e) => qpost.servers().len() == qpre.servers().len() + 1 && qpre.servers().is_prefix_of(qpost.servers()) && (qpost.servers().last() matches ServerEvent::EntityDataResponse { interactable, walkable, related_scene, data, entity_id: eid, net_id: to } && interactable == e.interactable && walkable == e.walkable && related_scene == e.related_scene && data@ == e.public_data@ && eid == entity_id && to == net_id), None => qpost.servers() == qpre.servers(), } })
}

/// One running copy of a map.
pub struct Instance {
    pub mapname: String,
    col_array: CollisionArray,
    /// Players by net_id.
    spatial_hash: SpatialHash<i32>,
    /// The resident players, keyed by net_id.
    players: Vec<(i32, Player)>,
    playercount: i32,
    /// `(x, y, pid)` of players despawned this tick; their neighbors are
    /// told at the start of the next tick, so no collection is mutated while
    /// it is being walked.
    deferred_despawns: Vec<(i32, i32, i32)>,
    /// `(x, y, entity_id)` of entities despawned this tick.
    deferred_entity_despawns: Vec<(i32, i32, i32)>,
    entities: Entities,
    /// Script responses submitted this tick, applied at the start of the
    /// next one.
    deferred_responses: Vec<(i32, ScriptResponse)>,
    /// Script invocations for the host to perform.
    pending_triggers: Vec<ScriptTrigger>,
}

impl Instance {
    pub closed spec fn players(self) -> Seq<(i32, Player)> {
        self.players@
    }

    pub closed spec fn spec_mapname(self) -> String {
        self.mapname
    }

    pub closed spec fn hash(self) -> SpatialHash<i32> {
        self.spatial_hash
    }

    pub closed spec fn collisions(self) -> CollisionArray {
        self.col_array
    }

    pub closed spec fn ents(self) -> Entities {
        self.entities
    }

    pub closed spec fn despawns(self) -> Seq<(i32, i32, i32)> {
        self.deferred_despawns@
    }

    pub closed spec fn entity_despawns(self) -> Seq<(i32, i32, i32)> {
        self.deferred_entity_despawns@
    }

    pub closed spec fn responses(self) -> Seq<(i32, ScriptResponse)> {
        self.deferred_responses@
    }

    pub closed spec fn triggers(self) -> Seq<ScriptTrigger> {
        self.pending_triggers@
    }

    pub closed spec fn spec_playercount(self) -> i32 {
        self.playercount
    }

    pub open spec fn wf(self) -> bool {
        &&& self.hash().wf()
        &&& self.collisions().wf()
        &&& self.ents().wf()
        &&& forall|k: int| 0 <= k < self.players().len()
            ==> (#[trigger] self.players()[k]).1.wf()
    }

    /// A fresh instance of a map: its collision grid, an empty player index
    /// and an empty entity registry covering the same rectangle.
    pub fn new(mapname: String, col_array: CollisionArray) -> (r: Instance)
        requires
            col_array.wf(),
            col_array.spec_width() >= 1,
            col_array.spec_height() >= 1,
            ({
                let tl = col_array.spec_topleft();
                let br = ((tl.0 + col_array.spec_width() - 1) as i32,
                    (tl.1 + col_array.spec_height() - 1) as i32);
                (cell_coords(br, crate::spatial::GRID_SIZE as int).0
                    - cell_coords(tl, crate::spatial::GRID_SIZE as int).0 + 1)
                    * (cell_coords(br, crate::spatial::GRID_SIZE as int).1
                        - cell_coords(tl, crate::spatial::GRID_SIZE as int).1 + 1)
                    <= usize::MAX
            }),
        ensures
            r.wf(),
            r.spec_mapname() == mapname,
            r.collisions() == col_array,
            r.players() == Seq::<(i32, Player)>::empty(),
            r.ents().list() == Seq::<Entity>::empty(),
            r.despawns() == Seq::<(i32, i32, i32)>::empty(),
            r.entity_despawns() == Seq::<(i32, i32, i32)>::empty(),
            r.responses() == Seq::<(i32, ScriptResponse)>::empty(),
            r.triggers() == Seq::<ScriptTrigger>::empty(),
            r.spec_playercount() == 0,
            forall|c: (int, int)| r.hash().cell_valid(c)
                ==> r.hash().bucket(c) =~= Seq::<(i32, i32)>::empty(),
    {
        let spatial_hash = col_array.get_default_spatialhash();
        let entity_hash = col_array.get_default_spatialhash();
        Instance {
            mapname,
            col_array,
            spatial_hash,
            players: Vec::new(),
            playercount: 0,
            deferred_despawns: Vec::new(),
            deferred_entity_despawns: Vec::new(),
            entities: Entities::new(entity_hash),
            deferred_responses: Vec::new(),
            pending_triggers: Vec::new(),
        }
    }

    /// The name of the map this instance runs.
    pub fn map_name(&self) -> (r: &str)
        ensures
            r@ == self.spec_mapname()@,
    {
        self.mapname.as_str()
    }

    /// Position of a net_id in the player table.
    fn get_player_index(&self, net_id: i32) -> (r: Option<usize>)
        ensures
            match r {
                Some(i) => i < self.players().len() && self.players()[i as int].0 == net_id
                    && player_index(self.players(), net_id) == Some(i as int),
                None => player_index(self.players(), net_id) is None,
            },
    {
        let n = self.players.len();
        let mut i: usize = 0;
        while i < n
            invariant
                n == self.players@.len(),
                i <= n,
                forall|k: int| 0 <= k < i ==> (#[trigger] self.players@[k]).0 != net_id,
            decreases n - i,
        {
            if self.players[i].0 == net_id {
                proof {
                    lemma_player_index_spec(self.players@, net_id);
                    match player_index(self.players@, net_id) {
                        Some(j) => {
                            assert(j == i) by {
                                if j < i {
                                    assert(self.players@[j].0 != net_id);
                                }
                                if i < j {
                                    assert(self.players@[i as int].0 != net_id);
                                }
                            }
                        },
                        None => {
                            assert(self.players@[i as int].0 != net_id);
                        },
                    }
                }
                return Some(i);
            }
            i = i + 1;
        }
        proof {
            lemma_player_index_spec(self.players@, net_id);
            if let Some(j) = player_index(self.players@, net_id) {
                assert(self.players@[j].0 != net_id);
            }
        }
        None
    }

    /// Sends `to_net_id` one position update for every player an adjacency
    /// walk reported.
    fn push_move_updates(&self, adj: &Vec<(i32, i32)>, to_net_id: i32, equeue: &mut EQueue)
        ensures
            final(equeue).servers() == old(equeue).servers()
                + concat_map(adj@, move_update_fn(self.players(), to_net_id)),
            final(equeue).games() == old(equeue).games(),
    {
        let ghost f = move_update_fn(self.players(), to_net_id);
        let ghost base = old(equeue).servers();
        let n = adj.len();
        let mut i: usize = 0;
        while i < n
            invariant
                n == adj@.len(),
                i <= n,
                f == move_update_fn(self.players(), to_net_id),
                equeue.servers() == base + concat_map_prefix(adj@, f, i as nat),
                equeue.games() == old(equeue).games(),
            decreases n - i,
        {
            let entry = adj[i];
            if let Some(j) = self.get_player_index(entry.0) {
                let p = &self.players[j].1;
                let ev = ServerEvent::PlayerMoveResponse {
                    x: p.data.x,
                    y: p.data.y,
                    speed: 0,
                    pid: p.data.pid,
                    data_version: p.data_version,
                    net_id: to_net_id,
                };
                proof {
                    assert(f(adj@[i as int]) =~= seq![ServerEvent::PlayerMoveResponse {
                        x: self.players()[player_index(self.players(), entry.0)->0].1.data.x,
                        y: self.players()[player_index(self.players(), entry.0)->0].1.data.y,
                        speed: 0,
                        pid: self.players()[player_index(self.players(), entry.0)->0].1.data.pid,
                        data_version: self.players()[
                            player_index(self.players(), entry.0)->0].1.data_version,
                        net_id: to_net_id,
                    }]);
                }
                equeue.push_server(ev);
                proof {
                    assert(equeue.servers() =~= base + concat_map_prefix(adj@, f, (i + 1) as nat));
                }
            } else {
                proof {
                    assert(f(adj@[i as int]) =~= Seq::<ServerEvent>::empty());
                    assert(equeue.servers() =~= base + concat_map_prefix(adj@, f, (i + 1) as nat));
                }
            }
            i = i + 1;
        }
        proof {
            assert(concat_map_prefix(adj@, f, n as nat) == concat_map(adj@, f));
        }
    }

    /// Sends `to_net_id` one position update for every entity an adjacency
    /// walk reported.
    fn push_entity_updates(&self, adj: &Vec<(i32, i32)>, to_net_id: i32, equeue: &mut EQueue)
        ensures
            final(equeue).servers() == old(equeue).servers()
                + concat_map(adj@, entity_update_fn(self.ents().list(), to_net_id)),
            final(equeue).games() == old(equeue).games(),
    {
        let ghost f = entity_update_fn(self.ents().list(), to_net_id);
        let ghost base = old(equeue).servers();
        let n = adj.len();
        let mut i: usize = 0;
        while i < n
            invariant
                n == adj@.len(),
                i <= n,
                f == entity_update_fn(self.ents().list(), to_net_id),
                equeue.servers() == base + concat_map_prefix(adj@, f, i as nat),
                equeue.games() == old(equeue).games(),
            decreases n - i,
        {
            let entry = adj[i];
            if let Some(j) = self.entities.find_entity_index(entry.0) {
                let en = self.entities.entity_at(j);
                let ev = ServerEvent::EntityMoveResponse {
                    x: en.pos.0,
                    y: en.pos.1,
                    speed: 0,
                    entity_id: entry.0,
                    data_version: en.public_data_version,
                    net_id: to_net_id,
                };
                proof {
                    assert(lookup_entity(self.ents().list(), entry.0)
                        == Some(self.ents().list()[j as int]));
                    assert(f(adj@[i as int]) =~= seq![ev]);
                }
                equeue.push_server(ev);
                proof {
                    assert(equeue.servers() =~= base + concat_map_prefix(adj@, f, (i + 1) as nat));
                }
            } else {
                proof {
                    assert(f(adj@[i as int]) =~= Seq::<ServerEvent>::empty());
                    assert(equeue.servers() =~= base + concat_map_prefix(adj@, f, (i + 1) as nat));
                }
            }
            i = i + 1;
        }
        proof {
            assert(concat_map_prefix(adj@, f, n as nat) == concat_map(adj@, f));
        }
    }

    /// Spawns a loaded player into this instance: their record is moved onto
    /// this map, they are indexed and registered under their net_id, told to
    /// load the map, and given an initial update about every player and
    /// visible entity already nearby.
    pub fn spawn_player(&mut self, player: Player, net_id: i32, equeue: &mut EQueue)
        requires
            old(self).wf(),
            player.wf(),
        ensures
            final(self).wf(),
            ({
                let placed = (Player {
                    data: (PlayerData { location: old(self).spec_mapname(), ..player.data }),
                    ..player
                });
                let pos = (player.data.x, player.data.y);
                &&& final(self).players() == old(self).players().push((net_id, placed))
                &&& final(self).spec_playercount() as int
                    == clamped(old(self).spec_playercount() + 1)
                &&& old(self).hash().same_config(final(self).hash())
                &&& (old(self).hash().cell_valid(old(self).hash().cell_of(pos))
                    ==> final(self).hash().bucket(old(self).hash().cell_of(pos))
                        == old(self).hash().bucket(old(self).hash().cell_of(pos)).push((net_id, 0i32)))
                &&& (forall|c: (int, int)|
                    old(self).hash().cell_valid(c) && c != old(self).hash().cell_of(pos)
                        ==> final(self).hash().bucket(c) == old(self).hash().bucket(c))
                &&& final(equeue).servers() == old(equeue).servers()
                    + seq![ServerEvent::GenericResponse {
                        response: GenericServerResponse::LoadMap { mapname: old(self).spec_mapname() },
                        net_id,
                    }]
                    + concat_map(final(self).hash().adjacent_seq(pos),
                        move_update_fn(final(self).players(), net_id))
                    + concat_map(final(self).ents().hash().adjacent_seq(pos),
                        entity_update_fn(final(self).ents().list(), net_id))
            }),
            final(equeue).games() == old(equeue).games(),
            final(self).spec_mapname() == old(self).spec_mapname(),
            final(self).collisions() == old(self).collisions(),
            final(self).ents() == old(self).ents(),
            final(self).despawns() == old(self).despawns(),
            final(self).entity_despawns() == old(self).entity_despawns(),
            final(self).responses() == old(self).responses(),
            final(self).triggers() == old(self).triggers(),
    {
        let mut p = player;
        p.set_location(self.mapname.clone());
        let pos = p.get_pos();

        self.spatial_hash.insert(net_id, 0i32, pos);
        self.players.push((net_id, p));
        self.playercount = add_clamped(self.playercount, 1);

        equeue.push_server(ServerEvent::GenericResponse {
            response: GenericServerResponse::LoadMap { mapname: self.mapname.clone() },
            net_id,
        });

        let adj = self.spatial_hash.for_each_adjacent(pos);
        self.push_move_updates(&adj, net_id, equeue);
        let eadj = self.entities.get_hash().for_each_adjacent(pos);
        self.push_entity_updates(&eadj, net_id, equeue);

        proof {
            assert forall|k: int| 0 <= k < self.players().len() implies
                (#[trigger] self.players()[k]).1.wf() by {
                if k < old(self).players().len() {
                    assert(old(self).players()[k].1.wf());
                }
            }
            assert(equeue.servers() =~= old(equeue).servers()
                + seq![ServerEvent::GenericResponse {
                    response: GenericServerResponse::LoadMap { mapname: old(self).spec_mapname() },
                    net_id,
                }]
                + concat_map(self.hash().adjacent_seq((player.data.x, player.data.y)),
                    move_update_fn(self.players(), net_id))
                + concat_map(self.ents().hash().adjacent_seq((player.data.x, player.data.y)),
                    entity_update_fn(self.ents().list(), net_id)));
        }
    }

    /// Removes a player from this instance and hands their session back;
    /// their neighbors are told at the start of the next tick. A net_id not
    /// resident here yields `None` and changes nothing: a stale despawn is a
    /// no-op, not an error.
    pub fn despawn_player(&mut self, net_id: i32) -> (r: Option<Player>)
        requires
            old(self).wf(),
        ensures
            final(self).wf(),
            match player_index(old(self).players(), net_id) {
                Some(j) => ({
                    let p = old(self).players()[j].1;
                    let c = old(self).hash().cell_of((p.data.x, p.data.y));
                    &&& r == Some(p)
                    &&& final(self).players() == old(self).players().remove(j)
                    &&& final(self).despawns()
                        == old(self).despawns().push((p.data.x, p.data.y, p.data.pid))
                    &&& final(self).spec_playercount() as int
                        == clamped(old(self).spec_playercount() - 1)
                    &&& old(self).hash().same_config(final(self).hash())
                    &&& (forall|c2: (int, int)| old(self).hash().cell_valid(c2) && c2 != c
                        ==> final(self).hash().bucket(c2) == old(self).hash().bucket(c2))
                    &&& (old(self).hash().cell_valid(c) ==> match find_id(
                        old(self).hash().bucket(c), net_id) {
                        Some(k) => final(self).hash().bucket(c)
                            == old(self).hash().bucket(c).remove(k),
                        None => final(self).hash().bucket(c) == old(self).hash().bucket(c),
                    })
                }),
                None => r is None && *final(self) == *old(self),
            },
            final(self).spec_mapname() == old(self).spec_mapname(),
            final(self).collisions() == old(self).collisions(),
            final(self).ents() == old(self).ents(),
            final(self).entity_despawns() == old(self).entity_despawns(),
            final(self).responses() == old(self).responses(),
            final(self).triggers() == old(self).triggers(),
    {
        if let Some(i) = self.get_player_index(net_id) {
            let (_, p) = self.players.remove(i);
            let pos = p.get_pos();
            self.spatial_hash.remove(net_id, pos);
            self.deferred_despawns.push((p.x(), p.y(), p.pid()));
            self.playercount = crate::sub_clamped(self.playercount, 1);
            Some(p)
        } else {
            None
        }
    }

    /// Buffers a move intent for a resident player; intents for strangers
    /// are dropped.
    pub fn player_move(&mut self, x: i32, y: i32, speed: i32, net_id: i32)
        requires
            old(self).wf(),
        ensures
            final(self).wf(),
            match player_index(old(self).players(), net_id) {
                Some(j) => ({
                    let p = old(self).players()[j].1;
                    final(self).players() == old(self).players().update(j, (net_id, (Player {
                        nextmove: crate::player::buffer_after_insert(
                            p.nextmove, p.nextnextmove, (x, y, speed)).0,
                        nextnextmove: crate::player::buffer_after_insert(
                            p.nextmove, p.nextnextmove, (x, y, speed)).1,
                        ..p
                    })))
                }),
                None => *final(self) == *old(self),
            },
            final(self).hash() == old(self).hash(),
            final(self).ents() == old(self).ents(),
            final(self).spec_mapname() == old(self).spec_mapname(),
    {
        if let Some(i) = self.get_player_index(net_id) {
            let (id, mut p) = self.players.remove(i);
            p.insert_next_move(x, y, speed);
            self.players.insert(i, (id, p));
            proof {
                assert(self.players@ =~= old(self).players().update(
                    i as int, self.players@[i as int]));
            }
        }
    }

    /// The live player a net_id denotes, if resident here.
    pub fn get_net_id_playerdata(&self, net_id: i32) -> (r: Option<&Player>)
        ensures
            match lookup_player(self.players(), net_id) {
                Some(p) => r is Some && *r->0 == p,
                None => r is None,
            },
    {
        if let Some(i) = self.get_player_index(net_id) {
            Some(&self.players[i].1)
        } else {
            None
        }
    }

    /// Appends a pid to the friend list of a resident player and marks their
    /// private data changed; a stranger is a no-op.
    pub fn add_friend_to(&mut self, net_id: i32, friend_pid: i32)
        requires
            old(self).wf(),
        ensures
            final(self).wf(),
            final(self).hash() == old(self).hash(),
            final(self).ents() == old(self).ents(),
            final(self).collisions() == old(self).collisions(),
            final(self).spec_mapname() == old(self).spec_mapname(),
            final(self).despawns() == old(self).despawns(),
            final(self).entity_despawns() == old(self).entity_despawns(),
            final(self).responses() == old(self).responses(),
            final(self).triggers() == old(self).triggers(),
            final(self).spec_playercount() == old(self).spec_playercount(),
            match player_index(old(self).players(), net_id) {
                Some(j) => final(self).players() == old(self).players().update(j,
                    (net_id, (Player {
                        data: (PlayerData {
                            friends: final(self).players()[j].1.data.friends,
                            ..old(self).players()[j].1.data
                        }),
                        private_data_just_updated: true,
                        ..old(self).players()[j].1
                    })))
                    && final(self).players()[j].1.data.friends@
                        == old(self).players()[j].1.data.friends@.push(friend_pid)
                    && player_index(final(self).players(), net_id) == Some(j),
                None => final(self).players() == old(self).players(),
            },
    {
        if let Some(i) = self.get_player_index(net_id) {
            let (id, mut p) = self.players.remove(i);
            p.data.friends.push(friend_pid);
            p.set_private_change();
            self.players.insert(i, (id, p));
            proof {
                assert(self.players@ =~= old(self).players().update(
                    i as int, self.players@[i as int]));
                lemma_player_index_spec(old(self).players(), net_id);
                lemma_player_index_spec(self.players@, net_id);
                match player_index(self.players@, net_id) {
                    Some(j2) => {
                        assert(self.players@[j2].0 == net_id);
                        assert(j2 == i) by {
                            if j2 < i {
                                assert(self.players@[j2] == old(self).players()[j2]);
                                assert(old(self).players()[j2].0 != net_id);
                            }
                            if (i as int) < j2 {
                                assert(self.players@[i as int].0 != net_id);
                            }
                        }
                    },
                    None => {
                        assert(self.players@[i as int].0 == net_id);
                    },
                }
            }
        }
    }

    /// Hands the host the script invocations raised this tick.
    pub fn drain_triggers(&mut self) -> (r: Vec<ScriptTrigger>)
        ensures
            r@ == old(self).triggers(),
            final(self).triggers() == Seq::<ScriptTrigger>::empty(),
            final(self).players() == old(self).players(),
            final(self).hash() == old(self).hash(),
            final(self).collisions() == old(self).collisions(),
            final(self).ents() == old(self).ents(),
            final(self).despawns() == old(self).despawns(),
            final(self).entity_despawns() == old(self).entity_despawns(),
            final(self).responses() == old(self).responses(),
            final(self).spec_playercount() == old(self).spec_playercount(),
            final(self).spec_mapname() == old(self).spec_mapname(),
    {
        let mut out: Vec<ScriptTrigger> = Vec::new();
        core::mem::swap(&mut self.pending_triggers, &mut out);
        out
    }

    /// Applies one typed script effect. Policy rejections (an absent player,
    /// an unknown skill, a full inventory) drop the effect without error.
    pub fn handle_entity_response(&mut self, entity_id: i32, response: ScriptResponse,
        equeue: &mut EQueue)
        requires
            old(self).wf(),
        ensures
            final(self).wf(),
            final(self).spec_mapname() == old(self).spec_mapname(),
            final(self).collisions() == old(self).collisions(),
            final(self).despawns() == old(self).despawns(),
            final(self).responses() == old(self).responses(),
            final(self).triggers() == old(self).triggers(),
            final(self).spec_playercount() == old(self).spec_playercount(),
            old(self).hash().same_config(final(self).hash()),
            old(self).ents().hash().same_config(final(self).ents().hash()),
            old(equeue).servers().is_prefix_of(final(equeue).servers()),
            old(equeue).games().is_prefix_of(final(equeue).games()),
            response.response matches ResponseType::MovePlayerToMap { mapname, x, y, net_id }
                ==> final(equeue).games() == old(equeue).games().push(
                        GameEvent::PlayerJoinInstance { mapname, x, y, net_id })
                    && final(equeue).servers() == old(equeue).servers()
                    && final(self).players() == old(self).players()
                    && final(self).ents() == old(self).ents()
                    && final(self).entity_despawns() == old(self).entity_despawns(),
            response.response matches ResponseType::MovePlayer { x, y, speed, net_id }
                ==> final(equeue).servers() == old(equeue).servers()
                    && final(equeue).games() == old(equeue).games()
                    && final(self).ents() == old(self).ents()
                    && final(self).entity_despawns() == old(self).entity_despawns()
                    && match player_index(old(self).players(), net_id) {
                        Some(j) => final(self).players() == old(self).players().update(j,
                            (net_id, (Player {
                                data: (PlayerData { x: x, y: y, ..old(self).players()[j].1.data }),
                                speed: speed,
                                ticks_since_move: 0,
                                ..old(self).players()[j].1
                            }))),
                        None => final(self).players() == old(self).players(),
                    },
            response.response matches ResponseType::MoveSelf { x, y, speed }
                ==> final(equeue).servers() == old(equeue).servers()
                    && final(equeue).games() == old(equeue).games()
                    && final(self).players() == old(self).players()
                    && final(self).entity_despawns() == old(self).entity_despawns()
                    && final(self).ents().walkables() == old(self).ents().walkables()
                    && match find_first(old(self).ents().list(),
                        crate::entity::by_entity_id(entity_id)) {
                        Some(j) => final(self).ents().list()
                            == old(self).ents().list().update(j, (Entity {
                                pos: (x, y),
                                last_speed: speed,
                                ticks_since_last_move: 0,
                                ..old(self).ents().list()[j]
                            })),
                        None => final(self).ents().list() == old(self).ents().list(),
                    },
            response.response matches ResponseType::GiveItem { item, net_id }
                ==> final(equeue).servers() == old(equeue).servers()
                    && final(equeue).games() == old(equeue).games()
                    && final(self).ents() == old(self).ents()
                    && final(self).entity_despawns() == old(self).entity_despawns()
                    && match player_index(old(self).players(), net_id) {
                        Some(j) => exists|ok: bool, p2: Player|
                            #[trigger] crate::playerdata::inserted(
                                old(self).players()[j].1.data, item, p2.data, ok)
                                && final(self).players()
                                    == old(self).players().update(j, (net_id, p2))
                                && p2 == (Player {
                                    data: p2.data,
                                    private_data_just_updated:
                                        ok || old(self).players()[j].1.private_data_just_updated,
                                    ..old(self).players()[j].1
                                }),
                        None => final(self).players() == old(self).players(),
                    },
            response.response matches ResponseType::TakeItem { id_string, amount, net_id }
                ==> final(equeue).servers() == old(equeue).servers()
                    && final(equeue).games() == old(equeue).games()
                    && final(self).ents() == old(self).ents()
                    && final(self).entity_despawns() == old(self).entity_despawns()
                    && match player_index(old(self).players(), net_id) {
                        Some(j) => exists|ok: bool, p2: Player|
                            #[trigger] crate::playerdata::removed(
                                old(self).players()[j].1.data, id_string@, amount as int,
                                p2.data, ok)
                                && final(self).players()
                                    == old(self).players().update(j, (net_id, p2))
                                && p2 == (Player {
                                    data: p2.data,
                                    private_data_just_updated:
                                        ok || old(self).players()[j].1.private_data_just_updated,
                                    ..old(self).players()[j].1
                                }),
                        None => final(self).players() == old(self).players(),
                    },
            response.response matches ResponseType::ChangeGold { amount, net_id }
                ==> final(equeue).servers() == old(equeue).servers()
                    && final(equeue).games() == old(equeue).games()
                    && final(self).ents() == old(self).ents()
                    && final(self).entity_despawns() == old(self).entity_despawns()
                    && match player_index(old(self).players(), net_id) {
                        Some(j) => final(self).players() == old(self).players().update(j,
                            (net_id, (Player {
                                data: (PlayerData {
                                    gold: clamped(old(self).players()[j].1.data.gold + amount) as i32,
                                    ..old(self).players()[j].1.data
                                }),
                                private_data_just_updated: true,
                                ..old(self).players()[j].1
                            }))),
                        None => final(self).players() == old(self).players(),
                    },
            response.response matches ResponseType::GiveXp { skill, amount, net_id }
                ==> final(equeue).servers() == old(equeue).servers()
                    && final(equeue).games() == old(equeue).games()
                    && final(self).ents() == old(self).ents()
                    && final(self).entity_despawns() == old(self).entity_despawns()
                    && match (player_index(old(self).players(), net_id),
                        crate::skills::skill_of_chars(skill@)) {
                        (Some(j), Some(sk)) => exists|delta: int, p2: Player|
                            #[trigger] crate::playerdata::xp_added(
                                old(self).players()[j].1.data, sk, amount, p2.data, delta)
                                && final(self).players()
                                    == old(self).players().update(j, (net_id, p2))
                                && (delta > 0 ==> p2 == (Player {
                                    data: p2.data,
                                    data_version:
                                        clamped(old(self).players()[j].1.data_version + 1) as i32,
                                    data_just_updated: true,
                                    ..old(self).players()[j].1
                                }))
                                && (delta <= 0 ==> p2 == (Player {
                                    data: p2.data,
                                    private_data_just_updated: true,
                                    ..old(self).players()[j].1
                                })),
                        _ => final(self).players() == old(self).players(),
                    },
            response.response matches ResponseType::DespawnSelf
                ==> final(equeue).servers() == old(equeue).servers()
                    && final(equeue).games() == old(equeue).games()
                    && final(self).players() == old(self).players()
                    && match find_first(old(self).ents().list(),
                        crate::entity::by_entity_id(entity_id)) {
                        Some(j) => final(self).entity_despawns() == old(self).entity_despawns()
                            .push((old(self).ents().list()[j].pos.0,
                                old(self).ents().list()[j].pos.1, entity_id))
                            && final(self).ents().list() == old(self).ents().list().remove(j),
                        None => final(self).entity_despawns() == old(self).entity_despawns()
                            && final(self).ents().list() == old(self).ents().list(),
                    },
            response.response matches ResponseType::RegisterEntity { entity }
                ==> final(equeue).servers() == old(equeue).servers()
                    && final(equeue).games() == old(equeue).games()
                    && final(self).players() == old(self).players()
                    && final(self).entity_despawns() == old(self).entity_despawns()
                    && final(self).ents().list() == old(self).ents().list().push(
                        (Entity { entity_id: clamped(old(self).ents().spec_last_id() + 1) as i32,
                            ..entity }))
                    && final(self).ents().walkables() == if entity.walkable {
                        old(self).ents().walkables().push(
                            (entity.pos, clamped(old(self).ents().spec_last_id() + 1) as i32))
                    } else {
                        old(self).ents().walkables()
                    },
            response.response matches ResponseType::SystemChatMessage { text, net_id }
                ==> final(equeue).games() == old(equeue).games()
                    && final(self).players() == old(self).players()
                    && final(self).ents() == old(self).ents()
                    && final(self).entity_despawns() == old(self).entity_despawns()
                    && final(equeue).servers().len() == old(equeue).servers().len() + 1
                    && (final(equeue).servers().last() matches ServerEvent::PlayerChat {
                        text: t, from, from_pid, is_dm, net_id: to }
                        && t == text && from@ == Seq::<char>::empty() && from_pid == -1
                        && !is_dm && to == net_id),
            response.response matches ResponseType::Null
                ==> final(equeue).servers() == old(equeue).servers()
                    && final(equeue).games() == old(equeue).games()
                    && final(self).players() == old(self).players()
                    && final(self).ents() == old(self).ents()
                    && final(self).entity_despawns() == old(self).entity_despawns(),
    {
        match response.response {
            ResponseType::MovePlayerToMap { mapname, x, y, net_id } => {
                equeue.push_game(GameEvent::PlayerJoinInstance { mapname, x, y, net_id });
            },
            ResponseType::MovePlayer { x, y, speed, net_id } => {
                if let Some(i) = self.get_player_index(net_id) {
                    let (id, mut p) = self.players.remove(i);
                    p.set_full_pos(x, y, speed);
                    self.players.insert(i, (id, p));
                    proof {
                        assert(self.players@ =~= old(self).players().update(
                            i as int, self.players@[i as int]));
                    }
                }
            },
            ResponseType::MoveSelf { x, y, speed } => {
                self.entities.apply_move_self(entity_id, x, y, speed);
            },
            ResponseType::GiveItem { item, net_id } => {
                if let Some(i) = self.get_player_index(net_id) {
                    let (id, mut p) = self.players.remove(i);
                    let ghost p0 = p;
                    let ghost gitem = item;
                    let ok = p.data.insert_item(item);
                    if ok {
                        p.set_private_change();
                    }
                    self.players.insert(i, (id, p));
                    proof {
                        assert(self.players@ =~= old(self).players().update(
                            i as int, self.players@[i as int]));
                        assert(crate::playerdata::inserted(
                            p0.data, gitem, self.players@[i as int].1.data, ok));
                    }
                }
            },
            ResponseType::TakeItem { id_string, amount, net_id } => {
                if let Some(i) = self.get_player_index(net_id) {
                    let (id, mut p) = self.players.remove(i);
                    let ghost p0 = p;
                    let ok = p.data.remove_item(id_string.as_str(), amount);
                    if ok {
                        p.set_private_change();
                    }
                    self.players.insert(i, (id, p));
                    proof {
                        assert(self.players@ =~= old(self).players().update(
                            i as int, self.players@[i as int]));
                        assert(crate::playerdata::removed(
                            p0.data, id_string@, amount as int,
                            self.players@[i as int].1.data, ok));
                    }
                }
            },
            ResponseType::ChangeGold { amount, net_id } => {
                if let Some(i) = self.get_player_index(net_id) {
                    let (id, mut p) = self.players.remove(i);
                    p.data.gold = add_clamped(p.data.gold, amount);
                    p.set_private_change();
                    self.players.insert(i, (id, p));
                    proof {
                        assert(self.players@ =~= old(self).players().update(
                            i as int, self.players@[i as int]));
                    }
                }
            },
            ResponseType::GiveXp { skill, amount, net_id } => {
                if let Some(i) = self.get_player_index(net_id) {
                    if let Some(sk) = Skill::try_from_str(skill.as_str()) {
                        let (id, mut p) = self.players.remove(i);
                        let ghost p0 = p;
                        let delta = p.data.add_xp(sk, amount);
                        if delta > 0 {
                            p.set_public_change();
                        } else {
                            p.set_private_change();
                        }
                        self.players.insert(i, (id, p));
                        proof {
                            assert(self.players@ =~= old(self).players().update(
                                i as int, self.players@[i as int]));
                            assert(crate::playerdata::xp_added(
                                p0.data, sk, amount, self.players@[i as int].1.data,
                                delta as int));
                        }
                    }
                }
            },
            ResponseType::DespawnSelf => {
                if let Some(i) = self.entities.find_entity_index(entity_id) {
                    let pos = self.entities.entity_at(i).pos;
                    self.deferred_entity_despawns.push((pos.0, pos.1, entity_id));
                    self.entities.remove_entity(pos, entity_id);
                }
            },
            ResponseType::RegisterEntity { entity } => {
                self.entities.register_entity(entity);
            },
            ResponseType::SystemChatMessage { text, net_id } => {
                equeue.push_server(ServerEvent::PlayerChat {
                    text,
                    from: String::new(),
                    from_pid: -1,
                    is_dm: false,
                    net_id,
                });
            },
            ResponseType::Null => {},
        }
    }

    /// Queues a script response for application at the start of the next
    /// tick.
    pub fn submit_entity_response(&mut self, entity_id: i32, response: ScriptResponse)
        ensures
            final(self).responses() == old(self).responses().push((entity_id, response)),
            final(self).players() == old(self).players(),
            final(self).hash() == old(self).hash(),
            final(self).collisions() == old(self).collisions(),
            final(self).ents() == old(self).ents(),
            final(self).despawns() == old(self).despawns(),
            final(self).entity_despawns() == old(self).entity_despawns(),
            final(self).triggers() == old(self).triggers(),
            final(self).spec_playercount() == old(self).spec_playercount(),
            final(self).spec_mapname() == old(self).spec_mapname(),
    {
        self.deferred_responses.push((entity_id, response));
    }

    /// A player's explicit interaction attempt with an entity at `(x, y)`:
    /// when the entity is there, interactable, correctly named and within one
    /// step of the player, its script is triggered; an entity out of reach
    /// earns the player a "too far" notice; anything else is silently
    /// dropped.
    pub fn handle_interaction(&mut self, x: i32, y: i32, entity_id: i32, net_id: i32,
        equeue: &mut EQueue)
        requires
            old(self).wf(),
        ensures
            final(self).wf(),
            final(self).players() == old(self).players(),
            final(self).ents() == old(self).ents(),
            final(self).hash() == old(self).hash(),
            final(self).collisions() == old(self).collisions(),
            final(self).despawns() == old(self).despawns(),
            final(self).entity_despawns() == old(self).entity_despawns(),
            final(self).responses() == old(self).responses(),
            final(self).spec_mapname() == old(self).spec_mapname(),
            final(equeue).games() == old(equeue).games(),
            ({
                let h = old(self).ents().hash();
                let c = h.cell_of((x, y));
                let target = if h.cell_valid(c) && find_id(h.bucket(c), entity_id) is Some {
                    lookup_entity(old(self).ents().list(), entity_id)
                } else {
                    None
                };
                match (target, lookup_player(old(self).players(), net_id)) {
                    (Some(e), Some(p)) => if !e.interactable {
                        final(self).triggers() == old(self).triggers()
                            && final(equeue).servers() == old(equeue).servers()
                    } else if cheb((x as int, y as int), (p.data.x as int, p.data.y as int)) <= 1 {
                        final(self).triggers() == old(self).triggers().push(ScriptTrigger {
                            entity_id,
                            net_id,
                            kind: TriggerKind::Interaction,
                        })
                            && final(equeue).servers() == old(equeue).servers()
                    } else {
                        final(self).triggers() == old(self).triggers()
                            && final(equeue).servers().len() == old(equeue).servers().len() + 1
                            && old(equeue).servers().is_prefix_of(final(equeue).servers())
                            && (final(equeue).servers().last() matches ServerEvent::PlayerChat {
                                text, from, from_pid, is_dm, net_id: to }
                                && text@ == "Too far!"@ && from@ == Seq::<char>::empty()
                                && from_pid == -1 && !is_dm && to == net_id)
                    },
                    _ => final(self).triggers() == old(self).triggers()
                        && final(equeue).servers() == old(equeue).servers(),
                }
            }),
    {
        let found = self.entities.get_at(x, y, entity_id).is_some();
        if !found {
            return;
        }
        let interactable = match self.entities.find_entity_index(entity_id) {
            Some(j) => self.entities.entity_at(j).interactable,
            None => {
                return;
            },
        };
        let ppos = match self.get_player_index(net_id) {
            Some(i) => self.players[i].1.get_pos(),
            None => {
                return;
            },
        };
        if !interactable {
            return;
        }
        let dist = crate::spatial::distance((x, y), ppos);
        if dist <= 1 {
            self.pending_triggers.push(ScriptTrigger {
                entity_id,
                net_id,
                kind: TriggerKind::Interaction,
            });
        } else {
            equeue.push_server(ServerEvent::PlayerChat {
                text: String::from_str("Too far!"),
                from: String::new(),
                from_pid: -1,
                is_dm: false,
                net_id,
            });
            proof {
                assert(old(equeue).servers()
                    =~= equeue.servers().subrange(0, old(equeue).servers().len() as int));
            }
        }
    }

    /// Dispatches a player-raised intent: interactions go to the entity
    /// machinery; inventory rearrangements apply to the player's record;
    /// anything else is dropped here (friend flows live in the manager).
    pub fn handle_generic_event(&mut self, event: GenericPlayerEvent, net_id: i32,
        equeue: &mut EQueue)
        requires
            old(self).wf(),
        ensures
            final(self).wf(),
            final(self).ents() == old(self).ents(),
            final(self).hash() == old(self).hash(),
            final(self).collisions() == old(self).collisions(),
            final(self).despawns() == old(self).despawns(),
            final(self).entity_despawns() == old(self).entity_despawns(),
            final(self).responses() == old(self).responses(),
            final(self).spec_mapname() == old(self).spec_mapname(),
            final(equeue).games() == old(equeue).games(),
            old(equeue).servers().is_prefix_of(final(equeue).servers()),
            event matches GenericPlayerEvent::Interaction { x, y, entity_id }
                ==> final(self).players() == old(self).players(),
            event matches GenericPlayerEvent::SwapItems { from, to }
                ==> final(self).triggers() == old(self).triggers()
                    && final(equeue).servers() == old(equeue).servers()
                    && ({
                        match player_index(old(self).players(), net_id) {
                            Some(j) => ({
                                let p = old(self).players()[j].1;
                                if from < MAX_ITEMS && to < MAX_ITEMS {
                                    final(self).players() == old(self).players().update(j,
                                        (net_id, (Player {
                                            data: (PlayerData {
                                                items: final(self).players()[j].1.data.items,
                                                ..p.data
                                            }),
                                            private_data_just_updated: true,
                                            ..p
                                        })))
                                        && final(self).players()[j].1.data.items@
                                            == p.data.items@.update(from as int,
                                                p.data.items@[to as int]).update(to as int,
                                                p.data.items@[from as int])
                                } else {
                                    final(self).players() == old(self).players()
                                }
                            }),
                            None => final(self).players() == old(self).players(),
                        }
                    }),
            event matches GenericPlayerEvent::EquipItem { from }
                ==> final(self).triggers() == old(self).triggers()
                    && final(equeue).servers() == old(equeue).servers()
                    && ({
                        match player_index(old(self).players(), net_id) {
                            Some(j) => ({
                                let p = old(self).players()[j].1;
                                if from < MAX_ITEMS {
                                    final(self).players() == old(self).players().update(j,
                                        (net_id, (Player {
                                            data: (PlayerData {
                                                items: final(self).players()[j].1.data.items,
                                                equipped_item: p.data.items@[from as int],
                                                ..p.data
                                            }),
                                            data_version: clamped(p.data_version + 1) as i32,
                                            data_just_updated: true,
                                            ..p
                                        })))
                                        && final(self).players()[j].1.data.items@
                                            == p.data.items@.update(from as int, p.data.equipped_item)
                                } else {
                                    final(self).players() == old(self).players()
                                }
                            }),
                            None => final(self).players() == old(self).players(),
                        }
                    }),
            (event matches GenericPlayerEvent::FriendRequest { pid }
                || event matches GenericPlayerEvent::FriendAccept { pid }
                || event matches GenericPlayerEvent::Malformed)
                ==> *final(self) == *old(self) && final(equeue).servers() == old(equeue).servers(),
    {
        match event {
            GenericPlayerEvent::Interaction { x, y, entity_id } => {
                self.handle_interaction(x, y, entity_id, net_id, equeue);
            },
            GenericPlayerEvent::SwapItems { from, to } => {
                if from < MAX_ITEMS && to < MAX_ITEMS {
                    if let Some(i) = self.get_player_index(net_id) {
                        let (id, mut p) = self.players.remove(i);
                        if from != to {
                            let a = p.data.items.remove(from);
                            p.data.items.insert(from, None);
                            let b = p.data.items.remove(to);
                            p.data.items.insert(to, a);
                            p.data.items.set(from, b);
                        }
                        p.set_private_change();
                        self.players.insert(i, (id, p));
                        proof {
                            let p0 = old(self).players()[i as int].1;
                            assert(self.players@[i as int].1.data.items@
                                =~= p0.data.items@.update(from as int,
                                    p0.data.items@[to as int]).update(to as int,
                                    p0.data.items@[from as int]));
                            assert(self.players@ =~= old(self).players().update(
                                i as int, self.players@[i as int]));
                        }
                    }
                }
            },
            GenericPlayerEvent::EquipItem { from } => {
                if from < MAX_ITEMS {
                    if let Some(i) = self.get_player_index(net_id) {
                        let (id, mut p) = self.players.remove(i);
                        let mut slot = p.data.items.remove(from);
                        core::mem::swap(&mut p.data.equipped_item, &mut slot);
                        p.data.items.insert(from, slot);
                        p.set_public_change();
                        self.players.insert(i, (id, p));
                        proof {
                            let p0 = old(self).players()[i as int].1;
                            assert(self.players@[i as int].1.data.items@
                                =~= p0.data.items@.update(from as int, p0.data.equipped_item));
                            assert(self.players@ =~= old(self).players().update(
                                i as int, self.players@[i as int]));
                        }
                    }
                }
            },
            GenericPlayerEvent::FriendRequest { .. } => {},
            GenericPlayerEvent::FriendAccept { .. } => {},
            GenericPlayerEvent::Malformed => {},
        }
    }

    /// Answers an entity data request addressed to an entity at `(x, y)`;
    /// an invalid target is silently dropped.
    pub fn get_entity_data(&self, x: i32, y: i32, entity_id: i32, net_id: i32, equeue: &mut EQueue)
        requires
            self.wf(),
        ensures
            final(equeue).games() == old(equeue).games(),
            ({
                let h = self.ents().hash();
                let c = h.cell_of((x, y));
                let target = if h.cell_valid(c) && find_id(h.bucket(c), entity_id) is Some {
                    lookup_entity(self.ents().list(), entity_id)
                } else {
                    None
                };
                match target {
                    Some(e) => final(equeue).servers().len() == old(equeue).servers().len() + 1
                        && old(equeue).servers().is_prefix_of(final(equeue).servers())
                        && (final(equeue).servers().last() matches ServerEvent::EntityDataResponse {
                            interactable, walkable, related_scene, data, entity_id: eid, net_id: to }
                            && interactable == e.interactable
                            && walkable == e.walkable
                            && related_scene == e.related_scene
                            && data@ == e.public_data@
                            && eid == entity_id && to == net_id),
                    None => final(equeue).servers() == old(equeue).servers(),
                }
            }),
    {
        if self.entities.get_at(x, y, entity_id).is_none() {
            return;
        }
        if let Some(j) = self.entities.find_entity_index(entity_id) {
            let (interactable, walkable, related_scene, data) = self.entities.entity_at(j).get_data();
            equeue.push_server(ServerEvent::EntityDataResponse {
                interactable,
                walkable,
                related_scene,
                data,
                entity_id,
                net_id,
            });
            proof {
                assert(old(equeue).servers()
                    =~= equeue.servers().subrange(0, old(equeue).servers().len() as int));
            }
        }
    }

    /// Chat from a resident player: a target pid of -1 broadcasts the
    /// message to every player of this instance; any other target becomes a
    /// direct message raised back to the manager (unless sent to oneself,
    /// which is dropped).
    pub fn broadcast_chat(&mut self, text: String, target_pid: i32, net_id: i32,
        equeue: &mut EQueue)
        requires
            old(self).wf(),
        ensures
            final(self).wf(),
            *final(self) == *old(self),
            match lookup_player(old(self).players(), net_id) {
                Some(p) => if target_pid == -1 {
                    final(equeue).servers() == old(equeue).servers()
                        + concat_map(old(self).players(),
                            chat_fan_fn(text, p.data.name, p.data.pid))
                        && final(equeue).games() == old(equeue).games()
                } else if p.data.pid == target_pid {
                    final(equeue).servers() == old(equeue).servers()
                        && final(equeue).games() == old(equeue).games()
                } else {
                    final(equeue).servers() == old(equeue).servers()
                        && final(equeue).games() == old(equeue).games().push(
                            GameEvent::PlayerDm {
                                text: text,
                                from: p.data.name,
                                from_pid: p.data.pid,
                                target_pid,
                            })
                },
                None => final(equeue).servers() == old(equeue).servers()
                    && final(equeue).games() == old(equeue).games(),
            },
    {
        let i = match self.get_player_index(net_id) {
            Some(i) => i,
            None => {
                return;
            },
        };
        let from = self.players[i].1.data.name.clone();
        let from_pid = self.players[i].1.pid();

        if target_pid == -1 {
            let ghost f = chat_fan_fn(text, from, from_pid);
            let ghost base = old(equeue).servers();
            let n = self.players.len();
            let mut k: usize = 0;
            while k < n
                invariant
                    n == self.players@.len(),
                    k <= n,
                    *self == *old(self),
                    f == chat_fan_fn(text, from, from_pid),
                    equeue.servers() == base + concat_map_prefix(self.players@, f, k as nat),
                    equeue.games() == old(equeue).games(),
                decreases n - k,
            {
                let to = self.players[k].0;
                equeue.push_server(ServerEvent::PlayerChat {
                    text: text.clone(),
                    from: from.clone(),
                    from_pid,
                    is_dm: false,
                    net_id: to,
                });
                proof {
                    assert(f(self.players@[k as int]) =~= seq![ServerEvent::PlayerChat {
                        text: text,
                        from: from,
                        from_pid: from_pid,
                        is_dm: false,
                        net_id: to,
                    }]);
                    assert(equeue.servers() =~= base
                        + concat_map_prefix(self.players@, f, (k + 1) as nat));
                }
                k = k + 1;
            }
            proof {
                assert(concat_map_prefix(self.players@, f, n as nat)
                    == concat_map(self.players@, f));
            }
        } else {
            if from_pid == target_pid {
                return;
            }
            equeue.push_game(GameEvent::PlayerDm { text, from, from_pid, target_pid });
        }
    }

    /// Tick step one: tells the neighbors of every player despawned last
    /// tick that the player is gone.
    pub fn flush_deferred_despawns(&mut self, equeue: &mut EQueue)
        requires
            old(self).wf(),
        ensures
            final(self).wf(),
            final(self).despawns() == Seq::<(i32, i32, i32)>::empty(),
            final(self).players() == old(self).players(),
            final(self).hash() == old(self).hash(),
            final(self).collisions() == old(self).collisions(),
            final(self).ents() == old(self).ents(),
            final(self).entity_despawns() == old(self).entity_despawns(),
            final(self).responses() == old(self).responses(),
            final(self).triggers() == old(self).triggers(),
            final(self).spec_playercount() == old(self).spec_playercount(),
            final(self).spec_mapname() == old(self).spec_mapname(),
            final(equeue).games() == old(equeue).games(),
            final(equeue).servers() == old(equeue).servers()
                + concat_map(old(self).despawns(), despawn_flush_fn(old(self).hash())),
    {
        let mut despawns: Vec<(i32, i32, i32)> = Vec::new();
        core::mem::swap(&mut self.deferred_despawns, &mut despawns);
        proof {
            assert(self.players() == old(self).players());
            assert(self.hash() == old(self).hash());
            assert(self.wf());
        }
        let ghost f = despawn_flush_fn(self.hash());
        let ghost base = old(equeue).servers();
        proof {
            assert(equeue.servers() =~= base + concat_map_prefix(despawns@, f, 0nat));
        }
        let n = despawns.len();
        let mut i: usize = 0;
        while i < n
            invariant
                n == despawns@.len(),
                i <= n,
                self.wf(),
                f == despawn_flush_fn(self.hash()),
                equeue.servers() == base + concat_map_prefix(despawns@, f, i as nat),
                equeue.games() == old(equeue).games(),
            decreases n - i,
        {
            let d = despawns[i];
            let adj = self.spatial_hash.for_each_adjacent((d.0, d.1));
            let ghost g = despawn_event_fn(d.2);
            let ghost inner_base = equeue.servers();
            proof {
                assert(equeue.servers() =~= inner_base + concat_map_prefix(adj@, g, 0nat));
            }
            let m = adj.len();
            let mut k: usize = 0;
            while k < m
                invariant
                    m == adj@.len(),
                    k <= m,
                    d == despawns@[i as int],
                    g == despawn_event_fn(d.2),
                    equeue.servers() == inner_base + concat_map_prefix(adj@, g, k as nat),
                    equeue.games() == old(equeue).games(),
                decreases m - k,
            {
                let entry = adj[k];
                let ev = ServerEvent::GenericResponse {
                    response: GenericServerResponse::DespawnPlayer { pid: d.2 },
                    net_id: entry.0,
                };
                proof {
                    assert(g(adj@[k as int]) =~= seq![ServerEvent::GenericResponse {
                        response: GenericServerResponse::DespawnPlayer { pid: d.2 },
                        net_id: entry.0,
                    }]);
                }
                equeue.push_server(ev);
                proof {
                    assert(equeue.servers() =~= inner_base
                        + concat_map_prefix(adj@, g, (k + 1) as nat));
                }
                k = k + 1;
            }
            proof {
                assert(concat_map_prefix(adj@, g, m as nat) == concat_map(adj@, g));
                assert(f(despawns@[i as int])
                    == concat_map(self.hash().adjacent_seq((d.0, d.1)), g));
                assert(equeue.servers() =~= base
                    + concat_map_prefix(despawns@, f, (i + 1) as nat));
            }
            i = i + 1;
        }
        proof {
            assert(concat_map_prefix(despawns@, f, n as nat) == concat_map(despawns@, f));
        }
    }

    /// Tick step two: tells the neighbors of every entity despawned last
    /// tick that the entity is gone, with a blank data response.
    pub fn flush_deferred_entity_despawns(&mut self, equeue: &mut EQueue)
        requires
            old(self).wf(),
        ensures
            final(self).wf(),
            final(self).entity_despawns() == Seq::<(i32, i32, i32)>::empty(),
            final(self).players() == old(self).players(),
            final(self).hash() == old(self).hash(),
            final(self).collisions() == old(self).collisions(),
            final(self).ents() == old(self).ents(),
            final(self).despawns() == old(self).despawns(),
            final(self).responses() == old(self).responses(),
            final(self).triggers() == old(self).triggers(),
            final(self).spec_playercount() == old(self).spec_playercount(),
            final(self).spec_mapname() == old(self).spec_mapname(),
            final(equeue).games() == old(equeue).games(),
            old(equeue).servers().is_prefix_of(final(equeue).servers()),
            ({
                let targets = concat_map(old(self).entity_despawns(),
                    entity_despawn_targets_fn(old(self).hash()));
                &&& final(equeue).servers().len() == old(equeue).servers().len() + targets.len()
                &&& forall|k: int| 0 <= k < targets.len() ==> is_entity_despawn_event(
                    final(equeue).servers()[old(equeue).servers().len() + k],
                    (#[trigger] targets[k]).0, targets[k].1)
            }),
    {
        let mut despawns: Vec<(i32, i32, i32)> = Vec::new();
        core::mem::swap(&mut self.deferred_entity_despawns, &mut despawns);
        proof {
            assert(self.players() == old(self).players());
            assert(self.hash() == old(self).hash());
            assert(self.wf());
        }
        let ghost tf = entity_despawn_targets_fn(self.hash());
        let ghost base = old(equeue).servers();
        proof {
            assert(base.is_prefix_of(equeue.servers())) by {
                assert(base =~= equeue.servers().subrange(0, base.len() as int));
            }
        }
        let n = despawns.len();
        let mut i: usize = 0;
        while i < n
            invariant
                n == despawns@.len(),
                i <= n,
                self.wf(),
                tf == entity_despawn_targets_fn(self.hash()),
                base == old(equeue).servers(),
                equeue.games() == old(equeue).games(),
                base.is_prefix_of(equeue.servers()),
                equeue.servers().len() == base.len()
                    + concat_map_prefix(despawns@, tf, i as nat).len(),
                forall|k: int| 0 <= k < concat_map_prefix(despawns@, tf, i as nat).len()
                    ==> is_entity_despawn_event(equeue.servers()[base.len() + k],
                        (#[trigger] concat_map_prefix(despawns@, tf, i as nat)[k]).0,
                        concat_map_prefix(despawns@, tf, i as nat)[k].1),
            decreases n - i,
        {
            let d = despawns[i];
            let adj = self.spatial_hash.for_each_adjacent((d.0, d.1));
            let ghost pf = entity_despawn_pair_fn(d.2);
            let ghost outer = concat_map_prefix(despawns@, tf, i as nat);
            proof {
                assert(concat_map_prefix(adj@, pf, 0nat).len() == 0);
            }
            let m = adj.len();
            let mut k: usize = 0;
            while k < m
                invariant
                    m == adj@.len(),
                    k <= m,
                    d == despawns@[i as int],
                    pf == entity_despawn_pair_fn(d.2),
                    base == old(equeue).servers(),
                    outer == concat_map_prefix(despawns@, tf, i as nat),
                    equeue.games() == old(equeue).games(),
                    base.is_prefix_of(equeue.servers()),
                    equeue.servers().len() == base.len() + outer.len()
                        + concat_map_prefix(adj@, pf, k as nat).len(),
                    forall|j: int| 0 <= j < outer.len()
                        ==> is_entity_despawn_event(equeue.servers()[base.len() + j],
                            (#[trigger] outer[j]).0, outer[j].1),
                    forall|j: int| 0 <= j < concat_map_prefix(adj@, pf, k as nat).len()
                        ==> is_entity_despawn_event(
                            equeue.servers()[base.len() + outer.len() + j],
                            (#[trigger] concat_map_prefix(adj@, pf, k as nat)[j]).0,
                            concat_map_prefix(adj@, pf, k as nat)[j].1),
                decreases m - k,
            {
                let entry = adj[k];
                let ghost prev = equeue.servers();
                let ev = ServerEvent::EntityDataResponse {
                    interactable: false,
                    walkable: false,
                    related_scene: String::new(),
                    data: Vec::new(),
                    entity_id: d.2,
                    net_id: entry.0,
                };
                proof {
                    assert(pf(adj@[k as int]) =~= seq![(d.2, entry.0)]);
                }
                equeue.push_server(ev);
                proof {
                    crate::lemma_prefix_push(base, prev, ev);
                    assert(concat_map_prefix(adj@, pf, (k + 1) as nat)
                        =~= concat_map_prefix(adj@, pf, k as nat).push((d.2, entry.0)));
                }
                k = k + 1;
            }
            proof {
                assert(concat_map_prefix(adj@, pf, m as nat) == concat_map(adj@, pf));
                assert(tf(despawns@[i as int])
                    == concat_map(self.hash().adjacent_seq((d.0, d.1)), pf));
                assert(concat_map_prefix(despawns@, tf, (i + 1) as nat)
                    =~= outer + concat_map(adj@, pf));
                assert forall|k2: int|
                    0 <= k2 < concat_map_prefix(despawns@, tf, (i + 1) as nat).len()
                    implies is_entity_despawn_event(equeue.servers()[base.len() + k2],
                        (#[trigger] concat_map_prefix(despawns@, tf, (i + 1) as nat)[k2]).0,
                        concat_map_prefix(despawns@, tf, (i + 1) as nat)[k2].1) by {
                    if k2 < outer.len() {
                        assert(concat_map_prefix(despawns@, tf, (i + 1) as nat)[k2]
                            == outer[k2]);
                    } else {
                        assert(concat_map_prefix(despawns@, tf, (i + 1) as nat)[k2]
                            == concat_map(adj@, pf)[k2 - outer.len()]);
                    }
                }
            }
            i = i + 1;
        }
        proof {
            assert(concat_map_prefix(despawns@, tf, n as nat) == concat_map(despawns@, tf));
        }
    }

    /// Tick step three: applies every script response submitted last tick,
    /// in submission order.
    pub fn flush_deferred_responses(&mut self, equeue: &mut EQueue)
        requires
            old(self).wf(),
        ensures
            final(self).wf(),
            final(self).responses() == Seq::<(i32, ScriptResponse)>::empty(),
            final(self).despawns() == old(self).despawns(),
            final(self).triggers() == old(self).triggers(),
            final(self).collisions() == old(self).collisions(),
            final(self).spec_mapname() == old(self).spec_mapname(),
            final(self).spec_playercount() == old(self).spec_playercount(),
            old(self).hash().same_config(final(self).hash()),
            old(self).ents().hash().same_config(final(self).ents().hash()),
            old(equeue).servers().is_prefix_of(final(equeue).servers()),
            old(equeue).games().is_prefix_of(final(equeue).games()),
            responses_flushed(*old(self), *final(self), *old(equeue), *final(equeue)),
    {
        let mut responses: Vec<(i32, ScriptResponse)> = Vec::new();
        core::mem::swap(&mut self.deferred_responses, &mut responses);
        let ghost orig = old(self).responses();
        let ghost start = *self;
        let ghost mut done: int = 0;
        let ghost mut trace: Seq<(Instance, EQueue)> = seq![(start, *old(equeue))];
        proof {
            assert(self.players() == old(self).players());
            assert(self.hash() == old(self).hash());
            assert(self.wf());
            assert(old(equeue).servers().is_prefix_of(equeue.servers())) by {
                assert(old(equeue).servers()
                    =~= equeue.servers().subrange(0, old(equeue).servers().len() as int));
            }
            assert(old(equeue).games().is_prefix_of(equeue.games())) by {
                assert(old(equeue).games()
                    =~= equeue.games().subrange(0, old(equeue).games().len() as int));
            }
            assert(trace[0] == (start, *old(equeue)));
        }
        while responses.len() > 0
            invariant
                self.wf(),
                self.responses() == Seq::<(i32, ScriptResponse)>::empty(),
                self.despawns() == old(self).despawns(),
                self.triggers() == old(self).triggers(),
                self.collisions() == old(self).collisions(),
                self.spec_mapname() == old(self).spec_mapname(),
                self.spec_playercount() == old(self).spec_playercount(),
                old(self).hash().same_config(self.hash()),
                old(self).ents().hash().same_config(self.ents().hash()),
                old(equeue).servers().is_prefix_of(equeue.servers()),
                old(equeue).games().is_prefix_of(equeue.games()),
                orig == old(self).responses(),
                0 <= done <= orig.len(),
                responses@ == orig.skip(done),
                trace.len() == done + 1,
                trace[0] == (start, *old(equeue)),
                trace[done] == (*self, *equeue),
                forall|k: int| 0 <= k < done ==> applied_response((#[trigger] orig[k]).0,
                    orig[k].1, trace[k].0, trace[k + 1].0, trace[k].1, trace[k + 1].1),
            decreases responses.len(),
        {
            let (entity_id, response) = responses.remove(0);
            let ghost gresp = response;
            let ghost mid = *self;
            let ghost qmid = *equeue;
            proof {
                assert((entity_id, gresp) == orig[done]);
                assert(responses@ =~= orig.skip(done + 1));
            }
            self.handle_entity_response(entity_id, response, equeue);
            proof {
                crate::spatial::SpatialHash::lemma_same_config_trans(
                    old(self).hash(), mid.hash(), self.hash());
                crate::spatial::SpatialHash::lemma_same_config_trans(
                    old(self).ents().hash(), mid.ents().hash(), self.ents().hash());
                crate::lemma_prefix_trans(old(equeue).servers(), qmid.servers(),
                    equeue.servers());
                crate::lemma_prefix_trans(old(equeue).games(), qmid.games(), equeue.games());
                assert(applied_response(orig[done].0, orig[done].1, mid, *self, qmid, *equeue));
                trace = trace.push((*self, *equeue));
                done = done + 1;
                assert forall|k: int| 0 <= k < done implies applied_response(
                    (#[trigger] orig[k]).0, orig[k].1, trace[k].0, trace[k + 1].0,
                    trace[k].1, trace[k + 1].1) by {
                    if k < done - 1 {
                        assert(applied_response(orig[k].0, orig[k].1,
                            trace.drop_last()[k].0, trace.drop_last()[k + 1].0,
                            trace.drop_last()[k].1, trace.drop_last()[k + 1].1));
                    }
                }
            }
        }
        proof {
            assert(orig.skip(done).len() == 0);
            assert(valid_response_trace(orig, trace, start, *self, *old(equeue), *equeue));
            assert(responses_applied(orig, start, *self, *old(equeue), *equeue));
            assert(responses_flushed(*old(self), *self, *old(equeue), *equeue));
        }
    }

    /// Tick step four: for every resident player, broadcasts a completed
    /// move to the neighborhood, announces a public data change to the
    /// neighborhood, sends a private data change to the player alone, and
    /// lowers both change flags. The emitted events are exactly one pass of
    /// `update_events_fn` over the players, where each record copy sent
    /// privately carries the same abstract values as the live record.
    pub fn broadcast_player_updates(&mut self, equeue: &mut EQueue)
        requires
            old(self).wf(),
        ensures
            final(self).wf(),
            final(self).players().len() == old(self).players().len(),
            forall|k: int| 0 <= k < old(self).players().len()
                ==> #[trigger] final(self).players()[k]
                    == (old(self).players()[k].0, flags_cleared(old(self).players()[k].1)),
            final(self).hash() == old(self).hash(),
            final(self).collisions() == old(self).collisions(),
            final(self).ents() == old(self).ents(),
            final(self).despawns() == old(self).despawns(),
            final(self).entity_despawns() == old(self).entity_despawns(),
            final(self).responses() == old(self).responses(),
            final(self).triggers() == old(self).triggers(),
            final(self).spec_playercount() == old(self).spec_playercount(),
            final(self).spec_mapname() == old(self).spec_mapname(),
            final(equeue).games() == old(equeue).games(),
            exists|recs: Seq<PlayerData>|
                #![trigger with_records(old(self).players(), recs)]
                recs.len() == old(self).players().len()
                    && (forall|k: int| 0 <= k < recs.len() ==> crate::playerdata::like(
                        #[trigger] recs[k], old(self).players()[k].1.data))
                    && final(equeue).servers() == old(equeue).servers() + concat_map(
                        with_records(old(self).players(), recs),
                        update_events_fn(old(self).hash())),
            old(equeue).servers().is_prefix_of(final(equeue).servers()),
    {
        let ghost f = update_events_fn(self.hash());
        let ghost mut recs = Seq::<PlayerData>::empty();
        proof {
            assert(equeue.servers() =~= old(equeue).servers()
                + concat_map_prefix(with_records(old(self).players(), recs), f, 0nat));
        }
        let n = self.players.len();
        let mut k: usize = 0;
        while k < n
            invariant
                n == self.players@.len(),
                n == old(self).players().len(),
                k <= n,
                self.wf(),
                forall|i: int| 0 <= i < k ==> #[trigger] self.players@[i]
                    == (old(self).players()[i].0, flags_cleared(old(self).players()[i].1)),
                forall|i: int| k <= i < n ==> #[trigger] self.players@[i]
                    == old(self).players()[i],
                self.hash() == old(self).hash(),
                self.collisions() == old(self).collisions(),
                self.ents() == old(self).ents(),
                self.despawns() == old(self).despawns(),
                self.entity_despawns() == old(self).entity_despawns(),
                self.responses() == old(self).responses(),
                self.triggers() == old(self).triggers(),
                self.spec_playercount() == old(self).spec_playercount(),
                self.spec_mapname() == old(self).spec_mapname(),
                equeue.games() == old(equeue).games(),
                f == update_events_fn(old(self).hash()),
                recs.len() == k,
                forall|i: int| 0 <= i < k ==> crate::playerdata::like(
                    #[trigger] recs[i], old(self).players()[i].1.data),
                equeue.servers() == old(equeue).servers()
                    + concat_map_prefix(with_records(old(self).players(), recs), f, k as nat),
            decreases n - k,
        {
            let ghost pcur = old(self).players()[k as int].1;
            let ghost base = equeue.servers();
            let net_id = self.players[k].0;

            if self.players[k].1.ticks_since_move == 0 {
                let (x, y, speed) = self.players[k].1.get_full_pos();
                let pid = self.players[k].1.pid();
                let version = self.players[k].1.data_version();
                let ghost g = self_move_fn(pcur);
                let adj = self.spatial_hash.for_each_adjacent((x, y));
                proof {
                    assert(equeue.servers() =~= base + concat_map_prefix(adj@, g, 0nat));
                }
                let m = adj.len();
                let mut j: usize = 0;
                while j < m
                    invariant
                        m == adj@.len(),
                        j <= m,
                        g == self_move_fn(pcur),
                        x == pcur.data.x,
                        y == pcur.data.y,
                        speed == pcur.speed,
                        pid == pcur.data.pid,
                        version == pcur.data_version,
                        equeue.games() == old(equeue).games(),
                        equeue.servers() == base + concat_map_prefix(adj@, g, j as nat),
                    decreases m - j,
                {
                    let ev = ServerEvent::PlayerMoveResponse {
                        x, y, speed, pid, data_version: version, net_id: adj[j].0,
                    };
                    proof {
                        assert(g(adj@[j as int]) =~= seq![ev]);
                    }
                    equeue.push_server(ev);
                    proof {
                        assert(equeue.servers() =~= base
                            + concat_map_prefix(adj@, g, (j + 1) as nat));
                    }
                    j = j + 1;
                }
                proof {
                    assert(concat_map_prefix(adj@, g, m as nat) == concat_map(adj@, g));
                }
            }
            let ghost after_move = equeue.servers();

            if self.players[k].1.data_just_updated {
                let (x, y) = self.players[k].1.get_pos();
                let pid = self.players[k].1.pid();
                let version = self.players[k].1.data_version();
                let ghost g = data_update_fn(pcur);
                let adj = self.spatial_hash.for_each_adjacent((x, y));
                proof {
                    assert(equeue.servers() =~= after_move + concat_map_prefix(adj@, g, 0nat));
                }
                let m = adj.len();
                let mut j: usize = 0;
                while j < m
                    invariant
                        m == adj@.len(),
                        j <= m,
                        g == data_update_fn(pcur),
                        pid == pcur.data.pid,
                        version == pcur.data_version,
                        equeue.games() == old(equeue).games(),
                        equeue.servers() == after_move + concat_map_prefix(adj@, g, j as nat),
                    decreases m - j,
                {
                    let ev = ServerEvent::GenericResponse {
                        response: GenericServerResponse::DataUpdate {
                            pid, data_version: version,
                        },
                        net_id: adj[j].0,
                    };
                    proof {
                        assert(g(adj@[j as int]) =~= seq![ev]);
                    }
                    equeue.push_server(ev);
                    proof {
                        assert(equeue.servers() =~= after_move
                            + concat_map_prefix(adj@, g, (j + 1) as nat));
                    }
                    j = j + 1;
                }
                proof {
                    assert(concat_map_prefix(adj@, g, m as nat) == concat_map(adj@, g));
                }
            }
            let ghost after_update = equeue.servers();

            let ghost mut rec = pcur.data;
            if self.players[k].1.private_data_just_updated {
                let data = self.players[k].1.data.clone();
                proof {
                    rec = data;
                }
                let ev = ServerEvent::PlayerDataResponse { data, net_id };
                equeue.push_server(ev);
            }

            proof {
                let ghost old_recs = recs;
                recs = recs.push(rec);
                lemma_concat_map_prefix_agree(
                    with_records(old(self).players(), old_recs),
                    with_records(old(self).players(), recs),
                    f,
                    k as nat,
                );
                assert(with_records(old(self).players(), recs)[k as int]
                    == ((old(self).players()[k as int].0, pcur), rec));
                assert(f(((net_id, pcur), rec)) == (if pcur.ticks_since_move == 0 {
                    concat_map(old(self).hash().adjacent_seq((pcur.data.x, pcur.data.y)),
                        self_move_fn(pcur))
                } else {
                    Seq::empty()
                }) + (if pcur.data_just_updated {
                    concat_map(old(self).hash().adjacent_seq((pcur.data.x, pcur.data.y)),
                        data_update_fn(pcur))
                } else {
                    Seq::empty()
                }) + (if pcur.private_data_just_updated {
                    seq![ServerEvent::PlayerDataResponse { data: rec, net_id: net_id }]
                } else {
                    Seq::empty()
                }));
                assert(equeue.servers() =~= old(equeue).servers()
                    + concat_map_prefix(with_records(old(self).players(), recs),
                        f, (k + 1) as nat));
            }

            let ghost pre = self.players();
            let (id, mut p) = self.players.remove(k);
            p.data_just_updated = false;
            p.private_data_just_updated = false;
            self.players.insert(k, (id, p));
            proof {
                assert(self.players@ =~= pre.update(k as int, (id, p)));
                assert(pre[k as int] == old(self).players()[k as int]);
                assert((id, p) == (old(self).players()[k as int].0,
                    flags_cleared(old(self).players()[k as int].1)));
                assert forall|i: int| 0 <= i < n implies
                    (#[trigger] self.players@[i]).1.wf() by {
                    if i != k {
                        assert(self.players@[i] == pre[i]);
                        assert(pre[i].1.wf());
                    } else {
                        assert(pre[k as int].1.wf());
                    }
                }
                assert(self.wf());
            }
            k = k + 1;
        }
        proof {
            assert(concat_map_prefix(with_records(old(self).players(), recs), f, n as nat)
                == concat_map(with_records(old(self).players(), recs), f));
            assert(old(equeue).servers().is_prefix_of(equeue.servers())) by {
                assert(old(equeue).servers()
                    =~= equeue.servers().subrange(0, old(equeue).servers().len() as int));
            }
        }
    }

    /// Tick step five, movement resolution: each resident player ages a
    /// tick; a pending move whose delay has elapsed is committed when it is
    /// one step onto a free cell (rejected otherwise) and dequeued either
    /// way. A committed move relocates the player in the index, tells the
    /// mover about every player and entity that just entered their
    /// neighborhood, and triggers the walkable entity of the destination,
    /// if one is there.
    #[verifier::rlimit(100)]
    pub fn resolve_movement(&mut self, equeue: &mut EQueue)
        requires
            old(self).wf(),
        ensures
            final(self).wf(),
            final(self).players().len() == old(self).players().len(),
            forall|k: int| 0 <= k < old(self).players().len()
                ==> #[trigger] final(self).players()[k] == (old(self).players()[k].0,
                    step_player(old(self).players()[k].1, old(self).collisions())),
            final(self).triggers() == old(self).triggers() + concat_map(old(self).players(),
                walk_trigger_fn(old(self).collisions(), old(self).ents().walkables())),
            old(self).hash().same_config(final(self).hash()),
            final(self).ents() == old(self).ents(),
            final(self).collisions() == old(self).collisions(),
            final(self).despawns() == old(self).despawns(),
            final(self).entity_despawns() == old(self).entity_despawns(),
            final(self).responses() == old(self).responses(),
            final(self).spec_playercount() == old(self).spec_playercount(),
            final(self).spec_mapname() == old(self).spec_mapname(),
            final(equeue).games() == old(equeue).games(),
            old(equeue).servers().is_prefix_of(final(equeue).servers()),
            exists|hq: Seq<(SpatialHash<i32>, EQueue)>| #[trigger] move_trace(
                old(self).players(), old(self).collisions(), old(self).ents(), hq,
                old(self).hash(), final(self).hash(), *old(equeue), *final(equeue)),
    {
        let ghost mut hq: Seq<(SpatialHash<i32>, EQueue)> = seq![(self.hash(), *equeue)];
        let ghost wfn = walk_trigger_fn(self.collisions(), self.ents().walkables());
        proof {
            assert(old(equeue).servers().is_prefix_of(equeue.servers())) by {
                assert(old(equeue).servers()
                    =~= equeue.servers().subrange(0, old(equeue).servers().len() as int));
            }
            assert(self.triggers() =~= old(self).triggers()
                + concat_map_prefix(old(self).players(), wfn, 0nat));
        }
        let n = self.players.len();
        let mut k: usize = 0;
        while k < n
            invariant
                n == self.players@.len(),
                n == old(self).players().len(),
                k <= n,
                self.wf(),
                wfn == walk_trigger_fn(old(self).collisions(), old(self).ents().walkables()),
                forall|i: int| 0 <= i < k ==> #[trigger] self.players@[i]
                    == (old(self).players()[i].0,
                        step_player(old(self).players()[i].1, old(self).collisions())),
                forall|i: int| k <= i < n ==> #[trigger] self.players@[i]
                    == old(self).players()[i],
                self.triggers() == old(self).triggers()
                    + concat_map_prefix(old(self).players(), wfn, k as nat),
                old(self).hash().same_config(self.hash()),
                self.ents() == old(self).ents(),
                self.collisions() == old(self).collisions(),
                self.despawns() == old(self).despawns(),
                self.entity_despawns() == old(self).entity_despawns(),
                self.responses() == old(self).responses(),
                self.spec_playercount() == old(self).spec_playercount(),
                self.spec_mapname() == old(self).spec_mapname(),
                equeue.games() == old(equeue).games(),
                old(equeue).servers().is_prefix_of(equeue.servers()),
                hq.len() == k + 1,
                hq[0] == (old(self).hash(), *old(equeue)),
                hq[k as int] == (self.hash(), *equeue),
                forall|j: int| 0 <= j < k ==> move_step(old(self).players(),
                    old(self).collisions(), old(self).ents(), j,
                    (#[trigger] hq[j]).0, hq[j + 1].0, hq[j].1, hq[j + 1].1),
            decreases n - k,
        {
            let ghost pre = self.players();
            let ghost trig_pre = self.triggers();
            let ghost ha = self.hash();
            let ghost qa = *equeue;
            proof {
                assert(hq[k as int] == (ha, qa));
            }
            let (net_id, mut p) = self.players.remove(k);
            let ghost p0 = p;
            p.ticks_since_move = add_clamped(p.ticks_since_move, 1);
            p.data_just_updated = false;
            let next = *p.peek_next_move();
            let ghost committed = committed_move(p0, old(self).collisions());
            if let Some(m) = next {
                let (nextx, nexty, nextspeed) = (m.0, m.1, m.2);
                if p.ticks_since_move >= nextspeed {
                    let (x, y, _last_speed) = p.get_full_pos();
                    let d = crate::spatial::distance((x, y), (nextx, nexty));
                    let blocked = self.col_array.get_at(nextx, nexty);
                    if d == 1 && !blocked {
                        proof {
                            assert(committed == Some((nextx, nexty, nextspeed)));
                        }
                        p.set_full_pos(nextx, nexty, nextspeed);
                        let ghost hpre = self.hash();
                        let delta = self.spatial_hash.update_pos(net_id, (x, y), (nextx, nexty));
                        proof {
                            crate::spatial::SpatialHash::lemma_same_config_trans(
                                old(self).hash(), hpre, self.hash());
                        }
                        let updates = delta.for_each_with(&self.spatial_hash);
                        let ghost sv1 = equeue.servers();
                        self.push_move_updates(&updates, net_id, equeue);
                        proof {
                            assert(sv1.is_prefix_of(equeue.servers())) by {
                                assert(sv1 =~= equeue.servers().subrange(0, sv1.len() as int));
                            }
                            crate::lemma_prefix_trans(old(equeue).servers(), sv1,
                                equeue.servers());
                        }
                        let eupdates = delta.for_each_with(self.entities.get_hash());
                        let ghost sv2 = equeue.servers();
                        self.push_entity_updates(&eupdates, net_id, equeue);
                        proof {
                            assert(sv2.is_prefix_of(equeue.servers())) by {
                                assert(sv2 =~= equeue.servers().subrange(0, sv2.len() as int));
                            }
                            crate::lemma_prefix_trans(old(equeue).servers(), sv2,
                                equeue.servers());
                        }
                        proof {
                            let ps = old(self).players();
                            let col = old(self).collisions();
                            let es = old(self).ents();
                            assert(pre[k as int] == ps[k as int]);
                            assert((net_id, p0) == ps[k as int]);
                            let co = ha.cell_of((p0.data.x, p0.data.y));
                            let cn = ha.cell_of((nextx, nexty));
                            if co == cn || !ha.cell_valid(co) || !ha.cell_valid(cn)
                                || find_id(ha.bucket(co), net_id) is None {
                                assert(self.hash() == ha);
                                assert(updates@ =~= Seq::<(i32, i32)>::empty());
                                assert(eupdates@ =~= Seq::<(i32, i32)>::empty());
                                assert(concat_map(updates@,
                                    move_update_fn(resolve_view(ps, col, k as int), net_id))
                                    =~= Seq::<ServerEvent>::empty());
                                assert(concat_map(eupdates@,
                                    entity_update_fn(es.list(), net_id))
                                    =~= Seq::<ServerEvent>::empty());
                                assert(equeue.servers() =~= qa.servers());
                            } else {
                                let dspec = (MoveDelta::Delta {
                                    from: (co.0 as i32, co.1 as i32),
                                    to: (cn.0 as i32, cn.1 as i32),
                                    check_radius: ha.spec_check_radius(),
                                    exclude_id: net_id,
                                });
                                assert(delta == dspec);
                                let rv = resolve_view(ps, col, k as int);
                                assert(self.players@.len() == rv.len());
                                assert forall|i: int| 0 <= i < self.players@.len() implies
                                    self.players@[i] == rv[i] by {
                                    if i < k {
                                        assert(self.players@[i] == pre[i]);
                                    } else {
                                        assert(self.players@[i] == pre[i + 1]);
                                        assert(pre[i + 1] == ps[i + 1]);
                                    }
                                }
                                assert(self.players@ =~= rv);
                                assert(updates@ == self.hash().delta_seq(dspec));
                                assert(eupdates@ == es.hash().delta_seq(dspec));
                                assert(equeue.servers() =~= qa.servers()
                                    + concat_map(self.hash().delta_seq(dspec),
                                        move_update_fn(resolve_view(ps, col, k as int), net_id))
                                    + concat_map(es.hash().delta_seq(dspec),
                                        entity_update_fn(es.list(), net_id)));
                            }
                            assert(move_step(ps, col, es, k as int, ha, self.hash(),
                                qa, *equeue));
                        }
                        if let Some(wid) = self.entities.get_walkable_at(nextx, nexty) {
                            self.pending_triggers.push(ScriptTrigger {
                                entity_id: wid,
                                net_id,
                                kind: TriggerKind::Walk,
                            });
                        }
                    } else {
                        proof {
                            assert(committed is None);
                        }
                    }
                    p.eat_next_move();
                }
            }
            self.players.insert(k, (net_id, p));
            proof {
                assert(self.players@[k as int].1 == step_player(p0, old(self).collisions()));
                assert(self.players@ =~= pre.update(
                    k as int, (net_id, step_player(p0, old(self).collisions()))));
                assert(pre[k as int] == old(self).players()[k as int]);
                assert forall|i: int| 0 <= i < n implies
                    (#[trigger] self.players@[i]).1.wf() by {
                    if i != k {
                        assert(self.players@[i] == pre[i]);
                        assert(pre[i].1.wf());
                    } else {
                        assert(pre[k as int].1.wf());
                    }
                }
                assert(self.wf());
                assert(wfn(old(self).players()[k as int]) == (match committed {
                    Some(m) => match find_first(old(self).ents().walkables(),
                        crate::entity::by_walk_pos((m.0, m.1))) {
                        Some(j) => seq![ScriptTrigger {
                            entity_id: old(self).ents().walkables()[j].1,
                            net_id: net_id,
                            kind: TriggerKind::Walk,
                        }],
                        None => Seq::<ScriptTrigger>::empty(),
                    },
                    None => Seq::<ScriptTrigger>::empty(),
                }));
                assert(concat_map_prefix(old(self).players(), wfn, (k + 1) as nat)
                    == concat_map_prefix(old(self).players(), wfn, k as nat)
                        + wfn(old(self).players()[k as int]));
                assert(self.triggers() =~= old(self).triggers()
                    + concat_map_prefix(old(self).players(), wfn, (k + 1) as nat));
                assert(move_step(old(self).players(), old(self).collisions(),
                    old(self).ents(), k as int, ha, self.hash(), qa, *equeue));
                hq = hq.push((self.hash(), *equeue));
            }
            k = k + 1;
        }
        proof {
            assert(concat_map_prefix(old(self).players(), wfn, n as nat)
                == concat_map(old(self).players(), wfn));
            reveal(crate::instance::move_trace);
            assert(move_trace(old(self).players(), old(self).collisions(),
                old(self).ents(), hq, old(self).hash(), self.hash(),
                *old(equeue), *equeue));
        }
    }

    /// Tick step six: every entity that just moved or changed broadcasts its
    /// position to the players around it; every entity then ages a tick.
    pub fn broadcast_entity_updates(&mut self, equeue: &mut EQueue)
        requires
            old(self).wf(),
        ensures
            final(self).wf(),
            final(self).ents().list().len() == old(self).ents().list().len(),
            forall|k: int| 0 <= k < old(self).ents().list().len()
                ==> #[trigger] final(self).ents().list()[k]
                    == aged_entity(old(self).ents().list()[k]),
            final(self).ents().walkables() == old(self).ents().walkables(),
            final(self).ents().hash() == old(self).ents().hash(),
            final(self).players() == old(self).players(),
            final(self).hash() == old(self).hash(),
            final(self).collisions() == old(self).collisions(),
            final(self).despawns() == old(self).despawns(),
            final(self).entity_despawns() == old(self).entity_despawns(),
            final(self).responses() == old(self).responses(),
            final(self).triggers() == old(self).triggers(),
            final(self).spec_playercount() == old(self).spec_playercount(),
            final(self).spec_mapname() == old(self).spec_mapname(),
            final(equeue).games() == old(equeue).games(),
            final(equeue).servers() == old(equeue).servers()
                + concat_map(old(self).ents().list(), entity_broadcast_fn(old(self).hash())),
    {
        let ghost f = entity_broadcast_fn(self.hash());
        let ghost base = old(equeue).servers();
        proof {
            assert(equeue.servers() =~= base
                + concat_map_prefix(old(self).ents().list(), f, 0nat));
        }
        let n = self.entities.entity_count();
        let mut k: usize = 0;
        while k < n
            invariant
                n == self.ents().list().len(),
                n == old(self).ents().list().len(),
                k <= n,
                self.wf(),
                f == entity_broadcast_fn(old(self).hash()),
                base == old(equeue).servers(),
                forall|i: int| 0 <= i < k ==> #[trigger] self.ents().list()[i]
                    == aged_entity(old(self).ents().list()[i]),
                forall|i: int| k <= i < n ==> #[trigger] self.ents().list()[i]
                    == old(self).ents().list()[i],
                self.ents().walkables() == old(self).ents().walkables(),
                self.ents().hash() == old(self).ents().hash(),
                self.players() == old(self).players(),
                self.hash() == old(self).hash(),
                self.collisions() == old(self).collisions(),
                self.despawns() == old(self).despawns(),
                self.entity_despawns() == old(self).entity_despawns(),
                self.responses() == old(self).responses(),
                self.triggers() == old(self).triggers(),
                self.spec_playercount() == old(self).spec_playercount(),
                self.spec_mapname() == old(self).spec_mapname(),
                equeue.games() == old(equeue).games(),
                equeue.servers() == base
                    + concat_map_prefix(old(self).ents().list(), f, k as nat),
            decreases n - k,
        {
            let flagged = {
                let e = self.entities.entity_at(k);
                e.ticks_since_last_move == 0 || e.data_just_updated
            };
            if flagged {
                let (pos, last_speed, entity_id, version) = {
                    let e = self.entities.entity_at(k);
                    (e.pos, e.last_speed, e.entity_id, e.public_data_version)
                };
                let ghost g = entity_move_fn(old(self).ents().list()[k as int]);
                let ghost inner_base = equeue.servers();
                let adj = self.spatial_hash.for_each_adjacent(pos);
                proof {
                    assert(equeue.servers() =~= inner_base + concat_map_prefix(adj@, g, 0nat));
                }
                let m = adj.len();
                let mut j: usize = 0;
                while j < m
                    invariant
                        m == adj@.len(),
                        j <= m,
                        g == entity_move_fn(old(self).ents().list()[k as int]),
                        pos == old(self).ents().list()[k as int].pos,
                        last_speed == old(self).ents().list()[k as int].last_speed,
                        entity_id == old(self).ents().list()[k as int].entity_id,
                        version == old(self).ents().list()[k as int].public_data_version,
                        equeue.games() == old(equeue).games(),
                        equeue.servers() == inner_base + concat_map_prefix(adj@, g, j as nat),
                    decreases m - j,
                {
                    let ev = ServerEvent::EntityMoveResponse {
                        x: pos.0,
                        y: pos.1,
                        speed: last_speed,
                        entity_id,
                        data_version: version,
                        net_id: adj[j].0,
                    };
                    proof {
                        assert(g(adj@[j as int]) =~= seq![ev]);
                    }
                    equeue.push_server(ev);
                    proof {
                        assert(equeue.servers() =~= inner_base
                            + concat_map_prefix(adj@, g, (j + 1) as nat));
                    }
                    j = j + 1;
                }
                proof {
                    assert(concat_map_prefix(adj@, g, m as nat) == concat_map(adj@, g));
                    assert(f(old(self).ents().list()[k as int])
                        == concat_map(old(self).hash().adjacent_seq(pos), g));
                    assert(equeue.servers() =~= base
                        + concat_map_prefix(old(self).ents().list(), f, (k + 1) as nat));
                }
            } else {
                proof {
                    assert(f(old(self).ents().list()[k as int]) =~= Seq::<ServerEvent>::empty());
                    assert(equeue.servers() =~= base
                        + concat_map_prefix(old(self).ents().list(), f, (k + 1) as nat));
                }
            }
            self.entities.age_entity_at(k);
            k = k + 1;
        }
        proof {
            assert(concat_map_prefix(old(self).ents().list(), f, n as nat)
                == concat_map(old(self).ents().list(), f));
        }
    }

    /// One simulation tick, in the required order: flush the despawn notices
    /// and script responses deferred from last tick, broadcast per-player
    /// updates, resolve movement, and broadcast per-entity updates.
    pub fn tick(&mut self, equeue: &mut EQueue)
        requires
            old(self).wf(),
        ensures
            final(self).wf(),
            final(self).despawns() == Seq::<(i32, i32, i32)>::empty(),
            final(self).responses() == Seq::<(i32, ScriptResponse)>::empty(),
            final(self).collisions() == old(self).collisions(),
            final(self).spec_mapname() == old(self).spec_mapname(),
            old(self).hash().same_config(final(self).hash()),
            old(equeue).servers().is_prefix_of(final(equeue).servers()),
            old(equeue).games().is_prefix_of(final(equeue).games()),
            exists|trace: Seq<(Instance, EQueue)>| #[trigger] tick_steps(
                trace, *old(self), *final(self), *old(equeue), *final(equeue)),
    {
        let ghost s0 = equeue.servers();
        let ghost g0 = equeue.games();
        self.flush_deferred_despawns(equeue);
        let ghost i1 = *self;
        let ghost e1 = *equeue;
        let ghost h1 = self.hash();
        let ghost s1 = equeue.servers();
        proof {
            assert(s0.is_prefix_of(s1)) by {
                assert(s0 =~= s1.subrange(0, s0.len() as int));
            }
        }
        self.flush_deferred_entity_despawns(equeue);
        let ghost i2 = *self;
        let ghost e2 = *equeue;
        let ghost s2 = equeue.servers();
        let ghost h2 = self.hash();
        proof {
            crate::lemma_prefix_trans(s0, s1, s2);
        }
        self.flush_deferred_responses(equeue);
        let ghost i3 = *self;
        let ghost e3 = *equeue;
        let ghost s3 = equeue.servers();
        let ghost g3 = equeue.games();
        let ghost h3 = self.hash();
        proof {
            crate::lemma_prefix_trans(s0, s2, s3);
            crate::spatial::SpatialHash::lemma_same_config_trans(h1, h2, h3);
            assert(g0.is_prefix_of(g3)) by {
                assert(g0 =~= g3.subrange(0, g0.len() as int));
            }
        }
        self.broadcast_player_updates(equeue);
        let ghost i4 = *self;
        let ghost e4 = *equeue;
        let ghost s4 = equeue.servers();
        let ghost h4 = self.hash();
        proof {
            crate::lemma_prefix_trans(s0, s3, s4);
        }
        self.resolve_movement(equeue);
        let ghost i5 = *self;
        let ghost e5 = *equeue;
        let ghost s5 = equeue.servers();
        let ghost h5 = self.hash();
        proof {
            crate::lemma_prefix_trans(s0, s4, s5);
            crate::spatial::SpatialHash::lemma_same_config_trans(h3, h4, h5);
            crate::spatial::SpatialHash::lemma_same_config_trans(
                old(self).hash(), h3, h5);
        }
        self.broadcast_entity_updates(equeue);
        proof {
            let trace = seq![
                (*old(self), *old(equeue)),
                (i1, e1),
                (i2, e2),
                (i3, e3),
                (i4, e4),
                (i5, e5),
                (*self, *equeue),
            ];
            assert(tick_steps(trace, *old(self), *self, *old(equeue), *equeue));
        }
        proof {
            assert(s5.is_prefix_of(equeue.servers())) by {
                assert(s5 =~= equeue.servers().subrange(0, s5.len() as int));
            }
            crate::lemma_prefix_trans(s0, s5, equeue.servers());
            crate::spatial::SpatialHash::lemma_same_config_trans(
                old(self).hash(), h5, self.hash());
        }
    }
}

} // verus!
