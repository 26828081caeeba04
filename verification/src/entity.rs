//! Scripted world entities: their simulation-visible state, the typed
//! effects their scripts may request, and the per-instance entity registry
//! with its own spatial index.
//!
//! The scripts themselves run in the host engine; the simulation only
//! detects walk and interaction triggers, hands them out, and applies the
//! effects that come back.

use vstd::prelude::*;
use crate::item::Item;
use crate::spatial::{MoveDelta, SpatialHash, find_id};
use crate::{add_clamped, clamped, find_first, lemma_find_first_spec};

verus! {

broadcast use crate::spatial::SpatialHash::lemma_same_config_refl;

/// The simulation-visible state of one scripted world entity.
pub struct Entity {
    /// Position of the entity in the world.
    pub pos: (i32, i32),
    /// Whether the entity can be interacted with.
    pub interactable: bool,
    /// Maximum Chebyshev distance an interaction may come from.
    pub interactable_distance: i32,
    /// Whether walking onto the entity triggers its script.
    pub walkable: bool,
    /// Client scene shown for the entity; empty keeps it invisible.
    pub related_scene: String,
    /// Custom data synchronised to clients, as key/value pairs.
    pub public_data: Vec<(String, String)>,
    /// Bumped whenever `public_data` changes.
    pub public_data_version: i32,
    pub data_just_updated: bool,
    pub last_speed: i32,
    pub ticks_since_last_move: i32,
    pub entity_id: i32,
}

impl Entity {
    /// A fresh entity, not yet registered (id -1).
    pub fn new(pos: (i32, i32), interactable: bool, interactable_distance: i32, walkable: bool,
        related_scene: String) -> (r: Entity)
        ensures
            r.pos == pos,
            r.interactable == interactable,
            r.interactable_distance == interactable_distance,
            r.walkable == walkable,
            r.related_scene == related_scene,
            r.public_data@ == Seq::<(String, String)>::empty(),
            r.public_data_version == 0,
            !r.data_just_updated,
            r.last_speed == 0,
            r.ticks_since_last_move == 0,
            r.entity_id == -1,
    {
        Entity {
            pos,
            interactable,
            interactable_distance,
            walkable,
            related_scene,
            public_data: Vec::new(),
            public_data_version: 0,
            data_just_updated: false,
            last_speed: 0,
            ticks_since_last_move: 0,
            entity_id: -1,
        }
    }

    /// Bumps the data version (clamped) and raises the update flag, so the
    /// next tick broadcasts the change.
    pub fn increment_data_version(&mut self)
        ensures
            final(self).public_data_version as int == clamped(old(self).public_data_version + 1),
            *final(self) == (Entity {
                public_data_version: final(self).public_data_version,
                data_just_updated: true,
                ..*old(self)
            }),
    {
        self.public_data_version = add_clamped(self.public_data_version, 1);
        self.data_just_updated = true;
    }

    /// Sets one key of the public data (appending the pair) and marks the
    /// entity changed.
    pub fn set_public_value(&mut self, key: String, value: String)
        ensures
            final(self).public_data@ == old(self).public_data@.push((key, value)),
            final(self).public_data_version as int == clamped(old(self).public_data_version + 1),
            *final(self) == (Entity {
                public_data: final(self).public_data,
                public_data_version: final(self).public_data_version,
                data_just_updated: true,
                ..*old(self)
            }),
    {
        self.public_data_version = add_clamped(self.public_data_version, 1);
        self.data_just_updated = true;
        self.public_data.push((key, value));
    }

    pub fn ticks_since_last_move(&self) -> (r: i32)
        ensures
            r == self.ticks_since_last_move,
    {
        self.ticks_since_last_move
    }

    /// What a data request reports: capability flags, the client scene name,
    /// and a copy of the public data.
    pub fn get_data(&self) -> (r: (bool, bool, String, Vec<(String, String)>))
        ensures
            r.0 == self.interactable,
            r.1 == self.walkable,
            r.2 == self.related_scene,
            r.3@ == self.public_data@,
    {
        let mut data: Vec<(String, String)> = Vec::new();
        let mut i: usize = 0;
        while i < self.public_data.len()
            invariant
                i <= self.public_data.len(),
                data@ == self.public_data@.take(i as int),
            decreases self.public_data.len() - i,
        {
            let pair = &self.public_data[i];
            data.push((pair.0.clone(), pair.1.clone()));
            proof {
                assert(self.public_data@.take(i + 1)
                    =~= self.public_data@.take(i as int).push(self.public_data@[i as int]));
            }
            i = i + 1;
        }
        proof {
            assert(self.public_data@.take(self.public_data@.len() as int) =~= self.public_data@);
        }
        (self.interactable, self.walkable, self.related_scene.clone(), data)
    }
}

/// One entity after the per-tick broadcast step: aged by a tick, its update
/// flag lowered.
pub open spec fn aged_entity(e: Entity) -> Entity {
    Entity {
        ticks_since_last_move: clamped(e.ticks_since_last_move + 1) as i32,
        data_just_updated: false,
        ..e
    }
}

/// One typed effect a script may request.
pub enum ResponseType {
    MovePlayerToMap { mapname: String, x: i32, y: i32, net_id: i32 },
    MovePlayer { x: i32, y: i32, speed: i32, net_id: i32 },
    MoveSelf { x: i32, y: i32, speed: i32 },
    GiveItem { item: Item, net_id: i32 },
    TakeItem { id_string: String, amount: i32, net_id: i32 },
    ChangeGold { amount: i32, net_id: i32 },
    GiveXp { skill: String, amount: i32, net_id: i32 },
    DespawnSelf,
    RegisterEntity { entity: Entity },
    SystemChatMessage { text: String, net_id: i32 },
    Null,
}

/// A script's answer to a walk or interaction trigger.
pub struct ScriptResponse {
    pub response: ResponseType,
}

impl ScriptResponse {
    pub fn move_player_to_map(mapname: String, x: i32, y: i32, net_id: i32) -> (r: ScriptResponse)
        ensures
            r.response == (ResponseType::MovePlayerToMap { mapname, x, y, net_id }),
    {
        ScriptResponse { response: ResponseType::MovePlayerToMap { mapname, x, y, net_id } }
    }

    pub fn move_player(x: i32, y: i32, speed: i32, net_id: i32) -> (r: ScriptResponse)
        ensures
            r.response == (ResponseType::MovePlayer { x, y, speed, net_id }),
    {
        ScriptResponse { response: ResponseType::MovePlayer { x, y, speed, net_id } }
    }

    pub fn move_self(x: i32, y: i32, speed: i32) -> (r: ScriptResponse)
        ensures
            r.response == (ResponseType::MoveSelf { x, y, speed }),
    {
        ScriptResponse { response: ResponseType::MoveSelf { x, y, speed } }
    }

    pub fn give_item(item: Item, net_id: i32) -> (r: ScriptResponse)
        ensures
            r.response == (ResponseType::GiveItem { item, net_id }),
    {
        ScriptResponse { response: ResponseType::GiveItem { item, net_id } }
    }

    pub fn take_item(id_string: String, amount: i32, net_id: i32) -> (r: ScriptResponse)
        ensures
            r.response == (ResponseType::TakeItem { id_string, amount, net_id }),
    {
        ScriptResponse { response: ResponseType::TakeItem { id_string, amount, net_id } }
    }

    pub fn change_gold(amount: i32, net_id: i32) -> (r: ScriptResponse)
        ensures
            r.response == (ResponseType::ChangeGold { amount, net_id }),
    {
        ScriptResponse { response: ResponseType::ChangeGold { amount, net_id } }
    }

    pub fn give_xp(skill: String, amount: i32, net_id: i32) -> (r: ScriptResponse)
        ensures
            r.response == (ResponseType::GiveXp { skill, amount, net_id }),
    {
        ScriptResponse { response: ResponseType::GiveXp { skill, amount, net_id } }
    }

    pub fn despawn_self() -> (r: ScriptResponse)
        ensures
            r.response == (ResponseType::DespawnSelf {}),
    {
        ScriptResponse { response: ResponseType::DespawnSelf }
    }

    pub fn register_entity(entity: Entity) -> (r: ScriptResponse)
        ensures
            r.response == (ResponseType::RegisterEntity { entity }),
    {
        ScriptResponse { response: ResponseType::RegisterEntity { entity } }
    }

    pub fn chat_message(text: String, net_id: i32) -> (r: ScriptResponse)
        ensures
            r.response == (ResponseType::SystemChatMessage { text, net_id }),
    {
        ScriptResponse { response: ResponseType::SystemChatMessage { text, net_id } }
    }

    pub fn null_response() -> (r: ScriptResponse)
        ensures
            r.response == (ResponseType::Null {}),
    {
        ScriptResponse { response: ResponseType::Null }
    }
}

/// An entity carries this id in a walkable-position table.
pub type WalkableEntry = ((i32, i32), i32);

/// The entities carrying an id.
pub open spec fn by_entity_id(entity_id: i32) -> spec_fn(Entity) -> bool {
    |e: Entity| e.entity_id == entity_id
}

/// The walkable entries at a position.
pub open spec fn by_walk_pos(pos: (i32, i32)) -> spec_fn(WalkableEntry) -> bool {
    |w: WalkableEntry| w.0 == pos
}

/// The walkable entries of an entity.
pub open spec fn by_walk_id(entity_id: i32) -> spec_fn(WalkableEntry) -> bool {
    |w: WalkableEntry| w.1 == entity_id
}

/// The entities of one instance: the owned entity states, a spatial index of
/// the visible ones, and the table of walkable positions.
pub struct Entities {
    /// Source of fresh entity ids.
    last_id: i32,
    /// Position of each walkable entity, with its id.
    walkables: Vec<WalkableEntry>,
    /// Spatial index of entities by id.
    entity_hash: SpatialHash<i32>,
    entity_list: Vec<Entity>,
}

impl Entities {
    pub closed spec fn list(self) -> Seq<Entity> {
        self.entity_list@
    }

    pub closed spec fn walkables(self) -> Seq<WalkableEntry> {
        self.walkables@
    }

    pub closed spec fn hash(self) -> SpatialHash<i32> {
        self.entity_hash
    }

    pub closed spec fn spec_last_id(self) -> i32 {
        self.last_id
    }

    pub open spec fn wf(self) -> bool {
        self.hash().wf()
    }

    /// An empty registry around a freshly built spatial index.
    pub fn new(entity_hash: SpatialHash<i32>) -> (r: Self)
        requires
            entity_hash.wf(),
        ensures
            r.wf(),
            r.list() == Seq::<Entity>::empty(),
            r.walkables() == Seq::<WalkableEntry>::empty(),
            r.hash() == entity_hash,
            r.spec_last_id() == 0,
    {
        Entities { last_id: 0, walkables: Vec::new(), entity_hash, entity_list: Vec::new() }
    }

    /// Replaces the spatial index (done once, when the map is loaded).
    pub fn set_spatial_hash(&mut self, hash: SpatialHash<i32>)
        requires
            hash.wf(),
        ensures
            final(self).hash() == hash,
            final(self).wf(),
            final(self).list() == old(self).list(),
            final(self).walkables() == old(self).walkables(),
            final(self).spec_last_id() == old(self).spec_last_id(),
    {
        self.entity_hash = hash;
    }

    /// Relocates an entity in the spatial index.
    pub fn move_entity(&mut self, oldpos: (i32, i32), newpos: (i32, i32), entity_id: i32)
        -> (r: MoveDelta)
        requires
            old(self).wf(),
        ensures
            final(self).wf(),
            final(self).list() == old(self).list(),
            final(self).walkables() == old(self).walkables(),
            final(self).spec_last_id() == old(self).spec_last_id(),
            old(self).hash().same_config(final(self).hash()),
            ({
                let h = old(self).hash();
                let co = h.cell_of(oldpos);
                let cn = h.cell_of(newpos);
                if co == cn || !h.cell_valid(co) || !h.cell_valid(cn)
                    || find_id(h.bucket(co), entity_id) is None {
                    r is NoMove && final(self).hash() == h
                } else {
                    let j = find_id(h.bucket(co), entity_id)->0;
                    &&& r matches MoveDelta::Delta { from, to, check_radius, exclude_id }
                        && (from.0 as int, from.1 as int) == co
                        && (to.0 as int, to.1 as int) == cn
                        && check_radius == h.spec_check_radius()
                        && exclude_id == entity_id
                    &&& final(self).hash().bucket(co) == h.bucket(co).remove(j)
                    &&& final(self).hash().bucket(cn) == h.bucket(cn).push(h.bucket(co)[j])
                    &&& (forall|c: (int, int)| h.cell_valid(c) && c != co && c != cn
                        ==> final(self).hash().bucket(c) == h.bucket(c))
                }
            }),
    {
        self.entity_hash.update_pos(entity_id, oldpos, newpos)
    }

    /// Moves a walkable-position entry from one cell to another; a position
    /// with no walkable entity moves nothing.
    pub fn move_walkable(&mut self, oldpos: (i32, i32), newpos: (i32, i32))
        ensures
            final(self).hash() == old(self).hash(),
            final(self).list() == old(self).list(),
            final(self).spec_last_id() == old(self).spec_last_id(),
            match find_first(old(self).walkables(), by_walk_pos(oldpos)) {
                Some(j) => final(self).walkables()
                    == old(self).walkables().remove(j).push((newpos, old(self).walkables()[j].1)),
                None => final(self).walkables() == old(self).walkables(),
            },
    {
        let ghost pred = by_walk_pos(oldpos);
        let n = self.walkables.len();
        let mut i: usize = 0;
        while i < n
            invariant
                n == self.walkables@.len(),
                i <= n,
                forall|k: int| 0 <= k < i ==> !pred(#[trigger] self.walkables@[k]),
                pred == by_walk_pos(oldpos),
                *self == *old(self),
            decreases n - i,
        {
            let entry = self.walkables[i];
            if entry.0.0 == oldpos.0 && entry.0.1 == oldpos.1 {
                proof {
                    lemma_find_first_spec(self.walkables@, pred);
                    assert(pred(self.walkables@[i as int]));
                    if let Some(j) = find_first(self.walkables@, pred) {
                        assert(j == i) by {
                            if j < i {
                                assert(!pred(self.walkables@[j]));
                            }
                            if i < j {
                                assert(!pred(self.walkables@[i as int]));
                            }
                        }
                    }
                }
                let removed = self.walkables.remove(i);
                self.walkables.push((newpos, removed.1));
                return;
            }
            i = i + 1;
        }
        proof {
            lemma_find_first_spec(self.walkables@, pred);
            if let Some(j) = find_first(self.walkables@, pred) {
                assert(!pred(self.walkables@[j]));
            }
        }
    }

    /// Unregisters an entity: out of the spatial index, out of the owned
    /// list, and out of the walkable table if it was there.
    pub fn remove_entity(&mut self, pos: (i32, i32), entity_id: i32)
        requires
            old(self).wf(),
        ensures
            final(self).wf(),
            final(self).spec_last_id() == old(self).spec_last_id(),
            old(self).hash().same_config(final(self).hash()),
            match find_first(old(self).list(), by_entity_id(entity_id)) {
                Some(j) => final(self).list() == old(self).list().remove(j),
                None => final(self).list() == old(self).list(),
            },
            match find_first(old(self).walkables(), by_walk_id(entity_id)) {
                Some(j) => final(self).walkables() == old(self).walkables().remove(j),
                None => final(self).walkables() == old(self).walkables(),
            },
    {
        self.entity_hash.remove(entity_id, pos);

        let ghost lpred = by_entity_id(entity_id);
        let n = self.entity_list.len();
        let mut i: usize = 0;
        let ghost mid = *self;
        while i < n
            invariant
                n == self.entity_list@.len(),
                i <= n,
                forall|k: int| 0 <= k < i ==> !lpred(#[trigger] self.entity_list@[k]),
                lpred == by_entity_id(entity_id),
                *self == mid,
                mid.wf(),
                mid.list() == old(self).list(),
                mid.walkables() == old(self).walkables(),
                mid.spec_last_id() == old(self).spec_last_id(),
                old(self).hash().same_config(mid.hash()),
            decreases n - i,
        {
            if self.entity_list[i].entity_id == entity_id {
                proof {
                    lemma_find_first_spec(self.entity_list@, lpred);
                    assert(lpred(self.entity_list@[i as int]));
                    if let Some(j) = find_first(self.entity_list@, lpred) {
                        assert(j == i) by {
                            if j < i {
                                assert(!lpred(self.entity_list@[j]));
                            }
                            if i < j {
                                assert(!lpred(self.entity_list@[i as int]));
                            }
                        }
                    }
                }
                self.entity_list.remove(i);
                self.remove_walkable_entry(entity_id);
                return;
            }
            i = i + 1;
        }
        proof {
            lemma_find_first_spec(self.entity_list@, lpred);
            if let Some(j) = find_first(self.entity_list@, lpred) {
                assert(!lpred(self.entity_list@[j]));
            }
        }
        self.remove_walkable_entry(entity_id);
    }

    /// Drops the walkable entry of an entity, if it has one.
    fn remove_walkable_entry(&mut self, entity_id: i32)
        ensures
            final(self).hash() == old(self).hash(),
            final(self).list() == old(self).list(),
            final(self).spec_last_id() == old(self).spec_last_id(),
            match find_first(old(self).walkables(), by_walk_id(entity_id)) {
                Some(j) => final(self).walkables() == old(self).walkables().remove(j),
                None => final(self).walkables() == old(self).walkables(),
            },
    {
        let ghost pred = by_walk_id(entity_id);
        let n = self.walkables.len();
        let mut i: usize = 0;
        while i < n
            invariant
                n == self.walkables@.len(),
                i <= n,
                forall|k: int| 0 <= k < i ==> !pred(#[trigger] self.walkables@[k]),
                pred == by_walk_id(entity_id),
                *self == *old(self),
            decreases n - i,
        {
            if self.walkables[i].1 == entity_id {
                proof {
                    lemma_find_first_spec(self.walkables@, pred);
                    assert(pred(self.walkables@[i as int]));
                    if let Some(j) = find_first(self.walkables@, pred) {
                        assert(j == i) by {
                            if j < i {
                                assert(!pred(self.walkables@[j]));
                            }
                            if i < j {
                                assert(!pred(self.walkables@[i as int]));
                            }
                        }
                    }
                }
                self.walkables.remove(i);
                return;
            }
            i = i + 1;
        }
        proof {
            lemma_find_first_spec(self.walkables@, pred);
            if let Some(j) = find_first(self.walkables@, pred) {
                assert(!pred(self.walkables@[j]));
            }
        }
    }

    /// The entity registered at a position under the given id, if the
    /// spatial index holds it there and the registry still owns it.
    pub fn get_at(&self, x: i32, y: i32, entity_id: i32) -> (r: Option<&Entity>)
        requires
            self.wf(),
        ensures
            match r {
                Some(e) => e.entity_id == entity_id
                    && self.list().contains(*e)
                    && self.hash().cell_valid(self.hash().cell_of((x, y)))
                    && find_id(self.hash().bucket(self.hash().cell_of((x, y))), entity_id) is Some,
                None => ({
                    let c = self.hash().cell_of((x, y));
                    !self.hash().cell_valid(c)
                        || find_id(self.hash().bucket(c), entity_id) is None
                        || find_first(self.list(), by_entity_id(entity_id)) is None
                }),
            },
    {
        if self.entity_hash.get((x, y), entity_id).is_none() {
            return None;
        }
        self.find_entity(entity_id)
    }

    /// The owned entity carrying an id, if any.
    pub fn find_entity(&self, entity_id: i32) -> (r: Option<&Entity>)
        ensures
            match r {
                Some(e) => e.entity_id == entity_id && self.list().contains(*e)
                    && find_first(self.list(), by_entity_id(entity_id)) is Some,
                None => find_first(self.list(), by_entity_id(entity_id)) is None,
            },
    {
        let ghost pred = by_entity_id(entity_id);
        let n = self.entity_list.len();
        let mut i: usize = 0;
        while i < n
            invariant
                n == self.entity_list@.len(),
                i <= n,
                forall|k: int| 0 <= k < i ==> !pred(#[trigger] self.entity_list@[k]),
                pred == by_entity_id(entity_id),
            decreases n - i,
        {
            if self.entity_list[i].entity_id == entity_id {
                proof {
                    lemma_find_first_spec(self.entity_list@, pred);
                    assert(pred(self.entity_list@[i as int]));
                }
                return Some(&self.entity_list[i]);
            }
            i = i + 1;
        }
        proof {
            lemma_find_first_spec(self.entity_list@, pred);
            if let Some(j) = find_first(self.entity_list@, pred) {
                assert(!pred(self.entity_list@[j]));
            }
        }
        None
    }

    /// The index, in the owned list, of the entity carrying an id.
    pub fn find_entity_index(&self, entity_id: i32) -> (r: Option<usize>)
        ensures
            match r {
                Some(i) => i < self.list().len() && self.list()[i as int].entity_id == entity_id
                    && find_first(self.list(), by_entity_id(entity_id))
                        == Some(i as int),
                None => find_first(self.list(), by_entity_id(entity_id)) is None,
            },
    {
        let ghost pred = by_entity_id(entity_id);
        let n = self.entity_list.len();
        let mut i: usize = 0;
        while i < n
            invariant
                n == self.entity_list@.len(),
                i <= n,
                forall|k: int| 0 <= k < i ==> !pred(#[trigger] self.entity_list@[k]),
                pred == by_entity_id(entity_id),
            decreases n - i,
        {
            if self.entity_list[i].entity_id == entity_id {
                proof {
                    lemma_find_first_spec(self.entity_list@, pred);
                    assert(pred(self.entity_list@[i as int]));
                    if let Some(j) = find_first(self.entity_list@, pred) {
                        assert(j == i) by {
                            if j < i {
                                assert(!pred(self.entity_list@[j]));
                            }
                            if i < j {
                                assert(!pred(self.entity_list@[i as int]));
                            }
                        }
                    }
                }
                return Some(i);
            }
            i = i + 1;
        }
        proof {
            lemma_find_first_spec(self.entity_list@, pred);
            if let Some(j) = find_first(self.entity_list@, pred) {
                assert(!pred(self.entity_list@[j]));
            }
        }
        None
    }

    /// Applies a script's self-move: the entity's position and speed change,
    /// its move counter resets, and the spatial index relocates it. An
    /// unknown id moves nothing.
    pub fn apply_move_self(&mut self, entity_id: i32, x: i32, y: i32, speed: i32)
        requires
            old(self).wf(),
        ensures
            final(self).wf(),
            final(self).walkables() == old(self).walkables(),
            final(self).spec_last_id() == old(self).spec_last_id(),
            old(self).hash().same_config(final(self).hash()),
            match find_first(old(self).list(), by_entity_id(entity_id)) {
                Some(j) => final(self).list() == old(self).list().update(j, (Entity {
                    pos: (x, y),
                    last_speed: speed,
                    ticks_since_last_move: 0,
                    ..old(self).list()[j]
                })) && ({
                    let h = old(self).hash();
                    let co = h.cell_of(old(self).list()[j].pos);
                    let cn = h.cell_of((x, y));
                    if co == cn || !h.cell_valid(co) || !h.cell_valid(cn)
                        || find_id(h.bucket(co), entity_id) is None {
                        final(self).hash() == h
                    } else {
                        let jj = find_id(h.bucket(co), entity_id)->0;
                        &&& final(self).hash().bucket(co) == h.bucket(co).remove(jj)
                        &&& final(self).hash().bucket(cn)
                            == h.bucket(cn).push(h.bucket(co)[jj])
                        &&& (forall|c: (int, int)| h.cell_valid(c) && c != co && c != cn
                            ==> final(self).hash().bucket(c) == h.bucket(c))
                    }
                }),
                None => final(self).list() == old(self).list()
                    && final(self).hash() == old(self).hash(),
            },
    {
        if let Some(i) = self.find_entity_index(entity_id) {
            let mut e = self.entity_list.remove(i);
            let oldpos = e.pos;
            e.pos = (x, y);
            e.last_speed = speed;
            e.ticks_since_last_move = 0;
            self.entity_list.insert(i, e);
            proof {
                assert(self.entity_list@ =~= old(self).list().update(
                    i as int, self.entity_list@[i as int]));
            }
            self.entity_hash.update_pos(entity_id, oldpos, (x, y));
        }
    }

    /// Ages the entity at a list index by one tick and lowers its update
    /// flag.
    pub fn age_entity_at(&mut self, i: usize)
        requires
            old(self).wf(),
            i < old(self).list().len(),
        ensures
            final(self).wf(),
            final(self).list() == old(self).list().update(i as int, aged_entity(old(self).list()[i as int])),
            final(self).walkables() == old(self).walkables(),
            final(self).hash() == old(self).hash(),
            final(self).spec_last_id() == old(self).spec_last_id(),
    {
        let mut e = self.entity_list.remove(i);
        e.ticks_since_last_move = add_clamped(e.ticks_since_last_move, 1);
        e.data_just_updated = false;
        self.entity_list.insert(i, e);
        proof {
            assert(self.entity_list@ =~= old(self).list().update(
                i as int, self.entity_list@[i as int]));
        }
    }

    /// Replaces the entity at a list index.
    pub fn set_entity(&mut self, i: usize, e: Entity)
        requires
            i < old(self).list().len(),
        ensures
            final(self).list() == old(self).list().update(i as int, e),
            final(self).hash() == old(self).hash(),
            final(self).walkables() == old(self).walkables(),
            final(self).spec_last_id() == old(self).spec_last_id(),
    {
        self.entity_list.set(i, e);
    }

    /// How many entities the registry owns.
    pub fn entity_count(&self) -> (r: usize)
        ensures
            r == self.list().len(),
    {
        self.entity_list.len()
    }

    /// Read access to the entity at a list index.
    pub fn entity_at(&self, i: usize) -> (r: &Entity)
        requires
            i < self.list().len(),
        ensures
            *r == self.list()[i as int],
    {
        &self.entity_list[i]
    }

    /// The id of the walkable entity at a position, if any.
    pub fn get_walkable_at(&self, x: i32, y: i32) -> (r: Option<i32>)
        ensures
            match find_first(self.walkables(), by_walk_pos((x, y))) {
                Some(j) => r == Some(self.walkables()[j].1),
                None => r is None,
            },
    {
        let ghost pred = by_walk_pos((x, y));
        let n = self.walkables.len();
        let mut i: usize = 0;
        while i < n
            invariant
                n == self.walkables@.len(),
                i <= n,
                forall|k: int| 0 <= k < i ==> !pred(#[trigger] self.walkables@[k]),
                pred == by_walk_pos((x, y)),
            decreases n - i,
        {
            let entry = self.walkables[i];
            if entry.0.0 == x && entry.0.1 == y {
                proof {
                    lemma_find_first_spec(self.walkables@, pred);
                    assert(pred(self.walkables@[i as int]));
                    if let Some(j) = find_first(self.walkables@, pred) {
                        assert(j == i) by {
                            if j < i {
                                assert(!pred(self.walkables@[j]));
                            }
                            if i < j {
                                assert(!pred(self.walkables@[i as int]));
                            }
                        }
                    }
                }
                return Some(entry.1);
            }
            i = i + 1;
        }
        proof {
            lemma_find_first_spec(self.walkables@, pred);
            if let Some(j) = find_first(self.walkables@, pred) {
                assert(!pred(self.walkables@[j]));
            }
        }
        None
    }

    /// The spatial index of the visible entities.
    pub fn get_hash(&self) -> (r: &SpatialHash<i32>)
        ensures
            *r == self.hash(),
    {
        &self.entity_hash
    }

    /// Registers an entity: assigns it the next id, records it walkable if
    /// it is, stores it, and indexes it at its position. Returns the id.
    pub fn register_entity(&mut self, entity: Entity) -> (r: i32)
        requires
            old(self).wf(),
        ensures
            final(self).wf(),
            r as int == clamped(old(self).spec_last_id() + 1),
            final(self).spec_last_id() == r,
            final(self).list() == old(self).list().push((Entity { entity_id: r, ..entity })),
            old(self).hash().same_config(final(self).hash()),
            final(self).walkables() == if entity.walkable {
                old(self).walkables().push((entity.pos, r))
            } else {
                old(self).walkables()
            },
            ({
                let c = old(self).hash().cell_of(entity.pos);
                if old(self).hash().cell_valid(c) {
                    final(self).hash().bucket(c) == old(self).hash().bucket(c).push((r, 0i32))
                        && (forall|c2: (int, int)|
                            old(self).hash().cell_valid(c2) && c2 != c
                                ==> final(self).hash().bucket(c2) == old(self).hash().bucket(c2))
                } else {
                    forall|c2: (int, int)| old(self).hash().cell_valid(c2)
                        ==> final(self).hash().bucket(c2) == old(self).hash().bucket(c2)
                }
            }),
    {
        let id = add_clamped(self.last_id, 1);
        self.last_id = id;

        let mut e = entity;
        e.entity_id = id;
        let pos = e.pos;
        let walkable = e.walkable;

        if walkable {
            self.walkables.push((pos, id));
        }
        self.entity_list.push(e);
        self.entity_hash.insert(id, 0i32, pos);
        id
    }
}

} // verus!
