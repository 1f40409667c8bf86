use crate::bullet::Bullet;
use crate::vector::Vector;
use crate::keystate::KeyState;
use crate::rng::{random_id, random_in_range};
use crate::ship::Ship;
use crate::text::Text;
use vstd::prelude::*;

verus! {

/// Ticks between the all-ready observation and the start of play (1 s at 60
/// ticks per second).
pub const COUNTDOWN_TICKS: u64 = 60;
/// Room ids are drawn from `[0, ROOM_ID_SPACE)`.
pub const ROOM_ID_SPACE: u64 = 10_000;

/// One renderable object of the per-tick broadcast.
pub enum GameObject {
    Ship { data: Ship },
    Bullet { data: Bullet },
    Text { data: Text },
}

impl Clone for GameObject {
    /// An exact copy, so that the broadcast contracts can speak of the data
    /// each listener receives by equality.
    fn clone(&self) -> (o: Self)
        ensures
            o == *self,
    {
        match self {
            GameObject::Ship { data } => GameObject::Ship { data: data.clone() },
            GameObject::Bullet { data } => GameObject::Bullet { data: data.clone() },
            GameObject::Text { data } => GameObject::Text { data: data.clone() },
        }
    }
}

/// One outbound transport message.
#[derive(Clone)]
pub enum Message {
    Objects { data: Vec<GameObject> },
    Ping,
    Finish { data: Vec<GameObject> },
}

/// The specification-level image of one renderable object: ships and
/// bullets by value, labels by their color, position and character content.
pub enum ObjModel {
    ShipObj { data: Ship },
    BulletObj { data: Bullet },
    TextObj { color: Seq<char>, pos: Vector, text: Seq<char> },
}

/// Whether one renderable object realizes its model: ships and bullets are
/// exactly the model's values; a label carries the model's color, position
/// and text.
pub open spec fn spec_obj_matches(o: GameObject, m: ObjModel) -> bool {
    match m {
        ObjModel::ShipObj { data } => o matches GameObject::Ship { data: d } && d == data,
        ObjModel::BulletObj { data } => o matches GameObject::Bullet { data: d } && d == data,
        ObjModel::TextObj { color, pos, text } => o matches GameObject::Text { data: d }
            && d.color@ == color && d.pos == pos && d.text@ == text,
    }
}

/// Whether a list of renderable objects realizes a list of models, element
/// by element.
pub open spec fn spec_objs_match(data: Seq<GameObject>, ms: Seq<ObjModel>) -> bool {
    data.len() == ms.len() && forall|i: int|
        0 <= i < ms.len() ==> spec_obj_matches(#[trigger] data[i], ms[i])
}

/// Matching lists stay matching under concatenation.
pub proof fn lemma_objs_match_concat(
    a: Seq<GameObject>,
    am: Seq<ObjModel>,
    b: Seq<GameObject>,
    bm: Seq<ObjModel>,
)
    requires
        spec_objs_match(a, am),
        spec_objs_match(b, bm),
    ensures
        spec_objs_match(a + b, am + bm),
{
    assert forall|i: int|
        0 <= i < (am + bm).len() implies spec_obj_matches(#[trigger] (a + b)[i], (am + bm)[i]) by {
        if i < am.len() {
            assert((a + b)[i] == a[i] && (am + bm)[i] == am[i]);
        } else {
            assert((a + b)[i] == b[i - am.len()] && (am + bm)[i] == bm[i - am.len()]);
        }
    }
}

/// A ship together with the id of the player who owns it.
pub struct ShipSlot {
    pub id: u64,
    pub ship: Ship,
}

/// All state of one room: the coherent per-room object that the coordinator
/// and the simulation tick both work on.
pub struct Room {
    pub id: u64,
    /// Ids of all subscribers, players and watchers alike.
    pub listeners: Vec<u64>,
    /// The room's ships; emptied for good once the game has finished.
    pub ships: Vec<ShipSlot>,
    /// Live bullets; only a playing room has any.
    pub bullets: Vec<Bullet>,
    pub is_playing: bool,
    /// Player numbers of eliminated ships in elimination order; the winner's
    /// number is appended at the end of the game.
    pub ranking: Vec<u8>,
    /// FIFO pool of free player numbers: popped at the front on join,
    /// returned at the back on disconnect.
    pub player_num_pool: Vec<u8>,
    /// Count of non-watching occupants.
    pub occupancy: u64,
    /// Set when the end of the game has torn the ship table down; the room's
    /// bookkeeping stays until an explicit delete.
    pub finished: bool,
    /// The tick at which the all-ready condition was first observed.
    pub all_ready_time: Option<u64>,
}

impl Room {
    /// Structural invariant, relative to the current tick `now`.
    pub open spec fn wf_at(self, now: u64) -> bool {
        &&& forall|i: int|
            0 <= i < self.ships@.len() ==> (#[trigger] self.ships@[i]).ship.wf()
        &&& forall|i: int|
            0 <= i < self.ships@.len() ==> (#[trigger] self.ships@[i]).ship.lives >= 1
        &&& forall|i: int|
            0 <= i < self.ships@.len() ==> (#[trigger] self.ships@[i]).ship.player_num < 4
        &&& forall|i: int|
            0 <= i < self.ships@.len() ==> (#[trigger] self.ships@[i]).ship.last_fire_time
                <= now && self.ships@[i].ship.last_hit_time <= now
        &&& forall|i: int, j: int|
            0 <= i < j < self.ships@.len() ==> self.ships@[i].id != self.ships@[j].id
        &&& forall|i: int, j: int|
            0 <= i < j < self.listeners@.len() ==> self.listeners@[i] != self.listeners@[j]
        // Player numbers are pairwise distinct across the live ships, the
        // free pool and the ranking: no number is ever held in two places.
        &&& forall|i: int, j: int|
            0 <= i < j < self.ships@.len() ==> self.ships@[i].ship.player_num
                != self.ships@[j].ship.player_num
        &&& forall|i: int, j: int|
            0 <= i < j < self.player_num_pool@.len() ==> self.player_num_pool@[i]
                != self.player_num_pool@[j]
        &&& forall|i: int, j: int|
            0 <= i < j < self.ranking@.len() ==> self.ranking@[i] != self.ranking@[j]
        &&& forall|i: int, j: int|
            #![trigger self.ships@[i], self.player_num_pool@[j]]
            0 <= i < self.ships@.len() && 0 <= j < self.player_num_pool@.len()
                ==> self.ships@[i].ship.player_num != self.player_num_pool@[j]
        &&& forall|i: int, j: int|
            #![trigger self.ships@[i], self.ranking@[j]]
            0 <= i < self.ships@.len() && 0 <= j < self.ranking@.len()
                ==> self.ships@[i].ship.player_num != self.ranking@[j]
        &&& forall|i: int, j: int|
            #![trigger self.player_num_pool@[i], self.ranking@[j]]
            0 <= i < self.player_num_pool@.len() && 0 <= j < self.ranking@.len()
                ==> self.player_num_pool@[i] != self.ranking@[j]
        &&& forall|i: int| 0 <= i < self.bullets@.len() ==> (#[trigger] self.bullets@[i]).wf()
        &&& forall|i: int| 0 <= i < self.ranking@.len() ==> self.ranking@[i] < 4
        &&& forall|i: int|
            0 <= i < self.player_num_pool@.len() ==> self.player_num_pool@[i] < 4
        &&& self.ranking@.len() + self.ships@.len() + self.player_num_pool@.len() <= 4
        &&& (self.finished ==> self.is_playing && self.ships@.len() == 0)
        &&& (!self.is_playing ==> self.bullets@.len() == 0)
        &&& (match self.all_ready_time {
            Some(t) => !self.is_playing && t <= now,
            None => true,
        })
    }
}

/// Whether some room in the list carries this id.
pub open spec fn spec_has_room(rooms: Seq<Room>, id: u64) -> bool {
    exists|i: int| 0 <= i < rooms.len() && rooms[i].id == id
}

/// The index of the room carrying this id (unique under the server
/// invariant).
pub open spec fn room_index_of(rooms: Seq<Room>, id: u64) -> int {
    choose|i: int| 0 <= i < rooms.len() && rooms[i].id == id
}

/// Room deletion at the model level: the room with this id is removed;
/// without one the list is untouched.
pub open spec fn spec_delete_rooms(rooms: Seq<Room>, id: u64) -> Seq<Room> {
    if spec_has_room(rooms, id) {
        rooms.remove(room_index_of(rooms, id))
    } else {
        rooms
    }
}

/// Whether the key-state table carries an entry for this id.
pub open spec fn spec_has_keystate(ks: Seq<(u64, KeyState)>, id: u64) -> bool {
    exists|i: int| 0 <= i < ks.len() && ks[i].0 == id
}

/// The index of the entry for this id (unique under the server invariant).
pub open spec fn ks_index_of(ks: Seq<(u64, KeyState)>, id: u64) -> int {
    choose|i: int| 0 <= i < ks.len() && ks[i].0 == id
}

/// The stored key snapshot for this id; an id without an entry reads as no
/// button held.
pub open spec fn spec_keystate_of(ks: Seq<(u64, KeyState)>, id: u64) -> KeyState {
    if spec_has_keystate(ks, id) {
        ks[ks_index_of(ks, id)].1
    } else {
        KeyState { left: false, right: false, up: false, space: false }
    }
}

/// The key-state table after an upsert for this id.
pub open spec fn spec_ks_upsert(ks: Seq<(u64, KeyState)>, id: u64, k: KeyState) -> Seq<
    (u64, KeyState),
> {
    if spec_has_keystate(ks, id) {
        ks.update(ks_index_of(ks, id), (id, k))
    } else {
        ks.push((id, k))
    }
}

/// The key-state table after removing this id's entry, if any.
pub open spec fn spec_ks_remove(ks: Seq<(u64, KeyState)>, id: u64) -> Seq<(u64, KeyState)> {
    if spec_has_keystate(ks, id) {
        ks.remove(ks_index_of(ks, id))
    } else {
        ks
    }
}

/// The listener list after adding an id, set-style: a present id is not
/// added again.
pub open spec fn spec_listener_insert(ls: Seq<u64>, id: u64) -> Seq<u64> {
    if ls.contains(id) {
        ls
    } else {
        ls.push(id)
    }
}

/// The listener list after removing an id, if present.
pub open spec fn spec_listener_remove(ls: Seq<u64>, id: u64) -> Seq<u64> {
    if exists|i: int| 0 <= i < ls.len() && ls[i] == id {
        ls.remove(choose|i: int| 0 <= i < ls.len() && ls[i] == id)
    } else {
        ls
    }
}

/// The index of the ship slot owned by this player id (unique under the
/// room invariant).
pub open spec fn ship_index_of(ships: Seq<ShipSlot>, id: u64) -> int {
    choose|i: int| 0 <= i < ships.len() && ships[i].id == id
}

/// Whether a ship slot owned by this player id exists.
pub open spec fn spec_has_ship(ships: Seq<ShipSlot>, id: u64) -> bool {
    exists|i: int| 0 <= i < ships.len() && ships[i].id == id
}

/// Every outbound message is addressed to a listener of some room.
pub open spec fn spec_out_to_listeners(rooms: Seq<Room>, out: Seq<(u64, Message)>) -> bool {
    forall|j: int|
        0 <= j < out.len() ==> exists|i: int|
            0 <= i < rooms.len() && rooms[i].listeners@.contains((#[trigger] out[j]).0)
}

/// The room coordinator and simulation state: every table of the game,
/// keyed by room id and player id, plus the current tick.
pub struct GameServer {
    pub rooms: Vec<Room>,
    /// Latest key snapshot per player id, process-wide.
    pub keystates: Vec<(u64, KeyState)>,
    /// The current simulation tick.
    pub now: u64,
}

impl GameServer {
    pub open spec fn wf(self) -> bool {
        &&& forall|i: int|
            0 <= i < self.rooms@.len() ==> (#[trigger] self.rooms@[i]).wf_at(self.now)
        &&& forall|i: int, j: int|
            0 <= i < j < self.rooms@.len() ==> self.rooms@[i].id != self.rooms@[j].id
        &&& forall|i: int, j: int|
            0 <= i < j < self.keystates@.len() ==> self.keystates@[i].0 != self.keystates@[j].0
    }

    /// An empty coordinator at tick zero.
    pub fn new() -> (s: GameServer)
        ensures
            s.rooms@.len() == 0,
            s.keystates@.len() == 0,
            s.now == 0,
            s.wf(),
    {
        GameServer { rooms: Vec::new(), keystates: Vec::new(), now: 0 }
    }

    /// Assigns a fresh random player id; no room side effects.
    pub fn connect(&mut self) -> (id: u64)
        ensures
            *final(self) == *old(self),
    {
        random_id()
    }

    /// Allocates an unused room id and seeds empty room state with a full
    /// player-number pool. Returns `None` only when the whole id space is
    /// taken.
    pub fn create_room(&mut self) -> (res: Option<u64>)
        requires
            old(self).wf(),
        ensures
            final(self).wf(),
            final(self).keystates == old(self).keystates,
            final(self).now == old(self).now,
            match res {
                Some(id) => {
                    &&& id < ROOM_ID_SPACE
                    &&& !spec_has_room(old(self).rooms@, id)
                    &&& final(self).rooms@.len() == old(self).rooms@.len() + 1
                    &&& final(self).rooms@.drop_last() == old(self).rooms@
                    &&& final(self).rooms@.last() == spec_fresh_room_with(
                        final(self).rooms@.last(),
                        id,
                    )
                    &&& spec_fresh_room_contents(final(self).rooms@.last())
                },
                None => {
                    &&& *final(self) == *old(self)
                    &&& forall|rid: u64|
                        rid < ROOM_ID_SPACE ==> spec_has_room(old(self).rooms@, rid)
                },
            },
    {
        let mut tries: u64 = 16;
        while tries > 0
            invariant
                *self == *old(self),
                old(self).wf(),
            decreases tries,
        {
            let cand = random_in_range(0, ROOM_ID_SPACE);
            if find_room(&self.rooms, cand).is_none() {
                self.push_fresh_room(cand);
                return Some(cand);
            }
            tries = tries - 1;
        }
        // The random draws all collided; fall back to a full scan so that
        // failure means the id space really is exhausted.
        let mut cand: u64 = 0;
        while cand < ROOM_ID_SPACE
            invariant
                *self == *old(self),
                old(self).wf(),
                forall|rid: u64| rid < cand ==> spec_has_room(old(self).rooms@, rid),
            decreases ROOM_ID_SPACE - cand,
        {
            if find_room(&self.rooms, cand).is_none() {
                self.push_fresh_room(cand);
                return Some(cand);
            }
            cand = cand + 1;
        }
        None
    }

    /// Appends a fresh empty room under `id`.
    fn push_fresh_room(&mut self, id: u64)
        requires
            old(self).wf(),
            !spec_has_room(old(self).rooms@, id),
        ensures
            final(self).wf(),
            final(self).keystates == old(self).keystates,
            final(self).now == old(self).now,
            final(self).rooms@.len() == old(self).rooms@.len() + 1,
            final(self).rooms@.drop_last() == old(self).rooms@,
            final(self).rooms@.last() == spec_fresh_room_with(final(self).rooms@.last(), id),
            spec_fresh_room_contents(final(self).rooms@.last()),
    {
        let mut pool: Vec<u8> = Vec::new();
        pool.push(0);
        pool.push(1);
        pool.push(2);
        pool.push(3);
        let room = Room {
            id,
            listeners: Vec::new(),
            ships: Vec::new(),
            bullets: Vec::new(),
            is_playing: false,
            ranking: Vec::new(),
            player_num_pool: pool,
            occupancy: 0,
            finished: false,
            all_ready_time: None,
        };
        proof {
            assert(room.player_num_pool@ =~= seq![0u8, 1u8, 2u8, 3u8]);
        }
        self.rooms.push(room);
        proof {
            assert(final(self).rooms@.drop_last() =~= old(self).rooms@);
        }
    }

    /// Removes every per-room entry for this id; idempotent.
    pub fn delete_room(&mut self, room_id: u64)
        requires
            old(self).wf(),
        ensures
            final(self).wf(),
            final(self).rooms@ == spec_delete_rooms(old(self).rooms@, room_id),
            final(self).keystates == old(self).keystates,
            final(self).now == old(self).now,
            !spec_has_room(final(self).rooms@, room_id),
            !spec_has_room(old(self).rooms@, room_id) ==> *final(self) == *old(self),
    {
        match find_room(&self.rooms, room_id) {
            Some(i) => {
                proof {
                    let j = room_index_of(self.rooms@, room_id);
                    assert(spec_has_room(self.rooms@, room_id));
                    assert(0 <= j < self.rooms@.len() && self.rooms@[j].id == room_id);
                    assert(j == i as int);
                }
                self.rooms.remove(i);
                proof {
                    assert forall|k: int|
                        0 <= k < final(self).rooms@.len() implies final(self).rooms@[k].id
                        != room_id by {
                        if k < i as int {
                            assert(final(self).rooms@[k] == old(self).rooms@[k]);
                        } else {
                            assert(final(self).rooms@[k] == old(self).rooms@[k + 1]);
                        }
                    }
                }
            },
            None => {},
        }
    }

    /// Overwrites the stored key snapshot for this player id.
    pub fn key_update(&mut self, id: u64, state: KeyState)
        requires
            old(self).wf(),
        ensures
            final(self).wf(),
            final(self).keystates@ == spec_ks_upsert(old(self).keystates@, id, state),
            final(self).rooms == old(self).rooms,
            final(self).now == old(self).now,
            spec_keystate_of(final(self).keystates@, id) == state,
    {
        let n = self.keystates.len();
        let mut i: usize = 0;
        while i < n
            invariant
                n == self.keystates@.len(),
                *self == *old(self),
                old(self).wf(),
                forall|j: int| 0 <= j < i ==> self.keystates@[j].0 != id,
            decreases n - i,
        {
            if self.keystates[i].0 == id {
                let e = &mut self.keystates[i];
                *e = (id, state);
                proof {
                    assert(spec_has_keystate(old(self).keystates@, id));
                    let j = ks_index_of(old(self).keystates@, id);
                    assert(old(self).keystates@[j].0 == id);
                    assert(j == i as int);
                    lemma_ks_upsert_found(old(self).keystates@, id, state, i as int);
                }
                return ;
            }
            i = i + 1;
        }
        self.keystates.push((id, state));
        proof {
            assert(!spec_has_keystate(old(self).keystates@, id));
            let m = final(self).keystates@;
            assert(m[m.len() - 1].0 == id);
            assert(spec_has_keystate(m, id));
            let j = ks_index_of(m, id);
            assert(0 <= j < m.len() && m[j].0 == id);
            if j < m.len() - 1 {
                assert(old(self).keystates@[j].0 == id);
            }
            assert(j == m.len() - 1);
        }
    }

    /// Registers a connection with a room. A non-watching joiner occupies a
    /// slot, and while the room is in its lobby also gets a ship at its
    /// slot's spawn position and a default key snapshot. Every joiner is
    /// added to the room's listener set. An unknown room is refused.
    #[verifier::rlimit(100)]
    pub fn join(&mut self, id: u64, room: u64, watch: bool) -> (ok: bool)
        requires
            old(self).wf(),
        ensures
            final(self).wf(),
            final(self).now == old(self).now,
            ok == spec_has_room(old(self).rooms@, room),
            !ok ==> *final(self) == *old(self),
            ok ==> ({
                let i = room_index_of(old(self).rooms@, room);
                let r = old(self).rooms@[i];
                let r2 = final(self).rooms@[i];
                &&& final(self).rooms@ == old(self).rooms@.update(i, r2)
                &&& r2.listeners@ == spec_listener_insert(r.listeners@, id)
                &&& r2.id == r.id
                &&& r2.is_playing == r.is_playing
                &&& r2.ranking == r.ranking
                &&& r2.bullets == r.bullets
                &&& r2.finished == r.finished
                &&& r2.all_ready_time == r.all_ready_time
                &&& (watch ==> r2.ships == r.ships && r2.player_num_pool == r.player_num_pool
                    && r2.occupancy == r.occupancy && final(self).keystates == old(self).keystates)
                &&& (!watch ==> {
                    &&& r2.occupancy == (if r.occupancy < u64::MAX {
                        (r.occupancy + 1) as u64
                    } else {
                        r.occupancy
                    })
                    &&& (r.is_playing ==> r2.ships == r.ships && r2.player_num_pool
                        == r.player_num_pool && final(self).keystates == old(self).keystates)
                    &&& (!r.is_playing && r.player_num_pool@.len() == 0 ==> r2.ships == r.ships
                        && r2.player_num_pool == r.player_num_pool && final(self).keystates
                        == old(self).keystates)
                    &&& (!r.is_playing && r.player_num_pool@.len() > 0 ==> {
                        let num = r.player_num_pool@[0];
                        let k = if spec_has_ship(r.ships@, id) {
                            ship_index_of(r.ships@, id)
                        } else {
                            r.ships@.len() as int
                        };
                        &&& final(self).keystates@ == spec_ks_upsert(
                            old(self).keystates@,
                            id,
                            KeyState { left: false, right: false, up: false, space: false },
                        )
                        &&& r2.player_num_pool@ == r.player_num_pool@.remove(0)
                        &&& 0 <= k < r2.ships@.len()
                        &&& r2.ships@[k].id == id
                        &&& spec_spawned_ship(r2.ships@[k].ship, num, old(self).now)
                        &&& r2.ships@ == (if spec_has_ship(r.ships@, id) {
                            r.ships@.update(k, r2.ships@[k])
                        } else {
                            r.ships@.push(r2.ships@[k])
                        })
                    })
                })
            }),
    {
        let idx = match find_room(&self.rooms, room) {
            None => {
                return false;
            },
            Some(i) => i,
        };
        proof {
            lemma_room_index_unique(self.rooms@, room, idx as int);
        }
        if !watch {
            {
                let r = &mut self.rooms[idx];
                if r.occupancy < u64::MAX {
                    r.occupancy = r.occupancy + 1;
                }
            }
            let playing = self.rooms[idx].is_playing;
            if !playing && self.rooms[idx].player_num_pool.len() > 0 {
                self.key_update(id, KeyState::new());
                let num = {
                    let r = &mut self.rooms[idx];
                    r.player_num_pool.remove(0)
                };
                let x = 150_000 + 100_000 * (num as i64);
                proof {
                    crate::vector::lemma_wrap_val_identity(x as int);
                    crate::vector::lemma_wrap_val_identity(300_000);
                    crate::trig::lemma_norm_neg_quarter();
                }
                let pos = Vector { x, y: 300_000 };
                let ship = Ship::new(
                    num,
                    crate::text::color_of(num),
                    pos,
                    -(crate::trig::QUARTER_TURN),
                    self.now,
                );
                match find_ship(&self.rooms[idx].ships, id) {
                    Some(k) => {
                        proof {
                            lemma_ship_index_unique(self.rooms@[idx as int].ships@, id, k as int);
                        }
                        let r = &mut self.rooms[idx];
                        let e = &mut r.ships[k];
                        *e = ShipSlot { id, ship };
                    },
                    None => {
                        let r = &mut self.rooms[idx];
                        r.ships.push(ShipSlot { id, ship });
                    },
                }
            }
        }
        {
            let r = &mut self.rooms[idx];
            if !vec_contains_u64(&r.listeners, id) {
                r.listeners.push(id);
            }
        }
        true
    }

    /// Removes a connection from a room: frees its occupancy slot, removes
    /// its ship (returning the player number to the back of the pool), and
    /// drops its key snapshot and listener entry. Unknown rooms are a no-op.
    #[verifier::rlimit(100)]
    pub fn disconnect(&mut self, id: u64, room: u64, watch: bool)
        requires
            old(self).wf(),
        ensures
            final(self).wf(),
            final(self).now == old(self).now,
            !spec_has_room(old(self).rooms@, room) ==> *final(self) == *old(self),
            spec_has_room(old(self).rooms@, room) ==> ({
                let i = room_index_of(old(self).rooms@, room);
                let r = old(self).rooms@[i];
                let r2 = final(self).rooms@[i];
                &&& final(self).rooms@ == old(self).rooms@.update(i, r2)
                &&& final(self).keystates@ == spec_ks_remove(old(self).keystates@, id)
                &&& r2.occupancy == (if !watch && r.occupancy > 0 {
                    (r.occupancy - 1) as u64
                } else {
                    r.occupancy
                })
                &&& r2.listeners@ == spec_listener_remove(r.listeners@, id)
                &&& r2.id == r.id
                &&& r2.is_playing == r.is_playing
                &&& r2.ranking == r.ranking
                &&& r2.bullets == r.bullets
                &&& r2.finished == r.finished
                &&& r2.all_ready_time == r.all_ready_time
                &&& (spec_has_ship(r.ships@, id) ==> {
                    let k = ship_index_of(r.ships@, id);
                    &&& r2.ships@ == r.ships@.remove(k)
                    &&& r2.player_num_pool@ == r.player_num_pool@.push(r.ships@[k].ship.player_num)
                })
                &&& (!spec_has_ship(r.ships@, id) ==> r2.ships == r.ships && r2.player_num_pool
                    == r.player_num_pool)
            }),
    {
        let idx = match find_room(&self.rooms, room) {
            None => {
                return ;
            },
            Some(i) => i,
        };
        proof {
            lemma_room_index_unique(self.rooms@, room, idx as int);
        }
        if !watch {
            let r = &mut self.rooms[idx];
            if r.occupancy > 0 {
                r.occupancy = r.occupancy - 1;
            }
        }
        match find_ship(&self.rooms[idx].ships, id) {
            Some(k) => {
                proof {
                    lemma_ship_index_unique(self.rooms@[idx as int].ships@, id, k as int);
                }
                let r = &mut self.rooms[idx];
                let num = r.ships[k].ship.player_num;
                r.ships.remove(k);
                r.player_num_pool.push(num);
            },
            None => {},
        }
        remove_keystate(&mut self.keystates, id);
        {
            let r = &mut self.rooms[idx];
            vec_remove_u64(&mut r.listeners, id);
        }
    }

    /// Occupancy of a room; an unknown room reads as zero.
    pub fn get_player_count(&self, room_id: u64) -> (n: u64)
        requires
            self.wf(),
        ensures
            n == if spec_has_room(self.rooms@, room_id) {
                self.rooms@[room_index_of(self.rooms@, room_id)].occupancy
            } else {
                0
            },
    {
        match find_room(&self.rooms, room_id) {
            Some(i) => {
                proof {
                    lemma_room_index_unique(self.rooms@, room_id, i as int);
                }
                self.rooms[i].occupancy
            },
            None => 0,
        }
    }

    /// Whether a room is playing; an unknown room reads as not playing.
    pub fn is_playing(&self, room_id: u64) -> (p: bool)
        requires
            self.wf(),
        ensures
            p == if spec_has_room(self.rooms@, room_id) {
                self.rooms@[room_index_of(self.rooms@, room_id)].is_playing
            } else {
                false
            },
    {
        match find_room(&self.rooms, room_id) {
            Some(i) => {
                proof {
                    lemma_room_index_unique(self.rooms@, room_id, i as int);
                }
                self.rooms[i].is_playing
            },
            None => false,
        }
    }

    /// Ids of the rooms with at least one non-watching occupant.
    pub fn list_rooms(&self) -> (ids: Vec<u64>)
        ensures
            ids@ == self.rooms@.filter(|r: Room| r.occupancy > 0).map_values(|r: Room| r.id),
    {
        let mut ids: Vec<u64> = Vec::new();
        let n = self.rooms.len();
        let mut i: usize = 0;
        proof {
            assert(self.rooms@.take(0).filter(|r: Room| r.occupancy > 0).map_values(
                |r: Room| r.id,
            ) =~= Seq::<u64>::empty()) by {
                assert(self.rooms@.take(0) =~= Seq::<Room>::empty());
                reveal(Seq::filter);
            }
        }
        while i < n
            invariant
                n == self.rooms@.len(),
                i <= n,
                ids@ == self.rooms@.take(i as int).filter(|r: Room| r.occupancy > 0).map_values(
                    |r: Room| r.id,
                ),
            decreases n - i,
        {
            proof {
                lemma_filter_map_take_step(self.rooms@, i as int);
            }
            if self.rooms[i].occupancy > 0 {
                ids.push(self.rooms[i].id);
            }
            i = i + 1;
        }
        proof {
            assert(self.rooms@.take(n as int) =~= self.rooms@);
        }
        ids
    }
}

/// A fresh room is empty, not playing, with the full FIFO pool `[0,1,2,3]`;
/// `like` supplies the Vec shells so the description can stay in the
/// specification world.
pub open spec fn spec_fresh_room_with(like: Room, id: u64) -> Room {
    Room {
        id,
        listeners: like.listeners,
        ships: like.ships,
        bullets: like.bullets,
        is_playing: false,
        ranking: like.ranking,
        player_num_pool: like.player_num_pool,
        occupancy: 0,
        finished: false,
        all_ready_time: None,
    }
}

/// The extra facts `spec_fresh_room_with` cannot carry: the fresh room's
/// containers are empty and its pool is exactly `[0,1,2,3]`.
pub open spec fn spec_fresh_room_contents(r: Room) -> bool {
    &&& r.listeners@.len() == 0
    &&& r.ships@.len() == 0
    &&& r.bullets@.len() == 0
    &&& r.ranking@.len() == 0
    &&& r.player_num_pool@ == seq![0u8, 1u8, 2u8, 3u8]
}

/// Finds the index of the room carrying `id`, scanning in order.
fn find_room(rooms: &Vec<Room>, id: u64) -> (res: Option<usize>)
    ensures
        match res {
            Some(i) => i < rooms@.len() && rooms@[i as int].id == id,
            None => !spec_has_room(rooms@, id),
        },
{
    let n = rooms.len();
    let mut i: usize = 0;
    while i < n
        invariant
            n == rooms@.len(),
            forall|j: int| 0 <= j < i ==> rooms@[j].id != id,
        decreases n - i,
    {
        if rooms[i].id == id {
            return Some(i);
        }
        i = i + 1;
    }
    None
}

/// What a ship looks like right after a lobby join: full lives, at its
/// slot's spawn position, facing up (a quarter turn short of a full one).
pub open spec fn spec_spawned_ship(s: Ship, num: u8, now: u64) -> bool {
    &&& s.player_num == num
    &&& s.color@ == crate::text::spec_color(num as int)
    &&& s.pos == (Vector { x: (150_000 + 100_000 * num as int) as i64, y: 300_000int as i64 })
    &&& s.rad == 3 * (crate::trig::QUARTER_TURN as int)
    &&& s.speed == (Vector { x: 0, y: 0 })
    &&& s.lives == crate::ship::MAX_LIVES
    &&& s.is_alive
    &&& !s.is_accelerating
    &&& !s.is_ready
    &&& s.last_fire_time == now
    &&& s.last_hit_time == now
}

/// Finds the index of the ship slot owned by `id`, scanning in order.
fn find_ship(ships: &Vec<ShipSlot>, id: u64) -> (res: Option<usize>)
    ensures
        match res {
            Some(i) => i < ships@.len() && ships@[i as int].id == id,
            None => !spec_has_ship(ships@, id),
        },
{
    let n = ships.len();
    let mut i: usize = 0;
    while i < n
        invariant
            n == ships@.len(),
            forall|j: int| 0 <= j < i ==> ships@[j].id != id,
        decreases n - i,
    {
        if ships[i].id == id {
            return Some(i);
        }
        i = i + 1;
    }
    None
}

/// Under uniqueness of ship ids, a found index is the model's index.
pub(crate) proof fn lemma_ship_index_unique(ships: Seq<ShipSlot>, id: u64, i: int)
    requires
        0 <= i < ships.len(),
        ships[i].id == id,
        forall|a: int, b: int| 0 <= a < b < ships.len() ==> ships[a].id != ships[b].id,
    ensures
        spec_has_ship(ships, id),
        ship_index_of(ships, id) == i,
{
    assert(spec_has_ship(ships, id));
    let j = ship_index_of(ships, id);
    assert(0 <= j < ships.len() && ships[j].id == id);
    if i < j {
        assert(ships[i].id != ships[j].id);
    } else if j < i {
        assert(ships[j].id != ships[i].id);
    }
}

/// Whether a plain id list contains `x`.
fn vec_contains_u64(v: &Vec<u64>, x: u64) -> (b: bool)
    ensures
        b == v@.contains(x),
{
    let n = v.len();
    let mut i: usize = 0;
    while i < n
        invariant
            n == v@.len(),
            forall|j: int| 0 <= j < i ==> v@[j] != x,
        decreases n - i,
    {
        if v[i] == x {
            assert(v@[i as int] == x);
            return true;
        }
        i = i + 1;
    }
    assert(forall|j: int| 0 <= j < v@.len() ==> v@[j] != x);
    false
}

/// Removes the entry equal to `x` from an id list without duplicates.
fn vec_remove_u64(v: &mut Vec<u64>, x: u64)
    requires
        forall|a: int, b: int| 0 <= a < b < old(v)@.len() ==> old(v)@[a] != old(v)@[b],
    ensures
        final(v)@ == spec_listener_remove(old(v)@, x),
{
    let n = v.len();
    let mut i: usize = 0;
    while i < n
        invariant
            n == v@.len(),
            *v == *old(v),
            forall|a: int, b: int| 0 <= a < b < v@.len() ==> v@[a] != v@[b],
            forall|j: int| 0 <= j < i ==> v@[j] != x,
        decreases n - i,
    {
        if v[i] == x {
            proof {
                let j = choose|j: int| 0 <= j < v@.len() && v@[j] == x;
                if j < i as int {
                    assert(v@[j] != v@[i as int]);
                } else if (i as int) < j {
                    assert(v@[i as int] != v@[j]);
                }
            }
            v.remove(i);
            return ;
        }
        i = i + 1;
    }
    proof {
        assert(!(exists|j: int| 0 <= j < v@.len() && v@[j] == x));
    }
}

/// Removes the key-state entry for `id`, if one exists.
fn remove_keystate(ks: &mut Vec<(u64, KeyState)>, id: u64)
    requires
        forall|a: int, b: int|
            0 <= a < b < old(ks)@.len() ==> old(ks)@[a].0 != old(ks)@[b].0,
    ensures
        final(ks)@ == spec_ks_remove(old(ks)@, id),
        forall|a: int, b: int| 0 <= a < b < final(ks)@.len() ==> final(ks)@[a].0 != final(ks)@[b].0,
{
    let n = ks.len();
    let mut i: usize = 0;
    while i < n
        invariant
            n == ks@.len(),
            *ks == *old(ks),
            forall|a: int, b: int| 0 <= a < b < ks@.len() ==> ks@[a].0 != ks@[b].0,
            forall|j: int| 0 <= j < i ==> ks@[j].0 != id,
        decreases n - i,
    {
        if ks[i].0 == id {
            proof {
                assert(spec_has_keystate(ks@, id));
                let j = ks_index_of(ks@, id);
                assert(0 <= j < ks@.len() && ks@[j].0 == id);
                if j < i as int {
                    assert(ks@[j].0 != ks@[i as int].0);
                } else if (i as int) < j {
                    assert(ks@[i as int].0 != ks@[j].0);
                }
            }
            ks.remove(i);
            return ;
        }
        i = i + 1;
    }
    proof {
        assert(!spec_has_keystate(ks@, id));
    }
}

/// Under uniqueness of room ids, a found index is the model's index.
proof fn lemma_room_index_unique(rooms: Seq<Room>, id: u64, i: int)
    requires
        0 <= i < rooms.len(),
        rooms[i].id == id,
        forall|a: int, b: int| 0 <= a < b < rooms.len() ==> rooms[a].id != rooms[b].id,
    ensures
        spec_has_room(rooms, id),
        room_index_of(rooms, id) == i,
{
    assert(spec_has_room(rooms, id));
    let j = room_index_of(rooms, id);
    assert(0 <= j < rooms.len() && rooms[j].id == id);
    if i < j {
        assert(rooms[i].id != rooms[j].id);
    } else if j < i {
        assert(rooms[j].id != rooms[i].id);
    }
}

/// An in-place update of the entry for `id` realizes the model upsert.
proof fn lemma_ks_upsert_found(ks: Seq<(u64, KeyState)>, id: u64, k: KeyState, i: int)
    requires
        0 <= i < ks.len(),
        ks[i].0 == id,
        forall|a: int, b: int| 0 <= a < b < ks.len() ==> ks[a].0 != ks[b].0,
    ensures
        spec_has_keystate(ks, id),
        ks_index_of(ks, id) == i,
        spec_ks_upsert(ks, id, k) == ks.update(i, (id, k)),
{
    assert(spec_has_keystate(ks, id));
    let j = ks_index_of(ks, id);
    assert(0 <= j < ks.len() && ks[j].0 == id);
    if i < j {
        assert(ks[i].0 != ks[j].0);
    } else if j < i {
        assert(ks[j].0 != ks[i].0);
    }
}

/// One step of the filtered-map over a `take` prefix: taking one more room
/// appends its id exactly when it is occupied.
proof fn lemma_filter_map_take_step(rooms: Seq<Room>, i: int)
    requires
        0 <= i < rooms.len(),
    ensures
        rooms.take(i + 1).filter(|r: Room| r.occupancy > 0).map_values(|r: Room| r.id)
            == if rooms[i].occupancy > 0 {
            rooms.take(i).filter(|r: Room| r.occupancy > 0).map_values(|r: Room| r.id).push(
                rooms[i].id,
            )
        } else {
            rooms.take(i).filter(|r: Room| r.occupancy > 0).map_values(|r: Room| r.id)
        },
{
    let pred = |r: Room| r.occupancy > 0;
    let f = |r: Room| r.id;
    reveal(Seq::filter);
    assert(rooms.take(i + 1).drop_last() =~= rooms.take(i));
    assert(rooms.take(i + 1).last() == rooms[i]);
    if pred(rooms[i]) {
        assert(rooms.take(i + 1).filter(pred) =~= rooms.take(i).filter(pred).push(rooms[i]));
        assert(rooms.take(i).filter(pred).push(rooms[i]).map_values(f) =~= rooms.take(i).filter(
            pred,
        ).map_values(f).push(rooms[i].id));
    } else {
        assert(rooms.take(i + 1).filter(pred) =~= rooms.take(i).filter(pred));
    }
}

// ---------------------------------------------------------------------------
// Laws of the coordinator.
// ---------------------------------------------------------------------------
/// The number a lobby join issues — the front of the room's FIFO pool — is
/// fresh: it differs from the number of every live ship, and from every
/// number already retired into the ranking.
pub proof fn lemma_issued_number_fresh(r: Room, now: u64)
    requires
        r.wf_at(now),
        r.player_num_pool@.len() > 0,
    ensures
        forall|i: int|
            0 <= i < r.ships@.len() ==> (#[trigger] r.ships@[i]).ship.player_num
                != r.player_num_pool@[0],
        forall|i: int| 0 <= i < r.ranking@.len() ==> r.ranking@[i] != r.player_num_pool@[0],
{
}

/// The pool's FIFO discipline: a number freed by a disconnect enters at the
/// back, so with `j` further joins (each popping the front, leaving
/// `skip(1)` of the pool) it is reissued exactly when every number that was
/// queued ahead of it has been issued first.
pub proof fn lemma_freed_number_fifo(pool: Seq<u8>, freed: u8, j: int)
    requires
        0 <= j <= pool.len(),
    ensures
        pool.push(freed).skip(j).len() > 0,
        pool.push(freed).skip(j)[0] == if j < pool.len() {
            pool[j]
        } else {
            freed
        },
        pool.push(freed).skip(j).skip(1) =~= pool.push(freed).skip(j + 1),
{
    assert(pool.push(freed).skip(j)[0] == pool.push(freed)[j]);
}

/// Deleting a room is idempotent: once the room is gone, deleting the same
/// id again changes nothing.
pub proof fn lemma_delete_room_idempotent(rooms: Seq<Room>, id: u64)
    requires
        forall|a: int, b: int| 0 <= a < b < rooms.len() ==> rooms[a].id != rooms[b].id,
    ensures
        spec_delete_rooms(spec_delete_rooms(rooms, id), id) == spec_delete_rooms(rooms, id),
{
    if spec_has_room(rooms, id) {
        let i = room_index_of(rooms, id);
        let rest = rooms.remove(i);
        assert forall|k: int| 0 <= k < rest.len() implies rest[k].id != id by {
            if k < i {
                assert(rest[k] == rooms[k]);
                assert(rooms[k].id != rooms[i].id);
            } else {
                assert(rest[k] == rooms[k + 1]);
                assert(rooms[i].id != rooms[k + 1].id);
            }
        }
        assert(!spec_has_room(rest, id));
    }
}

} // verus!
