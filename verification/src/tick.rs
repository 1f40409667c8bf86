//! The simulation tick: the fixed-cadence engine that advances every room
//! through its per-ship, countdown, bullet, collision, broadcast,
//! elimination and end-of-game phases, with the relation each tick is
//! proved to satisfy, and the countdown law built on it.

use crate::bullet::Bullet;
use crate::keystate::KeyState;
use crate::server::{
    ks_index_of, lemma_objs_match_concat, lemma_ship_index_unique, ship_index_of,
    spec_has_keystate, spec_has_ship, spec_keystate_of, spec_obj_matches, spec_objs_match,
    spec_out_to_listeners, GameObject, GameServer, Message, ObjModel, Room, ShipSlot,
    COUNTDOWN_TICKS,
};
use crate::ship::Ship;
use crate::text::{spec_color, spec_ordinal, spec_player_digit, Text};
use crate::trig::{spec_cos, spec_sin, TRIG_ONE, TURN};
use crate::vector::{wrap_val, Vector};
use vstd::prelude::*;

verus! {

// ---------------------------------------------------------------------------
// The simulation tick: specification relations.
// ---------------------------------------------------------------------------
/// Whether a room's lobby is all-ready: more than one ship, every one of
/// them flagged ready before this tick.
pub open spec fn spec_all_ready(r: Room) -> bool {
    r.ships@.len() > 1 && forall|i: int|
        0 <= i < r.ships@.len() ==> (#[trigger] r.ships@[i]).ship.is_ready
}

/// One tick of the countdown state machine on `(is_playing,
/// all_ready_time)`: the all-ready observation is recorded once, and one
/// second after the recorded tick the room flips to playing.
pub open spec fn spec_countdown_step(
    playing: bool,
    since: Option<u64>,
    all_ready: bool,
    now: u64,
) -> (bool, Option<u64>) {
    let s1 = if all_ready && !playing && since is None {
        Some(now)
    } else {
        since
    };
    match s1 {
        Some(t) => if now > t + COUNTDOWN_TICKS {
            (true, None::<u64>)
        } else {
            (playing, s1)
        },
        None => (playing, None::<u64>),
    }
}

/// A lobby ship after one tick: holding fire latches the ready flag; nothing
/// else moves.
pub open spec fn spec_lobby_latched(s: Ship, k: KeyState) -> Ship {
    Ship { is_ready: s.is_ready || k.space, ..s }
}

/// An alive ship in a playing room after its frame: moved under its keys,
/// with the cooldown timestamp advanced if it fired.
pub open spec fn spec_moved_and_fired(s: Ship, k: KeyState, now: u64) -> Ship {
    let m = Ship::spec_moved(Ship { is_accelerating: k.up, ..s }, k);
    if k.space && now > s.last_fire_time + crate::ship::CHARGE_TICKS {
        Ship { last_fire_time: now, ..m }
    } else {
        m
    }
}

/// The fields a relocation cannot change, and what it promises of the rest:
/// a spot inside the arena, a heading inside the turn, zero velocity.
pub open spec fn spec_relocated(base: Ship, s2: Ship) -> bool {
    &&& s2.player_num == base.player_num
    &&& s2.color == base.color
    &&& s2.lives == base.lives
    &&& s2.is_alive == base.is_alive
    &&& s2.is_accelerating == base.is_accelerating
    &&& s2.is_ready == base.is_ready
    &&& s2.last_fire_time == base.last_fire_time
    &&& s2.last_hit_time == base.last_hit_time
    &&& 0 <= s2.pos.x < crate::vector::WIDTH
    &&& 0 <= s2.pos.y < crate::vector::HEIGHT
    &&& 0 <= s2.rad < TURN
    &&& s2.speed == (Vector { x: 0, y: 0 })
}

/// One ship's frame, from its pre-tick state to its pre-collision state.
/// In the lobby (`!playing`) only the ready latch can change, plus a
/// relocation when the countdown fired this tick (`started`). In play an
/// alive ship moves deterministically; a dead one either waits or revives
/// at a random spot.
pub open spec fn spec_ship_frame_rel(
    s: Ship,
    s2: Ship,
    k: KeyState,
    now: u64,
    playing: bool,
    started: bool,
) -> bool {
    if !playing {
        if started {
            spec_relocated(spec_lobby_latched(s, k), s2)
        } else {
            s2 == spec_lobby_latched(s, k)
        }
    } else {
        if s.is_alive {
            s2 == spec_moved_and_fired(s, k, now)
        } else if now > s.last_hit_time + crate::ship::RESPAWN_TICKS {
            // a revived ship may fire in the same tick it comes back
            spec_relocated(
                Ship {
                    lives: (s.lives - 1) as u32,
                    is_alive: true,
                    is_accelerating: k.up,
                    last_fire_time: if k.space && now > s.last_fire_time
                        + crate::ship::CHARGE_TICKS {
                        now
                    } else {
                        s.last_fire_time
                    },
                    ..s
                },
                s2,
            )
        } else {
            s2 == (Ship { is_accelerating: k.up, ..s })
        }
    }
}

/// Whether a ship fires during its frame: the room is playing, fire is
/// held, the ship is alive after its frame (`s1`), and the cooldown since
/// its last shot (`s0`) has elapsed.
pub open spec fn spec_fires(s0: Ship, s1: Ship, k: KeyState, now: u64, playing: bool) -> bool {
    playing && k.space && s1.is_alive && now > s0.last_fire_time + crate::ship::CHARGE_TICKS
}

/// The bullet a ship fires, read off its post-frame state: the ship's
/// color, one muzzle offset ahead of its position, moving at the fixed
/// bullet speed along its heading.
pub open spec fn spec_fired_bullet(s1: Ship) -> Bullet {
    Bullet {
        color: s1.color,
        pos: crate::vector::spec_add(
            s1.pos,
            crate::vector::spec_rotated(
                Vector { x: crate::ship::FIRE_OFFSET, y: 0 },
                s1.rad as int,
            ),
        ),
        speed: Vector {
            x: wrap_val(
                crate::bullet::SPEED_SIZE * spec_cos(s1.rad as int) / (TRIG_ONE as int),
            ) as i64,
            y: wrap_val(
                crate::bullet::SPEED_SIZE * spec_sin(s1.rad as int) / (TRIG_ONE as int),
            ) as i64,
        },
    }
}

/// The bullets the ships of a room fire this tick, in table order: `pre` is
/// the table before the tick, `mid` the same ships after their frames.
pub open spec fn spec_fired_bullets(
    pre: Seq<ShipSlot>,
    mid: Seq<ShipSlot>,
    ks: Seq<(u64, KeyState)>,
    now: u64,
    playing: bool,
) -> Seq<Bullet>
    decreases pre.len(),
{
    if pre.len() == 0 || mid.len() == 0 {
        Seq::<Bullet>::empty()
    } else if spec_fires(
        pre.last().ship,
        mid.last().ship,
        spec_keystate_of(ks, pre.last().id),
        now,
        playing,
    ) {
        spec_fired_bullets(pre.drop_last(), mid.drop_last(), ks, now, playing).push(
            spec_fired_bullet(mid.last().ship),
        )
    } else {
        spec_fired_bullets(pre.drop_last(), mid.drop_last(), ks, now, playing)
    }
}

/// The model of the READY label shown over a ready lobby ship.
pub open spec fn spec_ready_model(s: Ship) -> ObjModel {
    ObjModel::TextObj {
        color: s.color@,
        pos: Vector { x: s.pos.x, y: wrap_val(s.pos.y + 40_000) as i64 },
        text: "READY"@,
    }
}

/// The models of the three personalized lobby labels for player slot `num`:
/// the player-number announcement, the YOU marker, and the ready prompt.
pub open spec fn spec_personal_models(num: u8) -> Seq<ObjModel> {
    seq![
        ObjModel::TextObj {
            color: spec_color(num as int),
            pos: Vector { x: 300_000, y: 100_000 },
            text: "You are Player "@ + spec_player_digit(num as int),
        },
        ObjModel::TextObj {
            color: spec_color(num as int),
            pos: Vector { x: (150_000 + 100_000 * num as int) as i64, y: 250_000 },
            text: "YOU"@,
        },
        ObjModel::TextObj {
            color: spec_color(num as int),
            pos: Vector { x: 300_000, y: 500_000 },
            text: "Space to Ready"@,
        },
    ]
}

/// What one slot contributes to the broadcast: in the lobby a READY label
/// over an already-ready ship, then the latched ship; in play the ship
/// after its frame, left out once its lives are gone.
pub open spec fn spec_slot_models(p: ShipSlot, m: ShipSlot, k: KeyState, playing: bool) -> Seq<
    ObjModel,
> {
    let shown = if playing {
        m.ship
    } else {
        spec_lobby_latched(p.ship, k)
    };
    (if !playing && p.ship.is_ready {
        seq![spec_ready_model(p.ship)]
    } else {
        Seq::<ObjModel>::empty()
    }) + (if shown.lives != 0 {
        seq![ObjModel::ShipObj { data: shown }]
    } else {
        Seq::<ObjModel>::empty()
    })
}

/// The ship-derived broadcast objects of one tick, in table order: `pre` is
/// the table before the tick, `mid` the same ships after their frames.
pub open spec fn spec_frame_models(
    pre: Seq<ShipSlot>,
    mid: Seq<ShipSlot>,
    ks: Seq<(u64, KeyState)>,
    playing: bool,
) -> Seq<ObjModel>
    decreases pre.len(),
{
    if pre.len() == 0 || mid.len() == 0 {
        Seq::<ObjModel>::empty()
    } else {
        spec_frame_models(pre.drop_last(), mid.drop_last(), ks, playing) + spec_slot_models(
            pre.last(),
            mid.last(),
            spec_keystate_of(ks, pre.last().id),
            playing,
        )
    }
}

/// The bullet broadcast objects: one per surviving moved bullet, in order.
pub open spec fn spec_bullet_models(bs: Seq<Bullet>) -> Seq<ObjModel> {
    bs.map_values(|b: Bullet| ObjModel::BulletObj { data: b })
}

/// The personalized labels a listener receives with its broadcast: only in
/// a lobby, and only for the player whose ship it is.
pub open spec fn spec_personal_for(r: Room, lid: u64) -> Seq<ObjModel> {
    if !r.is_playing && spec_has_ship(r.ships@, lid) {
        spec_personal_models(r.ships@[ship_index_of(r.ships@, lid)].ship.player_num)
    } else {
        Seq::<ObjModel>::empty()
    }
}

/// The finish broadcast: the ranking read back to front — winner first —
/// as one ordinal label per player, then the game-over banner.
pub open spec fn spec_finish_models(ranking: Seq<u8>) -> Seq<ObjModel> {
    Seq::new(
        ranking.len(),
        |i: int|
            ObjModel::TextObj {
                color: spec_color(ranking[ranking.len() - 1 - i] as int),
                pos: Vector { x: 300_000, y: (200_000 + 50_000 * i) as i64 },
                text: spec_ordinal(i) + " Player"@ + spec_player_digit(
                    ranking[ranking.len() - 1 - i] as int,
                ),
            },
    ).push(
        ObjModel::TextObj {
            color: spec_color(0),
            pos: Vector { x: 300_000, y: 100_000 },
            text: "GAME OVER"@,
        },
    )
}

/// Whether any bullet of the list is inside the ship's hit radius.
pub open spec fn spec_hit(s: Ship, bs: Seq<Bullet>) -> bool {
    exists|i: int|
        0 <= i < bs.len() && crate::vector::spec_dist2(s.pos, bs[i].pos) < (
        crate::ship::HIT_AREA_RADIUS as int) * (crate::ship::HIT_AREA_RADIUS as int)
}

/// A ship after collision resolution against a bullet list: a hit sets it
/// not-alive and refreshes its last-hit tick; repeated hits change nothing
/// more.
pub open spec fn spec_collided(s: Ship, bs: Seq<Bullet>, now: u64) -> Ship {
    if spec_hit(s, bs) {
        Ship { is_alive: false, last_hit_time: now, ..s }
    } else {
        s
    }
}

/// A bullet advanced by one fixed-velocity step.
pub open spec fn spec_moved_bullet(b: Bullet) -> Bullet {
    Bullet { pos: crate::vector::spec_add(b.pos, b.speed), ..b }
}

/// The bullet phase: bullets whose aliveness check fails are dropped, the
/// survivors advance one step.
pub open spec fn spec_bullets_step(bs: Seq<Bullet>) -> Seq<Bullet> {
    bs.filter(|b: Bullet| b.spec_alive()).map_values(|b: Bullet| spec_moved_bullet(b))
}

/// The slots that survive elimination: their life counter has not reached
/// zero.
pub open spec fn spec_survivors(ships: Seq<ShipSlot>) -> Seq<ShipSlot> {
    ships.filter(|e: ShipSlot| e.ship.lives != 0)
}

/// The player numbers of the slots eliminated this tick, in table order.
pub open spec fn spec_eliminated_nums(ships: Seq<ShipSlot>) -> Seq<u8> {
    ships.filter(|e: ShipSlot| e.ship.lives == 0).map_values(|e: ShipSlot| e.ship.player_num)
}

/// The bookkeeping half of the tick relation: the fields a tick preserves,
/// the exact countdown step, and the bullets' well-formedness.
pub open spec fn spec_room_tick_book(r: Room, r2: Room, now: u64) -> bool {
    let step = spec_countdown_step(r.is_playing, r.all_ready_time, spec_all_ready(r), now);
    &&& r2.id == r.id
    &&& r2.listeners == r.listeners
    &&& r2.occupancy == r.occupancy
    &&& r2.player_num_pool == r.player_num_pool
    &&& r2.is_playing == step.0
    &&& r2.all_ready_time == step.1
    &&& (forall|i: int| 0 <= i < r2.bullets@.len() ==> (#[trigger] r2.bullets@[i]).wf())
    &&& (!step.0 ==> r2.bullets@.len() == 0)
}

/// How one tick relates a room's pre-state `r` to its post-state `r2`,
/// given the key-state table and the tick `now`. A finished room is
/// untouched. Otherwise: bookkeeping fields are preserved, the countdown
/// state steps exactly, and the ships pass through their frame (witnessed
/// by `mid`), collisions against the surviving bullets, elimination, and
/// possibly the end of the game.
pub open spec fn spec_room_tick_rel(r: Room, r2: Room, ks: Seq<(u64, KeyState)>, now: u64) -> bool {
    if r.finished {
        r2 == r
    } else {
        &&& spec_room_tick_book(r, r2, now)
        &&& exists|mid: Seq<ShipSlot>| spec_room_ships_rel(r, r2, ks, now, mid)
    }
}

/// The messages one room owes for one tick, `mid` being the ships'
/// post-frame states: one Objects message per listener, in listener order,
/// carrying the frame's objects, the stepped bullets, and the addressee's
/// personalized lobby labels; when the game ends this tick, one Finish
/// message per listener follows, carrying the reversed ranking and the
/// game-over banner.
pub open spec fn spec_room_out_rel(
    r: Room,
    r2: Room,
    ks: Seq<(u64, KeyState)>,
    mid: Seq<ShipSlot>,
    msgs: Seq<(u64, Message)>,
) -> bool {
    let ln = r.listeners@.len() as int;
    let models = spec_frame_models(r.ships@, mid, ks, r.is_playing) + spec_bullet_models(
        r2.bullets@,
    );
    &&& msgs.len() == ln + if r2.finished {
        ln
    } else {
        0int
    }
    &&& (forall|j: int|
        0 <= j < ln ==> {
            &&& (#[trigger] msgs[j]).0 == r.listeners@[j]
            &&& msgs[j].1 is Objects
            &&& spec_objs_match(
                msgs[j].1->Objects_data@,
                models + spec_personal_for(r, r.listeners@[j]),
            )
        })
    &&& (r2.finished ==> forall|j: int|
        0 <= j < ln ==> {
            &&& (#[trigger] msgs[ln + j]).0 == r.listeners@[j]
            &&& msgs[ln + j].1 is Finish
            &&& spec_objs_match(msgs[ln + j].1->Finish_data@, spec_finish_models(r2.ranking@))
        })
}

/// The tick relation together with the room's outbound messages: a
/// finished room is untouched and sends nothing; any other room steps by
/// the tick relation and owes exactly the messages of `spec_room_out_rel`,
/// built from the same post-frame ship states.
pub open spec fn spec_room_tick_msgs(
    r: Room,
    r2: Room,
    ks: Seq<(u64, KeyState)>,
    now: u64,
    msgs: Seq<(u64, Message)>,
) -> bool {
    if r.finished {
        r2 == r && msgs.len() == 0
    } else {
        &&& spec_room_tick_book(r, r2, now)
        &&& exists|mid: Seq<ShipSlot>|
            #[trigger] spec_room_ships_rel(r, r2, ks, now, mid) && spec_room_out_rel(
                r,
                r2,
                ks,
                mid,
                msgs,
            )
    }
}

/// The ships' part of the tick relation, witnessed by their pre-collision
/// states `mid`: every ship passes through its frame, then collides against
/// the surviving bullets; ships whose lives ran out leave for the ranking;
/// with one survivor in a playing room the game ends.
pub open spec fn spec_room_ships_rel(
    r: Room,
    r2: Room,
    ks: Seq<(u64, KeyState)>,
    now: u64,
    mid: Seq<ShipSlot>,
) -> bool {
    let step = spec_countdown_step(r.is_playing, r.all_ready_time, spec_all_ready(r), now);
    let started = step.0 && !r.is_playing;
    let after = Seq::new(
        mid.len(),
        |i: int| ShipSlot { id: mid[i].id, ship: spec_collided(mid[i].ship, r2.bullets@, now) },
    );
    let survivors = spec_survivors(after);
    let fin = r2.is_playing && survivors.len() == 1;
    &&& mid.len() == r.ships@.len()
    &&& (forall|i: int| 0 <= i < mid.len() ==> (#[trigger] mid[i]).id == r.ships@[i].id)
    &&& (forall|i: int|
        0 <= i < mid.len() ==> spec_ship_frame_rel(
            r.ships@[i].ship,
            (#[trigger] mid[i]).ship,
            spec_keystate_of(ks, r.ships@[i].id),
            now,
            r.is_playing,
            started,
        ))
    &&& r2.finished == fin
    &&& (fin ==> r2.ranking@ == r.ranking@ + spec_eliminated_nums(after) + seq![
        survivors[0].ship.player_num,
    ] && r2.ships@.len() == 0)
    &&& (!fin ==> r2.ranking@ == r.ranking@ + spec_eliminated_nums(after) && r2.ships@
        == survivors)
    // the post-tick bullets: the old list plus this tick's fired bullets,
    // the dead ones dropped and the survivors advanced one step
    &&& r2.bullets@ == spec_bullets_step(
        r.bullets@ + spec_fired_bullets(r.ships@, mid, ks, now, r.is_playing),
    )
}


// ---------------------------------------------------------------------------
// The simulation tick: helper lemmas.
// ---------------------------------------------------------------------------
/// The bullet phase over one more bullet of the prefix: the bullet joins the
/// output, advanced one step, exactly when it is alive.
proof fn lemma_bullets_step_take(bs: Seq<Bullet>, i: int)
    requires
        0 <= i < bs.len(),
    ensures
        spec_bullets_step(bs.take(i + 1)) == if bs[i].spec_alive() {
            spec_bullets_step(bs.take(i)).push(spec_moved_bullet(bs[i]))
        } else {
            spec_bullets_step(bs.take(i))
        },
{
    let pred = |b: Bullet| b.spec_alive();
    let f = |b: Bullet| spec_moved_bullet(b);
    reveal(Seq::filter);
    assert(bs.take(i + 1).drop_last() =~= bs.take(i));
    assert(bs.take(i + 1).last() == bs[i]);
    if pred(bs[i]) {
        assert(bs.take(i + 1).filter(pred) =~= bs.take(i).filter(pred).push(bs[i]));
        assert(bs.take(i).filter(pred).push(bs[i]).map_values(f) =~= bs.take(i).filter(
            pred,
        ).map_values(f).push(f(bs[i])));
    } else {
        assert(bs.take(i + 1).filter(pred) =~= bs.take(i).filter(pred));
    }
}

/// The elimination phase over one more slot of the prefix: the slot joins
/// the survivors or its number joins the eliminated, by its life counter.
proof fn lemma_elim_take_step(ships: Seq<ShipSlot>, i: int)
    requires
        0 <= i < ships.len(),
    ensures
        spec_survivors(ships.take(i + 1)) == if ships[i].ship.lives != 0 {
            spec_survivors(ships.take(i)).push(ships[i])
        } else {
            spec_survivors(ships.take(i))
        },
        spec_eliminated_nums(ships.take(i + 1)) == if ships[i].ship.lives == 0 {
            spec_eliminated_nums(ships.take(i)).push(ships[i].ship.player_num)
        } else {
            spec_eliminated_nums(ships.take(i))
        },
{
    let alive = |e: ShipSlot| e.ship.lives != 0;
    let dead = |e: ShipSlot| e.ship.lives == 0;
    let f = |e: ShipSlot| e.ship.player_num;
    reveal(Seq::filter);
    assert(ships.take(i + 1).drop_last() =~= ships.take(i));
    assert(ships.take(i + 1).last() == ships[i]);
    if alive(ships[i]) {
        assert(ships.take(i + 1).filter(alive) =~= ships.take(i).filter(alive).push(ships[i]));
        assert(ships.take(i + 1).filter(dead) =~= ships.take(i).filter(dead));
    } else {
        assert(ships.take(i + 1).filter(alive) =~= ships.take(i).filter(alive));
        assert(ships.take(i + 1).filter(dead) =~= ships.take(i).filter(dead).push(ships[i]));
        assert(ships.take(i).filter(dead).push(ships[i]).map_values(f) =~= ships.take(i).filter(
            dead,
        ).map_values(f).push(f(ships[i])));
    }
}

/// A hit against one more bullet of the prefix: either an earlier bullet
/// already hit, or this one is inside the radius.
proof fn lemma_hit_take_step(s: Ship, bs: Seq<Bullet>, j: int)
    requires
        0 <= j < bs.len(),
    ensures
        spec_hit(s, bs.take(j + 1)) == (spec_hit(s, bs.take(j))
            || crate::vector::spec_dist2(s.pos, bs[j].pos) < (crate::ship::HIT_AREA_RADIUS as int)
            * (crate::ship::HIT_AREA_RADIUS as int)),
{
    let r2 = (crate::ship::HIT_AREA_RADIUS as int) * (crate::ship::HIT_AREA_RADIUS as int);
    if spec_hit(s, bs.take(j))
        || crate::vector::spec_dist2(s.pos, bs[j].pos) < r2 {
        if spec_hit(s, bs.take(j)) {
            let k = choose|k: int|
                #![trigger bs.take(j)[k]]
                0 <= k < bs.take(j).len() && crate::vector::spec_dist2(
                    s.pos,
                    bs.take(j)[k].pos,
                ) < r2;
            assert(bs.take(j + 1)[k] == bs.take(j)[k]);
            assert(crate::vector::spec_dist2(s.pos, bs.take(j + 1)[k].pos) < r2);
        } else {
            assert(bs.take(j + 1)[j] == bs[j]);
            assert(crate::vector::spec_dist2(s.pos, bs.take(j + 1)[j].pos) < r2);
        }
    }
    if spec_hit(s, bs.take(j + 1)) {
        let k = choose|k: int|
            #![trigger bs.take(j + 1)[k]]
            0 <= k < bs.take(j + 1).len() && crate::vector::spec_dist2(
                s.pos,
                bs.take(j + 1)[k].pos,
            ) < r2;
        if k < j {
            assert(bs.take(j)[k] == bs.take(j + 1)[k]);
            assert(crate::vector::spec_dist2(s.pos, bs.take(j)[k].pos) < r2);
        } else {
            assert(bs.take(j + 1)[k] == bs[j]);
        }
    }
}

/// Elimination splits a slot table without loss: survivors and eliminated
/// numbers together count the whole table; survivors come from the table,
/// keep distinct ids, and the eliminated numbers come from the table too.
proof fn lemma_elim_split(ships: Seq<ShipSlot>)
    requires
        forall|a: int, b: int| 0 <= a < b < ships.len() ==> ships[a].id != ships[b].id,
    ensures
        spec_survivors(ships).len() + spec_eliminated_nums(ships).len() == ships.len(),
        forall|a: int, b: int|
            0 <= a < b < spec_survivors(ships).len() ==> spec_survivors(ships)[a].id
                != spec_survivors(ships)[b].id,
        forall|i: int|
            0 <= i < spec_survivors(ships).len() ==> exists|j: int|
                0 <= j < ships.len() && #[trigger] spec_survivors(ships)[i] == ships[j],
        forall|i: int|
            0 <= i < spec_eliminated_nums(ships).len() ==> exists|j: int|
                0 <= j < ships.len() && #[trigger] spec_eliminated_nums(ships)[i]
                    == ships[j].ship.player_num,
        (forall|i: int| 0 <= i < ships.len() ==> (#[trigger] ships[i]).ship.lives != 0)
            ==> spec_survivors(ships) == ships,
    decreases ships.len(),
{
    let alive = |e: ShipSlot| e.ship.lives != 0;
    let dead = |e: ShipSlot| e.ship.lives == 0;
    let f = |e: ShipSlot| e.ship.player_num;
    reveal(Seq::filter);
    if ships.len() == 0 {
        assert(ships =~= Seq::<ShipSlot>::empty());
        assert(spec_survivors(ships) =~= ships);
    } else {
        let d = ships.drop_last();
        let x = ships.last();
        lemma_elim_split(d);
        assert(ships.filter(dead).map_values(f).len() == ships.filter(dead).len());
        assert(d.filter(dead).map_values(f).len() == d.filter(dead).len());
        if alive(x) {
            assert(spec_survivors(ships) =~= spec_survivors(d).push(x));
            assert(spec_eliminated_nums(ships) =~= spec_eliminated_nums(d));
            if forall|i: int| 0 <= i < ships.len() ==> (#[trigger] ships[i]).ship.lives != 0 {
                assert(forall|i: int|
                    0 <= i < d.len() ==> (#[trigger] d[i]).ship.lives != 0) by {
                    assert(forall|i: int| 0 <= i < d.len() ==> d[i] == ships[i]);
                }
                assert(spec_survivors(d).push(x) =~= ships);
            }
            assert forall|a: int, b: int|
                0 <= a < b < spec_survivors(ships).len() implies spec_survivors(ships)[a].id
                != spec_survivors(ships)[b].id by {
                if b < spec_survivors(ships).len() - 1 {
                } else {
                    // the new last is the table's last; the other survivor is
                    // some earlier table entry, whose id differs
                    let j = choose|j: int|
                        0 <= j < d.len() && #[trigger] spec_survivors(d)[a] == d[j];
                    assert(ships[j] == d[j]);
                    assert(ships[j].id != x.id);
                }
            }
            assert forall|i: int|
                0 <= i < spec_survivors(ships).len() implies exists|j: int|
                0 <= j < ships.len() && #[trigger] spec_survivors(ships)[i] == ships[j] by {
                if i < spec_survivors(ships).len() - 1 {
                    let j = choose|j: int|
                        0 <= j < d.len() && #[trigger] spec_survivors(d)[i] == d[j];
                    assert(spec_survivors(ships)[i] == ships[j]);
                } else {
                    assert(spec_survivors(ships)[i] == ships[ships.len() - 1]);
                }
            }
            assert forall|i: int|
                0 <= i < spec_eliminated_nums(ships).len() implies exists|j: int|
                0 <= j < ships.len() && #[trigger] spec_eliminated_nums(ships)[i]
                == ships[j].ship.player_num by {
                let j = choose|j: int|
                    0 <= j < d.len() && #[trigger] spec_eliminated_nums(d)[i]
                        == d[j].ship.player_num;
                assert(spec_eliminated_nums(ships)[i] == ships[j].ship.player_num);
            }
        } else {
            assert(spec_survivors(ships) =~= spec_survivors(d));
            assert(spec_eliminated_nums(ships) =~= spec_eliminated_nums(d).push(f(x)));
            assert forall|i: int|
                0 <= i < spec_survivors(ships).len() implies exists|j: int|
                0 <= j < ships.len() && #[trigger] spec_survivors(ships)[i] == ships[j] by {
                let j = choose|j: int|
                    0 <= j < d.len() && #[trigger] spec_survivors(d)[i] == d[j];
                assert(spec_survivors(ships)[i] == ships[j]);
            }
            assert forall|i: int|
                0 <= i < spec_eliminated_nums(ships).len() implies exists|j: int|
                0 <= j < ships.len() && #[trigger] spec_eliminated_nums(ships)[i]
                == ships[j].ship.player_num by {
                if i < spec_eliminated_nums(ships).len() - 1 {
                    let j = choose|j: int|
                        0 <= j < d.len() && #[trigger] spec_eliminated_nums(d)[i]
                            == d[j].ship.player_num;
                    assert(spec_eliminated_nums(ships)[i] == ships[j].ship.player_num);
                } else {
                    assert(spec_eliminated_nums(ships)[i] == ships[ships.len()
                        - 1].ship.player_num);
                }
            }
        }
    }
}

/// Elimination keeps player numbers distinct: with pairwise-distinct numbers
/// in the table, the survivors' numbers, the eliminated numbers, and either
/// side against the other stay pairwise distinct, and every number on either
/// side is some table entry's number.
proof fn lemma_elim_nums(ships: Seq<ShipSlot>)
    requires
        forall|a: int, b: int|
            0 <= a < b < ships.len() ==> ships[a].ship.player_num != ships[b].ship.player_num,
    ensures
        forall|i: int|
            0 <= i < spec_survivors(ships).len() ==> exists|j: int|
                0 <= j < ships.len() && #[trigger] spec_survivors(ships)[i] == ships[j],
        forall|i: int|
            0 <= i < spec_eliminated_nums(ships).len() ==> exists|j: int|
                0 <= j < ships.len() && #[trigger] spec_eliminated_nums(ships)[i]
                    == ships[j].ship.player_num,
        forall|a: int, b: int|
            0 <= a < b < spec_survivors(ships).len() ==> spec_survivors(
                ships,
            )[a].ship.player_num != spec_survivors(ships)[b].ship.player_num,
        forall|a: int, b: int|
            0 <= a < b < spec_eliminated_nums(ships).len() ==> spec_eliminated_nums(ships)[a]
                != spec_eliminated_nums(ships)[b],
        forall|a: int, b: int|
            #![trigger spec_survivors(ships)[a], spec_eliminated_nums(ships)[b]]
            0 <= a < spec_survivors(ships).len() && 0 <= b < spec_eliminated_nums(ships).len()
                ==> spec_survivors(ships)[a].ship.player_num != spec_eliminated_nums(ships)[b],
    decreases ships.len(),
{
    let alive = |e: ShipSlot| e.ship.lives != 0;
    let dead = |e: ShipSlot| e.ship.lives == 0;
    let f = |e: ShipSlot| e.ship.player_num;
    reveal(Seq::filter);
    if ships.len() == 0 {
        assert(ships =~= Seq::<ShipSlot>::empty());
        assert(spec_survivors(ships) =~= Seq::<ShipSlot>::empty());
        assert(spec_eliminated_nums(ships) =~= Seq::<u8>::empty());
    } else {
        let d = ships.drop_last();
        let x = ships.last();
        assert(forall|i: int| 0 <= i < d.len() ==> d[i] == ships[i]);
        lemma_elim_nums(d);
        assert(ships.filter(dead).map_values(f).len() == ships.filter(dead).len());
        assert(d.filter(dead).map_values(f).len() == d.filter(dead).len());
        let sv = spec_survivors(ships);
        let el = spec_eliminated_nums(ships);
        if alive(x) {
            assert(sv =~= spec_survivors(d).push(x));
            assert(el =~= spec_eliminated_nums(d));
            assert forall|i: int| 0 <= i < sv.len() implies exists|j: int|
                0 <= j < ships.len() && #[trigger] sv[i] == ships[j] by {
                if i < sv.len() - 1 {
                    let j = choose|j: int| 0 <= j < d.len() && #[trigger] spec_survivors(d)[i] == d[j];
                    assert(sv[i] == ships[j]);
                } else {
                    assert(sv[i] == ships[ships.len() - 1]);
                }
            }
            assert forall|i: int| 0 <= i < el.len() implies exists|j: int|
                0 <= j < ships.len() && #[trigger] el[i] == ships[j].ship.player_num by {
                let j = choose|j: int|
                    0 <= j < d.len() && #[trigger] spec_eliminated_nums(d)[i]
                        == d[j].ship.player_num;
                assert(el[i] == ships[j].ship.player_num);
            }
            assert forall|a: int, b: int|
                0 <= a < b < sv.len() implies sv[a].ship.player_num != sv[b].ship.player_num by {
                if b == sv.len() - 1 {
                    let j = choose|j: int| 0 <= j < d.len() && #[trigger] spec_survivors(d)[a] == d[j];
                    assert(ships[j].ship.player_num != x.ship.player_num);
                }
            }
            assert forall|a: int, b: int|
                0 <= a < sv.len() && 0 <= b < el.len() implies #[trigger] sv[a].ship.player_num
                != #[trigger] el[b] by {
                if a == sv.len() - 1 {
                    let j = choose|j: int|
                        0 <= j < d.len() && #[trigger] spec_eliminated_nums(d)[b]
                            == d[j].ship.player_num;
                    assert(ships[j].ship.player_num != x.ship.player_num);
                } else {
                    assert(spec_survivors(d)[a].ship.player_num != spec_eliminated_nums(d)[b]);
                }
            }
        } else {
            assert(sv =~= spec_survivors(d));
            assert(el =~= spec_eliminated_nums(d).push(f(x)));
            assert forall|i: int| 0 <= i < sv.len() implies exists|j: int|
                0 <= j < ships.len() && #[trigger] sv[i] == ships[j] by {
                let j = choose|j: int| 0 <= j < d.len() && #[trigger] spec_survivors(d)[i] == d[j];
                assert(sv[i] == ships[j]);
            }
            assert forall|i: int| 0 <= i < el.len() implies exists|j: int|
                0 <= j < ships.len() && #[trigger] el[i] == ships[j].ship.player_num by {
                if i < el.len() - 1 {
                    let j = choose|j: int|
                        0 <= j < d.len() && #[trigger] spec_eliminated_nums(d)[i]
                            == d[j].ship.player_num;
                    assert(el[i] == ships[j].ship.player_num);
                } else {
                    assert(el[i] == ships[ships.len() - 1].ship.player_num);
                }
            }
            assert forall|a: int, b: int|
                0 <= a < b < el.len() implies el[a] != el[b] by {
                if b == el.len() - 1 {
                    let j = choose|j: int|
                        0 <= j < d.len() && #[trigger] spec_eliminated_nums(d)[a]
                            == d[j].ship.player_num;
                    assert(ships[j].ship.player_num != x.ship.player_num);
                }
            }
            assert forall|a: int, b: int|
                0 <= a < sv.len() && 0 <= b < el.len() implies #[trigger] sv[a].ship.player_num
                != #[trigger] el[b] by {
                if b == el.len() - 1 {
                    let j = choose|j: int| 0 <= j < d.len() && #[trigger] spec_survivors(d)[a] == d[j];
                    assert(ships[j].ship.player_num != x.ship.player_num);
                } else {
                    assert(spec_survivors(d)[a].ship.player_num != spec_eliminated_nums(d)[b]);
                }
            }
        }
    }
}

/// In a lobby no ship fires: the fired-bullet list is empty whatever the
/// post-frame states are.
proof fn lemma_fired_bullets_lobby(
    pre: Seq<ShipSlot>,
    mid: Seq<ShipSlot>,
    ks: Seq<(u64, KeyState)>,
    now: u64,
)
    ensures
        spec_fired_bullets(pre, mid, ks, now, false) == Seq::<Bullet>::empty(),
    decreases pre.len(),
{
    if pre.len() != 0 && mid.len() != 0 {
        lemma_fired_bullets_lobby(pre.drop_last(), mid.drop_last(), ks, now);
    }
}

/// The fired bullets of one more slot of the prefix: the slot's bullet
/// joins the list exactly when its ship fires.
proof fn lemma_fired_bullets_take(
    pre: Seq<ShipSlot>,
    mid: Seq<ShipSlot>,
    ks: Seq<(u64, KeyState)>,
    now: u64,
    playing: bool,
    i: int,
)
    requires
        0 <= i < pre.len(),
        i < mid.len(),
    ensures
        spec_fired_bullets(pre.take(i + 1), mid.take(i + 1), ks, now, playing) == if spec_fires(
            pre[i].ship,
            mid[i].ship,
            spec_keystate_of(ks, pre[i].id),
            now,
            playing,
        ) {
            spec_fired_bullets(pre.take(i), mid.take(i), ks, now, playing).push(
                spec_fired_bullet(mid[i].ship),
            )
        } else {
            spec_fired_bullets(pre.take(i), mid.take(i), ks, now, playing)
        },
{
    assert(pre.take(i + 1).drop_last() =~= pre.take(i));
    assert(mid.take(i + 1).drop_last() =~= mid.take(i));
    assert(pre.take(i + 1).last() == pre[i]);
    assert(mid.take(i + 1).last() == mid[i]);
}

/// The slot models of one more slot of the prefix: the slot's contribution
/// is appended.
proof fn lemma_frame_models_take(
    pre: Seq<ShipSlot>,
    mid: Seq<ShipSlot>,
    ks: Seq<(u64, KeyState)>,
    playing: bool,
    i: int,
)
    requires
        0 <= i < pre.len(),
        i < mid.len(),
    ensures
        spec_frame_models(pre.take(i + 1), mid.take(i + 1), ks, playing) == spec_frame_models(
            pre.take(i),
            mid.take(i),
            ks,
            playing,
        ) + spec_slot_models(pre[i], mid[i], spec_keystate_of(ks, pre[i].id), playing),
{
    assert(pre.take(i + 1).drop_last() =~= pre.take(i));
    assert(mid.take(i + 1).drop_last() =~= mid.take(i));
    assert(pre.take(i + 1).last() == pre[i]);
    assert(mid.take(i + 1).last() == mid[i]);
}

/// In a lobby the slot models read only the pre-tick ships and the keys:
/// the post-frame states do not matter (the broadcast is built before a
/// countdown start relocates anyone).
proof fn lemma_frame_models_lobby(
    pre: Seq<ShipSlot>,
    m1: Seq<ShipSlot>,
    m2: Seq<ShipSlot>,
    ks: Seq<(u64, KeyState)>,
)
    requires
        m1.len() == m2.len(),
    ensures
        spec_frame_models(pre, m1, ks, false) == spec_frame_models(pre, m2, ks, false),
    decreases pre.len(),
{
    if pre.len() != 0 && m1.len() != 0 {
        lemma_frame_models_lobby(pre.drop_last(), m1.drop_last(), m2.drop_last(), ks);
    }
}

/// Survivors and eliminated numbers together count the whole table.
proof fn lemma_elim_len(ships: Seq<ShipSlot>)
    ensures
        spec_survivors(ships).len() + spec_eliminated_nums(ships).len() == ships.len(),
    decreases ships.len(),
{
    let alive = |e: ShipSlot| e.ship.lives != 0;
    let dead = |e: ShipSlot| e.ship.lives == 0;
    reveal(Seq::filter);
    if ships.len() == 0 {
        assert(ships =~= Seq::<ShipSlot>::empty());
    } else {
        lemma_elim_len(ships.drop_last());
    }
}

/// After elimination and a possible finish, the player numbers of the
/// surviving ships, the untouched pool and the extended ranking are still
/// pairwise distinct, and together still count at most the four slots.
proof fn lemma_tick_wf_nums(rf: Room, r0: Room, now: u64, after: Seq<ShipSlot>, fin: bool)
    requires
        r0.wf_at(now),
        after.len() == r0.ships@.len(),
        forall|i: int|
            0 <= i < after.len() ==> (#[trigger] after[i]).ship.player_num
                == r0.ships@[i].ship.player_num,
        fin ==> spec_survivors(after).len() == 1,
        rf.player_num_pool@ == r0.player_num_pool@,
        rf.ships@ == (if fin {
            Seq::<ShipSlot>::empty()
        } else {
            spec_survivors(after)
        }),
        rf.ranking@ == (if fin {
            r0.ranking@ + spec_eliminated_nums(after) + seq![
                spec_survivors(after)[0].ship.player_num,
            ]
        } else {
            r0.ranking@ + spec_eliminated_nums(after)
        }),
    ensures
        forall|a: int, b: int|
            0 <= a < b < rf.ships@.len() ==> rf.ships@[a].ship.player_num
                != rf.ships@[b].ship.player_num,
        forall|a: int, b: int| 0 <= a < b < rf.ranking@.len() ==> rf.ranking@[a] != rf.ranking@[b],
        forall|a: int, b: int|
            #![trigger rf.ships@[a], rf.player_num_pool@[b]]
            0 <= a < rf.ships@.len() && 0 <= b < rf.player_num_pool@.len()
                ==> rf.ships@[a].ship.player_num != rf.player_num_pool@[b],
        forall|a: int, b: int|
            #![trigger rf.ships@[a], rf.ranking@[b]]
            0 <= a < rf.ships@.len() && 0 <= b < rf.ranking@.len()
                ==> rf.ships@[a].ship.player_num != rf.ranking@[b],
        forall|a: int, b: int|
            #![trigger rf.player_num_pool@[a], rf.ranking@[b]]
            0 <= a < rf.player_num_pool@.len() && 0 <= b < rf.ranking@.len()
                ==> rf.player_num_pool@[a] != rf.ranking@[b],
        rf.ranking@.len() + rf.ships@.len() + rf.player_num_pool@.len() <= 4,
{
    assert forall|a: int, b: int|
        0 <= a < b < after.len() implies after[a].ship.player_num != after[b].ship.player_num by {
        assert(r0.ships@[a].ship.player_num != r0.ships@[b].ship.player_num);
    }
    lemma_elim_nums(after);
    lemma_elim_len(after);
    let svf = spec_survivors(after);
    let el = spec_eliminated_nums(after);
    let ol = r0.ranking@.len() as int;
    let en = el.len() as int;
    let sv = if fin {
        Seq::<ShipSlot>::empty()
    } else {
        svf
    };
    let rk = if fin {
        r0.ranking@ + el + seq![svf[0].ship.player_num]
    } else {
        r0.ranking@ + el
    };
    let pool = r0.player_num_pool@;
    // every eliminated number and every survivor's number is the number of
    // one of the room's ships before the tick
    assert forall|i: int| 0 <= i < en implies exists|j: int|
        0 <= j < r0.ships@.len() && #[trigger] el[i] == r0.ships@[j].ship.player_num by {
        let j = choose|j: int| 0 <= j < after.len() && el[i] == after[j].ship.player_num;
        assert(el[i] == r0.ships@[j].ship.player_num);
    }
    assert forall|i: int| 0 <= i < svf.len() implies exists|j: int|
        0 <= j < r0.ships@.len() && #[trigger] svf[i].ship.player_num
            == r0.ships@[j].ship.player_num by {
        let j = choose|j: int| 0 <= j < after.len() && svf[i] == after[j];
        assert(svf[i].ship.player_num == r0.ships@[j].ship.player_num);
    }
    assert forall|a: int, b: int| 0 <= a < b < rk.len() implies rk[a] != rk[b] by {
        if b < ol {
        } else if b < ol + en {
            let j = choose|j: int|
                0 <= j < r0.ships@.len() && el[b - ol] == r0.ships@[j].ship.player_num;
            if a < ol {
                assert(r0.ships@[j].ship.player_num != r0.ranking@[a]);
            }
        } else {
            let j = choose|j: int|
                0 <= j < r0.ships@.len() && svf[0].ship.player_num
                    == r0.ships@[j].ship.player_num;
            if a < ol {
                assert(r0.ships@[j].ship.player_num != r0.ranking@[a]);
            } else {
                assert(svf[0].ship.player_num != el[a - ol]);
            }
        }
    }
    assert forall|a: int, b: int|
        #![trigger sv[a], pool[b]]
        0 <= a < sv.len() && 0 <= b < pool.len() implies sv[a].ship.player_num != pool[b] by {
        let j = choose|j: int|
            0 <= j < r0.ships@.len() && svf[a].ship.player_num == r0.ships@[j].ship.player_num;
        assert(r0.ships@[j].ship.player_num != pool[b]);
    }
    assert forall|a: int, b: int|
        #![trigger sv[a], rk[b]]
        0 <= a < sv.len() && 0 <= b < rk.len() implies sv[a].ship.player_num != rk[b] by {
        let j = choose|j: int|
            0 <= j < r0.ships@.len() && svf[a].ship.player_num == r0.ships@[j].ship.player_num;
        if b < ol {
            assert(r0.ships@[j].ship.player_num != r0.ranking@[b]);
        } else {
            assert(svf[a].ship.player_num != el[b - ol]);
        }
    }
    assert forall|a: int, b: int|
        #![trigger pool[a], rk[b]]
        0 <= a < pool.len() && 0 <= b < rk.len() implies pool[a] != rk[b] by {
        if b < ol {
        } else if b < ol + en {
            let j = choose|j: int|
                0 <= j < r0.ships@.len() && el[b - ol] == r0.ships@[j].ship.player_num;
            assert(r0.ships@[j].ship.player_num != pool[a]);
        } else {
            let j = choose|j: int|
                0 <= j < r0.ships@.len() && svf[0].ship.player_num
                    == r0.ships@[j].ship.player_num;
            assert(r0.ships@[j].ship.player_num != pool[a]);
        }
    }
}

/// The room invariant only loosens as the clock moves forward.
proof fn lemma_wf_at_monotone(r: Room, a: u64, b: u64)
    requires
        r.wf_at(a),
        a <= b,
    ensures
        r.wf_at(b),
{
}

// ---------------------------------------------------------------------------
// The simulation tick: executable phases.
// ---------------------------------------------------------------------------
/// Reads the stored key snapshot for `id`; an id without an entry reads as
/// no button held.
fn keystate_of(ks: &Vec<(u64, KeyState)>, id: u64) -> (k: KeyState)
    requires
        forall|a: int, b: int| 0 <= a < b < ks@.len() ==> ks@[a].0 != ks@[b].0,
    ensures
        k == spec_keystate_of(ks@, id),
{
    let n = ks.len();
    let mut i: usize = 0;
    while i < n
        invariant
            n == ks@.len(),
            forall|a: int, b: int| 0 <= a < b < ks@.len() ==> ks@[a].0 != ks@[b].0,
            forall|j: int| 0 <= j < i ==> ks@[j].0 != id,
        decreases n - i,
    {
        if ks[i].0 == id {
            proof {
                assert(spec_has_keystate(ks@, id));
                let j = ks_index_of(ks@, id);
                if (i as int) < j {
                    assert(ks@[i as int].0 != ks@[j].0);
                } else if j < i as int {
                    assert(ks@[j].0 != ks@[i as int].0);
                }
            }
            return ks[i].1;
        }
        i = i + 1;
    }
    proof {
        assert(!spec_has_keystate(ks@, id));
    }
    KeyState::new()
}

/// The per-ship phase of one tick: gathers the all-ready observation,
/// applies key snapshots (movement and firing in play; the ready latch and
/// lobby labels otherwise), and collects the renderable ships.
#[verifier::rlimit(100)]
fn ships_frame_phase(
    r: &mut Room,
    ks: &Vec<(u64, KeyState)>,
    now: u64,
    objects: &mut Vec<GameObject>,
    personal: &mut Vec<(u64, Vec<GameObject>)>,
) -> (all_ready: bool)
    requires
        forall|a: int, b: int| 0 <= a < b < ks@.len() ==> ks@[a].0 != ks@[b].0,
        forall|i: int| 0 <= i < old(r).ships@.len() ==> (#[trigger] old(r).ships@[i]).ship.wf(),
        forall|i: int|
            0 <= i < old(r).ships@.len() ==> (#[trigger] old(r).ships@[i]).ship.lives >= 1,
        forall|i: int|
            0 <= i < old(r).ships@.len() ==> (#[trigger] old(r).ships@[i]).ship.player_num < 4,
        forall|i: int|
            0 <= i < old(r).ships@.len() ==> (#[trigger] old(r).ships@[i]).ship.last_fire_time
                <= now && old(r).ships@[i].ship.last_hit_time <= now,
        forall|i: int| 0 <= i < old(r).bullets@.len() ==> (#[trigger] old(r).bullets@[i]).wf(),
    ensures
        *final(r) == (Room { ships: final(r).ships, bullets: final(r).bullets, ..*old(r) }),
        all_ready == spec_all_ready(*old(r)),
        final(r).ships@.len() == old(r).ships@.len(),
        forall|i: int|
            0 <= i < final(r).ships@.len() ==> (#[trigger] final(r).ships@[i]).id
                == old(r).ships@[i].id,
        forall|i: int|
            0 <= i < final(r).ships@.len() ==> spec_ship_frame_rel(
                old(r).ships@[i].ship,
                (#[trigger] final(r).ships@[i]).ship,
                spec_keystate_of(ks@, old(r).ships@[i].id),
                now,
                old(r).is_playing,
                false,
            ),
        forall|i: int| 0 <= i < final(r).ships@.len() ==> (#[trigger] final(r).ships@[i]).ship.wf(),
        forall|i: int|
            0 <= i < final(r).ships@.len() ==> (#[trigger] final(r).ships@[i]).ship.player_num
                < 4,
        forall|i: int|
            0 <= i < final(r).ships@.len() ==> (#[trigger] final(r).ships@[i]).ship.last_fire_time
                <= now && final(r).ships@[i].ship.last_hit_time <= now,
        !old(r).is_playing ==> final(r).bullets == old(r).bullets,
        forall|i: int| 0 <= i < final(r).bullets@.len() ==> (#[trigger] final(r).bullets@[i]).wf(),
        final(r).bullets@ == old(r).bullets@ + spec_fired_bullets(
            old(r).ships@,
            final(r).ships@,
            ks@,
            now,
            old(r).is_playing,
        ),
        final(objects)@.len() >= old(objects)@.len(),
        forall|j: int|
            0 <= j < old(objects)@.len() ==> (#[trigger] final(objects)@[j]) == old(objects)@[j],
        spec_objs_match(
            final(objects)@.skip(old(objects)@.len() as int),
            spec_frame_models(old(r).ships@, final(r).ships@, ks@, old(r).is_playing),
        ),
        final(personal)@.len() == old(personal)@.len() + if old(r).is_playing {
            0int
        } else {
            old(r).ships@.len() as int
        },
        forall|j: int|
            0 <= j < old(personal)@.len() ==> (#[trigger] final(personal)@[j])
                == old(personal)@[j],
        forall|j: int|
            0 <= j < final(personal)@.len() - old(personal)@.len() ==> {
                &&& (#[trigger] final(personal)@[old(personal)@.len() + j]).0
                    == old(r).ships@[j].id
                &&& spec_objs_match(
                    final(personal)@[old(personal)@.len() + j].1@,
                    spec_personal_models(old(r).ships@[j].ship.player_num),
                )
            },
{
    let n = r.ships.len();
    let mut all_ready = n > 1;
    let mut i: usize = 0;
    proof {
        assert(old(r).ships@.take(0) =~= Seq::<ShipSlot>::empty());
        assert(r.ships@.take(0) =~= Seq::<ShipSlot>::empty());
        assert(r.bullets@ =~= old(r).bullets@ + spec_fired_bullets(
            old(r).ships@.take(0),
            r.ships@.take(0),
            ks@,
            now,
            old(r).is_playing,
        ));
        assert(objects@.skip(old(objects)@.len() as int) =~= Seq::<GameObject>::empty());
    }
    while i < n
        invariant
            n == r.ships@.len(),
            n == old(r).ships@.len(),
            i <= n,
            *r == (Room { ships: r.ships, bullets: r.bullets, ..*old(r) }),
            forall|a: int, b: int| 0 <= a < b < ks@.len() ==> ks@[a].0 != ks@[b].0,
            forall|j: int|
                0 <= j < old(r).ships@.len() ==> (#[trigger] old(r).ships@[j]).ship.wf(),
            forall|j: int|
                0 <= j < old(r).ships@.len() ==> (#[trigger] old(r).ships@[j]).ship.lives >= 1,
            forall|j: int|
                0 <= j < old(r).ships@.len() ==> (#[trigger] old(r).ships@[j]).ship.player_num
                    < 4,
            forall|j: int|
                0 <= j < old(r).ships@.len() ==> (
                #[trigger] old(r).ships@[j]).ship.last_fire_time <= now
                    && old(r).ships@[j].ship.last_hit_time <= now,
            forall|j: int| 0 <= j < old(r).bullets@.len() ==> (#[trigger] old(r).bullets@[j]).wf(),
            all_ready == (old(r).ships@.len() > 1 && forall|j: int|
                0 <= j < i ==> (#[trigger] old(r).ships@[j]).ship.is_ready),
            forall|j: int| i <= j < n ==> r.ships@[j] == old(r).ships@[j],
            forall|j: int|
                0 <= j < i ==> (#[trigger] r.ships@[j]).id == old(r).ships@[j].id,
            forall|j: int|
                0 <= j < i ==> spec_ship_frame_rel(
                    old(r).ships@[j].ship,
                    (#[trigger] r.ships@[j]).ship,
                    spec_keystate_of(ks@, old(r).ships@[j].id),
                    now,
                    old(r).is_playing,
                    false,
                ),
            forall|j: int| 0 <= j < i ==> (#[trigger] r.ships@[j]).ship.wf(),
            forall|j: int| 0 <= j < i ==> (#[trigger] r.ships@[j]).ship.player_num < 4,
            forall|j: int|
                0 <= j < i ==> (#[trigger] r.ships@[j]).ship.last_fire_time <= now
                    && r.ships@[j].ship.last_hit_time <= now,
            !old(r).is_playing ==> r.bullets == old(r).bullets,
            forall|j: int| 0 <= j < r.bullets@.len() ==> (#[trigger] r.bullets@[j]).wf(),
            r.bullets@ == old(r).bullets@ + spec_fired_bullets(
                old(r).ships@.take(i as int),
                r.ships@.take(i as int),
                ks@,
                now,
                old(r).is_playing,
            ),
            objects@.len() >= old(objects)@.len(),
            forall|j: int|
                0 <= j < old(objects)@.len() ==> (#[trigger] objects@[j]) == old(objects)@[j],
            spec_objs_match(
                objects@.skip(old(objects)@.len() as int),
                spec_frame_models(
                    old(r).ships@.take(i as int),
                    r.ships@.take(i as int),
                    ks@,
                    old(r).is_playing,
                ),
            ),
            personal@.len() == old(personal)@.len() + if old(r).is_playing {
                0int
            } else {
                i as int
            },
            forall|j: int|
                0 <= j < old(personal)@.len() ==> (#[trigger] personal@[j]) == old(personal)@[j],
            forall|j: int|
                0 <= j < personal@.len() - old(personal)@.len() ==> {
                    &&& (#[trigger] personal@[old(personal)@.len() + j]).0
                        == old(r).ships@[j].id
                    &&& spec_objs_match(
                        personal@[old(personal)@.len() + j].1@,
                        spec_personal_models(old(r).ships@[j].ship.player_num),
                    )
                },
        decreases n - i,
    {
        let ghost ships_pre = r.ships@;
        let ghost bullets_pre = r.bullets@;
        let ghost obj_head = objects@;
        let ghost per_head = personal@;
        let pre_ready = r.ships[i].ship.is_ready;
        all_ready = all_ready && pre_ready;
        let id = r.ships[i].id;
        let k = keystate_of(ks, id);
        if r.is_playing {
            let fired = {
                let e = &mut r.ships[i];
                e.ship.process_one_frame(&k, now);
                if k.space {
                    e.ship.fire(now)
                } else {
                    None
                }
            };
            proof {
                let s0 = old(r).ships@[i as int].ship;
                let s1 = r.ships@[i as int].ship;
                assert(fired is Some <==> spec_fires(s0, s1, k, now, true));
                if fired is Some {
                    assert(fired->Some_0 == spec_fired_bullet(s1));
                }
            }
            if let Some(b) = fired {
                r.bullets.push(b);
            }
        } else {
            if r.ships[i].ship.is_ready {
                let t = r.ships[i].ship.ready_text();
                objects.push(GameObject::Text { data: t });
            }
            let num = r.ships[i].ship.player_num;
            let mut texts: Vec<GameObject> = Vec::new();
            texts.push(GameObject::Text { data: Text::player_num(num) });
            texts.push(GameObject::Text { data: Text::you(num) });
            texts.push(GameObject::Text { data: Text::space_to_ready(num) });
            proof {
                assert(spec_objs_match(texts@, spec_personal_models(num))) by {
                    assert(spec_obj_matches(texts@[0], spec_personal_models(num)[0]));
                    assert(spec_obj_matches(texts@[1], spec_personal_models(num)[1]));
                    assert(spec_obj_matches(texts@[2], spec_personal_models(num)[2]));
                }
            }
            personal.push((id, texts));
            if k.space {
                let e = &mut r.ships[i];
                e.ship.is_ready = true;
            }
        }
        if !r.ships[i].ship.is_game_over() {
            let c = r.ships[i].ship.clone();
            objects.push(GameObject::Ship { data: c });
        }
        proof {
            let s0 = old(r).ships@[i as int].ship;
            if old(r).is_playing {
                if s0.is_alive {
                    assert(r.ships@[i as int].ship == spec_moved_and_fired(s0, k, now));
                } else if now > s0.last_hit_time + crate::ship::RESPAWN_TICKS {
                    assert(spec_ship_frame_rel(
                        s0,
                        r.ships@[i as int].ship,
                        k,
                        now,
                        old(r).is_playing,
                        false,
                    ));
                } else {
                    assert(r.ships@[i as int].ship == (Ship { is_accelerating: k.up, ..s0 }));
                }
            } else {
                assert(r.ships@[i as int].ship == spec_lobby_latched(s0, k));
            }
            assert(spec_ship_frame_rel(
                s0,
                r.ships@[i as int].ship,
                k,
                now,
                old(r).is_playing,
                false,
            ));
            assert(r.ships@.take(i as int) =~= ships_pre.take(i as int));
            lemma_fired_bullets_take(
                old(r).ships@,
                r.ships@,
                ks@,
                now,
                old(r).is_playing,
                i as int,
            );
            if !old(r).is_playing {
                assert(!spec_fires(s0, r.ships@[i as int].ship, k, now, old(r).is_playing));
            }
            assert(r.bullets@ =~= old(r).bullets@ + spec_fired_bullets(
                old(r).ships@.take(i as int + 1),
                r.ships@.take(i as int + 1),
                ks@,
                now,
                old(r).is_playing,
            ));
            // the objects appended this iteration match the slot's models
            let base = old(objects)@.len() as int;
            let sm = spec_slot_models(
                old(r).ships@[i as int],
                r.ships@[i as int],
                k,
                old(r).is_playing,
            );
            let seg = objects@.skip(obj_head.len() as int);
            assert(spec_objs_match(seg, sm)) by {
                if old(r).is_playing {
                    if r.ships@[i as int].ship.lives != 0 {
                        assert(sm =~= seq![
                            ObjModel::ShipObj { data: r.ships@[i as int].ship },
                        ]);
                        assert(seg =~= seq![objects@[objects@.len() - 1]]);
                        assert(spec_obj_matches(seg[0], sm[0]));
                    } else {
                        assert(sm =~= Seq::<ObjModel>::empty());
                        assert(seg =~= Seq::<GameObject>::empty());
                    }
                } else {
                    let latched = spec_lobby_latched(s0, k);
                    assert(latched.lives >= 1);
                    if s0.is_ready {
                        assert(sm =~= seq![
                            spec_ready_model(s0),
                            ObjModel::ShipObj { data: latched },
                        ]);
                        assert(seg =~= seq![
                            objects@[objects@.len() - 2],
                            objects@[objects@.len() - 1],
                        ]);
                        assert(spec_obj_matches(seg[0], sm[0]));
                        assert(spec_obj_matches(seg[1], sm[1]));
                    } else {
                        assert(sm =~= seq![ObjModel::ShipObj { data: latched }]);
                        assert(seg =~= seq![objects@[objects@.len() - 1]]);
                        assert(spec_obj_matches(seg[0], sm[0]));
                    }
                }
            }
            lemma_frame_models_take(old(r).ships@, r.ships@, ks@, old(r).is_playing, i as int);
            lemma_objs_match_concat(
                obj_head.skip(base),
                spec_frame_models(
                    old(r).ships@.take(i as int),
                    r.ships@.take(i as int),
                    ks@,
                    old(r).is_playing,
                ),
                seg,
                sm,
            );
            assert(objects@.skip(base) =~= obj_head.skip(base) + seg);
            // the personal entry appended this iteration, if any
            if !old(r).is_playing {
                assert(personal@ == per_head.push(personal@[personal@.len() - 1]));
                assert(personal@[personal@.len() - 1].0 == old(r).ships@[i as int].id);
            }
        }
        i = i + 1;
    }
    proof {
        assert(old(r).ships@.take(n as int) =~= old(r).ships@);
        assert(r.ships@.take(n as int) =~= r.ships@);
    }
    all_ready
}

/// The countdown phase of one tick: records the all-ready observation once,
/// and one second later flips the room to playing, relocating every ship.
fn countdown_phase(r: &mut Room, all_ready: bool, now: u64) -> (started: bool)
    requires
        match old(r).all_ready_time {
            Some(t) => !old(r).is_playing && t <= now,
            None => true,
        },
        forall|i: int| 0 <= i < old(r).ships@.len() ==> (#[trigger] old(r).ships@[i]).ship.wf(),
    ensures
        ({
            let step = spec_countdown_step(
                old(r).is_playing,
                old(r).all_ready_time,
                all_ready,
                now,
            );
            *final(r) == (Room {
                ships: final(r).ships,
                is_playing: step.0,
                all_ready_time: step.1,
                ..*old(r)
            })
        }),
        started == (final(r).is_playing && !old(r).is_playing),
        final(r).ships@.len() == old(r).ships@.len(),
        !started ==> final(r).ships == old(r).ships,
        started ==> forall|i: int|
            0 <= i < final(r).ships@.len() ==> (#[trigger] final(r).ships@[i]).id
                == old(r).ships@[i].id && spec_relocated(
                old(r).ships@[i].ship,
                final(r).ships@[i].ship,
            ),
{
    if all_ready && !r.is_playing {
        if r.all_ready_time.is_none() {
            r.all_ready_time = Some(now);
        }
    }
    let mut started = false;
    let timer = r.all_ready_time;
    if let Some(t) = timer {
        if now - t > COUNTDOWN_TICKS {
            r.is_playing = true;
            r.all_ready_time = None;
            started = true;
            let n = r.ships.len();
            let mut i: usize = 0;
            while i < n
                invariant
                    n == r.ships@.len(),
                    n == old(r).ships@.len(),
                    i <= n,
                    *r == (Room {
                        ships: r.ships,
                        is_playing: true,
                        all_ready_time: None::<u64>,
                        ..*old(r)
                    }),
                    forall|j: int|
                        0 <= j < old(r).ships@.len() ==> (#[trigger] old(r).ships@[j]).ship.wf(),
                    forall|j: int| i <= j < n ==> r.ships@[j] == old(r).ships@[j],
                    forall|j: int|
                        0 <= j < i ==> (#[trigger] r.ships@[j]).id == old(r).ships@[j].id
                            && spec_relocated(old(r).ships@[j].ship, r.ships@[j].ship),
                decreases n - i,
            {
                proof {
                    assert(r.ships@[i as int] == old(r).ships@[i as int]);
                    assert(old(r).ships@[i as int].ship.wf());
                }
                let e = &mut r.ships[i];
                e.ship.put_on_random_place();
                i = i + 1;
            }
        }
    }
    started
}

/// The bullet phase of one tick: drops the bullets whose aliveness check
/// fails, advances the survivors one step, and collects them as renderable
/// objects.
fn bullets_phase(bs: &mut Vec<Bullet>, objects: &mut Vec<GameObject>)
    requires
        forall|i: int| 0 <= i < old(bs)@.len() ==> (#[trigger] old(bs)@[i]).wf(),
    ensures
        final(bs)@ == spec_bullets_step(old(bs)@),
        forall|i: int| 0 <= i < final(bs)@.len() ==> (#[trigger] final(bs)@[i]).wf(),
        final(objects)@.len() == old(objects)@.len() + final(bs)@.len(),
        forall|j: int|
            0 <= j < old(objects)@.len() ==> (#[trigger] final(objects)@[j]) == old(objects)@[j],
        spec_objs_match(
            final(objects)@.skip(old(objects)@.len() as int),
            spec_bullet_models(final(bs)@),
        ),
{
    let mut rev: Vec<Bullet> = Vec::new();
    while bs.len() > 0
        invariant
            bs@ + rev@.reverse() == old(bs)@,
            forall|i: int| 0 <= i < bs@.len() ==> (#[trigger] bs@[i]).wf(),
            forall|i: int| 0 <= i < rev@.len() ==> (#[trigger] rev@[i]).wf(),
        decreases bs@.len(),
    {
        proof {
            assert(forall|i: int| 0 <= i < old(bs)@.len() ==> (#[trigger] old(bs)@[i]).wf());
        }
        let b = bs.pop().unwrap();
        let ghost prev = rev@;
        rev.push(b);
        proof {
            assert(rev@.reverse() =~= seq![b] + prev.reverse());
            assert(bs@ + rev@.reverse() =~= old(bs)@);
        }
    }
    let ghost orig = old(bs)@;
    let ghost total = orig.len() as int;
    proof {
        assert(rev@.reverse() =~= orig);
        assert(orig.take(0) =~= Seq::<Bullet>::empty());
        assert(spec_bullets_step(orig.take(0)) =~= Seq::<Bullet>::empty()) by {
            reveal(Seq::filter);
        }
        assert(objects@.skip(old(objects)@.len() as int) =~= Seq::<GameObject>::empty());
    }
    while rev.len() > 0
        invariant
            rev@.reverse() == orig.skip(total - rev@.len()),
            0 <= total - rev@.len() <= total,
            total == orig.len(),
            forall|i: int| 0 <= i < orig.len() ==> (#[trigger] orig[i]).wf(),
            forall|i: int| 0 <= i < rev@.len() ==> (#[trigger] rev@[i]).wf(),
            bs@ == spec_bullets_step(orig.take(total - rev@.len())),
            forall|i: int| 0 <= i < bs@.len() ==> (#[trigger] bs@[i]).wf(),
            objects@.len() == old(objects)@.len() + bs@.len(),
            forall|j: int|
                0 <= j < old(objects)@.len() ==> (#[trigger] objects@[j]) == old(objects)@[j],
            spec_objs_match(
                objects@.skip(old(objects)@.len() as int),
                spec_bullet_models(bs@),
            ),
        decreases rev@.len(),
    {
        let ghost done = total - rev@.len();
        let ghost prev = rev@;
        let mut b = rev.pop().unwrap();
        proof {
            assert(prev.reverse()[0] == prev[prev.len() - 1]);
            assert(orig.skip(done)[0] == orig[done]);
            assert(b == orig[done]);
            assert forall|ii: int|
                0 <= ii < rev@.len() implies rev@.reverse()[ii] == orig.skip(done + 1)[ii] by {
                assert(rev@.reverse()[ii] == rev@[rev@.len() - 1 - ii]);
                assert(rev@[rev@.len() - 1 - ii] == prev[prev.len() - 2 - ii]);
                assert(prev.reverse()[ii + 1] == prev[prev.len() - 2 - ii]);
                assert(orig.skip(done)[ii + 1] == orig[done + 1 + ii]);
            }
            assert(rev@.reverse() =~= orig.skip(done + 1));
            lemma_bullets_step_take(orig, done);
        }
        if b.is_alive() {
            b.move_by_one_frame();
            let c = b.clone();
            let ghost obj_prev = objects@;
            let ghost bs_prev = bs@;
            objects.push(GameObject::Bullet { data: c });
            bs.push(b);
            proof {
                let base = old(objects)@.len() as int;
                let last = bs@[bs@.len() - 1];
                assert(spec_bullet_models(bs@).len() == bs@.len());
                assert forall|ii: int|
                    0 <= ii < bs@.len() implies spec_obj_matches(
                    #[trigger] objects@.skip(base)[ii],
                    spec_bullet_models(bs@)[ii],
                ) by {
                    assert(spec_bullet_models(bs@)[ii] == (ObjModel::BulletObj {
                        data: bs@[ii],
                    }));
                    if ii < bs_prev.len() {
                        assert(objects@.skip(base)[ii] == obj_prev.skip(base)[ii]);
                        assert(spec_bullet_models(bs_prev)[ii] == (ObjModel::BulletObj {
                            data: bs_prev[ii],
                        }));
                        assert(spec_obj_matches(obj_prev.skip(base)[ii], spec_bullet_models(
                            bs_prev,
                        )[ii]));
                    } else {
                        assert(objects@.skip(base)[ii] == objects@[objects@.len() - 1]);
                        assert(bs@[ii] == last);
                    }
                }
            }
        }
    }
    proof {
        assert(orig.take(total) =~= orig);
    }
}

/// The collision phase of one tick: every ship is resolved against every
/// surviving bullet.
fn collision_phase(ships: &mut Vec<ShipSlot>, bullets: &Vec<Bullet>, now: u64)
    requires
        forall|i: int| 0 <= i < old(ships)@.len() ==> (#[trigger] old(ships)@[i]).ship.wf(),
        forall|i: int| 0 <= i < bullets@.len() ==> (#[trigger] bullets@[i]).wf(),
    ensures
        final(ships)@.len() == old(ships)@.len(),
        forall|i: int|
            0 <= i < final(ships)@.len() ==> (#[trigger] final(ships)@[i]).id
                == old(ships)@[i].id,
        forall|i: int|
            0 <= i < final(ships)@.len() ==> (#[trigger] final(ships)@[i]).ship == spec_collided(
                old(ships)@[i].ship,
                bullets@,
                now,
            ),
{
    let n = ships.len();
    let mut i: usize = 0;
    while i < n
        invariant
            n == ships@.len(),
            n == old(ships)@.len(),
            i <= n,
            forall|j: int|
                0 <= j < old(ships)@.len() ==> (#[trigger] old(ships)@[j]).ship.wf(),
            forall|j: int| 0 <= j < bullets@.len() ==> (#[trigger] bullets@[j]).wf(),
            forall|j: int| i <= j < n ==> ships@[j] == old(ships)@[j],
            forall|j: int|
                0 <= j < i ==> (#[trigger] ships@[j]).id == old(ships)@[j].id,
            forall|j: int|
                0 <= j < i ==> (#[trigger] ships@[j]).ship == spec_collided(
                    old(ships)@[j].ship,
                    bullets@,
                    now,
                ),
        decreases n - i,
    {
        let m = bullets.len();
        let mut j: usize = 0;
        proof {
            assert(bullets@.take(0) =~= Seq::<Bullet>::empty());
        }
        while j < m
            invariant
                m == bullets@.len(),
                n == ships@.len(),
                n == old(ships)@.len(),
                j <= m,
                i < n,
                forall|q: int|
                    0 <= q < old(ships)@.len() ==> (#[trigger] old(ships)@[q]).ship.wf(),
                forall|q: int| 0 <= q < bullets@.len() ==> (#[trigger] bullets@[q]).wf(),
                forall|q: int| i < q < n ==> ships@[q] == old(ships)@[q],
                forall|q: int|
                    0 <= q < i ==> (#[trigger] ships@[q]).id == old(ships)@[q].id,
                forall|q: int|
                    0 <= q < i ==> (#[trigger] ships@[q]).ship == spec_collided(
                        old(ships)@[q].ship,
                        bullets@,
                        now,
                    ),
                ships@[i as int].id == old(ships)@[i as int].id,
                ships@[i as int].ship == spec_collided(
                    old(ships)@[i as int].ship,
                    bullets@.take(j as int),
                    now,
                ),
            decreases m - j,
        {
            proof {
                lemma_hit_take_step(old(ships)@[i as int].ship, bullets@, j as int);
            }
            let e = &mut ships[i];
            e.ship.collision_process(&bullets[j], now);
            j = j + 1;
        }
        proof {
            assert(bullets@.take(m as int) =~= bullets@);
        }
        i = i + 1;
    }
}

/// Finds the index of the personalized-text entry for `id`.
fn find_personal(personal: &Vec<(u64, Vec<GameObject>)>, id: u64) -> (res: Option<usize>)
    ensures
        match res {
            Some(i) => i < personal@.len() && personal@[i as int].0 == id,
            None => forall|k: int| 0 <= k < personal@.len() ==> personal@[k].0 != id,
        },
{
    let n = personal.len();
    let mut i: usize = 0;
    while i < n
        invariant
            n == personal@.len(),
            forall|k: int| 0 <= k < i ==> personal@[k].0 != id,
        decreases n - i,
    {
        if personal[i].0 == id {
            return Some(i);
        }
        i = i + 1;
    }
    None
}

/// Copies a renderable object list: the broadcast hands every listener its
/// own copy of the shared data.
fn clone_objects(v: &Vec<GameObject>) -> (r: Vec<GameObject>)
    ensures
        r@ == v@,
{
    let n = v.len();
    let mut r: Vec<GameObject> = Vec::new();
    let mut i: usize = 0;
    while i < n
        invariant
            n == v@.len(),
            i <= n,
            r@ == v@.take(i as int),
        decreases n - i,
    {
        r.push(v[i].clone());
        proof {
            assert(r@ =~= v@.take(i as int + 1));
        }
        i = i + 1;
    }
    proof {
        assert(v@.take(n as int) =~= v@);
    }
    r
}

/// The personalized payload stored for `id`: the texts of its entry, or
/// nothing.
pub open spec fn spec_personal_payload(p: Seq<(u64, Vec<GameObject>)>, id: u64) -> Seq<
    GameObject,
> {
    if exists|k: int| 0 <= k < p.len() && p[k].0 == id {
        p[choose|k: int| 0 <= k < p.len() && p[k].0 == id].1@
    } else {
        Seq::<GameObject>::empty()
    }
}

/// The broadcast phase of one tick: every listener receives the room's
/// renderable objects, with its own personalized lobby labels appended.
fn broadcast_phase(
    listeners: &Vec<u64>,
    objects: &Vec<GameObject>,
    personal: &Vec<(u64, Vec<GameObject>)>,
    out: &mut Vec<(u64, Message)>,
)
    requires
        forall|a: int, b: int| 0 <= a < b < personal@.len() ==> personal@[a].0 != personal@[b].0,
    ensures
        final(out)@.len() == old(out)@.len() + listeners@.len(),
        forall|j: int| 0 <= j < old(out)@.len() ==> (#[trigger] final(out)@[j]) == old(out)@[j],
        forall|j: int|
            0 <= j < listeners@.len() ==> {
                &&& (#[trigger] final(out)@[old(out)@.len() + j]).0 == listeners@[j]
                &&& final(out)@[old(out)@.len() + j].1 is Objects
                &&& final(out)@[old(out)@.len() + j].1->Objects_data@ == objects@
                    + spec_personal_payload(personal@, listeners@[j])
            },
{
    let n = listeners.len();
    let mut li: usize = 0;
    while li < n
        invariant
            n == listeners@.len(),
            li <= n,
            forall|a: int, b: int|
                0 <= a < b < personal@.len() ==> personal@[a].0 != personal@[b].0,
            out@.len() == old(out)@.len() + li,
            forall|j: int| 0 <= j < old(out)@.len() ==> (#[trigger] out@[j]) == old(out)@[j],
            forall|j: int|
                0 <= j < li ==> {
                    &&& (#[trigger] out@[old(out)@.len() + j]).0 == listeners@[j]
                    &&& out@[old(out)@.len() + j].1 is Objects
                    &&& out@[old(out)@.len() + j].1->Objects_data@ == objects@
                        + spec_personal_payload(personal@, listeners@[j])
                },
        decreases n - li,
    {
        let lid = listeners[li];
        let mut data = clone_objects(objects);
        match find_personal(personal, lid) {
            Some(pi) => {
                proof {
                    let kk = choose|k: int| 0 <= k < personal@.len() && personal@[k].0 == lid;
                    if kk < pi as int {
                        assert(personal@[kk].0 != personal@[pi as int].0);
                    } else if (pi as int) < kk {
                        assert(personal@[pi as int].0 != personal@[kk].0);
                    }
                    assert(spec_personal_payload(personal@, lid) == personal@[pi as int].1@);
                }
                let mut texts = clone_objects(&personal[pi].1);
                data.append(&mut texts);
            },
            None => {
                proof {
                    assert(data@ + spec_personal_payload(personal@, lid) =~= data@);
                }
            },
        }
        out.push((lid, Message::Objects { data }));
        li = li + 1;
    }
}

/// The elimination phase of one tick: ships whose life counter reached zero
/// leave the room; their player numbers join the ranking in table order.
#[verifier::rlimit(50)]
fn elimination_phase(r: &mut Room)
    ensures
        *final(r) == (Room { ships: final(r).ships, ranking: final(r).ranking, ..*old(r) }),
        final(r).ships@ == spec_survivors(old(r).ships@),
        final(r).ranking@ == old(r).ranking@ + spec_eliminated_nums(old(r).ships@),
{
    let ghost orig = old(r).ships@;
    let ghost orig_rank = old(r).ranking@;
    let mut rev: Vec<ShipSlot> = Vec::new();
    while r.ships.len() > 0
        invariant
            r.ships@ + rev@.reverse() == orig,
            *r == (Room { ships: r.ships, ..*old(r) }),
        decreases r.ships@.len(),
    {
        let b = r.ships.pop().unwrap();
        let ghost prev = rev@;
        rev.push(b);
        proof {
            assert(rev@.reverse() =~= seq![b] + prev.reverse());
            assert(r.ships@ + rev@.reverse() =~= orig);
        }
    }
    let ghost total = orig.len() as int;
    proof {
        assert(rev@.reverse() =~= orig);
        assert(orig.take(0) =~= Seq::<ShipSlot>::empty());
        reveal(Seq::filter);
        assert(spec_survivors(orig.take(0)) =~= Seq::<ShipSlot>::empty());
        assert(spec_eliminated_nums(orig.take(0)) =~= Seq::<u8>::empty());
        assert(orig_rank + spec_eliminated_nums(orig.take(0)) =~= orig_rank);
    }
    while rev.len() > 0
        invariant
            rev@.reverse() == orig.skip(total - rev@.len()),
            0 <= total - rev@.len() <= total,
            total == orig.len(),
            *r == (Room { ships: r.ships, ranking: r.ranking, ..*old(r) }),
            r.ships@ == spec_survivors(orig.take(total - rev@.len())),
            r.ranking@ == orig_rank + spec_eliminated_nums(orig.take(total - rev@.len())),
        decreases rev@.len(),
    {
        let ghost done = total - rev@.len();
        let ghost prev = rev@;
        let slot = rev.pop().unwrap();
        proof {
            assert(prev.reverse()[0] == prev[prev.len() - 1]);
            assert(orig.skip(done)[0] == orig[done]);
            assert(slot == orig[done]);
            assert forall|ii: int|
                0 <= ii < rev@.len() implies rev@.reverse()[ii] == orig.skip(done + 1)[ii] by {
                assert(rev@.reverse()[ii] == rev@[rev@.len() - 1 - ii]);
                assert(rev@[rev@.len() - 1 - ii] == prev[prev.len() - 2 - ii]);
                assert(prev.reverse()[ii + 1] == prev[prev.len() - 2 - ii]);
                assert(orig.skip(done)[ii + 1] == orig[done + 1 + ii]);
            }
            assert(rev@.reverse() =~= orig.skip(done + 1));
            lemma_elim_take_step(orig, done);
        }
        if slot.ship.is_game_over() {
            r.ranking.push(slot.ship.player_num);
        } else {
            r.ships.push(slot);
        }
    }
    proof {
        assert(orig.take(total) =~= orig);
    }
}

/// The end-of-game phase of one tick: with a playing room down to one ship,
/// the survivor's number joins the ranking, every listener receives the
/// finish message (the reversed ranking plus a game-over label), and the
/// ship table is torn down.
fn finish_phase(r: &mut Room, out: &mut Vec<(u64, Message)>)
    requires
        old(r).ranking@.len() + old(r).ships@.len() <= 4,
        forall|i: int| 0 <= i < old(r).ranking@.len() ==> old(r).ranking@[i] < 4,
        forall|i: int|
            0 <= i < old(r).ships@.len() ==> (#[trigger] old(r).ships@[i]).ship.player_num < 4,
    ensures
        !(old(r).is_playing && old(r).ships@.len() == 1) ==> *final(r) == *old(r) && *final(out)
            == *old(out),
        (old(r).is_playing && old(r).ships@.len() == 1) ==> {
            &&& *final(r) == (Room {
                ships: final(r).ships,
                ranking: final(r).ranking,
                finished: true,
                ..*old(r)
            })
            &&& final(r).ships@.len() == 0
            &&& final(r).ranking@ == old(r).ranking@.push(old(r).ships@[0].ship.player_num)
            &&& final(out)@.len() == old(out)@.len() + old(r).listeners@.len()
            &&& (forall|j: int|
                0 <= j < old(out)@.len() ==> (#[trigger] final(out)@[j]) == old(out)@[j])
            &&& (forall|j: int|
                0 <= j < old(r).listeners@.len() ==> {
                    &&& (#[trigger] final(out)@[old(out)@.len() + j]).0 == old(r).listeners@[j]
                    &&& final(out)@[old(out)@.len() + j].1 is Finish
                    &&& spec_objs_match(
                        final(out)@[old(out)@.len() + j].1->Finish_data@,
                        spec_finish_models(final(r).ranking@),
                    )
                })
        },
{
    if r.ships.len() == 1 && r.is_playing {
        let num = r.ships[0].ship.player_num;
        r.ranking.push(num);
        let mut fdata: Vec<GameObject> = Vec::new();
        let rl = r.ranking.len();
        let mut oi: usize = 0;
        while oi < rl
            invariant
                rl == r.ranking@.len(),
                rl <= 4,
                oi <= rl,
                forall|q: int| 0 <= q < r.ranking@.len() ==> r.ranking@[q] < 4,
                *r == (Room { ranking: r.ranking, ..*old(r) }),
                fdata@.len() == oi,
                forall|q: int|
                    0 <= q < oi ==> spec_obj_matches(
                        #[trigger] fdata@[q],
                        spec_finish_models(r.ranking@)[q],
                    ),
            decreases rl - oi,
        {
            let n2 = r.ranking[rl - 1 - oi];
            let t = Text::ranking(oi, n2);
            fdata.push(GameObject::Text { data: t });
            proof {
                assert(spec_finish_models(r.ranking@)[oi as int] == (ObjModel::TextObj {
                    color: spec_color(r.ranking@[rl - 1 - oi as int] as int),
                    pos: Vector { x: 300_000, y: (200_000 + 50_000 * oi as int) as i64 },
                    text: spec_ordinal(oi as int) + " Player"@ + spec_player_digit(
                        r.ranking@[rl - 1 - oi as int] as int,
                    ),
                }));
            }
            oi = oi + 1;
        }
        let go = Text::new(
            crate::text::color_of(0),
            Vector { x: 300_000, y: 100_000 },
            "GAME OVER".to_owned(),
        );
        fdata.push(GameObject::Text { data: go });
        proof {
            assert(spec_objs_match(fdata@, spec_finish_models(r.ranking@))) by {
                assert(spec_finish_models(r.ranking@)[rl as int] == (ObjModel::TextObj {
                    color: spec_color(0),
                    pos: Vector { x: 300_000, y: 100_000 },
                    text: "GAME OVER"@,
                }));
            }
        }
        let ln = r.listeners.len();
        let mut li: usize = 0;
        while li < ln
            invariant
                ln == r.listeners@.len(),
                li <= ln,
                *r == (Room { ranking: r.ranking, ..*old(r) }),
                spec_objs_match(fdata@, spec_finish_models(r.ranking@)),
                out@.len() == old(out)@.len() + li,
                forall|j: int| 0 <= j < old(out)@.len() ==> (#[trigger] out@[j]) == old(out)@[j],
                forall|j: int|
                    0 <= j < li ==> {
                        &&& (#[trigger] out@[old(out)@.len() + j]).0 == r.listeners@[j]
                        &&& out@[old(out)@.len() + j].1 is Finish
                        &&& spec_objs_match(
                            out@[old(out)@.len() + j].1->Finish_data@,
                            spec_finish_models(r.ranking@),
                        )
                    },
            decreases ln - li,
        {
            let lid = r.listeners[li];
            let data = clone_objects(&fdata);
            out.push((lid, Message::Finish { data }));
            li = li + 1;
        }
        r.ships.clear();
        r.finished = true;
    }
}

/// The number of outbound messages the tick owes the first `i` rooms: one
/// Objects message per listener of every room that still runs, plus one
/// Finish message per listener of a room whose game ended this tick.
pub open spec fn spec_out_count(before: Seq<Room>, after: Seq<Room>, i: int) -> int
    decreases i,
{
    if i <= 0 {
        0
    } else {
        spec_out_count(before, after, i - 1) + (if before[i - 1].finished {
            0int
        } else {
            before[i - 1].listeners@.len() as int + (if after[i - 1].finished {
                before[i - 1].listeners@.len() as int
            } else {
                0int
            })
        })
    }
}

/// The owed count reads only the first `i` rooms of the post-state.
proof fn lemma_out_count_prefix(before: Seq<Room>, a1: Seq<Room>, a2: Seq<Room>, i: int)
    requires
        0 <= i,
        forall|j: int| 0 <= j < i ==> a1[j] == a2[j],
    ensures
        spec_out_count(before, a1, i) == spec_out_count(before, a2, i),
    decreases i,
{
    if i > 0 {
        lemma_out_count_prefix(before, a1, a2, i - 1);
    }
}

/// The owed count grows with the index.
proof fn lemma_out_count_mono(before: Seq<Room>, after: Seq<Room>, a: int, b: int)
    requires
        0 <= a <= b,
    ensures
        spec_out_count(before, after, a) <= spec_out_count(before, after, b),
    decreases b - a,
{
    if a < b {
        lemma_out_count_mono(before, after, a, b - 1);
    }
}

/// One simulation tick of one room, appending the room's outbound messages
/// to `out`. A finished room is skipped entirely.
#[verifier::rlimit(100)]
fn room_tick(r: &mut Room, ks: &Vec<(u64, KeyState)>, now: u64, out: &mut Vec<(u64, Message)>)
    requires
        old(r).wf_at(now),
        forall|a: int, b: int| 0 <= a < b < ks@.len() ==> ks@[a].0 != ks@[b].0,
    ensures
        spec_room_tick_rel(*old(r), *final(r), ks@, now),
        spec_room_tick_msgs(*old(r), *final(r), ks@, now, final(out)@.skip(old(out)@.len() as int)),
        final(r).wf_at(now),
        final(out)@.len() >= old(out)@.len(),
        forall|j: int| 0 <= j < old(out)@.len() ==> (#[trigger] final(out)@[j]) == old(out)@[j],
        forall|j: int|
            old(out)@.len() <= j < final(out)@.len() ==> old(r).listeners@.contains(
                (#[trigger] final(out)@[j]).0,
            ),
        old(r).finished ==> final(out)@ == old(out)@,
        !old(r).finished ==> ({
            let base = old(out)@.len() as int;
            let ln = old(r).listeners@.len() as int;
            &&& final(out)@.len() == base + ln + (if final(r).finished {
                ln
            } else {
                0int
            })
            &&& (forall|j: int|
                0 <= j < ln ==> (#[trigger] final(out)@[base + j]).0 == old(r).listeners@[j]
                    && final(out)@[base + j].1 is Objects)
            &&& (final(r).finished ==> forall|j: int|
                0 <= j < ln ==> (#[trigger] final(out)@[base + ln + j]).0
                    == old(r).listeners@[j] && final(out)@[base + ln + j].1 is Finish)
        }),
{
    if r.finished {
        proof {
            assert(out@.skip(old(out)@.len() as int) =~= Seq::<(u64, Message)>::empty());
        }
        return ;
    }
    let ghost r0 = *old(r);
    let mut objects: Vec<GameObject> = Vec::new();
    let mut personal: Vec<(u64, Vec<GameObject>)> = Vec::new();
    let ghost obj0 = objects@;
    let ghost per0 = personal@;
    let all_ready = ships_frame_phase(r, ks, now, &mut objects, &mut personal);
    let ghost objF = objects@;
    let ghost r1 = *r;
    let started = countdown_phase(r, all_ready, now);
    let ghost r2 = *r;
    let ghost mid = r.ships@;
    let ghost step = spec_countdown_step(r0.is_playing, r0.all_ready_time, spec_all_ready(r0), now);
    proof {
        assert(r2.is_playing == step.0 && r2.all_ready_time == step.1);
        assert(started == (step.0 && !r0.is_playing));
        // the ships after the countdown are wf and carry their frame relation
        assert forall|i: int| 0 <= i < mid.len() implies (#[trigger] mid[i]).ship.wf()
            && mid[i].ship.player_num == r0.ships@[i].ship.player_num
            && mid[i].ship.player_num < 4 && mid[i].ship.last_fire_time <= now
            && mid[i].ship.last_hit_time <= now && mid[i].id == r0.ships@[i].id
            && spec_ship_frame_rel(
            r0.ships@[i].ship,
            mid[i].ship,
            spec_keystate_of(ks@, r0.ships@[i].id),
            now,
            r0.is_playing,
            started,
        ) by {
            assert(r1.ships@[i].ship.wf());
            if started {
                assert(spec_relocated(r1.ships@[i].ship, mid[i].ship));
                assert(crate::vector::coord_wrapped(0));
                assert(mid[i].ship.pos.wf());
                assert(mid[i].ship.speed.wf());
            } else {
                assert(mid[i] == r1.ships@[i]);
            }
        }
    }
    bullets_phase(&mut r.bullets, &mut objects);
    let ghost r3 = *r;
    collision_phase(&mut r.ships, &r.bullets, now);
    let ghost r4 = *r;
    proof {
        // collided ships stay wf, keep their numbers and ids, and their
        // timestamps stay within the tick
        assert forall|i: int| 0 <= i < r4.ships@.len() implies (#[trigger] r4.ships@[i]).ship.wf()
            && r4.ships@[i].ship.player_num == r0.ships@[i].ship.player_num
            && r4.ships@[i].ship.player_num < 4 && r4.ships@[i].ship.last_fire_time <= now
            && r4.ships@[i].ship.last_hit_time <= now && r4.ships@[i].id == r0.ships@[i].id by {
            assert(r4.ships@[i].ship == spec_collided(mid[i].ship, r3.bullets@, now));
        }
        assert forall|a: int, b: int|
            0 <= a < b < r4.ships@.len() implies r4.ships@[a].id != r4.ships@[b].id by {
            assert(r0.ships@[a].id != r0.ships@[b].id);
        }
    }
    proof {
        assert forall|a: int, b: int|
            0 <= a < b < personal@.len() implies personal@[a].0 != personal@[b].0 by {
            assert(personal@[per0.len() as int + a].0 == r0.ships@[a].id);
            assert(personal@[per0.len() as int + b].0 == r0.ships@[b].id);
        }
    }
    broadcast_phase(&r.listeners, &objects, &personal, out);
    let ghost out3 = out@;
    proof {
        lemma_elim_split(r4.ships@);
    }
    elimination_phase(r);
    let ghost r5 = *r;
    finish_phase(r, out);
    proof {
        let after = Seq::new(
            mid.len(),
            |i: int| ShipSlot { id: mid[i].id, ship: spec_collided(mid[i].ship, r3.bullets@, now) },
        );
        assert(after =~= r4.ships@);
        assert(r5.ships@ == spec_survivors(after));
        assert(r5.ranking@ == r0.ranking@ + spec_eliminated_nums(after));
        let survivors = spec_survivors(after);
        let fin = step.0 && survivors.len() == 1;
        // wf facts about survivors and eliminated numbers
        assert forall|i: int| 0 <= i < survivors.len() implies (#[trigger] survivors[i]).ship.wf()
            && survivors[i].ship.lives >= 1 && survivors[i].ship.player_num < 4
            && survivors[i].ship.last_fire_time <= now && survivors[i].ship.last_hit_time
            <= now by {
            let j = choose|j: int| 0 <= j < r4.ships@.len() && survivors[i] == r4.ships@[j];
            assert(r4.ships@[j].ship.wf());
        }
        assert forall|i: int|
            0 <= i < spec_eliminated_nums(after).len() implies #[trigger] spec_eliminated_nums(
            after,
        )[i] < 4 by {
            let j = choose|j: int|
                0 <= j < r4.ships@.len() && spec_eliminated_nums(after)[i]
                    == r4.ships@[j].ship.player_num;
            assert(r4.ships@[j].ship.player_num < 4);
        }
        assert(survivors.len() + spec_eliminated_nums(after).len() == r0.ships@.len());
        if fin {
            assert(final(r).ranking@ =~= r0.ranking@ + spec_eliminated_nums(after) + seq![
                survivors[0].ship.player_num,
            ]);
        }
        if !step.0 {
            assert(r0.bullets@.len() == 0);
            assert(r2.bullets@ =~= Seq::<Bullet>::empty());
            assert(spec_bullets_step(r2.bullets@) =~= Seq::<Bullet>::empty()) by {
                reveal(Seq::filter);
            }
        }
        assert(final(r).bullets@ == spec_bullets_step(
            r0.bullets@ + spec_fired_bullets(r0.ships@, mid, ks@, now, r0.is_playing),
        )) by {
            if started {
                lemma_fired_bullets_lobby(r0.ships@, r1.ships@, ks@, now);
                lemma_fired_bullets_lobby(r0.ships@, mid, ks@, now);
                assert(r0.bullets@ + Seq::<Bullet>::empty() =~= r0.bullets@);
            } else {
                assert(mid == r1.ships@);
            }
        }
        assert(spec_room_ships_rel(r0, *final(r), ks@, now, mid));
        assert(final(r).id == r0.id);
        assert(final(r).listeners == r0.listeners);
        assert(final(r).occupancy == r0.occupancy);
        assert(final(r).player_num_pool == r0.player_num_pool);
        assert(final(r).is_playing == step.0);
        assert(final(r).all_ready_time == step.1);
        assert(forall|i: int|
            0 <= i < final(r).bullets@.len() ==> (#[trigger] final(r).bullets@[i]).wf());
        assert(!step.0 ==> final(r).bullets@.len() == 0);
        assert(spec_room_tick_rel(r0, *final(r), ks@, now));
        // the room invariant is restored
        match final(r).all_ready_time {
            Some(t) => {
                assert(!final(r).is_playing && t <= now);
            },
            None => {},
        }
        // player numbers stay pairwise distinct across ships, pool and ranking
        if fin {
            assert(final(r).ships@ =~= Seq::<ShipSlot>::empty());
        }
        lemma_tick_wf_nums(*final(r), r0, now, after, fin);
        assert(final(r).wf_at(now));
        // appended messages go to this room's listeners
        assert forall|j: int|
            old(out)@.len() <= j < final(out)@.len() implies old(r).listeners@.contains(
            (#[trigger] final(out)@[j]).0,
        ) by {
            let base = old(out)@.len() as int;
            let ln = r0.listeners@.len() as int;
            if j < base + ln {
                let jj = j - base;
                assert(out3[base + jj].0 == r0.listeners@[jj]);
                assert(final(out)@[j] == out3[j]);
                assert(final(out)@[j].0 == r0.listeners@[jj]);
            } else {
                let jj = j - base - ln;
                assert(final(out)@[out3.len() + jj].0 == r0.listeners@[jj]);
                assert(final(out)@[j].0 == r0.listeners@[jj]);
            }
        }
        // the appended messages realize the broadcast relation
        let base = old(out)@.len() as int;
        let ln = r0.listeners@.len() as int;
        let msgs = final(out)@.skip(base);
        let fm = spec_frame_models(r0.ships@, mid, ks@, r0.is_playing);
        let models = fm + spec_bullet_models(final(r).bullets@);
        assert(objF.skip(obj0.len() as int) =~= objF);
        if started {
            lemma_frame_models_lobby(r0.ships@, r1.ships@, mid, ks@);
        }
        assert(spec_frame_models(r0.ships@, r1.ships@, ks@, r0.is_playing) == fm);
        assert(spec_objs_match(objF, fm));
        assert(final(r).bullets@ == r3.bullets@);
        assert(objects@ =~= objF + objects@.skip(objF.len() as int));
        lemma_objs_match_concat(
            objF,
            fm,
            objects@.skip(objF.len() as int),
            spec_bullet_models(final(r).bullets@),
        );
        assert(spec_objs_match(objects@, models));
        assert forall|j: int|
            0 <= j < ln implies {
                &&& (#[trigger] msgs[j]).0 == r0.listeners@[j]
                &&& msgs[j].1 is Objects
                &&& spec_objs_match(
                    msgs[j].1->Objects_data@,
                    models + spec_personal_for(r0, r0.listeners@[j]),
                )
            } by {
            let lid = r0.listeners@[j];
            assert(msgs[j] == out3[base + j]);
            assert(out3[base + j].0 == lid && out3[base + j].1 is Objects);
            let data = out3[base + j].1->Objects_data@;
            assert(data == objects@ + spec_personal_payload(personal@, lid));
            let pf = spec_personal_for(r0, lid);
            assert(spec_objs_match(spec_personal_payload(personal@, lid), pf)) by {
                if r0.is_playing {
                    assert(personal@.len() == 0);
                } else if spec_has_ship(r0.ships@, lid) {
                    let k = ship_index_of(r0.ships@, lid);
                    assert(0 <= k < r0.ships@.len() && r0.ships@[k].id == lid);
                    assert(personal@[per0.len() as int + k].0 == r0.ships@[k].id);
                    assert(exists|kk: int| 0 <= kk < personal@.len() && personal@[kk].0 == lid);
                    let kk = choose|kk: int|
                        0 <= kk < personal@.len() && personal@[kk].0 == lid;
                    assert(personal@[per0.len() as int + kk].0 == r0.ships@[kk].id);
                    if kk != k {
                        assert(r0.ships@[kk].id != r0.ships@[k].id);
                    }
                    assert(spec_objs_match(
                        personal@[per0.len() as int + k].1@,
                        spec_personal_models(r0.ships@[k].ship.player_num),
                    ));
                } else {
                    assert forall|kk: int|
                        0 <= kk < personal@.len() implies personal@[kk].0 != lid by {
                        assert(personal@[per0.len() as int + kk].0 == r0.ships@[kk].id);
                    }
                }
            }
            lemma_objs_match_concat(objects@, models, spec_personal_payload(personal@, lid), pf);
        }
        if fin {
            assert forall|j: int|
                0 <= j < ln implies {
                    &&& (#[trigger] msgs[ln + j]).0 == r0.listeners@[j]
                    &&& msgs[ln + j].1 is Finish
                    &&& spec_objs_match(
                        msgs[ln + j].1->Finish_data@,
                        spec_finish_models(final(r).ranking@),
                    )
                } by {
                assert(msgs[ln + j] == final(out)@[out3.len() + j]);
            }
        }
        assert(msgs.len() == ln + if final(r).finished {
            ln
        } else {
            0int
        });
        assert(spec_room_out_rel(r0, *final(r), ks@, mid, msgs));
        assert(spec_room_tick_msgs(r0, *final(r), ks@, now, msgs));
    }
}

// ---------------------------------------------------------------------------
// Laws of the countdown.
// ---------------------------------------------------------------------------
/// In a lobby, a tick never clears a ready flag: an all-ready room stays
/// all-ready until it starts playing.
pub proof fn lemma_all_ready_persists(r: Room, r2: Room, ks: Seq<(u64, KeyState)>, now: u64)
    requires
        spec_room_tick_rel(r, r2, ks, now),
        r.wf_at(now),
        !r.finished,
        !r.is_playing,
        spec_all_ready(r),
    ensures
        r2.is_playing || spec_all_ready(r2),
{
    if !r2.is_playing {
        let mid = choose|m: Seq<ShipSlot>| spec_room_ships_rel(r, r2, ks, now, m);
        let after = Seq::new(
            mid.len(),
            |i: int| ShipSlot { id: mid[i].id, ship: spec_collided(mid[i].ship, r2.bullets@, now) },
        );
        assert(r2.bullets@.len() == 0);
        assert forall|i: int|
            0 <= i < after.len() implies (#[trigger] after[i]).ship.is_ready && after[i].ship.lives
            != 0 by {
            assert(!spec_hit(mid[i].ship, r2.bullets@));
            assert(after[i].ship == mid[i].ship);
            assert(spec_ship_frame_rel(
                r.ships@[i].ship,
                mid[i].ship,
                spec_keystate_of(ks, r.ships@[i].id),
                now,
                r.is_playing,
                false,
            ));
            assert(r.ships@[i].ship.is_ready);
            assert(r.ships@[i].ship.lives >= 1);
        }
        assert forall|a: int, b: int|
            0 <= a < b < after.len() implies after[a].id != after[b].id by {
            assert(r.ships@[a].id != r.ships@[b].id);
        }
        lemma_elim_split(after);
        assert(spec_survivors(after) == after);
        assert(r2.ships@ == after);
        assert(spec_all_ready(r2));
    }
}

/// What one lobby tick does to an all-ready room, bundled for the induction
/// below: the countdown state steps exactly, the ready flags persist, and
/// the room cannot finish while it is not playing.
proof fn lemma_lobby_tick_facts(r: Room, r2: Room, ks: Seq<(u64, KeyState)>, now: u64)
    requires
        spec_room_tick_rel(r, r2, ks, now),
        r.wf_at(now),
        !r.finished,
        !r.is_playing,
        spec_all_ready(r),
    ensures
        ({
            let step = spec_countdown_step(r.is_playing, r.all_ready_time, true, now);
            r2.is_playing == step.0 && r2.all_ready_time == step.1
        }),
        !r2.is_playing ==> spec_all_ready(r2) && !r2.finished,
{
    lemma_all_ready_persists(r, r2, ks, now);
    if !r2.is_playing {
        let mid = choose|m: Seq<ShipSlot>| spec_room_ships_rel(r, r2, ks, now, m);
        assert(spec_room_ships_rel(r, r2, ks, now, mid));
    }
}

/// The tick that starts a game relocates every ship: each lands inside the
/// arena, with a heading inside the turn and zero velocity.
pub proof fn lemma_start_tick_relocates(r: Room, r2: Room, ks: Seq<(u64, KeyState)>, now: u64)
    requires
        spec_room_tick_rel(r, r2, ks, now),
        r.wf_at(now),
        !r.finished,
        !r.is_playing,
        r2.is_playing,
        spec_all_ready(r),
    ensures
        r2.ships@.len() == r.ships@.len(),
        forall|k: int|
            0 <= k < r2.ships@.len() ==> {
                &&& 0 <= (#[trigger] r2.ships@[k]).ship.pos.x < crate::vector::WIDTH
                &&& 0 <= r2.ships@[k].ship.pos.y < crate::vector::HEIGHT
                &&& 0 <= r2.ships@[k].ship.rad < TURN
                &&& r2.ships@[k].ship.speed == (Vector { x: 0, y: 0 })
            },
{
    let mid = choose|m: Seq<ShipSlot>| spec_room_ships_rel(r, r2, ks, now, m);
    assert(spec_room_ships_rel(r, r2, ks, now, mid));
    let step = spec_countdown_step(r.is_playing, r.all_ready_time, spec_all_ready(r), now);
    let started = step.0 && !r.is_playing;
    assert(started);
    // the bullets stay empty across the start tick
    lemma_fired_bullets_lobby(r.ships@, mid, ks, now);
    assert(r.bullets@ + spec_fired_bullets(r.ships@, mid, ks, now, false) =~= Seq::<
        Bullet,
    >::empty());
    assert(spec_bullets_step(Seq::<Bullet>::empty()) =~= Seq::<Bullet>::empty()) by {
        reveal(Seq::filter);
    }
    assert(r2.bullets@.len() == 0);
    let after = Seq::new(
        mid.len(),
        |i: int| ShipSlot { id: mid[i].id, ship: spec_collided(mid[i].ship, r2.bullets@, now) },
    );
    assert forall|k: int|
        0 <= k < after.len() implies (#[trigger] after[k]).ship == mid[k].ship
        && after[k].ship.lives != 0 && spec_relocated(
        spec_lobby_latched(r.ships@[k].ship, spec_keystate_of(ks, r.ships@[k].id)),
        mid[k].ship,
    ) by {
        assert(!spec_hit(mid[k].ship, r2.bullets@));
        assert(spec_ship_frame_rel(
            r.ships@[k].ship,
            mid[k].ship,
            spec_keystate_of(ks, r.ships@[k].id),
            now,
            false,
            started,
        ));
        assert(r.ships@[k].ship.lives >= 1);
    }
    assert forall|a: int, b: int| 0 <= a < b < after.len() implies after[a].id != after[b].id by {
        assert(r.ships@[a].id != r.ships@[b].id);
    }
    lemma_elim_split(after);
    assert(spec_survivors(after) == after);
    // more than one ship is ready, so the game does not end on this tick
    assert(r2.ships@ == after);
}

/// The lobby-to-playing law at the level of whole rooms. `chain[i]` is the
/// room's state before the tick at `t0 + i`; the first state is all-ready
/// with a clear timer, every step is one simulation tick, and the
/// well-formedness premise is what `tick` itself ensures of every room. The
/// room is then still not playing after the ticks at tick `t0` up to
/// `t0 + COUNTDOWN_TICKS`, and is playing once the tick at
/// `t0 + COUNTDOWN_TICKS + 1` has run, with every ship relocated into the
/// arena at zero velocity.
pub proof fn lemma_room_ready_to_playing(
    chain: Seq<Room>,
    ksf: spec_fn(int) -> Seq<(u64, KeyState)>,
    t0: u64,
)
    requires
        2 <= chain.len(),
        t0 + chain.len() < u64::MAX,
        !chain[0].finished,
        !chain[0].is_playing,
        chain[0].all_ready_time is None,
        spec_all_ready(chain[0]),
        forall|i: int| 0 <= i < chain.len() ==> (#[trigger] chain[i]).wf_at((t0 + i) as u64),
        forall|i: int|
            0 <= i < chain.len() - 1 ==> spec_room_tick_rel(
                chain[i],
                chain[i + 1],
                #[trigger] ksf(i),
                (t0 + i) as u64,
            ),
    ensures
        forall|i: int|
            1 <= i < chain.len() && i <= COUNTDOWN_TICKS + 1 ==> !(#[trigger] chain[i]).is_playing,
        COUNTDOWN_TICKS + 2 < chain.len() ==> chain[COUNTDOWN_TICKS + 2].is_playing,
        COUNTDOWN_TICKS + 2 < chain.len() ==> chain[COUNTDOWN_TICKS + 2].ships@.len()
            == chain[COUNTDOWN_TICKS + 1].ships@.len() && forall|k: int|
            0 <= k < chain[COUNTDOWN_TICKS + 2].ships@.len() ==> {
                &&& 0 <= (#[trigger] chain[COUNTDOWN_TICKS + 2].ships@[k]).ship.pos.x
                    < crate::vector::WIDTH
                &&& 0 <= chain[COUNTDOWN_TICKS + 2].ships@[k].ship.pos.y < crate::vector::HEIGHT
                &&& 0 <= chain[COUNTDOWN_TICKS + 2].ships@[k].ship.rad < TURN
                &&& chain[COUNTDOWN_TICKS + 2].ships@[k].ship.speed == (Vector { x: 0, y: 0 })
            },
{
    assert forall|i: int|
        1 <= i < chain.len() && i <= COUNTDOWN_TICKS + 2 implies (i <= COUNTDOWN_TICKS + 1
        ==> !(#[trigger] chain[i]).is_playing) && (i == COUNTDOWN_TICKS + 2
        ==> chain[i].is_playing) by {
        lemma_room_chain_state(chain, ksf, t0, i);
    }
    if COUNTDOWN_TICKS + 2 < chain.len() {
        let p = COUNTDOWN_TICKS + 1 as int;
        lemma_room_chain_state(chain, ksf, t0, p);
        lemma_room_chain_state(chain, ksf, t0, p + 1);
        assert(spec_room_tick_rel(chain[p], chain[p + 1], ksf(p), (t0 + p) as u64));
        lemma_start_tick_relocates(chain[p], chain[p + 1], ksf(p), (t0 + p) as u64);
    }
}

/// The induction behind `lemma_room_ready_to_playing`: through the whole
/// countdown the room stays in its lobby with the timer pinned at `t0` and
/// every ship ready; the tick after the countdown starts the game.
proof fn lemma_room_chain_state(
    chain: Seq<Room>,
    ksf: spec_fn(int) -> Seq<(u64, KeyState)>,
    t0: u64,
    i: int,
)
    requires
        2 <= chain.len(),
        t0 + chain.len() < u64::MAX,
        !chain[0].finished,
        !chain[0].is_playing,
        chain[0].all_ready_time is None,
        spec_all_ready(chain[0]),
        forall|j: int| 0 <= j < chain.len() ==> (#[trigger] chain[j]).wf_at((t0 + j) as u64),
        forall|j: int|
            0 <= j < chain.len() - 1 ==> spec_room_tick_rel(
                chain[j],
                chain[j + 1],
                #[trigger] ksf(j),
                (t0 + j) as u64,
            ),
        1 <= i < chain.len(),
        i <= COUNTDOWN_TICKS + 2,
    ensures
        i <= COUNTDOWN_TICKS + 1 ==> !chain[i].is_playing && chain[i].all_ready_time == Some(t0)
            && spec_all_ready(chain[i]) && !chain[i].finished,
        i == COUNTDOWN_TICKS + 2 ==> chain[i].is_playing,
    decreases i,
{
    if i == 1 {
        assert(spec_room_tick_rel(chain[0], chain[1], ksf(0), t0));
        lemma_lobby_tick_facts(chain[0], chain[1], ksf(0), t0);
    } else {
        lemma_room_chain_state(chain, ksf, t0, i - 1);
        let now = (t0 + i - 1) as u64;
        assert(spec_room_tick_rel(chain[i - 1], chain[i], ksf(i - 1), now));
        lemma_lobby_tick_facts(chain[i - 1], chain[i], ksf(i - 1), now);
    }
}

impl GameServer {
    /// One simulation tick: advances the clock, runs every room through its
    /// per-ship, countdown, bullet, collision, broadcast, elimination and
    /// end-of-game phases, and returns the outbound messages, each addressed
    /// to a listener of the room it came from.
    pub fn tick(&mut self) -> (out: Vec<(u64, Message)>)
        requires
            old(self).wf(),
            old(self).now < u64::MAX,
        ensures
            final(self).wf(),
            final(self).now == old(self).now + 1,
            final(self).keystates == old(self).keystates,
            final(self).rooms@.len() == old(self).rooms@.len(),
            forall|i: int|
                0 <= i < old(self).rooms@.len() ==> spec_room_tick_rel(
                    old(self).rooms@[i],
                    (#[trigger] final(self).rooms@[i]),
                    old(self).keystates@,
                    (old(self).now + 1) as u64,
                ),
            // each room's messages stand in one contiguous segment of `out`,
            // in room order, and realize the room's broadcast relation
            forall|i: int|
                0 <= i < old(self).rooms@.len() ==> spec_room_tick_msgs(
                    old(self).rooms@[i],
                    (#[trigger] final(self).rooms@[i]),
                    old(self).keystates@,
                    (old(self).now + 1) as u64,
                    out@.subrange(
                        spec_out_count(old(self).rooms@, final(self).rooms@, i),
                        spec_out_count(old(self).rooms@, final(self).rooms@, i + 1),
                    ),
                ),
            spec_out_to_listeners(old(self).rooms@, out@),
            out@.len() == spec_out_count(
                old(self).rooms@,
                final(self).rooms@,
                old(self).rooms@.len() as int,
            ),
    {
        let now = self.now + 1;
        self.now = now;
        let mut out: Vec<(u64, Message)> = Vec::new();
        let n = self.rooms.len();
        let mut i: usize = 0;
        while i < n
            invariant
                n == self.rooms@.len(),
                n == old(self).rooms@.len(),
                i <= n,
                old(self).wf(),
                now == old(self).now + 1,
                self.now == now,
                self.keystates == old(self).keystates,
                forall|j: int| i <= j < n ==> self.rooms@[j] == old(self).rooms@[j],
                forall|j: int|
                    0 <= j < i ==> spec_room_tick_rel(
                        old(self).rooms@[j],
                        (#[trigger] self.rooms@[j]),
                        old(self).keystates@,
                        now,
                    ),
                forall|j: int| 0 <= j < i ==> (#[trigger] self.rooms@[j]).wf_at(now),
                forall|j: int|
                    0 <= j < i ==> spec_room_tick_msgs(
                        old(self).rooms@[j],
                        (#[trigger] self.rooms@[j]),
                        old(self).keystates@,
                        now,
                        out@.subrange(
                            spec_out_count(old(self).rooms@, self.rooms@, j),
                            spec_out_count(old(self).rooms@, self.rooms@, j + 1),
                        ),
                    ),
                spec_out_to_listeners(old(self).rooms@, out@),
                out@.len() == spec_out_count(old(self).rooms@, self.rooms@, i as int),
            decreases n - i,
        {
            proof {
                assert(old(self).rooms@[i as int].wf_at(old(self).now));
                lemma_wf_at_monotone(old(self).rooms@[i as int], old(self).now, now);
            }
            let ghost pre = out@;
            let ghost rooms_pre = self.rooms@;
            let r = &mut self.rooms[i];
            room_tick(r, &self.keystates, now, &mut out);
            proof {
                assert forall|j: int|
                    0 <= j < out@.len() implies exists|q: int|
                    0 <= q < old(self).rooms@.len() && old(self).rooms@[q].listeners@.contains(
                        (#[trigger] out@[j]).0,
                    ) by {
                    if j < pre.len() {
                        assert(out@[j] == pre[j]);
                        assert(spec_out_to_listeners(old(self).rooms@, pre));
                    } else {
                        assert(old(self).rooms@[i as int].listeners@.contains(out@[j].0));
                    }
                }
                assert(spec_out_to_listeners(old(self).rooms@, out@));
                lemma_out_count_prefix(old(self).rooms@, rooms_pre, self.rooms@, i as int);
                assert(out@.len() == spec_out_count(
                    old(self).rooms@,
                    self.rooms@,
                    i as int + 1,
                ));
                // earlier rooms keep their message segments unchanged
                assert forall|j: int|
                    0 <= j < i as int implies spec_room_tick_msgs(
                    old(self).rooms@[j],
                    (#[trigger] self.rooms@[j]),
                    old(self).keystates@,
                    now,
                    out@.subrange(
                        spec_out_count(old(self).rooms@, self.rooms@, j),
                        spec_out_count(old(self).rooms@, self.rooms@, j + 1),
                    ),
                ) by {
                    lemma_out_count_prefix(old(self).rooms@, rooms_pre, self.rooms@, j);
                    lemma_out_count_prefix(old(self).rooms@, rooms_pre, self.rooms@, j + 1);
                    let cj = spec_out_count(old(self).rooms@, rooms_pre, j);
                    let cj1 = spec_out_count(old(self).rooms@, rooms_pre, j + 1);
                    lemma_out_count_mono(old(self).rooms@, rooms_pre, 0, j);
                    lemma_out_count_mono(old(self).rooms@, rooms_pre, j, j + 1);
                    lemma_out_count_mono(old(self).rooms@, rooms_pre, j + 1, i as int);
                    assert(out@.subrange(cj, cj1) =~= pre.subrange(cj, cj1));
                    assert(self.rooms@[j] == rooms_pre[j]);
                }
                // this room's messages are exactly its segment
                assert(out@.subrange(
                    spec_out_count(old(self).rooms@, self.rooms@, i as int),
                    spec_out_count(old(self).rooms@, self.rooms@, i as int + 1),
                ) =~= out@.skip(pre.len() as int));
            }
            i = i + 1;
        }
        // the remaining invariant over every room needs the loop to have
        // covered the whole list
        out
    }
}

} // verus!
