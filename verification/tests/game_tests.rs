use shooting_server::bullet::Bullet;
use shooting_server::keystate::KeyState;
use shooting_server::server::{GameObject, GameServer, Message, Room};
use shooting_server::ship::Ship;
use shooting_server::vector::Vector;

fn room_index(gs: &GameServer, id: u64) -> usize {
    gs.rooms.iter().position(|r| r.id == id).expect("room not found")
}

fn room_of<'a>(gs: &'a GameServer, id: u64) -> &'a Room {
    &gs.rooms[room_index(gs, id)]
}

fn ship_num(gs: &GameServer, room: u64, player: u64) -> u8 {
    room_of(gs, room)
        .ships
        .iter()
        .find(|s| s.id == player)
        .expect("ship not found")
        .ship
        .player_num
}

fn keys(space: bool) -> KeyState {
    KeyState { left: false, right: false, up: false, space }
}

#[test]
fn bullet_expiry() {
    // A bullet at (0,0) heading 0 with speed 7: alive through x = 595 (and a
    // little beyond), dead on the tick where its step would cross the seam.
    let mut b = Bullet::new("#00ff00".to_string(), Vector::new(0, 0), 0);
    assert_eq!(b.speed, Vector::new(7_000, 0));
    for i in 0..=85 {
        assert_eq!(b.pos.x, 7_000 * i);
        assert!(b.is_alive());
        b.move_by_one_frame();
    }
    // x = 602: the next step to 609 stays inside the margin
    assert!(b.is_alive());
    b.move_by_one_frame();
    // x = 609: the next step would wrap across x = 615, so the bullet dies
    assert_eq!(b.pos.x, 609_000);
    assert!(!b.is_alive());
}

#[test]
fn player_number_reuse() {
    let mut gs = GameServer::new();
    let room = gs.create_room().expect("no room id free");

    // fill the room: slots are handed out in order
    assert!(gs.join(10, room, false));
    assert!(gs.join(20, room, false));
    assert!(gs.join(30, room, false));
    assert!(gs.join(40, room, false));
    assert_eq!(ship_num(&gs, room, 10), 0);
    assert_eq!(ship_num(&gs, room, 20), 1);
    assert_eq!(ship_num(&gs, room, 30), 2);
    assert_eq!(ship_num(&gs, room, 40), 3);

    // the freed number goes to the next joiner
    gs.disconnect(20, room, false);
    assert!(gs.join(50, room, false));
    assert_eq!(ship_num(&gs, room, 50), 1);
}

#[test]
fn player_number_pool_is_fifo() {
    let mut gs = GameServer::new();
    let room = gs.create_room().expect("no room id free");

    assert!(gs.join(1, room, false));
    assert!(gs.join(2, room, false));
    gs.disconnect(1, room, false);
    // the freed 0 went to the back of the pool [2, 3, 0]
    assert!(gs.join(3, room, false));
    assert_eq!(ship_num(&gs, room, 3), 2);
    assert!(gs.join(4, room, false));
    assert_eq!(ship_num(&gs, room, 4), 3);
    assert!(gs.join(5, room, false));
    assert_eq!(ship_num(&gs, room, 5), 0);
}

#[test]
fn ready_to_playing_transition() {
    let mut gs = GameServer::new();
    let room = gs.create_room().expect("no room id free");
    assert!(gs.join(1, room, false));
    assert!(gs.join(2, room, false));
    gs.key_update(1, keys(true));
    gs.key_update(2, keys(true));

    // first tick latches the ready flags; the second observes all-ready
    gs.tick();
    assert!(!gs.is_playing(room));
    gs.tick();
    assert!(!gs.is_playing(room));
    // one second of countdown: still not playing through the 60th tick after
    // the observation
    for _ in 0..60 {
        gs.tick();
        assert!(!gs.is_playing(room));
    }
    // the next tick is more than one second past the observation
    gs.tick();
    assert!(gs.is_playing(room));
}

#[test]
fn collision_elimination_and_ranking() {
    let mut gs = GameServer::new();
    let room = gs.create_room().expect("no room id free");
    assert!(gs.join(10, room, false));
    assert!(gs.join(20, room, false));
    let i = room_index(&gs, room);
    gs.rooms[i].is_playing = true;
    gs.rooms[i].ships[0].ship.lives = 1;
    let target_pos = gs.rooms[i].ships[0].ship.pos;
    // a bullet on top of player 0, heading away from player 1
    gs.rooms[i].bullets.push(Bullet::new(
        "#ffffff".to_string(),
        target_pos,
        32_768,
    ));

    // the hit lands on the first tick
    gs.tick();
    assert!(!gs.rooms[i].ships[0].ship.is_alive);
    assert_eq!(gs.rooms[i].ships[0].ship.lives, 1);

    // the respawn window: the dead ship stays in the room for a full second
    for _ in 0..60 {
        gs.tick();
        assert_eq!(gs.rooms[i].ships.len(), 2);
    }
    // past the window it revives with zero lives and is removed at once;
    // with one ship left the game ends
    let out = gs.tick();
    assert!(gs.rooms[i].finished);
    assert_eq!(gs.rooms[i].ships.len(), 0);
    assert_eq!(gs.rooms[i].ranking, vec![0u8, 1u8]);

    // the game-over ship is excluded from that tick's broadcast objects
    let objs = out
        .iter()
        .find_map(|(_, m)| match m {
            Message::Objects { data } => Some(data),
            _ => None,
        })
        .expect("no objects message");
    let ships: Vec<&Ship> = objs
        .iter()
        .filter_map(|o| match o {
            GameObject::Ship { data } => Some(data),
            _ => None,
        })
        .collect();
    assert_eq!(ships.len(), 1);
    assert_eq!(ships[0].player_num, 1);

    // the finish order lists the survivor first
    let finish = out
        .iter()
        .find_map(|(id, m)| match m {
            Message::Finish { data } => Some((*id, data)),
            _ => None,
        })
        .expect("no finish message");
    assert!(finish.0 == 10 || finish.0 == 20);
    let texts: Vec<String> = finish
        .1
        .iter()
        .map(|o| match o {
            shooting_server::server::GameObject::Text { data } => data.text.clone(),
            _ => "<not a text>".to_string(),
        })
        .collect();
    assert_eq!(texts, vec!["1st Player2", "2nd Player1", "GAME OVER"]);
}

#[test]
fn idempotent_deletion() {
    let mut gs = GameServer::new();
    let room = gs.create_room().expect("no room id free");
    assert!(gs.join(1, room, false));
    assert_eq!(gs.rooms.len(), 1);

    gs.delete_room(room);
    assert_eq!(gs.rooms.len(), 0);
    // the second call is a no-op
    gs.delete_room(room);
    assert_eq!(gs.rooms.len(), 0);
    // deleting an unknown id is a no-op too
    gs.delete_room(9_999_999);
    assert_eq!(gs.rooms.len(), 0);
}

#[test]
fn coordinator_queries() {
    let mut gs = GameServer::new();
    assert_eq!(gs.get_player_count(42), 0);
    assert!(!gs.is_playing(42));
    assert!(gs.list_rooms().is_empty());
    assert!(!gs.join(1, 42, false));
    gs.disconnect(1, 42, false);

    let a = gs.create_room().expect("no room id free");
    let b = gs.create_room().expect("no room id free");
    assert!(a < 10_000 && b < 10_000);
    assert_ne!(a, b);

    assert!(gs.join(1, a, false));
    assert!(gs.join(2, a, true));
    assert_eq!(gs.get_player_count(a), 1);
    assert_eq!(gs.get_player_count(b), 0);
    assert_eq!(gs.list_rooms(), vec![a]);

    gs.disconnect(1, a, false);
    assert_eq!(gs.get_player_count(a), 0);
    assert!(gs.list_rooms().is_empty());
}

#[test]
fn watcher_gets_no_ship() {
    let mut gs = GameServer::new();
    let room = gs.create_room().expect("no room id free");
    assert!(gs.join(7, room, true));
    let r = room_of(&gs, room);
    assert_eq!(r.ships.len(), 0);
    assert_eq!(r.occupancy, 0);
    assert_eq!(r.listeners, vec![7u64]);
}

#[test]
fn respawn_stays_inside_arena() {
    let mut ship = Ship::new(0, "#00ff00".to_string(), Vector::new(0, 0), 0, 0);
    for _ in 0..32 {
        ship.put_on_random_place();
        assert!(0 <= ship.pos.x && ship.pos.x < 600_000);
        assert!(0 <= ship.pos.y && ship.pos.y < 600_000);
        assert!(0 <= ship.rad && ship.rad < 65_536);
        assert_eq!(ship.speed, Vector::new(0, 0));
    }
}

#[test]
fn fire_is_rate_limited() {
    let mut ship = Ship::new(0, "#00ff00".to_string(), Vector::new(300_000, 300_000), 0, 0);
    // the cooldown has not elapsed right after spawning
    assert!(ship.fire(10).is_none());
    let b = ship.fire(31).expect("cooldown elapsed");
    // the bullet appears 15 units ahead of the ship
    assert_eq!(b.pos, Vector::new(315_000, 300_000));
    // and the cooldown restarts
    assert!(ship.fire(40).is_none());
    assert!(ship.fire(62).is_some());
}

#[test]
fn fired_bullet_speed_follows_heading() {
    // heading 0: the bullet flies along +x at the fixed 7-unit speed
    let mut ship = Ship::new(0, "#00ff00".to_string(), Vector::new(300_000, 300_000), 0, 0);
    let b = ship.fire(31).expect("cooldown elapsed");
    assert_eq!(b.speed, Vector::new(7_000, 0));
    // a quarter turn later it flies along +y
    let mut ship2 = Ship::new(0, "#00ff00".to_string(), Vector::new(300_000, 300_000), 16_384, 0);
    let b2 = ship2.fire(31).expect("cooldown elapsed");
    assert_eq!(b2.speed, Vector::new(0, 7_000));
}

#[test]
fn firing_appends_a_bullet_to_the_room() {
    let mut gs = GameServer::new();
    let room = gs.create_room().expect("no room id free");
    assert!(gs.join(1, room, false));
    assert!(gs.join(2, room, false));
    let i = room_index(&gs, room);
    gs.rooms[i].is_playing = true;
    gs.key_update(1, keys(true));

    // the cooldown since the spawn timestamp has to elapse first
    for _ in 0..30 {
        gs.tick();
    }
    assert_eq!(gs.rooms[i].bullets.len(), 0);

    // the shot lands in the room's bullet list, already advanced one step:
    // the ship spawns facing up, so the bullet leaves the muzzle at
    // y = 285 and moves to y = 278
    let out = gs.tick();
    assert_eq!(gs.rooms[i].bullets.len(), 1);
    assert_eq!(gs.rooms[i].bullets[0].pos, Vector::new(150_000, 278_000));
    assert_eq!(gs.rooms[i].bullets[0].speed, Vector::new(0, -7_000));

    // the broadcast carries the moved bullet
    let data = match &out[0].1 {
        Message::Objects { data } => data,
        _ => panic!("expected an objects message"),
    };
    let bullets: Vec<&Bullet> = data
        .iter()
        .filter_map(|o| match o {
            GameObject::Bullet { data } => Some(data),
            _ => None,
        })
        .collect();
    assert_eq!(bullets.len(), 1);
    assert_eq!(bullets[0].pos, Vector::new(150_000, 278_000));

    // the 500 ms cooldown allows no second bullet before it elapses again
    for _ in 0..30 {
        gs.tick();
    }
    assert_eq!(gs.rooms[i].bullets.len(), 1);
    gs.tick();
    assert_eq!(gs.rooms[i].bullets.len(), 2);
}

#[test]
fn ready_label_rides_the_broadcast() {
    let mut gs = GameServer::new();
    let room = gs.create_room().expect("no room id free");
    assert!(gs.join(1, room, false));
    gs.key_update(1, keys(true));
    // the first tick latches the ready flag; the second renders the label
    gs.tick();
    let out = gs.tick();
    let data = match &out[0].1 {
        Message::Objects { data } => data,
        _ => panic!("expected an objects message"),
    };
    let texts: Vec<&str> = data
        .iter()
        .filter_map(|o| match o {
            GameObject::Text { data } => Some(data.text.as_str()),
            _ => None,
        })
        .collect();
    assert!(texts.contains(&"READY"));
}

#[test]
fn broadcast_reaches_every_listener() {
    let mut gs = GameServer::new();
    let room = gs.create_room().expect("no room id free");
    assert!(gs.join(1, room, false));
    assert!(gs.join(2, room, false));
    assert!(gs.join(3, room, true));

    let out = gs.tick();
    // one Objects message per listener, players and watchers alike
    assert_eq!(out.len(), 3);
    let mut ids: Vec<u64> = out.iter().map(|(id, _)| *id).collect();
    ids.sort();
    assert_eq!(ids, vec![1, 2, 3]);

    for (id, m) in out.iter() {
        let data = match m {
            Message::Objects { data } => data,
            _ => panic!("expected an objects message"),
        };
        let texts: Vec<&str> = data
            .iter()
            .filter_map(|o| match o {
                shooting_server::server::GameObject::Text { data } => Some(data.text.as_str()),
                _ => None,
            })
            .collect();
        if *id == 1 {
            // the player's own lobby labels ride along with the broadcast
            assert!(texts.contains(&"You are Player 1"));
            assert!(texts.contains(&"YOU"));
            assert!(texts.contains(&"Space to Ready"));
        } else if *id == 3 {
            // a watcher sees only the shared objects
            assert!(!texts.iter().any(|t| t.starts_with("You are Player")));
        }
    }
}

#[test]
fn key_update_overwrites_wholesale() {
    let mut gs = GameServer::new();
    gs.key_update(9, KeyState { left: true, right: false, up: false, space: false });
    gs.key_update(9, KeyState { left: false, right: false, up: true, space: false });
    assert_eq!(gs.keystates.len(), 1);
    let (id, k) = gs.keystates[0];
    assert_eq!(id, 9);
    // the snapshot is replaced, not merged
    assert!(!k.left && k.up);
}

#[test]
fn stale_ready_timer_still_starts_the_game() {
    // The all-ready observation is recorded once and never cleared, even if
    // the condition later turns false: a room whose second player leaves
    // during the countdown still auto-starts on the stale timer, and with
    // one ship left the game ends at once.
    let mut gs = GameServer::new();
    let room = gs.create_room().expect("no room id free");
    assert!(gs.join(1, room, false));
    assert!(gs.join(2, room, false));
    gs.key_update(1, keys(true));
    gs.key_update(2, keys(true));
    gs.tick(); // latch
    gs.tick(); // observe all-ready, record the timer
    let i = room_index(&gs, room);
    assert!(gs.rooms[i].all_ready_time.is_some());

    gs.disconnect(1, room, false);
    assert!(gs.rooms[i].all_ready_time.is_some());

    for _ in 0..60 {
        gs.tick();
        assert!(!gs.is_playing(room));
    }
    gs.tick();
    assert!(gs.is_playing(room));
    assert!(gs.rooms[i].finished);
    assert_eq!(gs.rooms[i].ranking, vec![1u8]);
}

#[test]
fn hits_on_a_dead_ship_defer_its_respawn() {
    // Repeated hits keep refreshing the last-hit tick, so a ship pinned
    // under fire never reaches its respawn window.
    let mut ship = Ship::new(0, "#00ff00".to_string(), Vector::new(300_000, 300_000), 0, 100);
    let bullet = Bullet::new("#ff0000".to_string(), Vector::new(300_000, 300_000), 0);

    ship.collision_process(&bullet, 200);
    assert!(!ship.is_alive);
    assert_eq!(ship.last_hit_time, 200);

    // hit again while dead: the invincibility window moves out
    ship.collision_process(&bullet, 250);
    assert!(!ship.is_alive);
    assert_eq!(ship.last_hit_time, 250);

    // not yet past the deferred window: the ship keeps waiting
    ship.process_one_frame(&keys(false), 290);
    assert!(!ship.is_alive);
    assert_eq!(ship.lives, 3);

    // past it: the ship loses a life and revives
    ship.process_one_frame(&keys(false), 311);
    assert!(ship.is_alive);
    assert_eq!(ship.lives, 2);
}
