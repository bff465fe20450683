use ryguessr::event::PlayerData;
use ryguessr::room::{round_end, PlayerGuess};
use ryguessr::colors::{DistinctColors, PlayerColor};
use ryguessr::event::RoomEvent;
use ryguessr::geo::{Coordinates, Location};
use ryguessr::handle;
use ryguessr::room::{self, Room, ROOM_ID_LENGTH};
use ryguessr::srgb::Srgb8;

fn loc(pano: &str) -> Location {
    Location { coordinates: Coordinates { lat: 0, lng: 0 }, pano_id: pano.to_string() }
}

fn id(s: &str) -> handle::Id {
    handle::Id(s.to_string())
}

fn red() -> Srgb8 {
    Srgb8 { r: 255, g: 0, b: 0 }
}

fn new_room() -> Room {
    Room::new(loc("pano"), id("alice"), "alice".to_string(), Some(red()), DistinctColors::new([0, 0, 0]), |_i: usize| None)
}

#[test]
fn new_room_has_its_creator() {
    let room = new_room();
    assert_eq!(room.members.len(), 1);
    assert_eq!(room.members[0].0, id("alice"));
    assert_eq!(room.members[0].1.username, "alice");
    assert_eq!(room.members[0].1.score, 0);
    assert_eq!(room.members[0].1.color, PlayerColor::custom(red()));
    assert_eq!(room.round, 0);
    assert!(room.is_idle());
    assert_eq!(room.colors.occupied().clone(), vec![red()]);
}

#[test]
fn add_member_announces_to_others() {
    let mut room = new_room();
    let blue = Srgb8 { r: 0, g: 0, b: 255 };
    let ev = room.add_member(&id("bob"), "bob".to_string(), None, move |_i: usize| Some(blue));
    match ev {
        RoomEvent::PlayerJoined { client_id, data } => {
            assert_eq!(client_id, id("bob"));
            assert_eq!(data.username, "bob");
            assert_eq!(data.color, blue);
            assert_eq!(data.score, 0);
        }
        _ => panic!("expected a join event"),
    }
    let players = room.players();
    assert_eq!(players.len(), 2);
    assert_eq!(players[1].username, "bob");
    assert_eq!(players[1].color, blue);
}

#[test]
fn remove_member_frees_color_and_announces() {
    let mut room = new_room();
    room.add_member(&id("bob"), "bob".to_string(), Some(Srgb8 { r: 1, g: 1, b: 1 }), |_i: usize| None);
    let ev = room.remove_member(&id("alice"));
    match ev {
        Some(RoomEvent::PlayerLeft { client_id, username }) => {
            assert_eq!(client_id, id("alice"));
            assert_eq!(username, "alice");
        }
        _ => panic!("expected a leave event"),
    }
    assert_eq!(room.members.len(), 1);
    assert_eq!(room.colors.occupied().clone(), vec![Srgb8 { r: 1, g: 1, b: 1 }]);
    assert!(room.remove_member(&id("nobody")).is_none());
}

#[test]
fn ready_and_next_round() {
    let mut room = new_room();
    room.add_member(&id("bob"), "bob".to_string(), Some(Srgb8 { r: 1, g: 1, b: 1 }), |_i: usize| None);
    assert!(!room.submit_ready(&id("alice")));
    assert!(!room.submit_ready(&id("nobody")));
    assert!(room.submit_ready(&id("bob")));
    let ev = room.start_next_round(loc("pano-2"));
    match ev {
        RoomEvent::RoundStart(data) => {
            assert_eq!(data.pano_id, "pano-2");
            assert_eq!(data.round, 1);
        }
        _ => panic!("expected a round start"),
    }
    assert_eq!(room.round, 1);
    assert!(room.members.iter().all(|m| !m.1.ready_next_round));
    assert_eq!(room.location.pano_id, "pano-2");
}

#[test]
fn guesses_end_the_round() {
    let mut room = new_room();
    room.add_member(&id("bob"), "bob".to_string(), Some(Srgb8 { r: 1, g: 1, b: 1 }), |_i: usize| None);
    let g1 = Coordinates { lat: 1, lng: 2 };
    let g2 = Coordinates { lat: 3, lng: 4 };
    assert!(room.submit_guess(&id("alice"), g1, 5000).is_none());
    assert_eq!(room.members[0].1.score, 5000);
    assert_eq!(room.members[0].1.guess, Some(g1));
    let results = room.submit_guess(&id("bob"), g2, 120).expect("round ends");
    assert_eq!(results.len(), 2);
    assert_eq!(results[0].player.username, "alice");
    assert_eq!(results[0].player.score, 5000);
    assert_eq!(results[0].guess_location, g1);
    assert_eq!(results[1].player.score, 120);
    assert_eq!(results[1].guess_location, g2);
    assert!(room.members.iter().all(|m| m.1.guess.is_none()));
    assert!(room.submit_guess(&id("nobody"), g1, 1).is_none());
}

#[test]
fn connections_and_cleanup() {
    let mut room = new_room();
    assert!(!room.arm_cleanup());
    assert!(room.arm_cleanup());
    assert!(room.connect());
    assert!(!room.is_idle());
    assert!(!room.connect());
    room.disconnect();
    room.disconnect();
    assert!(room.is_idle());
    room.disconnect();
    assert!(room.is_idle());
}

#[test]
fn room_ids() {
    let r = room::Id::random();
    assert_eq!(r.as_str().chars().count(), ROOM_ID_LENGTH);
    assert!(r.as_str().chars().all(|c| "ABCDEFGHJKLMNPQRSTUVWXYZ23456789".contains(c)));
    let back = room::Id::parse(r.as_str().to_string()).expect("reads back");
    assert_eq!(back, r);
    assert_eq!(room::Id::parse("ABCDE".to_string()), Err(5));
    assert_eq!(room::Id::parse("".to_string()), Err(0));
    assert_eq!(room::Id::parse("ÄBC9".to_string()).map(|i| i.as_str().to_string()), Ok("ÄBC9".to_string()));
}

fn key(c: Srgb8) -> (u8, u8, u8) {
    (c.r, c.g, c.b)
}

fn in_step(room: &Room) -> bool {
    let mut occ: Vec<_> = room.colors.occupied().iter().map(|c| key(*c)).collect();
    let mut mem: Vec<_> = room.members.iter().map(|m| key(m.1.color.srgb)).collect();
    occ.sort();
    mem.sort();
    occ == mem
}

#[test]
fn colors_stay_in_step_with_members() {
    let mut room = new_room();
    assert!(in_step(&room));
    room.add_member(&id("bob"), "bob".to_string(), None, |_i: usize| Some(Srgb8 { r: 0, g: 0, b: 255 }));
    assert!(in_step(&room));
    room.add_member(&id("cy"), "cy".to_string(), Some(red()), |_i: usize| None);
    assert!(in_step(&room));
    room.set_member_color(&id("bob"), Srgb8 { r: 7, g: 7, b: 7 });
    assert!(in_step(&room));
    room.remove_member(&id("alice"));
    assert!(in_step(&room));
    assert_eq!(room.colors.occupied().len(), 2);
}

#[test]
fn round_end_lists_each_guess() {
    let p = |n: &str| PlayerData { username: n.to_string(), color: red(), score: 7 };
    let g1 = Coordinates { lat: 1, lng: 2 };
    let g2 = Coordinates { lat: 3, lng: 4 };
    let guesses = vec![PlayerGuess { player: p("a"), guess_location: g1 }, PlayerGuess { player: p("b"), guess_location: g2 }];
    let real = Coordinates { lat: 9, lng: 9 };
    match round_end(real, &guesses, &vec![10, 20], &vec![100, 200]) {
        RoomEvent::RoundEnd(d) => {
            assert_eq!(d.real_location, real);
            assert_eq!(d.player_results.len(), 2);
            assert_eq!(d.player_results[1].player.username, "b");
            assert_eq!(d.player_results[1].distance, 20);
            assert_eq!(d.player_results[1].round_score, 200);
            assert_eq!(d.player_results[0].guess_location, g1);
        }
        _ => panic!("expected a round end"),
    }
}
