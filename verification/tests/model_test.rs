use ryguessr::colors::{DistinctColors, PlayerColor};
use ryguessr::name_gen::NameGenerator;
use ryguessr::context::{requested_username, CreateError, Model};
use ryguessr::error::AppError;
use ryguessr::event::RoomEvent;
use ryguessr::geo::{Coordinates, Location};
use ryguessr::handle;
use ryguessr::room;
use ryguessr::srgb::Srgb8;

fn loc(pano: &str) -> Location {
    Location { coordinates: Coordinates { lat: 7, lng: 8 }, pano_id: pano.to_string() }
}

fn cid(s: &str) -> handle::Id {
    handle::Id(s.to_string())
}

fn rid(s: &str) -> room::Id {
    room::Id::parse(s.to_string()).expect("four characters")
}

fn rgb(r: u8, g: u8, b: u8) -> Srgb8 {
    Srgb8 { r, g, b }
}

fn open(m: &mut Model, client: &str, room: &str, color: Srgb8) {
    m.insert_new_room(
        loc("pano"),
        cid(client),
        client.to_string(),
        Some(color),
        DistinctColors::new([0, 0, 0]),
        |_i: usize| None,
        rid(room),
    );
}

#[test]
fn new_model_is_empty() {
    let m = Model::new();
    assert!(m.rooms.is_empty());
    assert!(m.clients.is_empty());
    assert!(!m.has_room(&rid("AAAA")));
    assert!(m.client(&cid("x")).is_none());
}

#[test]
fn opening_a_room_registers_the_client() {
    let mut m = Model::new();
    let color = m.insert_new_room(
        loc("p1"),
        cid("alice"),
        "alice".to_string(),
        None,
        DistinctColors::new([0, 0, 0]),
        |i: usize| if i == 0 { Some(rgb(1, 2, 3)) } else { None },
        rid("ABCD"),
    );
    assert_eq!(color.srgb, rgb(1, 2, 3));
    assert!(!color.custom);
    let h = m.client(&cid("alice")).expect("registered");
    assert_eq!(h.room, rid("ABCD"));
    assert_eq!(h.username, "alice");
    assert!(h.session.is_none());
    let room = m.room(&rid("ABCD")).ok().expect("room exists");
    assert_eq!(room.location.pano_id, "p1");
    assert_eq!(room.members.len(), 1);
    let players = m.room_players(&rid("ABCD")).ok().expect("room exists");
    assert_eq!(players.len(), 1);
    assert_eq!(players[0].username, "alice");
    assert_eq!(players[0].color, rgb(1, 2, 3));
    assert!(m.username_taken("alice"));
    assert!(!m.username_taken("bob"));
    assert!(matches!(m.room_players(&rid("ZZZZ")), Err(AppError::RoomNotFound)));
    assert!(matches!(m.client_room(&cid("bob")), Err(AppError::UnknownClient)));
}

#[test]
fn creating_again_keeps_one_room() {
    let mut m = Model::new();
    open(&mut m, "alice", "ABCD", rgb(1, 1, 1));
    let left = m.remove_client(&cid("alice"));
    match left {
        Some((r, RoomEvent::PlayerLeft { client_id, username })) => {
            assert_eq!(r, rid("ABCD"));
            assert_eq!(client_id, cid("alice"));
            assert_eq!(username, "alice");
        }
        _ => panic!("expected a departure"),
    }
    open(&mut m, "alice", "EFGH", rgb(1, 1, 1));
    assert_eq!(m.rooms.len(), 1);
    assert!(m.has_room(&rid("EFGH")));
    assert!(!m.has_room(&rid("ABCD")));
    assert!(m.remove_client(&cid("nobody")).is_none());
}

#[test]
fn connect_and_disconnect_streams() {
    let mut m = Model::new();
    open(&mut m, "alice", "ABCD", rgb(1, 1, 1));
    assert_eq!(m.arm_cleanup(&rid("ABCD")), Some(false));
    assert_eq!(m.arm_cleanup(&rid("NONE")), None);
    let cn = m.connect(&cid("alice")).ok().expect("known client");
    assert_eq!(cn.room_id, rid("ABCD"));
    assert!(cn.had_cleanup);
    match &cn.initial {
        RoomEvent::RoundStart(d) => {
            assert_eq!(d.pano_id, "pano");
            assert_eq!(d.round, 0);
        }
        _ => panic!("expected a round start"),
    }
    assert_eq!(m.client(&cid("alice")).unwrap().session, Some(cn.session));
    assert_eq!(m.room(&rid("ABCD")).ok().unwrap().active_connections, 1);
    assert!(matches!(m.connect(&cid("bob")), Err(AppError::UnknownClient)));

    // A stale session only closes its stream.
    let stale = cn.session.wrapping_add(1);
    let d = m.disconnect(&cid("alice"), &rid("ABCD"), stale);
    assert!(d.left.is_none());
    assert!(d.idle);
    assert!(m.client(&cid("alice")).is_some());

    let cn2 = m.connect(&cid("alice")).ok().unwrap();
    let d = m.disconnect(&cid("alice"), &rid("ABCD"), cn2.session);
    assert!(matches!(d.left, Some((_, RoomEvent::PlayerLeft { .. }))));
    assert!(m.client(&cid("alice")).is_none());
    assert!(!m.has_room(&rid("ABCD")));
    assert!(!d.idle);
}

#[test]
fn drop_room_only_when_idle() {
    let mut m = Model::new();
    open(&mut m, "alice", "ABCD", rgb(1, 1, 1));
    open(&mut m, "carol", "WXYZ", rgb(2, 2, 2));
    m.connect(&cid("alice")).ok().unwrap();
    assert!(!m.drop_room_if_idle(&rid("ABCD")));
    assert!(m.has_room(&rid("ABCD")));
    assert!(m.drop_room_if_idle(&rid("WXYZ")));
    assert!(!m.has_room(&rid("WXYZ")));
    assert!(m.client(&cid("carol")).is_none());
    assert!(m.client(&cid("alice")).is_some());
    assert!(!m.drop_room_if_idle(&rid("WXYZ")));
}

#[test]
fn renaming_and_recoloring() {
    let mut m = Model::new();
    open(&mut m, "alice", "ABCD", rgb(1, 1, 1));
    open(&mut m, "bob", "WXYZ", rgb(2, 2, 2));
    assert!(matches!(m.set_name(&cid("alice"), "bob".to_string()), Err(AppError::UsernameTaken)));
    assert!(m.set_name(&cid("alice"), "alice".to_string()).is_ok());
    assert!(m.set_name(&cid("alice"), "ally".to_string()).is_ok());
    assert_eq!(m.client(&cid("alice")).unwrap().username, "ally");
    assert_eq!(m.room(&rid("ABCD")).ok().unwrap().members[0].1.username, "ally");
    assert!(matches!(m.set_name(&cid("zed"), "z".to_string()), Err(AppError::UnknownClient)));

    assert!(m.set_color(&cid("alice"), rgb(9, 8, 7)).is_ok());
    let h = m.client(&cid("alice")).unwrap();
    assert_eq!(h.color.srgb, rgb(9, 8, 7));
    assert!(h.color.custom);
    assert_eq!(m.room(&rid("ABCD")).ok().unwrap().members[0].1.color.srgb, rgb(9, 8, 7));
    assert!(matches!(m.set_color(&cid("zed"), rgb(0, 0, 0)), Err(AppError::UnknownClient)));
}

#[test]
fn moving_between_rooms() {
    let mut m = Model::new();
    open(&mut m, "alice", "ABCD", rgb(1, 1, 1));
    open(&mut m, "bob", "WXYZ", rgb(2, 2, 2));
    assert!(matches!(m.move_client_to_room(&cid("alice"), &rid("NONE")), Err(AppError::RoomNotFound)));
    assert!(matches!(m.move_client_to_room(&cid("zed"), &rid("WXYZ")), Err(AppError::UnknownClient)));

    let same = m.move_client_to_room(&cid("bob"), &rid("WXYZ")).ok().unwrap();
    assert!(same.joined.is_none());
    assert!(same.left.is_none());
    assert_eq!(same.player.username, "bob");

    let mv = m.move_client_to_room(&cid("alice"), &rid("WXYZ")).ok().unwrap();
    assert_eq!(mv.player.username, "alice");
    assert_eq!(mv.player.color, rgb(1, 1, 1));
    assert_eq!(mv.player.score, 0);
    assert!(matches!(mv.joined, Some(RoomEvent::PlayerJoined { .. })));
    match mv.left {
        Some((r, RoomEvent::PlayerLeft { client_id, .. })) => {
            assert_eq!(r, rid("ABCD"));
            assert_eq!(client_id, cid("alice"));
        }
        _ => panic!("expected a departure"),
    }
    assert!(!m.has_room(&rid("ABCD")));
    assert_eq!(m.client(&cid("alice")).unwrap().room, rid("WXYZ"));
    assert_eq!(m.room(&rid("WXYZ")).ok().unwrap().members.len(), 2);
}

#[test]
fn rounds_through_the_model() {
    let mut m = Model::new();
    open(&mut m, "alice", "ABCD", rgb(1, 1, 1));
    assert!(matches!(m.submit_ready(&cid("zed")), Err(AppError::UnknownClient)));
    assert_eq!(m.submit_ready(&cid("alice")).ok(), Some(true));
    match m.start_next_round(&cid("alice"), loc("p2")) {
        Ok(RoomEvent::RoundStart(d)) => {
            assert_eq!(d.round, 1);
            assert_eq!(d.pano_id, "p2");
        }
        _ => panic!("expected a round start"),
    }
    let g = Coordinates { lat: 5, lng: 6 };
    let res = m.submit_guess(&cid("alice"), g, 4000).ok().unwrap().expect("round over");
    assert_eq!(res.len(), 1);
    assert_eq!(res[0].player.score, 4000);
    assert_eq!(res[0].guess_location, g);
    assert!(matches!(m.submit_guess(&cid("zed"), g, 1), Err(AppError::UnknownClient)));
}

#[test]
fn requested_names() {
    assert_eq!(requested_username(None), None);
    assert_eq!(requested_username(Some(String::new())), None);
    assert_eq!(requested_username(Some("neo".to_string())), Some("neo".to_string()));
}

fn words() -> NameGenerator {
    NameGenerator::new("brave\nquick\n", "fox\nowl\n")
}

fn create(m: &mut Model, client: &handle::Id, name: Option<&str>) -> (room::Id, String, PlayerColor) {
    m.create_room(
        loc("pano"),
        client.clone(),
        name.map(|n| n.to_string()),
        None,
        DistinctColors::new([0, 0, 0]),
        |i: usize| if i == 0 { Some(rgb(5, 5, 5)) } else { None },
        &words(),
    )
    .map(|c| (c.room_id, c.username, c.color))
    .expect("a free room identifier")
}

#[test]
fn test_room_leak_on_reinit() {
    let mut model = Model::new();
    let client_id = handle::Id::generate();
    create(&mut model, &client_id, Some("test"));
    assert_eq!(model.rooms.len(), 1, "Should have 1 room initially");
    let again = model
        .create_room(loc("pano"), client_id.clone(), Some("test".to_string()), None, DistinctColors::new([0, 0, 0]), |_i: usize| None, &words())
        .expect("a free room identifier");
    assert!(matches!(again.left, Some((_, RoomEvent::PlayerLeft { .. }))));
    assert_eq!(model.rooms.len(), 1, "Should still have only 1 room, old one should be cleaned up");
}

#[test]
fn test_stale_room_cleanup() {
    let mut model = Model::new();
    let client_id = handle::Id::generate();
    let (room_id, _, _) = create(&mut model, &client_id, Some("test"));
    assert_eq!(model.rooms.len(), 1);
    assert_eq!(model.clients.len(), 1);
    assert!(model.drop_room_if_idle(&room_id));
    assert_eq!(model.rooms.len(), 0, "Stale room should be cleaned up");
    assert_eq!(model.clients.len(), 0, "Client associated with stale room should be cleaned up");
}

#[test]
fn test_active_room_not_cleaned_up() {
    let mut model = Model::new();
    let client_id = handle::Id::generate();
    create(&mut model, &client_id, Some("test"));
    model.connect(&client_id).ok().expect("registered");
    let room_id = model.client(&client_id).unwrap().room.clone();
    assert!(!model.drop_room_if_idle(&room_id));
    assert_eq!(model.rooms.len(), 1, "Active room should NOT be cleaned up");
}

#[test]
fn create_room_names_and_colors_the_client() {
    let mut m = Model::new();
    let (rid1, name, color) = create(&mut m, &cid("a"), Some("ann"));
    assert_eq!(name, "ann");
    assert_eq!(color, PlayerColor::distinct(rgb(5, 5, 5)));
    assert_eq!(rid1.as_str().chars().count(), room::ROOM_ID_LENGTH);
    assert_eq!(m.client(&cid("a")).unwrap().room, rid1);
    let (_, generated, _) = create(&mut m, &cid("b"), Some(""));
    let ok = ["brave-fox", "brave-owl", "quick-fox", "quick-owl"];
    assert!(ok.contains(&generated.as_str()), "{generated}");
    let (_, generated2, _) = create(&mut m, &cid("c"), None);
    assert!(ok.contains(&generated2.as_str()), "{generated2}");
    assert_eq!(m.rooms.len(), 3);
    let c = m
        .create_room(loc("p"), cid("d"), None, Some(rgb(1, 2, 3)), DistinctColors::new([0, 0, 0]), |_i: usize| None, &words())
        .unwrap()
        .color;
    assert_eq!(c, PlayerColor::custom(rgb(1, 2, 3)));
}

#[test]
fn unique_names_avoid_taken_ones() {
    let mut m = Model::new();
    let g = NameGenerator::new("solo\n", "fox\nowl\n");
    open(&mut m, "x", "ABCD", rgb(1, 1, 1));
    m.set_name(&cid("x"), "solo-fox".to_string()).ok().unwrap();
    for _ in 0..20 {
        let n = m.generate_unique_name(&g);
        assert_eq!(n, Some("solo-owl".to_string()));
    }
}

#[test]
fn no_free_name_is_reported() {
    let mut m = Model::new();
    let g = NameGenerator::new("solo\n", "fox\n");
    open(&mut m, "x", "ABCD", rgb(1, 1, 1));
    assert_eq!(m.generate_unique_name(&g), Some("solo-fox".to_string()));
    m.set_name(&cid("x"), "solo-fox".to_string()).ok().unwrap();
    assert_eq!(m.generate_unique_name(&g), None);
    let r = m.create_room(loc("p"), cid("y"), None, Some(rgb(2, 2, 2)), DistinctColors::new([0, 0, 0]), |_i: usize| None, &g);
    assert!(matches!(r, Err(CreateError::NoFreeName)));
    assert_eq!(m.rooms.len(), 1);
    assert_eq!(m.clients.len(), 1);
    let r = m.create_room(loc("p"), cid("y"), Some("yan".to_string()), Some(rgb(2, 2, 2)), DistinctColors::new([0, 0, 0]), |_i: usize| None, &g);
    assert!(r.is_ok());
}

#[test]
fn fresh_room_ids_are_free() {
    let mut m = Model::new();
    open(&mut m, "x", "ABCD", rgb(1, 1, 1));
    for _ in 0..50 {
        let id = m.fresh_room_id().expect("plenty of identifiers");
        assert_ne!(id, rid("ABCD"));
        assert!(!m.has_room(&id));
    }
}

#[test]
fn config_of_the_clients_room() {
    let mut m = Model::new();
    open(&mut m, "x", "ABCD", rgb(1, 1, 1));
    assert!(m.set_config(&cid("x"), room::Config {}).is_ok());
    assert!(matches!(m.set_config(&cid("y"), room::Config {}), Err(AppError::UnknownClient)));
}

#[test]
fn an_empty_registry_always_has_a_free_room_id() {
    let m = Model::new();
    for _ in 0..20 {
        assert!(m.fresh_room_id().is_some());
    }
}

#[test]
fn the_last_free_name_is_found() {
    let mut m = Model::new();
    let nouns: Vec<String> = (0..120).map(|i| format!("n{i}")).collect();
    let g = NameGenerator::new("solo\n", &nouns.join("\n"));
    for (k, noun) in nouns.iter().enumerate() {
        if k == 77 {
            continue;
        }
        let rid = format!("R{:03}", k);
        open(&mut m, &format!("c{k}"), &rid, rgb(1, 1, 1));
        m.set_name(&cid(&format!("c{k}")), format!("solo-{noun}")).ok().unwrap();
    }
    for _ in 0..5 {
        assert_eq!(m.generate_unique_name(&g), Some("solo-n77".to_string()));
    }
}

#[test]
fn room_ids_are_numbered() {
    assert_eq!(room::Id::nth(0).as_str(), "AAAA");
    assert_eq!(room::Id::nth(33).as_str(), "AABB");
    assert_eq!(room::Id::nth(room::ROOM_ID_COUNT - 1).as_str(), "9999");
    let m = Model::new();
    let id = m.fresh_room_id().unwrap();
    assert_eq!(room::Id::parse(id.as_str().to_string()).ok(), Some(id));
}
