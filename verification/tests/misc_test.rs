use ryguessr::streetview::{panorama_from_metadata, MetadataError};
use ryguessr::config::{default_bind_addr, default_osm_data_dir, default_web_dir};
use ryguessr::error::AppError;
use ryguessr::event::{EventEnvelope, PlayerData, Recipients, RoomEvent, RoundEndData, RoundStartData};
use ryguessr::engine::{after_attempt, Search, MAX_ATTEMPTS};
use ryguessr::geo::{point_bits, point_count, Coordinates, Location, POINT_SIZE};
use ryguessr::regions::name_order;
use ryguessr::handle::{self, new_session, ID_COOKIE_NAME};
use ryguessr::name_gen::NameGenerator;
use ryguessr::sampler::{RandomLocationSampler, SamplerError};
use ryguessr::srgb::Srgb8;

fn cid(s: &str) -> handle::Id {
    handle::Id(s.to_string())
}

fn player(name: &str) -> PlayerData {
    PlayerData { username: name.to_string(), color: Srgb8 { r: 0, g: 0, b: 0 }, score: 0 }
}

#[test]
fn member_news_goes_to_the_others() {
    let joined = RoomEvent::PlayerJoined { client_id: cid("a"), data: player("a") };
    match joined.recipients() {
        Recipients::Except(v) => assert_eq!(v, vec![cid("a")]),
        _ => panic!("expected everyone but the member"),
    }
    let left = RoomEvent::PlayerLeft { client_id: cid("b"), username: "b".to_string() };
    match EventEnvelope::from(left).recipients {
        Recipients::Except(v) => assert_eq!(v, vec![cid("b")]),
        _ => panic!("expected everyone but the member"),
    }
}

#[test]
fn round_news_goes_to_everyone() {
    let start = RoomEvent::RoundStart(RoundStartData { pano_id: "p".to_string(), round: 3 });
    assert!(matches!(start.recipients(), Recipients::All));
    let end = RoomEvent::RoundEnd(RoundEndData {
        real_location: Coordinates { lat: 0, lng: 0 },
        player_results: Vec::new(),
    });
    let env = EventEnvelope::from(end);
    assert!(matches!(env.recipients, Recipients::All));
    assert!(matches!(env.event, RoomEvent::RoundEnd(_)));
}

#[test]
fn single_recipient_lists() {
    match Recipients::only_one(cid("x")) {
        Recipients::Only(v) => assert_eq!(v, vec![cid("x")]),
        _ => panic!("expected only one"),
    }
    match Recipients::except_one(cid("y")) {
        Recipients::Except(v) => assert_eq!(v, vec![cid("y")]),
        _ => panic!("expected all but one"),
    }
}

#[test]
fn error_answers() {
    assert_eq!(AppError::UnknownClient.status(), 401);
    assert_eq!(AppError::RoomNotFound.status(), 404);
    assert_eq!(AppError::RoomInactive.status(), 409);
    assert_eq!(AppError::UsernameTaken.status(), 409);
    assert_eq!(AppError::Internal("boom".to_string()).status(), 500);
    assert_eq!(AppError::UnknownClient.message(), "unknown client");
    assert_eq!(AppError::RoomNotFound.message(), "room not found");
    assert_eq!(AppError::RoomInactive.message(), "room is inactive");
    assert_eq!(AppError::UsernameTaken.message(), "username already taken");
    assert_eq!(AppError::Internal("boom".to_string()).message(), "internal server error");
}

#[test]
fn config_defaults() {
    assert_eq!(default_osm_data_dir(), "osm");
    assert_eq!(default_web_dir(), "../web/out");
    assert_eq!(default_bind_addr(), "0.0.0.0:3000");
}

#[test]
fn road_points_decode_little_endian() {
    assert_eq!(POINT_SIZE, 8);
    assert_eq!(point_count(0), 0);
    assert_eq!(point_count(7), 0);
    assert_eq!(point_count(17), 2);
    let lat: f32 = 48.5;
    let lng: f32 = -3.25;
    let mut data = vec![0u8; 8];
    data.extend_from_slice(&lat.to_le_bytes());
    data.extend_from_slice(&lng.to_le_bytes());
    let (a, b) = point_bits(&data, 1);
    assert_eq!(f32::from_bits(a), lat);
    assert_eq!(f32::from_bits(b), lng);
    assert_eq!(point_bits(&[1, 2, 3, 4, 5, 6, 7, 8], 0), (0x04030201, 0x08070605));
}

#[test]
fn client_ids() {
    let a = handle::Id::generate();
    let b = handle::Id::generate();
    assert_eq!(a.0.chars().count(), 36);
    for (k, c) in a.0.chars().enumerate() {
        if k == 8 || k == 13 || k == 18 || k == 23 {
            assert_eq!(c, '-');
        } else {
            assert!(c.is_ascii_hexdigit() && !c.is_ascii_uppercase(), "{}", a.0);
        }
    }
    assert_ne!(a, b);
    let chars: Vec<char> = a.0.chars().collect();
    assert_eq!(chars[14], '4');
    assert!("89ab".contains(chars[19]), "{}", a.0);
    assert_eq!(handle::Id::try_from("cookie-value").ok(), Some(cid("cookie-value")));
    assert_eq!(handle::Id::try_from("").ok(), Some(cid("")));
    assert_eq!(ID_COOKIE_NAME, "client-id");
    assert_ne!(new_session(), new_session());
}

#[test]
fn word_lists_follow_lines() {
    let g = NameGenerator::new("brave\r\nquick\n\nsly", "fox\n");
    assert_eq!(g.word_counts(), (3, 1));
    let g = NameGenerator::new("", "");
    assert_eq!(g.word_counts(), (0, 0));
    let g = NameGenerator::new("a\n\n", "b\r\n \t\n");
    assert_eq!(g.word_counts(), (1, 1));
}

#[test]
fn generated_names_join_an_adjective_and_a_noun() {
    let g = NameGenerator::new("brave\r\nquick\n", "fox\nowl");
    for _ in 0..20 {
        let name = g.generate();
        let (adj, noun) = name.split_once('-').expect("has a hyphen");
        assert!(adj == "brave" || adj == "quick", "{name}");
        assert!(noun == "fox" || noun == "owl", "{name}");
    }
}

#[test]
fn sampler_refuses_bad_counts() {
    assert!(matches!(RandomLocationSampler::new(vec![]), Err(SamplerError::InvalidInput)));
    assert!(matches!(RandomLocationSampler::new(vec![0, 0]), Err(SamplerError::InsufficientNonZero)));
    assert!(matches!(
        RandomLocationSampler::new(vec![usize::MAX, 1]),
        Err(SamplerError::Overflow)
    ));
}

#[test]
fn sampler_draws_from_non_empty_regions() {
    let s = RandomLocationSampler::new(vec![0, 3, 0, 5]).ok().expect("valid counts");
    for _ in 0..100 {
        let (region, idx) = s.sample();
        assert!(region == 1 || region == 3);
        assert!(idx < [0, 3, 0, 5][region]);
    }
}

#[test]
fn search_steps() {
    let found = Location { coordinates: Coordinates { lat: 1, lng: 2 }, pano_id: "pano".to_string() };
    match after_attempt(0, Some(found)) {
        Search::Found(l) => assert_eq!(l.pano_id, "pano"),
        _ => panic!("expected the location"),
    }
    assert!(matches!(after_attempt(0, None), Search::Retry(1)));
    assert!(matches!(after_attempt(MAX_ATTEMPTS - 2, None), Search::Retry(n) if n == MAX_ATTEMPTS - 1));
    assert!(matches!(after_attempt(MAX_ATTEMPTS - 1, None), Search::GaveUp));
    assert_eq!(MAX_ATTEMPTS, 100);
}

#[test]
fn regions_ordered_by_name() {
    let names: Vec<String> = ["europe/france", "asia", "europe", "Zulu", "europe/france", "ä", "b"]
        .iter()
        .map(|s| s.to_string())
        .collect();
    let order = name_order(&names);
    let sorted: Vec<&str> = order.iter().map(|&i| names[i].as_str()).collect();
    assert_eq!(sorted, vec!["Zulu", "asia", "b", "europe", "europe/france", "europe/france", "ä"]);
    assert_eq!(order[4], 0);
    assert_eq!(order[5], 4);
    assert!(name_order(&Vec::new()).is_empty());
}

#[test]
fn request_bodies() {
    let r = ryguessr::api::InitRequest::default();
    assert!(r.username.is_none());
    assert!(r.color.is_none());
    let e = ryguessr::api::ErrorResponse { error: "x".to_string() };
    assert_eq!(e.error, "x");
}

#[test]
fn metadata_answers() {
    let ok = br#"{"status":"OK","location":{"lat":48.8566,"lng":2.3522},"pano_id":"abc123"}"#;
    let l = panorama_from_metadata(ok).ok().expect("a panorama");
    assert_eq!(f64::from_bits(l.coordinates.lat), 48.8566);
    assert_eq!(f64::from_bits(l.coordinates.lng), 2.3522);
    assert_eq!(l.pano_id, "abc123");
    let int = br#"{"location":{"lat":1,"lng":-2},"pano_id":"p"}"#;
    let l = panorama_from_metadata(int).ok().unwrap();
    assert_eq!(f64::from_bits(l.coordinates.lng), -2.0);
    let cases: [(&[u8], MetadataError); 7] = [
        (b"not json", MetadataError::NotJson),
        (br#"{"status":"ZERO_RESULTS"}"#, MetadataError::NoLocation),
        (br#"[1,2]"#, MetadataError::NoLocation),
        (br#"{"location":{"lng":1.0},"pano_id":"p"}"#, MetadataError::NoLatitude),
        (br#"{"location":{"lat":"1","lng":1.0},"pano_id":"p"}"#, MetadataError::NoLatitude),
        (br#"{"location":{"lat":1.0},"pano_id":"p"}"#, MetadataError::NoLongitude),
        (br#"{"location":{"lat":1.0,"lng":2.0}}"#, MetadataError::NoPanoId),
    ];
    for (body, e) in cases {
        assert_eq!(panorama_from_metadata(body).err(), Some(e));
    }
    assert_eq!(
        panorama_from_metadata(br#"{"location":{"lat":1.0,"lng":2.0},"pano_id":7}"#).err(),
        Some(MetadataError::PanoIdNotText)
    );
    assert_eq!(MetadataError::NoPanoId.message(), "expected pano id");
}
