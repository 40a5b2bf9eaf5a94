use myx::json::{parse, Json};
use myx::radio::{
    autoplay_query, radio_tracks, station_of, station_query, tracks_in, RadioError, Reply,
};

const SEED: &str = "spotify:track:seed";

fn reply(status: i32, frames: &[&[u8]]) -> Reply {
    Reply { status, payload: frames.iter().map(|f| f.to_vec()).collect() }
}

#[test]
fn queries_hold_the_address() {
    assert_eq!(autoplay_query(SEED), "hm://autoplay-enabled/query?uri=spotify:track:seed");
    assert_eq!(station_query("spotify:station:x"), "hm://radio-apollo/v3/stations/spotify:station:x");
}

#[test]
fn station_is_the_first_frame() {
    assert_eq!(station_of(&reply(200, &[b"spotify:station:x", b"more"])), Ok("spotify:station:x".to_string()));
    assert_eq!(station_of(&reply(200, &[])), Ok(String::new()));
    assert_eq!(station_of(&reply(200, &["é".as_bytes()])), Ok("é".to_string()));
    assert_eq!(station_of(&reply(404, &[b"x"])), Err(RadioError::AutoplayStatus(404)));
    assert_eq!(station_of(&reply(200, &[&[0xff, 0xfe]])), Err(RadioError::StationNotText));
}

#[test]
fn seed_is_followed_by_similar_tracks() {
    let body = b"{\"tracks\":[{\"uri\":\"spotify:track:a\"},{\"uri\":\"spotify:track:seed\"},\
        {\"uri\":\"spotify:episode:e\"},{\"name\":\"no uri\"},{\"uri\":7},5,\
        {\"uri\":\"spotify:track:b\"},{\"uri\":\"spotify:track:a\"}]}";
    assert_eq!(
        radio_tracks(&reply(200, &[body]), SEED),
        Ok(vec![
            SEED.to_string(),
            "spotify:track:a".to_string(),
            "spotify:track:b".to_string(),
            "spotify:track:a".to_string(),
        ])
    );
}

#[test]
fn station_without_tracks_is_the_seed_alone() {
    for body in ["{}", "[]", "null", "{\"tracks\":{}}", "{\"tracks\":[]}"] {
        assert_eq!(radio_tracks(&reply(200, &[body.as_bytes()]), SEED), Ok(vec![SEED.to_string()]));
    }
    assert_eq!(tracks_in(&Json::Null, "s"), vec!["s"]);
}

#[test]
fn station_errors() {
    assert_eq!(radio_tracks(&reply(500, &[b"{}"]), SEED), Err(RadioError::StationStatus(500)));
    assert_eq!(radio_tracks(&reply(200, &[b"{"]), SEED), Err(RadioError::TracksNotJson));
    assert_eq!(radio_tracks(&reply(200, &[]), SEED), Err(RadioError::TracksNotJson));
}

#[test]
fn json_values_are_taken_apart() {
    let value = parse(b"{\"a\":[null,true,3,-3,\"t\"],\"b\":{\"c\":18446744073709551615}}").expect("json");
    match value.member("a") {
        Some(Json::Array(items)) => {
            assert!(matches!(items[0], Json::Null));
            assert!(matches!(items[1], Json::Bool(true)));
            assert!(matches!(items[2], Json::Number(Some(3))));
            assert!(matches!(items[3], Json::Number(None)));
            assert!(matches!(&items[4], Json::Text(t) if t == "t"));
            assert_eq!(items.len(), 5);
        }
        _ => panic!("an array"),
    }
    let inner = value.member("b").expect("an object");
    assert_eq!(inner.number_member("c"), Some(u64::MAX));
    assert_eq!(inner.number_member("d"), None);
    assert_eq!(inner.text_member("c"), None);
    assert!(value.member("z").is_none());
    assert!(parse(b"{'a':1}").is_none());
    assert_eq!(parse(b"{\"k\":1,\"k\":2}").expect("json").number_member("k"), Some(2));
}
