use myx::engine::auth::{access_token, get_creds};
use myx::engine::{
    activity, cache_dirs, device_settings, forward, map_event, needs_authorization, play_context,
    play_context_at, play_track_at, play_tracks, volume_from_percent, Context, EngineEvent,
    PlayerEvent,
};
use myx::probe::{describe, parse_command, Command};

fn uri() -> Option<String> {
    Some("spotify:track:1".to_string())
}

#[test]
fn events_are_mapped() {
    let track = "spotify:track:1";
    assert!(matches!(map_event(PlayerEvent::TrackChanged { uri: uri() }),
        Some(EngineEvent::TrackChanged { uri }) if uri == track));
    assert!(matches!(map_event(PlayerEvent::Playing { uri: uri(), position_ms: 5 }),
        Some(EngineEvent::Playing { uri, position_ms: 5 }) if uri == track));
    assert!(matches!(map_event(PlayerEvent::Paused { uri: uri(), position_ms: 6 }),
        Some(EngineEvent::Paused { uri, position_ms: 6 }) if uri == track));
    assert!(matches!(map_event(PlayerEvent::Stopped), Some(EngineEvent::Stopped)));
    assert!(matches!(map_event(PlayerEvent::PositionChanged { uri: uri(), position_ms: 7 }),
        Some(EngineEvent::PositionCorrection { uri, position_ms: 7 }) if uri == track));
    assert!(matches!(map_event(PlayerEvent::PositionCorrection { uri: uri(), position_ms: 8 }),
        Some(EngineEvent::PositionCorrection { uri, position_ms: 8 }) if uri == track));
    assert!(matches!(map_event(PlayerEvent::EndOfTrack { uri: uri() }),
        Some(EngineEvent::EndOfTrack { uri }) if uri == track));
    assert!(map_event(PlayerEvent::Other).is_none());
}

#[test]
fn events_without_an_address_are_dropped() {
    assert!(map_event(PlayerEvent::TrackChanged { uri: None }).is_none());
    assert!(map_event(PlayerEvent::Playing { uri: None, position_ms: 1 }).is_none());
    assert!(map_event(PlayerEvent::Paused { uri: None, position_ms: 1 }).is_none());
    assert!(map_event(PlayerEvent::PositionChanged { uri: None, position_ms: 1 }).is_none());
    assert!(map_event(PlayerEvent::PositionCorrection { uri: None, position_ms: 1 }).is_none());
    assert!(map_event(PlayerEvent::EndOfTrack { uri: None }).is_none());
}

#[test]
fn visualizer_follows_playback() {
    assert_eq!(activity(&PlayerEvent::Playing { uri: None, position_ms: 0 }), Some(true));
    assert_eq!(activity(&PlayerEvent::Paused { uri: uri(), position_ms: 0 }), Some(false));
    assert_eq!(activity(&PlayerEvent::Stopped), Some(false));
    assert_eq!(activity(&PlayerEvent::TrackChanged { uri: uri() }), None);
    assert_eq!(activity(&PlayerEvent::EndOfTrack { uri: uri() }), None);
    assert_eq!(activity(&PlayerEvent::Other), None);
}

#[test]
fn last_telling_event_switches_the_visualizer() {
    let after = |events: &[PlayerEvent]| {
        let mut active = false;
        for event in events {
            if let Some(flows) = activity(event) {
                active = flows;
            }
        }
        active
    };
    let playing = || PlayerEvent::Playing { uri: None, position_ms: 0 };
    let paused = || PlayerEvent::Paused { uri: uri(), position_ms: 0 };
    assert!(!after(&[PlayerEvent::TrackChanged { uri: uri() }, PlayerEvent::Other]));
    assert!(after(&[paused(), playing(), PlayerEvent::EndOfTrack { uri: uri() }]));
    assert!(!after(&[playing(), paused(), PlayerEvent::PositionChanged { uri: uri(), position_ms: 1 }]));
    assert!(!after(&[playing(), PlayerEvent::Stopped, PlayerEvent::TrackChanged { uri: None }]));
}

fn bridge(events: Vec<PlayerEvent>, room: usize) -> (Vec<String>, Vec<bool>) {
    let mut tried = Vec::new();
    let mut switched = Vec::new();
    for event in events {
        let go_on = forward(
            event,
            |active| switched.push(active),
            |report| {
                tried.push(describe(&report));
                tried.len() <= room
            },
        );
        if !go_on {
            break;
        }
    }
    (tried, switched)
}

fn session() -> Vec<PlayerEvent> {
    vec![
        PlayerEvent::TrackChanged { uri: uri() },
        PlayerEvent::Other,
        PlayerEvent::Playing { uri: uri(), position_ms: 1 },
        PlayerEvent::Paused { uri: None, position_ms: 2 },
        PlayerEvent::PositionChanged { uri: uri(), position_ms: 3 },
        PlayerEvent::Stopped,
    ]
}

#[test]
fn every_report_is_sent_in_order() {
    let (tried, switched) = bridge(session(), 9);
    assert_eq!(
        tried,
        vec![
            "♫ track changed → spotify:track:1",
            "▶ playing   spotify:track:1 @ 1ms",
            "↔ position  spotify:track:1 @ 3ms",
            "⏹ stopped",
        ]
    );
    assert_eq!(switched, vec![true, false, false]);
}

#[test]
fn nothing_is_sent_after_a_failure() {
    let (tried, switched) = bridge(session(), 1);
    assert_eq!(tried.len(), 2);
    assert_eq!(switched, vec![true]);
    assert_eq!(bridge(session(), 0).0.len(), 1);
}

#[test]
fn event_without_a_report_is_not_sent() {
    assert!(forward(PlayerEvent::Other, |_| panic!("switches"), |_| panic!("sends")));
    assert!(forward(PlayerEvent::EndOfTrack { uri: None }, |_| panic!("switches"), |_| panic!("sends")));
}

#[test]
fn streaming_token_is_read_from_the_answer() {
    assert_eq!(access_token(b"{\"access_token\":\"a\\u00e9\",\"expires_in\":1}").as_deref(), Some("a\u{e9}"));
    assert_eq!(access_token(b"{\"access_token\":\"\"}").as_deref(), Some(""));
    for body in ["", "<html>", "{}", "null", "{\"access_token\":null}", "{\"access_token\":7}", "{\"token\":\"a\"}"] {
        assert_eq!(access_token(body.as_bytes()), None);
    }
}

#[test]
fn load_requests() {
    let r = play_context("spotify:album:1".to_string(), true);
    assert!(matches!(r.context, Context::Uri(u) if u == "spotify:album:1"));
    assert!(r.start_playing && r.shuffle && r.seek_to == 0 && r.playing_track.is_none());

    let r = play_context_at("c".to_string(), uri(), 9, true);
    assert!(matches!(r.context, Context::Uri(u) if u == "c"));
    assert!(r.start_playing && r.shuffle && r.seek_to == 9);
    assert_eq!(r.playing_track, uri());

    let r = play_track_at("t".to_string(), 11);
    assert!(matches!(r.context, Context::Tracks(list) if list == vec!["t".to_string()]));
    assert!(r.start_playing && !r.shuffle && r.seek_to == 11 && r.playing_track.is_none());
}

#[test]
fn start_track_is_ignored_under_shuffle() {
    let list = vec!["a".to_string(), "b".to_string()];
    let r = play_tracks(list.clone(), Some("b".to_string()), 3, false);
    assert_eq!(r.playing_track.as_deref(), Some("b"));
    assert!(!r.shuffle && r.start_playing && r.seek_to == 3);
    let r = play_tracks(list.clone(), Some("b".to_string()), 3, true);
    assert_eq!(r.playing_track, None);
    assert!(r.shuffle);
    assert!(matches!(r.context, Context::Tracks(tracks) if tracks == list));
}

#[test]
fn authorization_is_needed_only_for_an_empty_cache() {
    assert!(needs_authorization::<u8, u8>(&Ok(None)));
    assert!(!needs_authorization::<u8, u8>(&Ok(Some(1))));
    assert!(!needs_authorization::<u8, u8>(&Err(1)));
}

#[test]
fn cached_credentials_are_preferred() {
    assert_eq!(get_creds(Some(1), || -> Result<i32, i32> { panic!("logs in") }), Ok(1));
    assert_eq!(get_creds(None, || -> Result<i32, i32> { Ok(2) }), Ok(2));
    assert_eq!(get_creds(None, || -> Result<i32, i32> { Err(3) }), Err(3));
}

#[test]
fn cache_directories() {
    let d = cache_dirs(Some("/h")).expect("a home");
    assert_eq!((d.base.home.as_str(), d.base.tail), ("/h", ".cache/myx"));
    assert_eq!((d.audio.home.as_str(), d.audio.tail), ("/h", ".cache/myx/audio"));
    assert!(cache_dirs(None).is_none());
}

#[test]
fn volumes() {
    for (percent, volume) in [(0u8, 0u16), (1, 655), (50, 32767), (99, 64879), (100, 65535), (255, 65535)] {
        assert_eq!(volume_from_percent(percent), volume);
        assert_eq!(device_settings(percent).initial_volume, volume);
    }
    let s = device_settings(50);
    assert_eq!(s.name, "myx");
    assert_eq!((s.volume_steps, s.position_update_ms, s.sample_rate), (64, 100, 44_100));
    assert!(!s.is_group && !s.disable_volume);
}

#[test]
fn commands() {
    assert!(matches!(parse_command(" load  spotify:album:1 \n"), Command::Load(u) if u == "spotify:album:1"));
    assert!(matches!(parse_command("load"), Command::Unknown(u) if u == "load"));
    assert!(matches!(parse_command("play"), Command::Play));
    assert!(matches!(parse_command("pause\n"), Command::Pause));
    assert!(matches!(parse_command("p"), Command::Toggle));
    assert!(matches!(parse_command("toggle"), Command::Toggle));
    assert!(matches!(parse_command("next"), Command::Next));
    assert!(matches!(parse_command("n"), Command::Next));
    assert!(matches!(parse_command("prev"), Command::Prev));
    assert!(matches!(parse_command("b"), Command::Prev));
    assert!(matches!(parse_command("quit"), Command::Quit));
    assert!(matches!(parse_command("q"), Command::Quit));
    assert!(matches!(parse_command("  "), Command::Nothing));
    assert!(matches!(parse_command("play now"), Command::Unknown(u) if u == "play now"));
}

#[test]
fn event_lines() {
    let u = "spotify:track:1".to_string();
    assert_eq!(describe(&EngineEvent::TrackChanged { uri: u.clone() }), "♫ track changed → spotify:track:1");
    assert_eq!(describe(&EngineEvent::Playing { uri: u.clone(), position_ms: 42 }), "▶ playing   spotify:track:1 @ 42ms");
    assert_eq!(describe(&EngineEvent::Paused { uri: u.clone(), position_ms: 0 }), "⏸ paused    spotify:track:1 @ 0ms");
    assert_eq!(describe(&EngineEvent::EndOfTrack { uri: u.clone() }), "⏹ end       spotify:track:1");
    assert_eq!(describe(&EngineEvent::Stopped), "⏹ stopped");
    assert_eq!(describe(&EngineEvent::PositionCorrection { uri: u, position_ms: 7 }), "↔ position  spotify:track:1 @ 7ms");
}
