use myx::json::Json;
use myx::webapi::{
    client_id_path, missing_scopes, resolve_client_id, scopes_tag, Cached, Grant, GrantError,
    InitStep, TokenStep, WebApi,
};

const TAG: &str = "playlist-read-private,playlist-read-collaborative,playlist-modify-private,\
playlist-modify-public,user-library-read,user-library-modify,user-follow-read,user-follow-modify,\
user-read-playback-state,user-modify-playback-state,user-read-currently-playing,user-top-read,\
user-read-recently-played";

fn cached(refresh: Option<&str>, expires_at: u64) -> Cached {
    Cached {
        client_id: "app".to_string(),
        access_token: "access".to_string(),
        refresh_token: refresh.map(|s| s.to_string()),
        expires_at,
        scopes: TAG.to_string(),
    }
}

fn grant(refresh: Option<&str>, expires_in: u64) -> Grant {
    Grant {
        access_token: "new".to_string(),
        refresh_token: refresh.map(|s| s.to_string()),
        expires_in,
        scope: String::new(),
    }
}

fn api(refresh: Option<&str>, expires_at: u64) -> WebApi {
    WebApi::from_cache(Some(cached(refresh, expires_at)), "app").expect("belongs to the app")
}

#[test]
fn tag_lists_all_scopes() {
    assert_eq!(scopes_tag(), TAG);
}

#[test]
fn client_id_comes_from_the_first_source_that_has_one() {
    assert_eq!(resolve_client_id(Some(" env\n"), Some("conf"), Some("file")).as_deref(), Some("env"));
    assert_eq!(resolve_client_id(Some("  "), Some("conf "), Some("file")).as_deref(), Some("conf"));
    assert_eq!(resolve_client_id(None, Some("conf"), None).as_deref(), Some("conf"));
    assert_eq!(resolve_client_id(None, Some(""), Some("file\n")).as_deref(), Some("file"));
    assert!(resolve_client_id(None, None, None).is_none());
    assert!(resolve_client_id(Some(""), Some("\t"), Some("\n")).is_none());
}

#[test]
fn paths_are_below_home() {
    assert_eq!(client_id_path(Some("/h")).expect("a home").tail, ".config/myx/client_id");
    assert_eq!(WebApi::cache_path(Some("/h")).expect("a home").tail, ".cache/myx/webapi.json");
    assert_eq!(WebApi::cache_path(Some("/h")).expect("a home").home, "/h");
    assert!(client_id_path(None).is_none());
    assert!(WebApi::cache_path(None).is_none());
}

#[test]
fn cache_is_trusted_only_for_the_app_and_its_scopes() {
    assert!(WebApi::is_cached(Some("app"), Some(&cached(None, 0)), 1000));
    assert!(WebApi::is_cached(Some("app"), Some(&cached(None, 5000)), 1000));
    assert!(!WebApi::is_cached(Some("other"), Some(&cached(None, 0)), 1000));
    assert!(!WebApi::is_cached(None, Some(&cached(None, 0)), 1000));
    assert!(!WebApi::is_cached(Some("app"), None, 1000));
    // An empty token is no token, but one that has expired is refreshed.
    let mut empty = cached(Some("r"), 5000);
    empty.access_token = String::new();
    assert!(!WebApi::is_cached(Some("app"), Some(&empty), 1000));
    assert!(WebApi::is_cached(Some("app"), Some(&empty), 4940));
    assert!(matches!(WebApi::init("app", Some(empty), 1000), InitStep::Authorize));
    let mut old = cached(None, 0);
    old.scopes = "playlist-read-private".to_string();
    assert!(!WebApi::is_cached(Some("app"), Some(&old), 1000));
    assert!(WebApi::from_cache(Some(old), "app").is_none());
    assert!(WebApi::from_cache(None, "app").is_none());
}

#[test]
fn saved_token_comes_back() {
    let first = api(Some("r"), 500).save();
    assert_eq!(first.client_id, "app");
    assert_eq!(first.access_token, "access");
    assert_eq!(first.refresh_token.as_deref(), Some("r"));
    assert_eq!(first.expires_at, 500);
    assert_eq!(first.scopes, TAG);
    let again = WebApi::from_cache(Some(first), "app").expect("its own app").save();
    assert_eq!(again.access_token, "access");
    assert_eq!(again.refresh_token.as_deref(), Some("r"));
    assert_eq!(again.expires_at, 500);
}

#[test]
fn token_expires_a_minute_early() {
    assert!(!api(None, 1061).is_expiring(1000));
    assert!(api(None, 1060).is_expiring(1000));
    assert!(api(None, 900).is_expiring(1000));
    assert!(!api(None, u64::MAX).is_expiring(0));
    assert!(api(None, u64::MAX).is_expiring(u64::MAX));
}

#[test]
fn starting_uses_a_fresh_token() {
    match WebApi::init("app", Some(cached(None, 5000)), 1000) {
        InitStep::Ready(w) => assert_eq!(w.cached_token(), "access"),
        _ => panic!("a fresh token is used"),
    }
}

#[test]
fn starting_refreshes_a_stale_token() {
    match WebApi::init("app", Some(cached(Some("r t"), 1000)), 1000) {
        InitStep::Refresh(w, body) => {
            assert_eq!(body, "grant_type=refresh_token&refresh_token=r%20t&client_id=app");
            assert!(matches!(w.resume(false), InitStep::Authorize));
        }
        _ => panic!("a stale token is refreshed"),
    }
    let mut w = api(Some("r"), 1000);
    w.refresh(grant(None, 3600), 1000);
    assert!(matches!(w.resume(true), InitStep::Ready(_)));
}

#[test]
fn starting_asks_for_a_login_otherwise() {
    assert!(matches!(WebApi::init("app", None, 0), InitStep::Authorize));
    assert!(matches!(WebApi::init("other", Some(cached(None, 5000)), 0), InitStep::Authorize));
    assert!(matches!(WebApi::init("app", Some(cached(None, 10)), 1000), InitStep::Authorize));
    let mut empty = cached(None, 5000);
    empty.access_token = String::new();
    assert!(matches!(WebApi::init("app", Some(empty), 0), InitStep::Authorize));
    let mut refreshed = api(Some("r"), 0);
    let mut nothing = grant(None, 10);
    nothing.access_token = String::new();
    refreshed.refresh(nothing, 0);
    assert!(matches!(refreshed.resume(true), InitStep::Authorize));
}

#[test]
fn valid_token_or_what_to_do() {
    match api(None, 5000).valid_token(1000) {
        TokenStep::Valid(token) => assert_eq!(token, "access"),
        _ => panic!("still valid"),
    }
    match api(Some("r"), 1000).valid_token(1000) {
        TokenStep::Refresh(body) => {
            assert_eq!(body, "grant_type=refresh_token&refresh_token=r&client_id=app")
        }
        _ => panic!("to be refreshed"),
    }
    assert!(matches!(api(None, 1000).valid_token(1000), TokenStep::NoRefreshToken));
    assert!(api(None, 1000).refresh_form().is_none());
}

#[test]
fn refresh_replaces_what_was_granted() {
    let mut w = api(Some("old"), 1000);
    w.refresh(grant(None, 3600), 2000);
    let c = w.save();
    assert_eq!(c.access_token, "new");
    assert_eq!(c.refresh_token.as_deref(), Some("old"));
    assert_eq!(c.expires_at, 5600);
    assert_eq!(c.client_id, "app");
    assert!(!w.is_expiring(2000));
    w.refresh(grant(Some("newer"), 10), 2000);
    assert_eq!(w.save().refresh_token.as_deref(), Some("newer"));
    assert!(w.is_expiring(2000));
}

#[test]
fn login_gives_a_token() {
    let c = WebApi::authorized("app".to_string(), grant(Some("r"), 100), 50).save();
    assert_eq!(c.client_id, "app");
    assert_eq!(c.access_token, "new");
    assert_eq!(c.refresh_token.as_deref(), Some("r"));
    assert_eq!(c.expires_at, 150);
    assert_eq!(c.scopes, TAG);
}

#[test]
fn grant_is_read_from_the_answer() {
    let g = Grant::parse(
        b"{\"access_token\":\"a\\u00e9\",\"token_type\":\"Bearer\",\"expires_in\":120,\
          \"refresh_token\":\"r\",\"scope\":\"x y\"}",
    )
    .expect("a grant");
    assert_eq!(g.access_token, "a\u{e9}");
    assert_eq!(g.refresh_token.as_deref(), Some("r"));
    assert_eq!(g.expires_in, 120);
    assert_eq!(g.scope, "x y");
    let g = Grant::parse(b"{\"access_token\":\"a\",\"expires_in\":-5,\"refresh_token\":null}").expect("a grant");
    assert!(g.refresh_token.is_none());
    assert_eq!(g.expires_in, 3600);
    assert_eq!(g.scope, "");
    assert_eq!(Grant::parse(b"{\"access_token\":\"a\",\"expires_in\":1.5}").expect("a grant").expires_in, 3600);
}

#[test]
fn answers_without_a_grant() {
    assert_eq!(Grant::parse(b"<html>").err(), Some(GrantError::NotJson));
    assert_eq!(Grant::parse(b"").err(), Some(GrantError::NotJson));
    assert_eq!(Grant::parse(b"{}").err(), Some(GrantError::NoAccessToken));
    assert_eq!(Grant::parse(b"[\"access_token\"]").err(), Some(GrantError::NoAccessToken));
    assert_eq!(Grant::parse(b"{\"access_token\":1}").err(), Some(GrantError::NoAccessToken));
    assert_eq!(Grant::from_json(&Json::Null).err(), Some(GrantError::NoAccessToken));
}

#[test]
fn missing_scopes_are_named_in_order() {
    assert!(missing_scopes(&TAG.replace(',', " ")).is_empty());
    assert_eq!(missing_scopes("").len(), 13);
    let some = TAG.replace(',', " ").replace("user-library-read ", "").replace(" user-top-read", "");
    assert_eq!(missing_scopes(&some), vec!["user-library-read", "user-top-read"]);
    assert_eq!(missing_scopes("user-top-readx")[11], "user-top-read");
}
