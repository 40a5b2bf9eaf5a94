use myx::engine::auth;
use myx::oauth::exchange_form;
use myx::pkce::{random_url_safe, Pkce};
use myx::webapi::begin_authorization;

fn query_value(url: &str, key: &str) -> String {
    let query = url.split_once('?').expect("a query").1;
    for pair in query.split('&') {
        let (k, v) = pair.split_once('=').expect("a field");
        if k == key {
            return v.to_string();
        }
    }
    panic!("no such field")
}

#[test]
fn challenge_is_the_digest_of_the_verifier() {
    let pkce = Pkce::from_verifier("dBjftJeZ4CVP-mB92K27uhbUJU1p1r_wW1gFWFOEjXk".to_string());
    assert_eq!(pkce.challenge, "E9Melhoa2OwvFrEMTJguCHaoeK1t8URWbuGJSstw-cM");
    assert_eq!(pkce.verifier, "dBjftJeZ4CVP-mB92K27uhbUJU1p1r_wW1gFWFOEjXk");
}

#[test]
fn random_text_is_url_safe_and_as_long_as_it_should_be() {
    for (n, len) in [(0usize, 0usize), (1, 2), (2, 3), (3, 4), (16, 22), (32, 43)] {
        let text = random_url_safe(n);
        assert_eq!(text.len(), len);
        assert!(text.chars().all(|c| c.is_ascii_alphanumeric() || c == '-' || c == '_'));
    }
    assert_ne!(random_url_safe(32), random_url_safe(32));
}

#[test]
fn fresh_proof_keys_differ() {
    let a = Pkce::new_random();
    let b = Pkce::new_random();
    assert_eq!(a.verifier.len(), 43);
    assert_eq!(a.challenge.len(), 43);
    assert_ne!(a.verifier, b.verifier);
    assert_eq!(Pkce::from_verifier(a.verifier.clone()).challenge, a.challenge);
}

#[test]
fn authorize_url_of_the_streaming_login() {
    assert_eq!(
        auth::build_authorize_url("CH", "ST"),
        "https://accounts.spotify.com/authorize?response_type=code\
         &client_id=65b708073fc0480ea92a077233ca87bd\
         &redirect_uri=http%3A%2F%2F127.0.0.1%3A8989%2Flogin\
         &scope=streaming%20app-remote-control%20user-read-playback-state\
         %20user-modify-playback-state%20user-read-currently-playing%20playlist-read-private\
         %20playlist-read-collaborative%20user-library-read%20user-top-read\
         %20user-read-recently-played\
         &code_challenge_method=S256&code_challenge=CH&state=ST"
    );
}

#[test]
fn logins_commit_to_their_verifier() {
    for (login, client) in [
        (auth::begin_login(), "65b708073fc0480ea92a077233ca87bd"),
        (begin_authorization("my app"), "my%20app"),
    ] {
        let challenge = Pkce::from_verifier(login.verifier.clone()).challenge;
        assert_eq!(query_value(&login.url, "code_challenge"), challenge);
        assert_eq!(query_value(&login.url, "code_challenge_method"), "S256");
        assert_eq!(query_value(&login.url, "client_id"), client);
        assert_eq!(query_value(&login.url, "state").len(), 22);
    }
}

#[test]
fn web_api_login_asks_for_its_scopes() {
    let scope = query_value(&begin_authorization("id").url, "scope");
    assert_eq!(scope.split("%20").count(), 13);
    assert!(scope.starts_with("playlist-read-private%20playlist-read-collaborative%20"));
    assert!(scope.ends_with("%20user-top-read%20user-read-recently-played"));
}

#[test]
fn exchange_sends_code_and_verifier() {
    assert_eq!(
        exchange_form("a/b", "id", "ver"),
        "grant_type=authorization_code&code=a%2Fb\
         &redirect_uri=http%3A%2F%2F127.0.0.1%3A8989%2Flogin&client_id=id&code_verifier=ver"
    );
    assert_eq!(
        auth::exchange_form("c", "v"),
        exchange_form("c", "65b708073fc0480ea92a077233ca87bd", "v")
    );
}
