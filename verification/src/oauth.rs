//! The authorization-code flow with a proof key, as Spotify's account service has it.

use vstd::prelude::*;
use vstd::utf8::encode_utf8;

use crate::form::{
    fields, form, form_body, form_can_be_taken_apart, is_field_name, is_plain, pairs,
    percent_encoded, plain_text_is_its_own_encoding,
};
use crate::pkce::{base64_is_plain, base64_url, challenge_of, random_url_safe, sha256, Pkce};
use crate::text::{joined, pieces_make_the_text_again, split, split_once};

verus! {

/// Where the user grants access.
pub const AUTHORIZE_URL: &'static str = "https://accounts.spotify.com/authorize";

/// Where codes and refresh tokens are exchanged for access tokens.
pub const TOKEN_URL: &'static str = "https://accounts.spotify.com/api/token";

/// Where the browser is sent after the user decided.
pub const REDIRECT_URI: &'static str = "http://127.0.0.1:8989/login";

/// Where the callback listens.
pub const REDIRECT_ADDR: &'static str = "127.0.0.1:8989";

/// The parameters of a request for access.
pub open spec fn authorize_params(
    client_id: Seq<char>,
    scope: Seq<char>,
    challenge: Seq<char>,
    state: Seq<char>,
) -> Seq<(Seq<char>, Seq<char>)> {
    seq![
        ("response_type"@, "code"@),
        ("client_id"@, client_id),
        ("redirect_uri"@, REDIRECT_URI@),
        ("scope"@, scope),
        ("code_challenge_method"@, "S256"@),
        ("code_challenge"@, challenge),
        ("state"@, state),
    ]
}

/// The address at which the user grants access.
pub open spec fn authorize_address(
    client_id: Seq<char>,
    scope: Seq<char>,
    challenge: Seq<char>,
    state: Seq<char>,
) -> Seq<char> {
    AUTHORIZE_URL@ + "?"@ + form(authorize_params(client_id, scope, challenge, state))
}

/// The parameters that exchange an authorization code for a token.
pub open spec fn exchange_params(
    code: Seq<char>,
    client_id: Seq<char>,
    verifier: Seq<char>,
) -> Seq<(Seq<char>, Seq<char>)> {
    seq![
        ("grant_type"@, "authorization_code"@),
        ("code"@, code),
        ("redirect_uri"@, REDIRECT_URI@),
        ("client_id"@, client_id),
        ("code_verifier"@, verifier),
    ]
}

/// The address at which the user grants access.
pub fn authorize_url(client_id: &str, scope: &str, challenge: &str, state: &str) -> (url: String)
    ensures
        url@ == authorize_address(client_id@, scope@, challenge@, state@),
{
    let params = [
        ("response_type", "code"),
        ("client_id", client_id),
        ("redirect_uri", REDIRECT_URI),
        ("scope", scope),
        ("code_challenge_method", "S256"),
        ("code_challenge", challenge),
        ("state", state),
    ];
    let query = form_body(params.as_slice());
    assert(pairs(params@) =~= authorize_params(client_id@, scope@, challenge@, state@));
    let mut url = AUTHORIZE_URL.to_owned();
    url.append("?");
    url.append(query.as_str());
    url
}

/// The form that exchanges an authorization code for a token.
pub fn exchange_form(code: &str, client_id: &str, verifier: &str) -> (body: String)
    ensures
        body@ == form(exchange_params(code@, client_id@, verifier@)),
{
    let params = [
        ("grant_type", "authorization_code"),
        ("code", code),
        ("redirect_uri", REDIRECT_URI),
        ("client_id", client_id),
        ("code_verifier", verifier),
    ];
    assert(pairs(params@) =~= exchange_params(code@, client_id@, verifier@));
    form_body(params.as_slice())
}

/// A login under way: the address to open in a browser, and the verifier that the exchange of
/// the code needs.
#[derive(Debug)]
pub struct Login {
    pub url: String,
    pub verifier: String,
}

impl Login {
    /// Whether the address asks for a scope on behalf of an app, commits to the verifier, and
    /// both the verifier and the state encode as many bytes as they should.
    pub open spec fn asks(self, client_id: Seq<char>, scope: Seq<char>) -> bool {
        exists|secret: Seq<u8>, nonce: Seq<u8>|
            #![trigger base64_url(secret), base64_url(nonce)]
            {
                &&& secret.len() == 32
                &&& nonce.len() == 16
                &&& self.verifier@ == base64_url(secret)
                &&& self.url@ == authorize_address(
                    client_id,
                    scope,
                    challenge_of(self.verifier@),
                    base64_url(nonce),
                )
            }
    }
}

/// Begin a login with a fresh proof key and a fresh state.
pub fn begin(client_id: &str, scope: &str) -> (login: Login)
    ensures
        login.asks(client_id@, scope@),
{
    let pkce = Pkce::new_random();
    let state = random_url_safe(16);
    let url = authorize_url(client_id, scope, pkce.challenge.as_str(), state.as_str());
    let login = Login { url, verifier: pkce.verifier };
    proof {
        let secret = choose|secret: Seq<u8>|
            secret.len() == 32 && login.verifier@ == base64_url(secret);
        let nonce = choose|nonce: Seq<u8>| nonce.len() == 16 && state@ == base64_url(nonce);
        assert(login.verifier@ == base64_url(secret) && state@ == base64_url(nonce));
    }
    login
}

/// The query of the address can be read back: it has seven fields, which ask for a code, and hold
/// the app, the address to return to, the scope, the method of the challenge, and the challenge
/// and the state as they are.
pub proof fn authorize_query_can_be_read_back(
    client_id: Seq<char>,
    scope: Seq<char>,
    challenge: Seq<char>,
    state: Seq<char>,
)
    requires
        is_plain(challenge),
        is_plain(state),
    ensures
        ({
            let query = split(form(authorize_params(client_id, scope, challenge, state)), '&');
            &&& authorize_address(client_id, scope, challenge, state)
                == "https://accounts.spotify.com/authorize"@ + "?"@ + joined(query, seq!['&'])
            &&& query.len() == 7
            &&& split_once(query[0], '=') == Some(("response_type"@, "code"@))
            &&& split_once(query[1], '=') == Some(("client_id"@, percent_encoded(client_id)))
            &&& split_once(query[2], '=') == Some(
                ("redirect_uri"@, percent_encoded("http://127.0.0.1:8989/login"@)),
            )
            &&& split_once(query[3], '=') == Some(("scope"@, percent_encoded(scope)))
            &&& split_once(query[4], '=') == Some(("code_challenge_method"@, "S256"@))
            &&& split_once(query[5], '=') == Some(("code_challenge"@, challenge))
            &&& split_once(query[6], '=') == Some(("state"@, state))
        }),
{
    let params = authorize_params(client_id, scope, challenge, state);
    reveal_strlit("response_type");
    reveal_strlit("client_id");
    reveal_strlit("redirect_uri");
    reveal_strlit("scope");
    reveal_strlit("code_challenge_method");
    reveal_strlit("code_challenge");
    reveal_strlit("state");
    assert forall|i: int| 0 <= i < params.len() implies is_field_name(#[trigger] params[i].0) by {}
    form_can_be_taken_apart(params);
    let query = split(form(params), '&');
    assert(query == fields(params));
    pieces_make_the_text_again(form(params), '&');
    reveal_strlit("code");
    reveal_strlit("S256");
    plain_text_is_its_own_encoding("code"@);
    plain_text_is_its_own_encoding("S256"@);
    assert(split_once(query[0], '=') is Some);
    assert(split_once(query[1], '=') is Some);
    assert(split_once(query[2], '=') is Some);
    assert(split_once(query[3], '=') is Some);
    assert(split_once(query[4], '=') is Some);
    assert(split_once(query[5], '=') is Some);
    assert(split_once(query[6], '=') is Some);
    plain_text_is_its_own_encoding(challenge);
    plain_text_is_its_own_encoding(state);
}

/// The form that exchanges a code can be read back: it has five fields, which name the kind of the
/// grant and hold the code, the address to return to, the app and the verifier, encoded.
pub proof fn exchange_form_can_be_read_back(
    code: Seq<char>,
    client_id: Seq<char>,
    verifier: Seq<char>,
)
    ensures
        ({
            let body = split(form(exchange_params(code, client_id, verifier)), '&');
            &&& body.len() == 5
            &&& split_once(body[0], '=') == Some(("grant_type"@, "authorization_code"@))
            &&& split_once(body[2], '=') == Some(
                ("redirect_uri"@, percent_encoded("http://127.0.0.1:8989/login"@)),
            )
            &&& split_once(body[1], '=') == Some(("code"@, percent_encoded(code)))
            &&& split_once(body[3], '=') == Some(("client_id"@, percent_encoded(client_id)))
            &&& split_once(body[4], '=') == Some(("code_verifier"@, percent_encoded(verifier)))
        }),
{
    let params = exchange_params(code, client_id, verifier);
    reveal_strlit("grant_type");
    reveal_strlit("code");
    reveal_strlit("redirect_uri");
    reveal_strlit("client_id");
    reveal_strlit("code_verifier");
    assert forall|i: int| 0 <= i < params.len() implies is_field_name(#[trigger] params[i].0) by {}
    form_can_be_taken_apart(params);
    let body = split(form(params), '&');
    assert(body == fields(params));
    reveal_strlit("authorization_code");
    plain_text_is_its_own_encoding("authorization_code"@);
    assert(split_once(body[0], '=') is Some);
    assert(split_once(body[2], '=') is Some);
    assert(split_once(body[1], '=') is Some);
    assert(split_once(body[3], '=') is Some);
    assert(split_once(body[4], '=') is Some);
}

/// A login commits to its verifier: the address carries the challenge of the very verifier that
/// the exchange of a code then sends, and both stand there as they are.
pub proof fn login_commits_to_its_verifier(
    login: Login,
    client_id: Seq<char>,
    scope: Seq<char>,
    code: Seq<char>,
)
    requires
        login.asks(client_id, scope),
    ensures
        exists|query: Seq<char>|
            {
                &&& login.url@ == AUTHORIZE_URL@ + "?"@ + query
                &&& split_once(#[trigger] split(query, '&')[5], '=') == Some(
                    ("code_challenge"@, challenge_of(login.verifier@)),
                )
            },
        split_once(split(form(exchange_params(code, client_id, login.verifier@)), '&')[4], '=')
            == Some(("code_verifier"@, login.verifier@)),
{
    let (secret, nonce) = choose|secret: Seq<u8>, nonce: Seq<u8>|
        #![trigger base64_url(secret), base64_url(nonce)]
        {
            &&& secret.len() == 32
            &&& nonce.len() == 16
            &&& login.verifier@ == base64_url(secret)
            &&& login.url@ == authorize_address(
                client_id,
                scope,
                challenge_of(login.verifier@),
                base64_url(nonce),
            )
        };
    let challenge = challenge_of(login.verifier@);
    let state = base64_url(nonce);
    base64_is_plain(secret);
    base64_is_plain(nonce);
    base64_is_plain(sha256(encode_utf8(login.verifier@)));
    authorize_query_can_be_read_back(client_id, scope, challenge, state);
    let query = form(authorize_params(client_id, scope, challenge, state));
    assert(split_once(split(query, '&')[5], '=') == Some(("code_challenge"@, challenge)));
    exchange_form_can_be_read_back(code, client_id, login.verifier@);
}

/// A login asks for its scope on behalf of its app, with a verifier of 43 characters and a state of
/// 22 that can stand in a query as they are.
pub proof fn login_asks_for_its_scope(login: Login, client_id: Seq<char>, scope: Seq<char>)
    requires
        login.asks(client_id, scope),
    ensures
        login.verifier@.len() == 43,
        is_plain(login.verifier@),
        exists|state: Seq<char>|
            {
                let query = split(
                    form(authorize_params(client_id, scope, challenge_of(login.verifier@), state)),
                    '&',
                );
                &&& #[trigger] state.len() == 22
                &&& is_plain(state)
                &&& login.url@ == "https://accounts.spotify.com/authorize"@ + "?"@ + joined(
                    query,
                    seq!['&'],
                )
                &&& query.len() == 7
                &&& split_once(query[0], '=') == Some(("response_type"@, "code"@))
                &&& split_once(query[1], '=') == Some(("client_id"@, percent_encoded(client_id)))
                &&& split_once(query[2], '=') == Some(
                    ("redirect_uri"@, percent_encoded("http://127.0.0.1:8989/login"@)),
                )
                &&& split_once(query[3], '=') == Some(("scope"@, percent_encoded(scope)))
                &&& split_once(query[4], '=') == Some(("code_challenge_method"@, "S256"@))
                &&& split_once(query[5], '=') == Some(
                    ("code_challenge"@, challenge_of(login.verifier@)),
                )
                &&& split_once(query[6], '=') == Some(("state"@, state))
            },
{
    let (secret, nonce) = choose|secret: Seq<u8>, nonce: Seq<u8>|
        #![trigger base64_url(secret), base64_url(nonce)]
        {
            &&& secret.len() == 32
            &&& nonce.len() == 16
            &&& login.verifier@ == base64_url(secret)
            &&& login.url@ == authorize_address(
                client_id,
                scope,
                challenge_of(login.verifier@),
                base64_url(nonce),
            )
        };
    base64_is_plain(secret);
    base64_is_plain(nonce);
    base64_is_plain(sha256(encode_utf8(login.verifier@)));
    let state = base64_url(nonce);
    authorize_query_can_be_read_back(client_id, scope, challenge_of(login.verifier@), state);
    assert(state.len() == 22);
}

/// The browser returns to where the callback listens, and the user and the app talk to the same
/// account service.
pub proof fn addresses_belong_together()
    ensures
        REDIRECT_URI@ == "http://"@ + REDIRECT_ADDR@ + "/login"@,
        AUTHORIZE_URL@ == "https://accounts.spotify.com/"@ + "authorize"@,
        TOKEN_URL@ == "https://accounts.spotify.com/"@ + "api/token"@,
{
    reveal_strlit("http://127.0.0.1:8989/login");
    reveal_strlit("http://");
    reveal_strlit("127.0.0.1:8989");
    reveal_strlit("/login");
    reveal_strlit("https://accounts.spotify.com/authorize");
    reveal_strlit("https://accounts.spotify.com/api/token");
    reveal_strlit("https://accounts.spotify.com/");
    reveal_strlit("authorize");
    reveal_strlit("api/token");
    assert(REDIRECT_URI@ =~= "http://"@ + REDIRECT_ADDR@ + "/login"@);
    assert(AUTHORIZE_URL@ =~= "https://accounts.spotify.com/"@ + "authorize"@);
    assert(TOKEN_URL@ =~= "https://accounts.spotify.com/"@ + "api/token"@);
}

} // verus!
