//! Logging the streaming session in, with librespot's public desktop client id.

use vstd::prelude::*;

use crate::callback::{answer_with, response_text, Answer};
use crate::form::form;
use crate::json::{document, parse};
use crate::oauth::{authorize_address, authorize_url, begin, exchange_params, Login};
use crate::text::{join, joined, lemma_split_joined, owned, split, views};

pub use crate::oauth::REDIRECT_URI;

verus! {

/// librespot's public desktop client id, which works for the Connect/streaming flow.
pub const SPOTIFY_CLIENT_ID: &'static str = "65b708073fc0480ea92a077233ca87bd";

/// The scopes that streaming needs.
pub open spec fn oauth_scopes() -> Seq<Seq<char>> {
    seq![
        "streaming"@,
        "app-remote-control"@,
        "user-read-playback-state"@,
        "user-modify-playback-state"@,
        "user-read-currently-playing"@,
        "playlist-read-private"@,
        "playlist-read-collaborative"@,
        "user-library-read"@,
        "user-top-read"@,
        "user-read-recently-played"@,
    ]
}

/// The scopes that streaming needs, as one text.
pub open spec fn oauth_scope() -> Seq<char> {
    joined(oauth_scopes(), " "@)
}

/// The scopes that streaming needs, as one text.
pub fn scope() -> (scope: String)
    ensures
        scope@ == oauth_scope(),
{
    let list = [
        "streaming",
        "app-remote-control",
        "user-read-playback-state",
        "user-modify-playback-state",
        "user-read-currently-playing",
        "playlist-read-private",
        "playlist-read-collaborative",
        "user-library-read",
        "user-top-read",
        "user-read-recently-played",
    ];
    let scopes = owned(list.as_slice());
    assert(views(scopes@) =~= oauth_scopes());
    join(&scopes, " ")
}

/// The credentials to stream with: the cached ones, else those of a login.
pub fn get_creds<C, E, F: FnOnce() -> Result<C, E>>(cached: Option<C>, login: F) -> (creds: Result<
    C,
    E,
>)
    requires
        cached is None ==> login.requires(()),
    ensures
        cached matches Some(c) ==> creds == Ok::<C, E>(c),
        cached is None ==> login.ensures((), creds),
{
    match cached {
        Some(creds) => Ok(creds),
        None => login(),
    }
}

/// Begin a login for streaming.
pub fn begin_login() -> (login: Login)
    ensures
        login.asks(SPOTIFY_CLIENT_ID@, oauth_scope()),
{
    let scope = scope();
    begin(SPOTIFY_CLIENT_ID, scope.as_str())
}

/// The address at which the user grants streaming.
pub fn build_authorize_url(challenge: &str, state: &str) -> (url: String)
    ensures
        url@ == authorize_address(SPOTIFY_CLIENT_ID@, oauth_scope(), challenge@, state@),
{
    let scope = scope();
    authorize_url(SPOTIFY_CLIENT_ID, scope.as_str(), challenge, state)
}

/// Answer a request to the callback: thanks for one that brings a code, and "not found" for any
/// other.
pub fn answer(line: &str) -> (answer: Answer)
    ensures
        answer.answers(
            line@,
            response_text("200 OK"@, "myx authenticated. You can close this tab."@),
            response_text("404 Not Found"@, ""@),
        ),
{
    answer_with(line, "myx authenticated. You can close this tab.", "404 Not Found")
}

/// The form that exchanges an authorization code for an access token.
pub fn exchange_form(code: &str, verifier: &str) -> (body: String)
    ensures
        body@ == form(exchange_params(code@, SPOTIFY_CLIENT_ID@, verifier@)),
{
    crate::oauth::exchange_form(code, SPOTIFY_CLIENT_ID, verifier)
}

/// The access token in the body of the token service's answer, if it is JSON and has one.
pub fn access_token(body: &[u8]) -> (token: Option<String>)
    ensures
        token is Some <==> document(body@) is Some && document(body@)->0.text_member(
            "access_token"@,
        ) is Some,
        token matches Some(t) ==> t@ == document(body@)->0.text_member("access_token"@)->0,
{
    match parse(body) {
        Some(answer) => answer.text_member("access_token"),
        None => None,
    }
}

/// The text of the scopes splits at its spaces into them.
pub proof fn scope_lists_the_scopes()
    ensures
        split(oauth_scope(), ' ') == oauth_scopes(),
{
    reveal_strlit(" ");
    assert(" "@ =~= seq![' ']);
    reveal_strlit("streaming");
    reveal_strlit("app-remote-control");
    reveal_strlit("user-read-playback-state");
    reveal_strlit("user-modify-playback-state");
    reveal_strlit("user-read-currently-playing");
    reveal_strlit("playlist-read-private");
    reveal_strlit("playlist-read-collaborative");
    reveal_strlit("user-library-read");
    reveal_strlit("user-top-read");
    reveal_strlit("user-read-recently-played");
    assert forall|i: int| 0 <= i < oauth_scopes().len() implies !(
    #[trigger] oauth_scopes()[i]).contains(' ') by {}
    lemma_split_joined(oauth_scopes(), ' ');
}

} // verus!
