//! Web API authentication with the user's own Spotify app, so that metadata and library calls
//! get their own rate-limit bucket.
//!
//! Separate from the streaming session: this token only talks to the Web API. It is cached with
//! its refresh token, and refreshed before it expires.

use vstd::prelude::*;

use crate::callback::{answer_with, response_text, Answer};
use crate::form::{
    fields, form, form_body, form_can_be_taken_apart, is_field_name, pairs, percent_encoded,
    plain_text_is_its_own_encoding,
};
use crate::home::{below, Location};
use crate::json::{document, parse, Json, Tree};
use crate::oauth::{begin, Login};
use crate::text::{
    has_piece, is_blank, join, joined, lemma_split_joined, lemma_trim_end, lemma_trim_start,
    lemma_trimmed, owned, split, split_once, trim, trim_end, trim_start, trimmed,
    trimming_strips_white_space, views,
};

verus! {

/// How long a token lives where the service does not say, in seconds.
pub const DEFAULT_LIFETIME: u64 = 3600;

/// How long before its end a token counts as expiring, in seconds.
pub const EXPIRY_MARGIN: u64 = 60;

/// The scopes that the app asks for.
pub open spec fn scopes() -> Seq<Seq<char>> {
    seq![
        "playlist-read-private"@,
        "playlist-read-collaborative"@,
        "playlist-modify-private"@,
        "playlist-modify-public"@,
        "user-library-read"@,
        "user-library-modify"@,
        "user-follow-read"@,
        "user-follow-modify"@,
        "user-read-playback-state"@,
        "user-modify-playback-state"@,
        "user-read-currently-playing"@,
        "user-top-read"@,
        "user-read-recently-played"@,
    ]
}

/// The scopes that the app asks for.
fn scope_list() -> (list: Vec<String>)
    ensures
        views(list@) == scopes(),
{
    let list = [
        "playlist-read-private",
        "playlist-read-collaborative",
        "playlist-modify-private",
        "playlist-modify-public",
        "user-library-read",
        "user-library-modify",
        "user-follow-read",
        "user-follow-modify",
        "user-read-playback-state",
        "user-modify-playback-state",
        "user-read-currently-playing",
        "user-top-read",
        "user-read-recently-played",
    ];
    let copies = owned(list.as_slice());
    assert(views(copies@) =~= scopes());
    copies
}

/// A fingerprint of the scopes, so that a change of them forces a new login.
pub open spec fn tag() -> Seq<char> {
    joined(scopes(), ","@)
}

/// A fingerprint of the scopes, so that a change of them forces a new login.
pub fn scopes_tag() -> (text: String)
    ensures
        text@ == tag(),
{
    let list = scope_list();
    join(&list, ",")
}

/// A source's client id: without white space around it, and none where nothing is left.
pub open spec fn client_id_in(source: Option<&str>) -> Option<Seq<char>> {
    match source {
        Some(text) => if trimmed(text@).len() > 0 {
            Some(trimmed(text@))
        } else {
            None
        },
        None => None,
    }
}

/// The client id of the first source that has one.
pub open spec fn first_client_id(
    environment: Option<&str>,
    config: Option<&str>,
    file: Option<&str>,
) -> Option<Seq<char>> {
    if client_id_in(environment) is Some {
        client_id_in(environment)
    } else if client_id_in(config) is Some {
        client_id_in(config)
    } else {
        client_id_in(file)
    }
}

/// A source's client id, if it has one.
fn client_id_from(source: Option<&str>) -> (id: Option<String>)
    ensures
        id is Some <==> client_id_in(source) is Some,
        id matches Some(s) ==> s@ == client_id_in(source)->0,
{
    match source {
        Some(text) => {
            let id = trim(text);
            if id.as_str().is_empty() {
                None
            } else {
                Some(id)
            }
        },
        None => None,
    }
}

/// Resolve the Spotify app client id: the environment's, else the configuration's, else that of
/// the older bare file. No default is bundled: every user brings their own app.
pub fn resolve_client_id(
    environment: Option<&str>,
    config: Option<&str>,
    file: Option<&str>,
) -> (id: Option<String>)
    ensures
        id is Some <==> first_client_id(environment, config, file) is Some,
        id matches Some(s) ==> s@ == first_client_id(environment, config, file)->0,
{
    if let Some(id) = client_id_from(environment) {
        return Some(id);
    }
    if let Some(id) = client_id_from(config) {
        return Some(id);
    }
    client_id_from(file)
}

/// Where the older bare client id is kept.
pub fn client_id_path(home: Option<&str>) -> (path: Option<Location>)
    ensures
        path is Some <==> home is Some,
        path matches Some(l) ==> l.home@ == home->0@ && l.tail@ == ".config/myx/client_id"@,
{
    below(home, ".config/myx/client_id")
}

/// A token as it is cached.
#[derive(Debug)]
pub struct Cached {
    pub client_id: String,
    pub access_token: String,
    pub refresh_token: Option<String>,
    /// The second, since the Unix epoch, at which the access token ends.
    pub expires_at: u64,
    /// The fingerprint of the scopes that it was asked for.
    pub scopes: String,
}

/// A live Web API access token that can be refreshed.
#[derive(Debug)]
pub struct WebApi {
    client_id: String,
    access_token: String,
    refresh_token: Option<String>,
    expires_at: u64,
}

/// What a [`WebApi`] holds.
pub struct Token {
    pub client_id: Seq<char>,
    pub access_token: Seq<char>,
    pub refresh_token: Option<Seq<char>>,
    pub expires_at: u64,
}

/// The characters of a text that may be missing.
pub open spec fn chars_in(text: Option<String>) -> Option<Seq<char>> {
    match text {
        Some(s) => Some(s@),
        None => None,
    }
}

impl Cached {
    /// The token that is cached.
    pub open spec fn token(self) -> Token {
        Token {
            client_id: self.client_id@,
            access_token: self.access_token@,
            refresh_token: chars_in(self.refresh_token),
            expires_at: self.expires_at,
        }
    }

    /// Whether the token was granted to an app, with the scopes that are asked for now.
    pub open spec fn belongs_to(self, client_id: Seq<char>) -> bool {
        self.client_id@ == client_id && self.scopes@ == tag()
    }

    /// Whether an app can start from this token: it is the app's, and is expired or not empty.
    pub open spec fn can_start(self, client_id: Seq<char>, now: u64) -> bool {
        &&& self.belongs_to(client_id)
        &&& self.token().is_expiring(now) || self.access_token@.len() > 0
    }
}

impl View for WebApi {
    type V = Token;

    closed spec fn view(&self) -> Token {
        Token {
            client_id: self.client_id@,
            access_token: self.access_token@,
            refresh_token: chars_in(self.refresh_token),
            expires_at: self.expires_at,
        }
    }
}

impl Token {
    /// Whether the token ends within the margin.
    pub open spec fn is_expiring(self, now: u64) -> bool {
        now + EXPIRY_MARGIN >= self.expires_at
    }

    /// The parameters that ask for a new access token.
    pub open spec fn refresh_params(self) -> Seq<(Seq<char>, Seq<char>)> {
        seq![
            ("grant_type"@, "refresh_token"@),
            ("refresh_token"@, self.refresh_token->0),
            ("client_id"@, self.client_id),
        ]
    }

    /// The token after a grant: a refresh token that the service did not replace stays.
    pub open spec fn refreshed(self, grant: Granted, now: u64) -> Token {
        Token {
            client_id: self.client_id,
            access_token: grant.access_token,
            refresh_token: if grant.refresh_token is Some {
                grant.refresh_token
            } else {
                self.refresh_token
            },
            expires_at: (now + grant.expires_in) as u64,
        }
    }
}

/// The token in the cache, if it is there and belongs to the app with the scopes asked for now.
pub open spec fn trusted(cached: Option<Cached>, client_id: Seq<char>) -> Option<Token> {
    match cached {
        Some(c) => if c.belongs_to(client_id) {
            Some(c.token())
        } else {
            None
        },
        None => None,
    }
}

/// What starting from the cache comes to.
pub enum Start {
    /// The token is fresh.
    Ready(Token),
    /// The token is stale, and can be refreshed.
    Refresh(Token),
    /// There is no token that can be used.
    Authorize,
}

/// How to start at a time with what is in the cache.
pub open spec fn start(cached: Option<Cached>, client_id: Seq<char>, now: u64) -> Start {
    match trusted(cached, client_id) {
        Some(token) => if token.is_expiring(now) {
            if token.refresh_token is Some {
                Start::Refresh(token)
            } else {
                Start::Authorize
            }
        } else if token.access_token.len() > 0 {
            Start::Ready(token)
        } else {
            Start::Authorize
        },
        None => Start::Authorize,
    }
}

/// What the token service grants.
#[derive(Debug)]
pub struct Grant {
    pub access_token: String,
    pub refresh_token: Option<String>,
    /// How long the access token lives, in seconds.
    pub expires_in: u64,
    /// The scopes granted, with spaces between them.
    pub scope: String,
}

/// What a [`Grant`] says.
pub struct Granted {
    pub access_token: Seq<char>,
    pub refresh_token: Option<Seq<char>>,
    pub expires_in: u64,
    pub scope: Seq<char>,
}

impl View for Grant {
    type V = Granted;

    open spec fn view(&self) -> Granted {
        Granted {
            access_token: self.access_token@,
            refresh_token: chars_in(self.refresh_token),
            expires_in: self.expires_in,
            scope: self.scope@,
        }
    }
}

/// Why the token service's answer is no grant.
#[derive(Debug, Clone, Copy, PartialEq, Eq, Structural)]
pub enum GrantError {
    /// It is not JSON.
    NotJson,
    /// It has no access token.
    NoAccessToken,
}

/// What an answer of the token service grants: nothing without an access token, and the default
/// lifetime and no scopes where it does not say.
pub open spec fn granted(answer: Tree) -> Option<Granted> {
    match answer.text_member("access_token"@) {
        Some(access_token) => Some(
            Granted {
                access_token,
                refresh_token: answer.text_member("refresh_token"@),
                expires_in: match answer.number_member("expires_in"@) {
                    Some(seconds) => seconds,
                    None => DEFAULT_LIFETIME,
                },
                scope: match answer.text_member("scope"@) {
                    Some(scope) => scope,
                    None => seq![],
                },
            },
        ),
        None => None,
    }
}

impl Grant {
    /// What an answer of the token service grants.
    pub fn from_json(answer: &Json) -> (grant: Result<Grant, GrantError>)
        ensures
            match granted(answer@) {
                Some(g) => grant is Ok && grant->Ok_0@ == g,
                None => grant == Err::<Grant, GrantError>(GrantError::NoAccessToken),
            },
    {
        let access_token = match answer.text_member("access_token") {
            Some(token) => token,
            None => {
                return Err(GrantError::NoAccessToken);
            },
        };
        let refresh_token = answer.text_member("refresh_token");
        let expires_in: u64 = match answer.number_member("expires_in") {
            Some(seconds) => seconds,
            None => DEFAULT_LIFETIME,
        };
        let scope = match answer.text_member("scope") {
            Some(scope) => scope,
            None => String::new(),
        };
        Ok(Grant { access_token, refresh_token, expires_in, scope })
    }

    /// What the body of the token service's answer grants.
    pub fn parse(body: &[u8]) -> (grant: Result<Grant, GrantError>)
        ensures
            match document(body@) {
                Some(answer) => match granted(answer) {
                    Some(g) => grant is Ok && grant->Ok_0@ == g,
                    None => grant == Err::<Grant, GrantError>(GrantError::NoAccessToken),
                },
                None => grant == Err::<Grant, GrantError>(GrantError::NotJson),
            },
    {
        match parse(body) {
            Some(answer) => Grant::from_json(&answer),
            None => Err(GrantError::NotJson),
        }
    }
}

/// What starting from the cache comes to.
#[derive(Debug)]
pub enum InitStep {
    /// The token can be used.
    Ready(WebApi),
    /// The token has to be refreshed first, by posting this form to the token service.
    Refresh(WebApi, String),
    /// The user has to log in.
    Authorize,
}

/// What asking for a valid token comes to.
#[derive(Debug)]
pub enum TokenStep {
    /// The access token, which is still valid.
    Valid(String),
    /// The token has to be refreshed first, by posting this form to the token service.
    Refresh(String),
    /// The token is about to end, and there is no refresh token.
    NoRefreshToken,
}

impl WebApi {
    /// Whether [`WebApi::init`] can start from the cache instead of prompting. An expired token
    /// still counts: refreshing it is silent. A token that is not expired has to be one.
    pub fn is_cached(client_id: Option<&str>, cached: Option<&Cached>, now: u64) -> (yes: bool)
        ensures
            yes == (client_id is Some && cached is Some && cached->0.can_start(client_id->0@, now)),
            client_id is Some && cached is Some && !cached->0.token().is_expiring(now) ==> yes == !(
            start(Some(*cached->0), client_id->0@, now) is Authorize),
    {
        match (client_id, cached) {
            (Some(id), Some(c)) => belongs_to(c, id) && (ends_soon(c.expires_at, now)
                || !c.access_token.as_str().is_empty()),
            _ => false,
        }
    }

    /// The token in the cache, if it belongs to the app; where the app or the scopes changed, a
    /// new login is needed.
    pub fn from_cache(cached: Option<Cached>, client_id: &str) -> (api: Option<Self>)
        ensures
            api is Some <==> trusted(cached, client_id@) is Some,
            api matches Some(w) ==> w@ == trusted(cached, client_id@)->0,
    {
        match cached {
            Some(c) => {
                if !belongs_to(&c, client_id) {
                    return None;
                }
                Some(
                    WebApi {
                        client_id: c.client_id,
                        access_token: c.access_token,
                        refresh_token: c.refresh_token,
                        expires_at: c.expires_at,
                    },
                )
            },
            None => None,
        }
    }

    /// The first step of starting: use the cached token if it is fresh, refresh it if it is
    /// stale, else have the user log in.
    pub fn init(client_id: &str, cached: Option<Cached>, now: u64) -> (step: InitStep)
        ensures
            match start(cached, client_id@, now) {
                Start::Ready(token) => step matches InitStep::Ready(api) && api@ == token,
                Start::Refresh(token) => {
                    &&& step matches InitStep::Refresh(api, body)
                    &&& api@ == token
                    &&& body@ == form(token.refresh_params())
                },
                Start::Authorize => step is Authorize,
            },
    {
        match WebApi::from_cache(cached, client_id) {
            Some(api) => {
                if api.is_expiring(now) {
                    match api.refresh_form() {
                        Some(body) => InitStep::Refresh(api, body),
                        None => InitStep::Authorize,
                    }
                } else {
                    api.resume(true)
                }
            },
            None => InitStep::Authorize,
        }
    }

    /// The step of starting after a refresh: a token whose refresh failed is not trusted, and
    /// neither is an empty one; the user logs in anew.
    pub fn resume(self, refreshed: bool) -> (step: InitStep)
        ensures
            refreshed && self@.access_token.len() > 0 ==> (step matches InitStep::Ready(api) && api@
                == self@),
            !(refreshed && self@.access_token.len() > 0) ==> step is Authorize,
    {
        if refreshed && !self.access_token.as_str().is_empty() {
            InitStep::Ready(self)
        } else {
            InitStep::Authorize
        }
    }

    /// The token of a fresh login.
    pub fn authorized(client_id: String, grant: Grant, now: u64) -> (api: Self)
        requires
            now + grant.expires_in <= u64::MAX,
        ensures
            api@ == (Token {
                client_id: client_id@,
                access_token: grant@.access_token,
                refresh_token: grant@.refresh_token,
                expires_at: (now + grant.expires_in) as u64,
            }),
    {
        WebApi {
            client_id,
            access_token: grant.access_token,
            refresh_token: grant.refresh_token,
            expires_at: now + grant.expires_in,
        }
    }

    /// A currently valid access token, or what has to be done to get one.
    pub fn valid_token(&self, now: u64) -> (step: TokenStep)
        ensures
            if !self@.is_expiring(now) {
                step matches TokenStep::Valid(token) && token@ == self@.access_token
            } else if self@.refresh_token is Some {
                step matches TokenStep::Refresh(body) && body@ == form(self@.refresh_params())
            } else {
                step is NoRefreshToken
            },
    {
        if self.is_expiring(now) {
            match self.refresh_form() {
                Some(body) => TokenStep::Refresh(body),
                None => TokenStep::NoRefreshToken,
            }
        } else {
            TokenStep::Valid(self.cached_token())
        }
    }

    /// The current access token, whether it is still valid or not.
    pub fn cached_token(&self) -> (token: String)
        ensures
            token@ == self@.access_token,
    {
        self.access_token.clone()
    }

    /// Whether the token ends within the next minute.
    pub fn is_expiring(&self, now: u64) -> (yes: bool)
        ensures
            yes == self@.is_expiring(now),
    {
        ends_soon(self.expires_at, now)
    }

    /// The form that asks for a new access token, where there is a refresh token.
    pub fn refresh_form(&self) -> (body: Option<String>)
        ensures
            body is Some <==> self@.refresh_token is Some,
            body matches Some(b) ==> b@ == form(self@.refresh_params()),
    {
        match &self.refresh_token {
            Some(refresh_token) => {
                let params = [
                    ("grant_type", "refresh_token"),
                    ("refresh_token", refresh_token.as_str()),
                    ("client_id", self.client_id.as_str()),
                ];
                assert(pairs(params@) =~= self@.refresh_params());
                Some(form_body(params.as_slice()))
            },
            None => None,
        }
    }

    /// Take over what the token service granted; a refresh token that it did not replace stays.
    pub fn refresh(&mut self, grant: Grant, now: u64)
        requires
            now + grant.expires_in <= u64::MAX,
        ensures
            final(self)@ == old(self)@.refreshed(grant@, now),
    {
        self.access_token = grant.access_token;
        if grant.refresh_token.is_some() {
            self.refresh_token = grant.refresh_token;
        }
        self.expires_at = now + grant.expires_in;
    }

    /// Where the token is cached.
    pub fn cache_path(home: Option<&str>) -> (path: Option<Location>)
        ensures
            path is Some <==> home is Some,
            path matches Some(l) ==> l.home@ == home->0@ && l.tail@ == ".cache/myx/webapi.json"@,
    {
        below(home, ".cache/myx/webapi.json")
    }

    /// The token as it is cached, with the fingerprint of the scopes.
    pub fn save(&self) -> (cached: Cached)
        ensures
            cached.token() == self@,
            cached.scopes@ == tag(),
    {
        Cached {
            client_id: self.client_id.clone(),
            access_token: self.access_token.clone(),
            refresh_token: self.refresh_token.clone(),
            expires_at: self.expires_at,
            scopes: scopes_tag(),
        }
    }
}

/// Whether a token with that end ends within the margin.
fn ends_soon(expires_at: u64, now: u64) -> (yes: bool)
    ensures
        yes == (now + EXPIRY_MARGIN >= expires_at),
{
    now >= expires_at || expires_at - now <= EXPIRY_MARGIN
}

/// Whether a cached token was granted to an app, with the scopes that are asked for now.
fn belongs_to(cached: &Cached, client_id: &str) -> (yes: bool)
    ensures
        yes == cached.belongs_to(client_id@),
{
    cached.client_id == client_id.to_owned() && cached.scopes == scopes_tag()
}

/// Begin a login for the Web API.
pub fn begin_authorization(client_id: &str) -> (login: Login)
    ensures
        login.asks(client_id@, joined(scopes(), " "@)),
{
    let list = scope_list();
    let scope = join(&list, " ");
    begin(client_id, scope.as_str())
}

/// Answer a request to the callback: thanks for one that brings a code, and an empty page for
/// any other.
pub fn answer(line: &str) -> (answer: Answer)
    ensures
        answer.answers(
            line@,
            response_text("200 OK"@, "myx authorized. You can close this tab."@),
            response_text("200 OK"@, ""@),
        ),
{
    answer_with(line, "myx authorized. You can close this tab.", "200 OK")
}

/// The scopes asked for that are not among those granted, in order.
pub open spec fn not_granted(granted: Seq<char>) -> Seq<Seq<char>> {
    scopes().filter(|scope: Seq<char>| !split(granted, ' ').contains(scope))
}

/// The scopes asked for that the service did not grant. It may grant fewer than asked, and a
/// refresh keeps whatever the grant had.
pub fn missing_scopes(granted: &str) -> (missing: Vec<String>)
    ensures
        views(missing@) == not_granted(granted@),
{
    let list = scope_list();
    let ghost wanted = views(list@);
    let ghost absent = |scope: Seq<char>| !split(granted@, ' ').contains(scope);
    let mut missing: Vec<String> = Vec::new();
    let mut i: usize = 0;
    assert(views(missing@) =~= wanted.take(0).filter(absent)) by {
        reveal(Seq::filter);
    }
    while i < list.len()
        invariant
            i <= list@.len(),
            wanted == views(list@),
            absent == (|scope: Seq<char>| !split(granted@, ' ').contains(scope)),
            views(missing@) == wanted.take(i as int).filter(absent),
        decreases list@.len() - i,
    {
        let ghost before = views(missing@);
        proof {
            reveal(Seq::filter);
            assert(wanted.take(i + 1).drop_last() =~= wanted.take(i as int));
            assert(wanted.take(i + 1).last() == list@[i as int]@);
        }
        if !has_piece(granted, ' ', list[i].as_str()) {
            missing.push(list[i].clone());
            assert(views(missing@) =~= before.push(list@[i as int]@));
        }
        i += 1;
    }
    assert(wanted.take(list@.len() as int) =~= wanted);
    missing
}

/// What was saved is trusted again: a cached token that holds a token and the fingerprint of the
/// scopes gives that token back to its app.
pub proof fn saved_token_is_trusted_again(cached: Cached, token: Token)
    requires
        cached.token() == token,
        cached.scopes@ == tag(),
    ensures
        trusted(Some(cached), token.client_id) == Some(token),
{
}

/// A token of another app, or of other scopes, is not trusted.
pub proof fn changed_app_or_scopes_are_not_trusted(cached: Cached, client_id: Seq<char>)
    requires
        cached.client_id@ != client_id || cached.scopes@ != tag(),
    ensures
        trusted(Some(cached), client_id) is None,
{
}

/// What was saved starts the app again without a login, as long as it is fresh or can be
/// refreshed: with that very token.
pub proof fn saved_token_starts_again(cached: Cached, token: Token, now: u64)
    requires
        cached.token() == token,
        cached.scopes@ == tag(),
    ensures
        !token.is_expiring(now) && token.access_token.len() > 0 ==> start(
            Some(cached),
            token.client_id,
            now,
        ) == Start::Ready(token),
        token.is_expiring(now) && token.refresh_token is Some ==> start(
            Some(cached),
            token.client_id,
            now,
        ) == Start::Refresh(token),
{
}

/// Without a trusted token in the cache, starting prompts for a login.
pub proof fn untrusted_cache_prompts(cached: Option<Cached>, client_id: Seq<char>, now: u64)
    requires
        trusted(cached, client_id) is None,
    ensures
        start(cached, client_id, now) is Authorize,
{
}

/// A cached token tells whether starting prompts: one that an app cannot start from makes it
/// prompt, and one that it can start from does not, if it is fresh or has a refresh token.
pub proof fn startable_token_does_not_prompt(cached: Cached, client_id: Seq<char>, now: u64)
    ensures
        !cached.can_start(client_id, now) ==> start(Some(cached), client_id, now) is Authorize,
        cached.can_start(client_id, now) && (!cached.token().is_expiring(now)
            || cached.refresh_token is Some) ==> !(start(Some(cached), client_id, now) is Authorize),
{
}

/// A change of the scopes changes their fingerprint: lists of scopes, none with a comma in it,
/// have the same fingerprint only if they are the same.
pub proof fn different_scopes_have_different_tags(a: Seq<Seq<char>>, b: Seq<Seq<char>>)
    requires
        a.len() > 0,
        b.len() > 0,
        forall|i: int| 0 <= i < a.len() ==> !(#[trigger] a[i]).contains(','),
        forall|i: int| 0 <= i < b.len() ==> !(#[trigger] b[i]).contains(','),
        joined(a, ","@) == joined(b, ","@),
    ensures
        a == b,
{
    reveal_strlit(",");
    assert(","@ =~= seq![',']);
    lemma_split_joined(a, ',');
    lemma_split_joined(b, ',');
}

/// An expired token still counts: it is trusted whenever it belongs to the app, and the app can
/// start from it.
pub proof fn expired_token_still_counts(cached: Cached, client_id: Seq<char>, now: u64)
    requires
        cached.belongs_to(client_id),
        cached.token().is_expiring(now),
    ensures
        trusted(Some(cached), client_id) == Some(cached.token()),
        cached.can_start(client_id, now),
{
}

/// A token that was just refreshed for more than the margin is not expiring, and stays so until
/// the margin before its end; from then on it is.
pub proof fn refreshed_token_is_fresh(token: Token, grant: Granted, now: u64, later: u64)
    requires
        now + grant.expires_in <= u64::MAX,
    ensures
        token.refreshed(grant, now).is_expiring(later) <==> later + EXPIRY_MARGIN >= now
            + grant.expires_in,
        grant.expires_in > EXPIRY_MARGIN ==> !token.refreshed(grant, now).is_expiring(now),
{
}

/// A refresh keeps the app, and keeps the refresh token unless it was replaced, so a token that
/// could be refreshed once can be refreshed again.
pub proof fn refresh_keeps_what_was_not_replaced(token: Token, grant: Granted, now: u64)
    ensures
        token.refreshed(grant, now).client_id == token.client_id,
        grant.refresh_token is None ==> token.refreshed(grant, now).refresh_token
            == token.refresh_token,
        token.refresh_token is Some ==> token.refreshed(grant, now).refresh_token is Some,
{
}

/// A resolved client id is not empty, and has no white space around it.
pub proof fn client_id_is_trimmed(
    environment: Option<&str>,
    config: Option<&str>,
    file: Option<&str>,
)
    ensures
        first_client_id(environment, config, file) matches Some(id) ==> {
            &&& id.len() > 0
            &&& !is_blank(id[0])
            &&& !is_blank(id.last())
        },
{
    if let Some(text) = environment {
        lemma_trimmed(text@);
    }
    if let Some(text) = config {
        lemma_trimmed(text@);
    }
    if let Some(text) = file {
        lemma_trimmed(text@);
    }
}

/// A source that is missing or blank is passed over, and otherwise the sources after it do not
/// matter.
pub proof fn sources_have_precedence(
    environment: Option<&str>,
    config: Option<&str>,
    file: Option<&str>,
    other_config: Option<&str>,
    other_file: Option<&str>,
)
    ensures
        client_id_in(environment) is Some ==> first_client_id(environment, config, file)
            == first_client_id(environment, other_config, other_file),
        client_id_in(environment) is None ==> first_client_id(environment, config, file)
            == first_client_id(None, config, file),
        client_id_in(environment) is None && client_id_in(config) is Some ==> first_client_id(
            environment,
            config,
            file,
        ) == first_client_id(environment, config, other_file),
        client_id_in(environment) is None && client_id_in(config) is None ==> first_client_id(
            environment,
            config,
            file,
        ) == client_id_in(file),
{
}

/// A scope is reported as missing exactly when it was asked for and not granted.
pub proof fn missing_means_not_granted(granted: Seq<char>, scope: Seq<char>)
    ensures
        not_granted(granted).contains(scope) <==> scopes().contains(scope) && !split(
            granted,
            ' ',
        ).contains(scope),
{
    let absent = |scope: Seq<char>| !split(granted, ' ').contains(scope);
    let wanted = scopes();
    broadcast use vstd::seq_lib::group_filter_ensures;
    let found = wanted.filter(absent);
    if found.contains(scope) {
        let i = choose|i: int| 0 <= i < found.len() && found[i] == scope;
        assert(absent(found[i]));
        wanted.lemma_filter_contains_rev(absent, scope);
    }
    if wanted.contains(scope) && absent(scope) {
        let i = choose|i: int| 0 <= i < wanted.len() && wanted[i] == scope;
        assert(absent(wanted[i]));
        assert(found.contains(wanted[i]));
    }
}

/// Granting all that was asked for leaves no scope missing.
pub proof fn full_grant_misses_nothing()
    ensures
        not_granted(joined(scopes(), " "@)).len() == 0,
{
    reveal_strlit(" ");
    assert(" "@ =~= seq![' ']);
    lemma_scopes_have_no_space();
    lemma_split_joined(scopes(), ' ');
    let granted = joined(scopes(), " "@);
    if not_granted(granted).len() > 0 {
        let scope = not_granted(granted)[0];
        assert(not_granted(granted).contains(scope));
        missing_means_not_granted(granted, scope);
    }
}

proof fn lemma_scopes_have_no_space()
    ensures
        forall|i: int| 0 <= i < scopes().len() ==> !(#[trigger] scopes()[i]).contains(' '),
{
    reveal_strlit("playlist-read-private");
    reveal_strlit("playlist-read-collaborative");
    reveal_strlit("playlist-modify-private");
    reveal_strlit("playlist-modify-public");
    reveal_strlit("user-library-read");
    reveal_strlit("user-library-modify");
    reveal_strlit("user-follow-read");
    reveal_strlit("user-follow-modify");
    reveal_strlit("user-read-playback-state");
    reveal_strlit("user-modify-playback-state");
    reveal_strlit("user-read-currently-playing");
    reveal_strlit("user-top-read");
    reveal_strlit("user-read-recently-played");
}

/// A source's client id is its text without the white space around it, whatever its length, and a
/// source without a text, or with white space only, has none.
pub proof fn client_id_is_the_text_between_white_space(
    source: &str,
    before: Seq<char>,
    inner: Seq<char>,
    after: Seq<char>,
)
    requires
        source@ == before + inner + after,
        forall|i: int| 0 <= i < before.len() ==> is_blank(#[trigger] before[i]),
        forall|i: int| 0 <= i < after.len() ==> is_blank(#[trigger] after[i]),
        inner.len() > 0 ==> !is_blank(inner[0]) && !is_blank(inner.last()),
    ensures
        inner.len() > 0 ==> client_id_in(Some(source)) == Some(inner),
        inner.len() == 0 ==> client_id_in(Some(source)) is None,
        client_id_in(None) is None,
{
    trimming_strips_white_space(before, inner, after);
}

/// A source has a client id exactly if its text holds a character that is no white space.
pub proof fn source_with_a_character_has_a_client_id(source: &str)
    ensures
        client_id_in(Some(source)) is Some <==> exists|i: int|
            0 <= i < source@.len() && !is_blank(#[trigger] source@[i]),
{
    let text = source@;
    lemma_trim_start(text);
    let rest = trim_start(text);
    lemma_trim_end(rest);
    let cut = text.len() - rest.len();
    if rest.len() > 0 {
        assert(rest[0] == text[cut]);
        if trim_end(rest).len() == 0 {
            assert(is_blank(rest[0]));
        }
    }
}

/// The client id is that of the environment, else that of the configuration, else that of the
/// file.
pub proof fn first_source_with_a_client_id_gives_it(
    environment: Option<&str>,
    config: Option<&str>,
    file: Option<&str>,
    id: Seq<char>,
)
    ensures
        client_id_in(environment) == Some(id) ==> first_client_id(environment, config, file)
            == Some(id),
        client_id_in(environment) is None && client_id_in(config) == Some(id) ==> first_client_id(
            environment,
            config,
            file,
        ) == Some(id),
        client_id_in(environment) is None && client_id_in(config) is None && client_id_in(file)
            == Some(id) ==> first_client_id(environment, config, file) == Some(id),
        client_id_in(environment) is None && client_id_in(config) is None && client_id_in(
            file,
        ) is None ==> first_client_id(environment, config, file) is None,
{
}

/// A grant takes over what the answer says: its access token, without which there is no grant, the
/// very lifetime in seconds that it gives, its refresh token and its scopes. Only an answer without
/// a lifetime that is a whole number gets an hour.
pub proof fn grant_says_what_the_answer_says(answer: Tree, seconds: u64, scope: Seq<char>)
    ensures
        granted(answer) is Some <==> answer.text_member("access_token"@) is Some,
        granted(answer) matches Some(grant) ==> {
            &&& answer.text_member("access_token"@) == Some(grant.access_token)
            &&& answer.text_member("refresh_token"@) == grant.refresh_token
            &&& answer.number_member("expires_in"@) == Some(seconds) ==> grant.expires_in == seconds
            &&& answer.number_member("expires_in"@) is None ==> grant.expires_in == 3600
            &&& answer.text_member("scope"@) == Some(scope) ==> grant.scope == scope
            &&& answer.text_member("scope"@) is None ==> grant.scope.len() == 0
        },
{
}

/// A grant and a cached token say what they hold.
pub proof fn tokens_say_what_they_hold(grant: Grant, cached: Cached, text: String)
    ensures
        grant@.access_token == grant.access_token@,
        grant.refresh_token == Some(text) ==> grant@.refresh_token == Some(text@),
        grant.refresh_token is None ==> grant@.refresh_token is None,
        grant@.expires_in == grant.expires_in,
        grant@.scope == grant.scope@,
        cached.token().client_id == cached.client_id@,
        cached.token().access_token == cached.access_token@,
        cached.refresh_token == Some(text) ==> cached.token().refresh_token == Some(text@),
        cached.refresh_token is None ==> cached.token().refresh_token is None,
        cached.token().expires_at == cached.expires_at,
{
}

/// A token counts as expiring from sixty seconds before its end on.
pub proof fn token_expires_a_minute_early(token: Token, now: u64)
    ensures
        token.is_expiring(now) <==> token.expires_at - now <= 60,
{
}

/// A refreshed token has the access token that was granted, ends when the granted lifetime is over,
/// and has the refresh token that was granted, if one was.
pub proof fn refresh_takes_over_the_grant(token: Token, grant: Granted, now: u64, text: Seq<char>)
    requires
        now + grant.expires_in <= u64::MAX,
    ensures
        token.refreshed(grant, now).access_token == grant.access_token,
        token.refreshed(grant, now).expires_at == now + grant.expires_in,
        grant.refresh_token == Some(text) ==> token.refreshed(grant, now).refresh_token == Some(
            text,
        ),
        grant.refresh_token is None ==> token.refreshed(grant, now).refresh_token
            == token.refresh_token,
        token.refreshed(grant, now).client_id == token.client_id,
{
}

/// A cached token is trusted exactly if it has the app's client id and the fingerprint of the
/// scopes asked for now, and then as it is.
pub proof fn token_is_trusted_by_its_app_and_scopes(cached: Cached, client_id: Seq<char>)
    ensures
        cached.client_id@ == client_id && cached.scopes@ == tag() ==> trusted(
            Some(cached),
            client_id,
        ) == Some(cached.token()),
        cached.client_id@ != client_id || cached.scopes@ != tag() ==> trusted(
            Some(cached),
            client_id,
        ) is None,
        trusted(None, client_id) is None,
        cached.belongs_to(client_id) <==> cached.client_id@ == client_id && cached.scopes@ == tag(),
{
}

/// An app starts with its token if the token is not empty and does not end within a minute,
/// refreshes it first if it does and can be refreshed, and has the user log in otherwise.
pub proof fn start_goes_by_the_token(cached: Cached, client_id: Seq<char>, now: u64)
    ensures
        cached.client_id@ == client_id && cached.scopes@ == tag() && cached.expires_at - now > 60
            && cached.access_token@.len() > 0 ==> start(Some(cached), client_id, now)
            == Start::Ready(cached.token()),
        cached.client_id@ == client_id && cached.scopes@ == tag() && cached.expires_at - now > 60
            && cached.access_token@.len() == 0 ==> start(Some(cached), client_id, now) is Authorize,
        cached.client_id@ == client_id && cached.scopes@ == tag() && cached.expires_at - now <= 60
            && cached.refresh_token is Some ==> start(Some(cached), client_id, now)
            == Start::Refresh(cached.token()),
        cached.client_id@ == client_id && cached.scopes@ == tag() && cached.expires_at - now <= 60
            && cached.refresh_token is None ==> start(Some(cached), client_id, now) is Authorize,
        cached.client_id@ != client_id || cached.scopes@ != tag() ==> start(
            Some(cached),
            client_id,
            now,
        ) is Authorize,
        start(None, client_id, now) is Authorize,
        cached.can_start(client_id, now) <==> cached.client_id@ == client_id && cached.scopes@
            == tag() && (cached.expires_at - now <= 60 || cached.access_token@.len() > 0),
{
}

/// The form that refreshes a token can be read back: it has three fields, which ask for a refresh
/// and hold the refresh token and the app's client id, encoded.
pub proof fn refresh_form_can_be_read_back(token: Token, refresh_token: Seq<char>)
    requires
        token.refresh_token == Some(refresh_token),
    ensures
        ({
            let body = split(form(token.refresh_params()), '&');
            &&& body.len() == 3
            &&& split_once(body[0], '=') == Some(("grant_type"@, "refresh_token"@))
            &&& split_once(body[1], '=') == Some(
                ("refresh_token"@, percent_encoded(refresh_token)),
            )
            &&& split_once(body[2], '=') == Some(
                ("client_id"@, percent_encoded(token.client_id)),
            )
        }),
{
    let params = token.refresh_params();
    reveal_strlit("grant_type");
    reveal_strlit("refresh_token");
    reveal_strlit("client_id");
    assert forall|i: int| 0 <= i < params.len() implies is_field_name(#[trigger] params[i].0) by {}
    form_can_be_taken_apart(params);
    let body = split(form(params), '&');
    assert(body == fields(params));
    assert(split_once(body[0], '=') is Some);
    assert(split_once(body[1], '=') is Some);
    assert(split_once(body[2], '=') is Some);
    plain_text_is_its_own_encoding("refresh_token"@);
}

/// The fingerprint splits at its commas into the scopes.
pub proof fn fingerprint_lists_the_scopes()
    ensures
        split(tag(), ',') == scopes(),
{
    reveal_strlit(",");
    assert(","@ =~= seq![',']);
    lemma_scopes_have_no_comma();
    lemma_split_joined(scopes(), ',');
}

proof fn lemma_scopes_have_no_comma()
    ensures
        forall|i: int| 0 <= i < scopes().len() ==> !(#[trigger] scopes()[i]).contains(','),
{
    reveal_strlit("playlist-read-private");
    reveal_strlit("playlist-read-collaborative");
    reveal_strlit("playlist-modify-private");
    reveal_strlit("playlist-modify-public");
    reveal_strlit("user-library-read");
    reveal_strlit("user-library-modify");
    reveal_strlit("user-follow-read");
    reveal_strlit("user-follow-modify");
    reveal_strlit("user-read-playback-state");
    reveal_strlit("user-modify-playback-state");
    reveal_strlit("user-read-currently-playing");
    reveal_strlit("user-top-read");
    reveal_strlit("user-read-recently-played");
}

/// Missing scopes are reported once each, in the order in which they are asked for.
pub proof fn missing_scopes_keep_their_order(granted: Seq<char>, p: int, q: int)
    requires
        0 <= p < q < not_granted(granted).len(),
    ensures
        exists|i: int, j: int|
            0 <= i < j < scopes().len() && #[trigger] scopes()[i] == not_granted(granted)[p]
                && #[trigger] scopes()[j] == not_granted(granted)[q],
{
    let absent = |scope: Seq<char>| !split(granted, ' ').contains(scope);
    lemma_filter_keeps_order(scopes(), absent, p, q);
}

proof fn lemma_filter_keeps_order(
    list: Seq<Seq<char>>,
    keeps: spec_fn(Seq<char>) -> bool,
    p: int,
    q: int,
)
    requires
        0 <= p < q < list.filter(keeps).len(),
    ensures
        exists|i: int, j: int|
            0 <= i < j < list.len() && #[trigger] list[i] == list.filter(keeps)[p]
                && #[trigger] list[j] == list.filter(keeps)[q],
    decreases list.len(),
{
    reveal(Seq::filter);
    let found = list.filter(keeps);
    let shorter = list.drop_last();
    let before = shorter.filter(keeps);
    if q < before.len() {
        lemma_filter_keeps_order(shorter, keeps, p, q);
        let (i, j) = choose|i: int, j: int|
            0 <= i < j < shorter.len() && #[trigger] shorter[i] == before[p]
                && #[trigger] shorter[j] == before[q];
        assert(list[i] == found[p] && list[j] == found[q]);
    } else {
        assert(found == before.push(list.last()));
        broadcast use vstd::seq_lib::group_filter_ensures;
        shorter.lemma_filter_contains_rev(keeps, before[p]);
        let i = choose|i: int| 0 <= i < shorter.len() && shorter[i] == before[p];
        assert(list[i] == found[p] && list[list.len() - 1] == found[q]);
    }
}

} // verus!
