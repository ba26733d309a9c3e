//! The requests of the Spotify Web API client.
//!
//! The client holds the credentials of the application and, after login,
//! the access token. Each of its operations states the request to send:
//! method, URL, `Authorization` header and payload. Sending is left to the
//! caller, who hands back status and body of the answer.

use crate::apply::{is_success, removal_requests, status_is_success, ApiError};
use crate::authorize::{authorization_url, build_authorization_url};
use crate::duplicates::{group_views, groups_of, PositionGroup};
use crate::removal::{entry_views, RemovalPlan};
use crate::text::{decimal, decimal_chars, join, join_strings, string_of, strings_view};
use crate::token::{basic_authorization, basic_authorization_of, text_view};
use vstd::prelude::*;
use vstd::string::StringExecFns;
use vstd::utf8::encode_utf8;

verus! {

/// The method of a request.
#[derive(Debug, Clone, Copy, PartialEq, Eq, Structural)]
pub enum Method {
    Get,
    Post,
    Delete,
}

/// What a request carries in its body.
#[derive(Debug)]
pub enum Payload {
    /// Nothing.
    Empty,
    /// Form fields, as names and values.
    Form(Vec<(String, String)>),
    /// A JSON object that describes a new playlist.
    NewPlaylist { name: String, description: String, public: bool },
    /// A JSON object with the track URIs to add.
    Uris(Vec<String>),
    /// A JSON object that names one track and the positions to remove.
    Removal { uri: String, positions: Vec<usize> },
}

/// A request to the remote interface.
#[derive(Debug)]
pub struct ApiRequest {
    pub method: Method,
    pub url: String,
    /// The value of the `Authorization` header.
    pub authorization: String,
    pub payload: Payload,
}

/// Why a request could not be stated.
#[derive(Debug, Clone, Copy, PartialEq, Eq, Structural)]
pub enum ClientError {
    /// The client holds no access token yet.
    NoToken,
    /// The credentials are too long to be encoded.
    Credentials,
}

/// The most track URIs that one request may add to a playlist.
pub const ADD_TRACKS_LIMIT: usize = 100;

/// The most tracks that one request may look up.
pub const TRACK_LOOKUP_LIMIT: usize = 50;

/// The redirect URI that is used when none is configured.
pub fn default_redirect_uri() -> (uri: String)
    ensures
        uri@ == "http://127.0.0.1:8888/callback"@,
{
    String::from_str("http://127.0.0.1:8888/callback")
}

/// The scopes that the application asks for.
pub open spec fn requested_scopes() -> Seq<Seq<char>> {
    seq![
        "user-read-private"@,
        "user-read-email"@,
        "user-top-read"@,
        "user-read-recently-played"@,
        "playlist-read-private"@,
        "playlist-read-collaborative"@,
        "playlist-modify-public"@,
        "playlist-modify-private"@,
    ]
}

/// The scopes that the application asks for.
pub fn scopes() -> (list: Vec<String>)
    ensures
        strings_view(list@) == requested_scopes(),
{
    let mut list: Vec<String> = Vec::new();
    list.push(String::from_str("user-read-private"));
    list.push(String::from_str("user-read-email"));
    list.push(String::from_str("user-top-read"));
    list.push(String::from_str("user-read-recently-played"));
    list.push(String::from_str("playlist-read-private"));
    list.push(String::from_str("playlist-read-collaborative"));
    list.push(String::from_str("playlist-modify-public"));
    list.push(String::from_str("playlist-modify-private"));
    assert(strings_view(list@) =~= requested_scopes());
    list
}

/// The value of the `Authorization` header that presents an access token.
pub open spec fn bearer_of(token: Seq<char>) -> Seq<char> {
    "Bearer "@ + token
}

/// The value of the `Authorization` header that presents `token`.
pub fn bearer(token: &str) -> (header: String)
    ensures
        header@ == bearer_of(token@),
{
    String::from_str("Bearer ").concat(token)
}

/// `prefix` followed by `tail`.
fn text2(prefix: &str, tail: &str) -> (s: String)
    ensures
        s@ == prefix@ + tail@,
{
    String::from_str(prefix).concat(tail)
}

/// The decimal notation of `n` as a string.
pub fn decimal_string(n: u64) -> (s: String)
    ensures
        s@ == decimal(n as nat),
{
    let digits = decimal_chars(n);
    string_of(&digits)
}

/// The consecutive pieces of at most `size` items that `s` falls into; all
/// but the last hold exactly `size` items, and none is empty.
pub open spec fn chunks<A>(s: Seq<A>, size: int) -> Seq<Seq<A>>
    decreases s.len(),
{
    if s.len() == 0 || size <= 0 {
        Seq::<Seq<A>>::empty()
    } else if s.len() <= size {
        seq![s]
    } else {
        seq![s.take(size)] + chunks(s.skip(size), size)
    }
}

/// The chunks hold between one and `size` items each, and put together
/// they give the sequence back.
pub proof fn lemma_chunks<A>(s: Seq<A>, size: int)
    requires
        size > 0,
    ensures
        forall|k: int|
            0 <= k < chunks(s, size).len() ==> 1 <= (#[trigger] chunks(s, size)[k]).len() <= size,
        chunks(s, size).flatten() == s,
    decreases s.len(),
{
    let c = chunks(s, size);
    if s.len() == 0 {
        assert(c.flatten() =~= s);
    } else if s.len() <= size {
        assert(c.drop_first() =~= Seq::<Seq<A>>::empty());
        assert(c.drop_first().flatten() =~= Seq::<A>::empty());
        assert(c.flatten() =~= s);
    } else {
        let rest = chunks(s.skip(size), size);
        lemma_chunks(s.skip(size), size);
        assert(c.drop_first() =~= rest);
        assert(c.flatten() =~= s.take(size) + rest.flatten());
        assert(c.flatten() =~= s);
        assert forall|k: int| 0 <= k < c.len() implies 1 <= (#[trigger] c[k]).len() <= size by {
            if k > 0 {
                assert(c[k] == rest[k - 1]);
            }
        }
    }
}

/// The character sequences held by lists of strings.
pub open spec fn chunk_views(v: Seq<Vec<String>>) -> Seq<Seq<Seq<char>>> {
    v.map_values(|c: Vec<String>| strings_view(c@))
}

/// The strings in consecutive pieces of at most `size`.
pub fn chunk_strings(items: &Vec<String>, size: usize) -> (pieces: Vec<Vec<String>>)
    requires
        size > 0,
    ensures
        chunk_views(pieces@) == chunks(strings_view(items@), size as int),
{
    let ghost all = strings_view(items@);
    let mut pieces: Vec<Vec<String>> = Vec::new();
    let mut i: usize = 0;
    proof {
        assert(all.skip(0) =~= all);
        assert(chunk_views(pieces@) + chunks(all, size as int) =~= chunks(all, size as int));
    }
    while i < items.len()
        invariant
            i <= items.len(),
            size > 0,
            all == strings_view(items@),
            chunk_views(pieces@) + chunks(all.skip(i as int), size as int) == chunks(
                all,
                size as int,
            ),
        decreases items.len() - i,
    {
        let end = if items.len() - i <= size {
            items.len()
        } else {
            i + size
        };
        let ghost rest = all.skip(i as int);
        let ghost before = chunk_views(pieces@);
        let mut piece: Vec<String> = Vec::new();
        let mut j: usize = i;
        while j < end
            invariant
                i <= j <= end <= items.len(),
                all == strings_view(items@),
                strings_view(piece@) == all.subrange(i as int, j as int),
            decreases end - j,
        {
            let ghost so_far = strings_view(piece@);
            let item = items[j].clone();
            proof {
                assert(item@ == items@[j as int]@);
                assert(all[j as int] == items@[j as int]@);
            }
            piece.push(item);
            proof {
                assert(strings_view(piece@) =~= so_far.push(all[j as int]));
                assert(strings_view(piece@) =~= all.subrange(i as int, j as int + 1));
            }
            j += 1;
        }
        pieces.push(piece);
        proof {
            let taken = all.subrange(i as int, end as int);
            assert(chunk_views(pieces@) =~= before.push(taken));
            if items.len() - i <= size {
                assert(taken =~= rest);
                assert(all.skip(end as int) =~= Seq::<Seq<char>>::empty());
                assert(chunks(rest, size as int) =~= seq![rest]);
                assert(chunks(all.skip(end as int), size as int) =~= Seq::<
                    Seq<Seq<char>>,
                >::empty());
            } else {
                assert(taken =~= rest.take(size as int));
                assert(all.skip(end as int) =~= rest.skip(size as int));
            }
            assert(before.push(taken) + chunks(all.skip(end as int), size as int) =~= before
                + chunks(rest, size as int));
        }
        i = end;
    }
    proof {
        assert(all.skip(items.len() as int) =~= Seq::<Seq<char>>::empty());
        assert(chunk_views(pieces@) + Seq::<Seq<Seq<char>>>::empty() =~= chunk_views(pieces@));
    }
    pieces
}

/// The items that are there, in order.
pub open spec fn present_of<T>(items: Seq<Option<T>>) -> Seq<T>
    decreases items.len(),
{
    if items.len() == 0 {
        Seq::<T>::empty()
    } else {
        match items.last() {
            Some(item) => present_of(items.drop_last()).push(item),
            None => present_of(items.drop_last()),
        }
    }
}

/// The items that are there, in order: what a lookup gives for the tracks
/// that exist.
pub fn present<T>(items: Vec<Option<T>>) -> (found: Vec<T>)
    ensures
        found@ == present_of(items@),
{
    let ghost all = items@;
    let mut found: Vec<T> = Vec::new();
    proof {
        assert(all.take(0) =~= Seq::<Option<T>>::empty());
    }
    for item in it: items
        invariant
            it.seq() == all,
            found@ == present_of(all.take(it.index() as int)),
    {
        proof {
            let next = all.take(it.index() as int + 1);
            assert(next.drop_last() =~= all.take(it.index() as int));
            assert(next.last() == item);
        }
        match item {
            Some(value) => {
                found.push(value);
            },
            None => {},
        }
    }
    proof {
        assert(all.take(all.len() as int) =~= all);
    }
    found
}

/// What is found in a list of answers: the items that are there in the
/// first answer, then those of the second, and so on.
pub open spec fn found_in<T>(answers: Seq<Seq<Option<T>>>) -> Seq<T>
    decreases answers.len(),
{
    if answers.len() == 0 {
        Seq::<T>::empty()
    } else {
        found_in(answers.drop_last()) + present_of(answers.last())
    }
}

/// The items of a list of answers.
pub open spec fn answer_views<T>(answers: Seq<Vec<Option<T>>>) -> Seq<Seq<Option<T>>> {
    answers.map_values(|a: Vec<Option<T>>| a@)
}

/// The tracks that a lookup in several requests gives: what is there in
/// each answer, joined in the order of the answers.
pub fn join_found<T>(answers: Vec<Vec<Option<T>>>) -> (found: Vec<T>)
    ensures
        found@ == found_in(answer_views(answers@)),
{
    let ghost all = answer_views(answers@);
    let mut found: Vec<T> = Vec::new();
    proof {
        assert(all.take(0) =~= Seq::<Seq<Option<T>>>::empty());
    }
    for answer in it: answers
        invariant
            it.seq() == answers@,
            all == answer_views(answers@),
            found@ == found_in(all.take(it.index() as int)),
    {
        proof {
            let next = all.take(it.index() as int + 1);
            assert(next.drop_last() =~= all.take(it.index() as int));
            assert(next.last() == answer@);
        }
        let mut there = present(answer);
        found.append(&mut there);
    }
    proof {
        assert(all.take(all.len() as int) =~= all);
    }
    found
}

/// What an answer of the remote interface means: nothing to report on
/// success; else an error that carries status and body as received.
pub fn check_response(status: u16, body: &str) -> (outcome: Result<(), ApiError>)
    ensures
        status_is_success(status) ==> outcome is Ok,
        !status_is_success(status) ==> outcome is Err && outcome->Err_0.status == status
            && outcome->Err_0.body@ == body@,
{
    if is_success(status) {
        Ok(())
    } else {
        Err(ApiError { status, body: String::from_str(body) })
    }
}

/// The URL of the current user's top items of a kind (`tracks` or
/// `artists`).
pub open spec fn top_url(kind: Seq<char>, limit: u32, time_range: Seq<char>) -> Seq<char> {
    "https://api.spotify.com/v1/me/top/"@ + kind + "?limit="@ + decimal(limit as nat)
        + "&time_range="@ + time_range
}

/// The URL of the tracks of a playlist.
pub open spec fn playlist_tracks_url(playlist_id: Seq<char>) -> Seq<char> {
    "https://api.spotify.com/v1/playlists/"@ + playlist_id + "/tracks"@
}

/// The URL that looks up the tracks with the given identities.
pub open spec fn tracks_url(ids: Seq<Seq<char>>) -> Seq<char> {
    "https://api.spotify.com/v1/tracks?ids="@ + join(ids, ',')
}

/// The request is a `GET` of `url` that presents `token` and carries
/// nothing.
pub open spec fn is_get(request: ApiRequest, url: Seq<char>, token: Seq<char>) -> bool {
    &&& request.method == Method::Get
    &&& request.url@ == url
    &&& request.authorization@ == bearer_of(token)
    &&& request.payload is Empty
}

/// The client of the remote interface: the credentials of the application
/// and, once logged in, the access token.
pub struct SpotifyClient {
    client_id: String,
    client_secret: String,
    redirect_uri: String,
    token: Option<String>,
}

impl SpotifyClient {
    /// The client identifier.
    pub closed spec fn client_id(&self) -> Seq<char> {
        self.client_id@
    }

    /// The client secret.
    pub closed spec fn client_secret(&self) -> Seq<char> {
        self.client_secret@
    }

    /// The redirect URI.
    pub closed spec fn redirect_uri(&self) -> Seq<char> {
        self.redirect_uri@
    }

    /// The access token, if the client holds one.
    pub closed spec fn token(&self) -> Option<Seq<char>> {
        text_view(self.token)
    }

    /// A client with the given credentials and no access token.
    pub fn new(client_id: String, client_secret: String, redirect_uri: String) -> (client: Self)
        ensures
            client.client_id() == client_id@,
            client.client_secret() == client_secret@,
            client.redirect_uri() == redirect_uri@,
            client.token() is None,
    {
        SpotifyClient { client_id, client_secret, redirect_uri, token: None }
    }

    /// Whether client identifier and client secret are both there; login is
    /// not begun without them.
    pub fn has_credentials(&self) -> (b: bool)
        ensures
            b == (self.client_id().len() > 0 && self.client_secret().len() > 0),
    {
        !self.client_id.as_str().is_empty() && !self.client_secret.as_str().is_empty()
    }

    /// The redirect URI, as a string slice.
    pub fn redirect_uri_str(&self) -> (uri: &str)
        ensures
            uri@ == self.redirect_uri(),
    {
        self.redirect_uri.as_str()
    }

    /// The URL to which the browser is sent for the user's consent, with
    /// the scopes of the application and the caller's state.
    pub fn get_auth_url(&self, state: &str) -> (url: String)
        ensures
            url@ == authorization_url(
                self.client_id(),
                self.redirect_uri(),
                join(requested_scopes(), ' '),
                state@,
            ),
    {
        let list = scopes();
        build_authorization_url(
            self.client_id.as_str(),
            self.redirect_uri.as_str(),
            &list,
            state,
        )
    }

    /// The credentials are short enough to be encoded.
    pub open spec fn can_encode_credentials(&self) -> bool {
        encode_utf8(self.client_id().push(':') + self.client_secret()).len() <= usize::MAX / 2
    }

    /// The request is the one that exchanges `code` for a token: a `POST`
    /// to the token endpoint with the application's credentials and a form
    /// that names the grant, the code and the redirect URI.
    pub open spec fn exchange_code_spec(&self, code: Seq<char>, r: ApiRequest) -> bool {
        &&& r.method == Method::Post
        &&& r.url@ == "https://accounts.spotify.com/api/token"@
        &&& r.authorization@ == basic_authorization_of(self.client_id(), self.client_secret())
        &&& r.payload is Form
        &&& r.payload->Form_0@.len() == 3
        &&& r.payload->Form_0@[0].0@ == "grant_type"@
        &&& r.payload->Form_0@[0].1@ == "authorization_code"@
        &&& r.payload->Form_0@[1].0@ == "code"@
        &&& r.payload->Form_0@[1].1@ == code
        &&& r.payload->Form_0@[2].0@ == "redirect_uri"@
        &&& r.payload->Form_0@[2].1@ == self.redirect_uri()
    }

    /// The request that exchanges an authorization code for a token, or the
    /// error that the credentials are too long to be encoded.
    pub fn exchange_code(&self, code: &str) -> (request: Result<ApiRequest, ClientError>)
        ensures
            !self.can_encode_credentials() ==> request == Err::<ApiRequest, ClientError>(
                ClientError::Credentials,
            ),
            self.can_encode_credentials() ==> request is Ok && self.exchange_code_spec(
                code@,
                request->Ok_0,
            ),
    {
        let authorization = match basic_authorization(
            self.client_id.as_str(),
            self.client_secret.as_str(),
        ) {
            Some(header) => header,
            None => {
                return Err(ClientError::Credentials);
            },
        };
        let mut form: Vec<(String, String)> = Vec::new();
        form.push((String::from_str("grant_type"), String::from_str("authorization_code")));
        form.push((String::from_str("code"), String::from_str(code)));
        form.push((String::from_str("redirect_uri"), self.redirect_uri.clone()));
        Ok(
            ApiRequest {
                method: Method::Post,
                url: String::from_str("https://accounts.spotify.com/api/token"),
                authorization,
                payload: Payload::Form(form),
            },
        )
    }

    /// Takes the access token that later requests present.
    pub fn set_token(&mut self, token: String)
        ensures
            final(self).token() == Some(token@),
            final(self).client_id() == old(self).client_id(),
            final(self).client_secret() == old(self).client_secret(),
            final(self).redirect_uri() == old(self).redirect_uri(),
    {
        self.token = Some(token);
    }

    /// Forgets the access token: the client is logged out.
    pub fn clear_token(&mut self)
        ensures
            final(self).token() is None,
            final(self).client_id() == old(self).client_id(),
            final(self).client_secret() == old(self).client_secret(),
            final(self).redirect_uri() == old(self).redirect_uri(),
    {
        self.token = None;
    }

    /// The access token, or the error that there is none.
    fn get_token(&self) -> (token: Result<&str, ClientError>)
        ensures
            match self.token() {
                Some(t) => token is Ok && token->Ok_0@ == t,
                None => token == Err::<&str, ClientError>(ClientError::NoToken),
            },
    {
        match &self.token {
            Some(token) => Ok(token.as_str()),
            None => Err(ClientError::NoToken),
        }
    }

    /// A `GET` of `url` that presents the access token.
    fn get(&self, url: String) -> (request: Result<ApiRequest, ClientError>)
        ensures
            match self.token() {
                Some(t) => request is Ok && is_get(request->Ok_0, url@, t),
                None => request is Err && request->Err_0 == ClientError::NoToken,
            },
    {
        let token = self.get_token()?;
        Ok(ApiRequest { method: Method::Get, url, authorization: bearer(token), payload: Payload::Empty })
    }

    /// The request for the profile of the current user.
    pub fn get_current_user(&self) -> (request: Result<ApiRequest, ClientError>)
        ensures
            match self.token() {
                Some(t) => request is Ok && is_get(
                    request->Ok_0,
                    "https://api.spotify.com/v1/me"@,
                    t,
                ),
                None => request is Err && request->Err_0 == ClientError::NoToken,
            },
    {
        self.get(String::from_str("https://api.spotify.com/v1/me"))
    }

    /// The URL of the top items of a kind.
    fn top(&self, kind: &str, limit: u32, time_range: &str) -> (request: Result<
        ApiRequest,
        ClientError,
    >)
        ensures
            match self.token() {
                Some(t) => request is Ok && is_get(
                    request->Ok_0,
                    top_url(kind@, limit, time_range@),
                    t,
                ),
                None => request is Err && request->Err_0 == ClientError::NoToken,
            },
    {
        let mut url = text2("https://api.spotify.com/v1/me/top/", kind);
        url.append("?limit=");
        url.append(decimal_string(limit as u64).as_str());
        url.append("&time_range=");
        url.append(time_range);
        self.get(url)
    }

    /// The request for the user's top tracks over a time range.
    pub fn get_top_tracks(&self, limit: u32, time_range: &str) -> (request: Result<
        ApiRequest,
        ClientError,
    >)
        ensures
            match self.token() {
                Some(t) => request is Ok && is_get(
                    request->Ok_0,
                    top_url("tracks"@, limit, time_range@),
                    t,
                ),
                None => request is Err && request->Err_0 == ClientError::NoToken,
            },
    {
        self.top("tracks", limit, time_range)
    }

    /// The request for the user's top artists over a time range.
    pub fn get_top_artists(&self, limit: u32, time_range: &str) -> (request: Result<
        ApiRequest,
        ClientError,
    >)
        ensures
            match self.token() {
                Some(t) => request is Ok && is_get(
                    request->Ok_0,
                    top_url("artists"@, limit, time_range@),
                    t,
                ),
                None => request is Err && request->Err_0 == ClientError::NoToken,
            },
    {
        self.top("artists", limit, time_range)
    }

    /// The request for the user's playlists.
    pub fn get_playlists(&self, limit: u32) -> (request: Result<ApiRequest, ClientError>)
        ensures
            match self.token() {
                Some(t) => request is Ok && is_get(
                    request->Ok_0,
                    "https://api.spotify.com/v1/me/playlists?limit="@ + decimal(limit as nat),
                    t,
                ),
                None => request is Err && request->Err_0 == ClientError::NoToken,
            },
    {
        let url = text2(
            "https://api.spotify.com/v1/me/playlists?limit=",
            decimal_string(limit as u64).as_str(),
        );
        self.get(url)
    }

    /// The request for one playlist.
    pub fn get_playlist(&self, playlist_id: &str) -> (request: Result<ApiRequest, ClientError>)
        ensures
            match self.token() {
                Some(t) => request is Ok && is_get(
                    request->Ok_0,
                    "https://api.spotify.com/v1/playlists/"@ + playlist_id@,
                    t,
                ),
                None => request is Err && request->Err_0 == ClientError::NoToken,
            },
    {
        self.get(text2("https://api.spotify.com/v1/playlists/", playlist_id))
    }

    /// The request for the tracks that the user played last.
    pub fn get_recently_played(&self, limit: u32) -> (request: Result<ApiRequest, ClientError>)
        ensures
            match self.token() {
                Some(t) => request is Ok && is_get(
                    request->Ok_0,
                    "https://api.spotify.com/v1/me/player/recently-played?limit="@ + decimal(
                        limit as nat,
                    ),
                    t,
                ),
                None => request is Err && request->Err_0 == ClientError::NoToken,
            },
    {
        let url = text2(
            "https://api.spotify.com/v1/me/player/recently-played?limit=",
            decimal_string(limit as u64).as_str(),
        );
        self.get(url)
    }

    /// The request for the tracks of a playlist.
    pub fn get_playlist_tracks(&self, playlist_id: &str) -> (request: Result<
        ApiRequest,
        ClientError,
    >)
        ensures
            match self.token() {
                Some(t) => request is Ok && is_get(
                    request->Ok_0,
                    playlist_tracks_url(playlist_id@),
                    t,
                ),
                None => request is Err && request->Err_0 == ClientError::NoToken,
            },
    {
        let mut url = text2("https://api.spotify.com/v1/playlists/", playlist_id);
        url.append("/tracks");
        self.get(url)
    }

    /// The request that creates a playlist for the user `user_id`.
    pub fn create_playlist(&self, user_id: &str, name: &str, description: &str, public: bool) -> (request:
        Result<ApiRequest, ClientError>)
        ensures
            match self.token() {
                Some(t) => request is Ok && {
                    let r = request->Ok_0;
                    &&& r.method == Method::Post
                    &&& r.url@ == "https://api.spotify.com/v1/users/"@ + user_id@ + "/playlists"@
                    &&& r.authorization@ == bearer_of(t)
                    &&& r.payload is NewPlaylist
                    &&& r.payload->NewPlaylist_name@ == name@
                    &&& r.payload->NewPlaylist_description@ == description@
                    &&& r.payload->NewPlaylist_public == public
                },
                None => request is Err && request->Err_0 == ClientError::NoToken,
            },
    {
        let token = self.get_token()?;
        let mut url = text2("https://api.spotify.com/v1/users/", user_id);
        url.append("/playlists");
        Ok(
            ApiRequest {
                method: Method::Post,
                url,
                authorization: bearer(token),
                payload: Payload::NewPlaylist {
                    name: String::from_str(name),
                    description: String::from_str(description),
                    public,
                },
            },
        )
    }

    /// The requests that add tracks to a playlist: one for each hundred
    /// URIs, in order. No URIs give no request.
    pub fn add_tracks_to_playlist(&self, playlist_id: &str, track_uris: &Vec<String>) -> (requests:
        Result<Vec<ApiRequest>, ClientError>)
        ensures
            match self.token() {
                Some(t) => requests is Ok && {
                    let list = requests->Ok_0;
                    let pieces = chunks(strings_view(track_uris@), ADD_TRACKS_LIMIT as int);
                    &&& list.len() == pieces.len()
                    &&& forall|k: int|
                        0 <= k < list.len() ==> {
                            let r = #[trigger] list[k];
                            &&& r.method == Method::Post
                            &&& r.url@ == playlist_tracks_url(playlist_id@)
                            &&& r.authorization@ == bearer_of(t)
                            &&& r.payload is Uris
                            &&& strings_view(r.payload->Uris_0@) == pieces[k]
                        }
                },
                None => requests is Err && requests->Err_0 == ClientError::NoToken,
            },
    {
        let token = self.get_token()?;
        let pieces = chunk_strings(track_uris, ADD_TRACKS_LIMIT);
        let ghost views = chunk_views(pieces@);
        let mut list: Vec<ApiRequest> = Vec::new();
        for piece in it: pieces
            invariant
                it.seq() == pieces@,
                views == chunk_views(pieces@),
                token@ == self.token()->0,
                list.len() == it.index(),
                forall|k: int|
                    0 <= k < list.len() ==> {
                        let r = #[trigger] list[k];
                        &&& r.method == Method::Post
                        &&& r.url@ == playlist_tracks_url(playlist_id@)
                        &&& r.authorization@ == bearer_of(token@)
                        &&& r.payload is Uris
                        &&& strings_view(r.payload->Uris_0@) == views[k]
                    },
        {
            let mut url = text2("https://api.spotify.com/v1/playlists/", playlist_id);
            url.append("/tracks");
            proof {
                assert(views[it.index() as int] == strings_view(piece@));
            }
            list.push(
                ApiRequest {
                    method: Method::Post,
                    url,
                    authorization: bearer(token),
                    payload: Payload::Uris(piece),
                },
            );
        }
        Ok(list)
    }

    /// The requests that remove the entries of a plan from a playlist: one
    /// `DELETE` for each URI of the plan, with all positions planned for
    /// that URI. The empty plan gives no request.
    pub fn remove_tracks_from_playlist(&self, playlist_id: &str, plan: &RemovalPlan) -> (requests:
        Result<Vec<ApiRequest>, ClientError>)
        ensures
            match self.token() {
                Some(t) => requests is Ok && {
                    let list = requests->Ok_0;
                    let groups = groups_of(entry_views(plan.entries@));
                    &&& list.len() == groups.len()
                    &&& forall|k: int|
                        0 <= k < list.len() ==> {
                            let r = #[trigger] list[k];
                            &&& r.method == Method::Delete
                            &&& r.url@ == playlist_tracks_url(playlist_id@)
                            &&& r.authorization@ == bearer_of(t)
                            &&& r.payload is Removal
                            &&& r.payload->Removal_uri@ == groups[k].key
                            &&& r.payload->Removal_positions@ == groups[k].positions
                        }
                },
                None => requests is Err && requests->Err_0 == ClientError::NoToken,
            },
    {
        let token = self.get_token()?;
        let groups = removal_requests(plan);
        let ghost views = group_views(groups@);
        let mut list: Vec<ApiRequest> = Vec::new();
        for group in it: groups
            invariant
                it.seq() == groups@,
                views == group_views(groups@),
                token@ == self.token()->0,
                list.len() == it.index(),
                forall|k: int|
                    0 <= k < list.len() ==> {
                        let r = #[trigger] list[k];
                        &&& r.method == Method::Delete
                        &&& r.url@ == playlist_tracks_url(playlist_id@)
                        &&& r.authorization@ == bearer_of(token@)
                        &&& r.payload is Removal
                        &&& r.payload->Removal_uri@ == views[k].key
                        &&& r.payload->Removal_positions@ == views[k].positions
                    },
        {
            let mut url = text2("https://api.spotify.com/v1/playlists/", playlist_id);
            url.append("/tracks");
            proof {
                assert(views[it.index() as int] == group@);
            }
            let PositionGroup { key, positions } = group;
            list.push(
                ApiRequest {
                    method: Method::Delete,
                    url,
                    authorization: bearer(token),
                    payload: Payload::Removal { uri: key, positions },
                },
            );
        }
        Ok(list)
    }

    /// The requests that look up tracks: one for each fifty identities, in
    /// order, with the identities joined by commas.
    pub fn get_tracks(&self, track_ids: &Vec<String>) -> (requests: Result<
        Vec<ApiRequest>,
        ClientError,
    >)
        ensures
            match self.token() {
                Some(t) => requests is Ok && {
                    let list = requests->Ok_0;
                    let pieces = chunks(strings_view(track_ids@), TRACK_LOOKUP_LIMIT as int);
                    &&& list.len() == pieces.len()
                    &&& forall|k: int|
                        0 <= k < list.len() ==> is_get(#[trigger] list[k], tracks_url(pieces[k]), t)
                },
                None => requests is Err && requests->Err_0 == ClientError::NoToken,
            },
    {
        let token = self.get_token()?;
        let pieces = chunk_strings(track_ids, TRACK_LOOKUP_LIMIT);
        let ghost views = chunk_views(pieces@);
        let mut list: Vec<ApiRequest> = Vec::new();
        for piece in it: pieces
            invariant
                it.seq() == pieces@,
                views == chunk_views(pieces@),
                token@ == self.token()->0,
                list.len() == it.index(),
                forall|k: int|
                    0 <= k < list.len() ==> is_get(#[trigger] list[k], tracks_url(views[k]), token@),
        {
            proof {
                assert(views[it.index() as int] == strings_view(piece@));
            }
            let ids = join_strings(&piece, ',');
            let url = text2("https://api.spotify.com/v1/tracks?ids=", ids.as_str());
            list.push(
                ApiRequest {
                    method: Method::Get,
                    url,
                    authorization: bearer(token),
                    payload: Payload::Empty,
                },
            );
        }
        Ok(list)
    }
}

} // verus!
