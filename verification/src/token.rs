//! The token exchange of the authorization-code flow: the credentials that
//! go with the request, and what the answer of the token endpoint means.

use crate::apply::{is_success, status_is_success};
use crate::oauth::AuthError;
use base64::Engine;
use vstd::prelude::*;
use vstd::string::{StrSliceExecFns, StringExecFns};
use vstd::utf8::encode_utf8;

verus! {

/// The token that the token endpoint grants.
#[derive(Debug, Clone)]
pub struct TokenResponse {
    pub access_token: String,
    pub token_type: String,
    pub expires_in: u64,
    pub refresh_token: Option<String>,
    pub scope: String,
}

/// The character for a six-bit value in the standard base64 alphabet.
pub open spec fn base64_char(v: int) -> char {
    if v < 26 {
        (0x41 + v) as char
    } else if v < 52 {
        (0x61 + v - 26) as char
    } else if v < 62 {
        (0x30 + v - 52) as char
    } else if v == 62 {
        '+'
    } else {
        '/'
    }
}

/// The standard base64 encoding of the bytes, with padding: each group of
/// three bytes gives four characters; a last group of one or two bytes is
/// filled up with `=`.
pub open spec fn base64_of(b: Seq<u8>) -> Seq<char>
    decreases b.len(),
{
    if b.len() == 0 {
        Seq::<char>::empty()
    } else if b.len() == 1 {
        seq![base64_char(b[0] as int / 4), base64_char((b[0] as int % 4) * 16), '=', '=']
    } else if b.len() == 2 {
        seq![
            base64_char(b[0] as int / 4),
            base64_char((b[0] as int % 4) * 16 + b[1] as int / 16),
            base64_char((b[1] as int % 16) * 4),
            '=',
        ]
    } else {
        seq![
            base64_char(b[0] as int / 4),
            base64_char((b[0] as int % 4) * 16 + b[1] as int / 16),
            base64_char((b[1] as int % 16) * 4 + b[2] as int / 64),
            base64_char(b[2] as int % 64),
        ] + base64_of(b.skip(3))
    }
}

/// Trusted: `Engine::encode` of the `base64` crate, on its `STANDARD`
/// engine, gives the standard base64 encoding with padding of the bytes. It
/// fails on inputs so long that the encoded length does not fit the
/// machine's word; those are left out.
#[verifier::external_body]
pub(crate) fn base64_standard(bytes: &Vec<u8>) -> (encoded: String)
    requires
        bytes.len() <= usize::MAX / 2,
    ensures
        encoded@ == base64_of(bytes@),
{
    base64::engine::general_purpose::STANDARD.encode(bytes)
}

/// The credentials of the token request: `Basic`, a space, and the base64
/// encoding of client identifier, a colon and client secret.
pub open spec fn basic_authorization_of(client_id: Seq<char>, client_secret: Seq<char>) -> Seq<
    char,
> {
    "Basic "@ + base64_of(encode_utf8(client_id.push(':') + client_secret))
}

/// The value of the `Authorization` header of the token request, or `None`
/// when the credentials are longer than half of what the machine can
/// address.
pub fn basic_authorization(client_id: &str, client_secret: &str) -> (header: Option<String>)
    ensures
        encode_utf8(client_id@.push(':') + client_secret@).len() <= usize::MAX / 2 ==> text_view(
            header,
        ) == Some(basic_authorization_of(client_id@, client_secret@)),
        encode_utf8(client_id@.push(':') + client_secret@).len() > usize::MAX / 2
            ==> header is None,
{
    let mut credentials = String::from_str(client_id);
    credentials.push(':');
    credentials.append(client_secret);
    let bytes = credentials.as_str().as_bytes_vec();
    if bytes.len() > usize::MAX / 2 {
        return None;
    }
    let encoded = base64_standard(&bytes);
    let mut header = String::from_str("Basic ");
    header.append(encoded.as_str());
    Some(header)
}

/// The text of the member `key` of the JSON object that `document` holds,
/// when `document` is JSON, is an object, has that member, and the member is
/// a string.
pub uninterp spec fn json_text(document: Seq<char>, key: Seq<char>) -> Option<Seq<char>>;

/// The number of the member `key` of the JSON object that `document` holds,
/// when the member is a number that is a non-negative integer below 2^64.
pub uninterp spec fn json_number(document: Seq<char>, key: Seq<char>) -> Option<u64>;

/// Whether `document` is a JSON object with a member `key` that is not
/// `null`.
pub uninterp spec fn json_present(document: Seq<char>, key: Seq<char>) -> bool;

/// The character sequence of an optional string.
pub open spec fn text_view(text: Option<String>) -> Option<Seq<char>> {
    match text {
        Some(s) => Some(s@),
        None => None,
    }
}

/// Trusted: reads `document` with `serde_json::from_str` as a JSON value,
/// takes the member `key` with `Value::get` and its text with
/// `Value::as_str`. The result depends on the two texts alone.
#[verifier::external_body]
pub(crate) fn json_text_member(document: &str, key: &str) -> (text: Option<String>)
    ensures
        text_view(text) == json_text(document@, key@),
{
    let value: serde_json::Value = serde_json::from_str(document).ok()?;
    match value.get(key)?.as_str() {
        Some(text) => Some(text.to_string()),
        None => None,
    }
}

/// Trusted: reads `document` with `serde_json::from_str` as a JSON value,
/// takes the member `key` with `Value::get` and its number with
/// `Value::as_u64`. The result depends on the two texts alone.
#[verifier::external_body]
pub(crate) fn json_number_member(document: &str, key: &str) -> (number: Option<u64>)
    ensures
        number == json_number(document@, key@),
{
    let value: serde_json::Value = serde_json::from_str(document).ok()?;
    value.get(key)?.as_u64()
}

/// Trusted: reads `document` with `serde_json::from_str` as a JSON value,
/// takes the member `key` with `Value::get` and asks `Value::is_null` of it.
/// The result depends on the two texts alone.
#[verifier::external_body]
pub(crate) fn json_member_present(document: &str, key: &str) -> (present: bool)
    ensures
        present == json_present(document@, key@),
{
    match serde_json::from_str::<serde_json::Value>(document) {
        Ok(value) => match value.get(key) {
            Some(member) => !member.is_null(),
            None => false,
        },
        Err(_) => false,
    }
}

/// The members of a token that were read from the body of an answer.
pub struct TokenParts {
    pub access_token: Option<String>,
    pub token_type: Option<String>,
    pub expires_in: Option<u64>,
    pub refresh_present: bool,
    pub refresh_token: Option<String>,
    pub scope: Option<String>,
}

impl TokenParts {
    /// The parts make a token: access token, token type, lifetime and scope
    /// were read, and the refresh token was read if one is present.
    pub open spec fn complete(&self) -> bool {
        &&& self.access_token is Some
        &&& self.token_type is Some
        &&& self.expires_in is Some
        &&& self.scope is Some
        &&& self.refresh_present ==> self.refresh_token is Some
    }
}

/// The answer grants the token `token`: each member of the token is the
/// part that was read, and the refresh token is there exactly when one is
/// present.
pub open spec fn grants(parts: TokenParts, token: TokenResponse) -> bool {
    &&& Some(token.access_token@) == text_view(parts.access_token)
    &&& Some(token.token_type@) == text_view(parts.token_type)
    &&& Some(token.expires_in) == parts.expires_in
    &&& Some(token.scope@) == text_view(parts.scope)
    &&& text_view(token.refresh_token) == if parts.refresh_present {
        text_view(parts.refresh_token)
    } else {
        None
    }
}

/// The outcome is a failed exchange that carries this status and body.
pub open spec fn is_failed_exchange(
    outcome: Result<TokenResponse, AuthError>,
    status: u16,
    body: Seq<char>,
) -> bool {
    outcome matches Err(AuthError::TokenExchange { status: s, body: b }) && s == status && b@
        == body
}

/// The outcome is a token that the parts grant.
pub open spec fn is_granted(outcome: Result<TokenResponse, AuthError>, parts: TokenParts) -> bool {
    outcome matches Ok(token) && grants(parts, token)
}

/// What an answer of the token endpoint with the given status, body and
/// parts means: a token when the status is a success and the parts are
/// complete; else a failed exchange that carries status and body.
pub fn token_from_parts(status: u16, body: &str, parts: TokenParts) -> (outcome: Result<
    TokenResponse,
    AuthError,
>)
    ensures
        status_is_success(status) && parts.complete() ==> is_granted(outcome, parts),
        !(status_is_success(status) && parts.complete()) ==> is_failed_exchange(
            outcome,
            status,
            body@,
        ),
{
    if !is_success(status) {
        return Err(AuthError::TokenExchange { status, body: String::from_str(body) });
    }
    let TokenParts { access_token, token_type, expires_in, refresh_present, refresh_token, scope } =
        parts;
    if refresh_present && refresh_token.is_none() {
        return Err(AuthError::TokenExchange { status, body: String::from_str(body) });
    }
    match (access_token, token_type, expires_in, scope) {
        (Some(access_token), Some(token_type), Some(expires_in), Some(scope)) => Ok(
            TokenResponse {
                access_token,
                token_type,
                expires_in,
                refresh_token: if refresh_present {
                    refresh_token
                } else {
                    None
                },
                scope,
            },
        ),
        _ => Err(AuthError::TokenExchange { status, body: String::from_str(body) }),
    }
}

/// The parts of a token that the JSON document `body` holds.
pub open spec fn token_parts_of(body: Seq<char>, parts: TokenParts) -> bool {
    &&& text_view(parts.access_token) == json_text(body, "access_token"@)
    &&& text_view(parts.token_type) == json_text(body, "token_type"@)
    &&& parts.expires_in == json_number(body, "expires_in"@)
    &&& parts.refresh_present == json_present(body, "refresh_token"@)
    &&& text_view(parts.refresh_token) == json_text(body, "refresh_token"@)
    &&& text_view(parts.scope) == json_text(body, "scope"@)
}

/// Reads the parts of a token from the JSON document `body`.
pub fn read_token_parts(body: &str) -> (parts: TokenParts)
    ensures
        token_parts_of(body@, parts),
{
    TokenParts {
        access_token: json_text_member(body, "access_token"),
        token_type: json_text_member(body, "token_type"),
        expires_in: json_number_member(body, "expires_in"),
        refresh_present: json_member_present(body, "refresh_token"),
        refresh_token: json_text_member(body, "refresh_token"),
        scope: json_text_member(body, "scope"),
    }
}

/// What the answer of the token endpoint means. An answer whose status is
/// not a success is a failed exchange with that status and the body as
/// received, whatever the body holds. A success whose body is a JSON object
/// with the members of a token grants that token; any other body is a failed
/// exchange too.
pub fn token_from_response(status: u16, body: &str) -> (outcome: Result<TokenResponse, AuthError>)
    ensures
        !status_is_success(status) ==> is_failed_exchange(outcome, status, body@),
        outcome is Ok ==> status_is_success(status) && exists|parts: TokenParts|
            token_parts_of(body@, parts) && parts.complete() && is_granted(outcome, parts),
        outcome is Err ==> is_failed_exchange(outcome, status, body@),
        status_is_success(status) ==> (outcome is Ok <==> forall|parts: TokenParts|
            token_parts_of(body@, parts) ==> parts.complete()),
{
    if !is_success(status) {
        return Err(AuthError::TokenExchange { status, body: String::from_str(body) });
    }
    let parts = read_token_parts(body);
    let ghost read = parts;
    let outcome = token_from_parts(status, body, parts);
    proof {
        assert forall|other: TokenParts| token_parts_of(body@, other) implies other.complete()
            == read.complete() by {
            lemma_parts_agree(body@, read, other);
        }
    }
    outcome
}

/// Parts read from one document are complete together.
proof fn lemma_parts_agree(body: Seq<char>, a: TokenParts, b: TokenParts)
    requires
        token_parts_of(body, a),
        token_parts_of(body, b),
    ensures
        a.complete() == b.complete(),
{
}

} // verus!
