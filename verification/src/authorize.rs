//! The authorization URL of the OAuth2 authorization-code flow.
//!
//! The URL names the client, asks for a code, and carries the redirect URI,
//! the requested scopes and the caller's state. All four are
//! percent-encoded, so that each is read back from the URL as it was given,
//! whatever characters it holds.

use crate::query::{
    after_question, first_value, has_key, lemma_first_value_skip, lemma_parameter, query_value,
};
use crate::text::{
    contains_char, index_of, join, join_strings, lemma_contains_char_concat,
    lemma_contains_char_push, lemma_index_of, lemma_index_of_is, lemma_split_concat,
    lemma_split_without_separator, split, strings_view,
};
use crate::urlencode::{
    is_encoded_char, lemma_decode_encode, lemma_encoded_chars, percent_decode, percent_encode,
    url_encode,
};
use vstd::prelude::*;
use vstd::string::StringExecFns;
use vstd::utf8::encode_utf8;

verus! {

/// The parameter `key=value`.
pub open spec fn parameter(key: Seq<char>, value: Seq<char>) -> Seq<char> {
    key.push('=') + value
}

/// The query of the authorization URL: client identifier, response type
/// `code`, redirect URI, scope and state, in this order, each of the four
/// values percent-encoded.
pub open spec fn authorization_query(
    client_id: Seq<char>,
    redirect_uri: Seq<char>,
    scope: Seq<char>,
    state: Seq<char>,
) -> Seq<char> {
    parameter("client_id"@, percent_encode(encode_utf8(client_id))).push('&') + (parameter(
        "response_type"@,
        "code"@,
    ).push('&') + (parameter("redirect_uri"@, percent_encode(encode_utf8(redirect_uri))).push('&')
        + (parameter("scope"@, percent_encode(encode_utf8(scope))).push('&') + parameter(
        "state"@,
        percent_encode(encode_utf8(state)),
    ))))
}

/// The authorization URL: the provider's authorize endpoint, `?` and the
/// query.
pub open spec fn authorization_url(
    client_id: Seq<char>,
    redirect_uri: Seq<char>,
    scope: Seq<char>,
    state: Seq<char>,
) -> Seq<char> {
    "https://accounts.spotify.com/authorize"@.push('?') + authorization_query(
        client_id,
        redirect_uri,
        scope,
        state,
    )
}

/// The string `key=value`.
fn parameter_string(key: &str, value: &str) -> (p: String)
    ensures
        p@ == parameter(key@, value@),
{
    let mut p = String::from_str(key);
    p.push('=');
    p.append(value);
    p
}

/// `head`, `&` and `tail`.
fn and_then(head: String, tail: &str) -> (s: String)
    ensures
        s@ == head@.push('&') + tail@,
{
    let mut s = head;
    s.push('&');
    s.append(tail);
    s
}

/// The URL to which the browser is sent for the user's consent. The scopes
/// are joined by single spaces. Client identifier, redirect URI, scope and
/// state are percent-encoded.
pub fn build_authorization_url(
    client_id: &str,
    redirect_uri: &str,
    scopes: &Vec<String>,
    state: &str,
) -> (url: String)
    ensures
        url@ == authorization_url(
            client_id@,
            redirect_uri@,
            join(strings_view(scopes@), ' '),
            state@,
        ),
{
    let scope = join_strings(scopes, ' ');
    let encoded_redirect = url_encode(redirect_uri);
    let encoded_scope = url_encode(scope.as_str());
    let encoded_client = url_encode(client_id);
    let encoded_state = url_encode(state);
    let state_part = parameter_string("state", encoded_state.as_str());
    let scope_part = parameter_string("scope", encoded_scope.as_str());
    let redirect_part = parameter_string("redirect_uri", encoded_redirect.as_str());
    let type_part = parameter_string("response_type", "code");
    let client_part = parameter_string("client_id", encoded_client.as_str());
    let from_scope = and_then(scope_part, state_part.as_str());
    let from_redirect = and_then(redirect_part, from_scope.as_str());
    let from_type = and_then(type_part, from_redirect.as_str());
    let query = and_then(client_part, from_type.as_str());
    let mut url = String::from_str("https://accounts.spotify.com/authorize");
    url.push('?');
    url.append(query.as_str());
    url
}

/// What a URL gives as its query: what stands between the first `?` and the
/// first `#` after it.
pub open spec fn url_query(url: Seq<char>) -> Seq<char> {
    match after_question(url) {
        Some(q) => q.take(index_of(q, '#')),
        None => Seq::<char>::empty(),
    }
}

/// The bytes that a URL gives to the query parameter `key`, percent-decoded.
pub open spec fn url_parameter(url: Seq<char>, key: Seq<char>) -> Option<Seq<u8>> {
    match query_value(url_query(url), key) {
        Some(v) => Some(percent_decode(v)),
        None => None,
    }
}

/// What is known of the fixed texts of the URL.
proof fn lemma_fixed_texts()
    ensures
        !contains_char("https://accounts.spotify.com/authorize"@, '?'),
        !contains_char("client_id"@, '=') && !contains_char("client_id"@, '&') && !contains_char(
            "client_id"@,
            '#',
        ),
        !contains_char("response_type"@, '=') && !contains_char("response_type"@, '&')
            && !contains_char("response_type"@, '#'),
        !contains_char("redirect_uri"@, '=') && !contains_char("redirect_uri"@, '&')
            && !contains_char("redirect_uri"@, '#'),
        !contains_char("scope"@, '=') && !contains_char("scope"@, '&') && !contains_char(
            "scope"@,
            '#',
        ),
        !contains_char("state"@, '=') && !contains_char("state"@, '&') && !contains_char(
            "state"@,
            '#',
        ),
        !contains_char("code"@, '&') && !contains_char("code"@, '#'),
        "client_id"@ != "response_type"@,
        "client_id"@ != "redirect_uri"@,
        "client_id"@ != "scope"@,
        "client_id"@ != "state"@,
        "response_type"@ != "redirect_uri"@,
        "response_type"@ != "scope"@,
        "response_type"@ != "state"@,
        "redirect_uri"@ != "scope"@,
        "redirect_uri"@ != "state"@,
        "scope"@ != "state"@,
{
    reveal_strlit("https://accounts.spotify.com/authorize");
    reveal_strlit("client_id");
    reveal_strlit("response_type");
    reveal_strlit("redirect_uri");
    reveal_strlit("scope");
    reveal_strlit("state");
    reveal_strlit("code");
    let base = "https://accounts.spotify.com/authorize"@;
    lemma_index_of_is(base, '?', base.len() as int);
    lemma_free("client_id"@);
    lemma_free("response_type"@);
    lemma_free("redirect_uri"@);
    lemma_free("scope"@);
    lemma_free("state"@);
    lemma_free("code"@);
    assert("scope"@[1] != "state"@[1]);
}

/// A text of letters and underscores holds none of `=`, `&` and `#`.
proof fn lemma_free(s: Seq<char>)
    requires
        forall|i: int| 0 <= i < s.len() ==> 'a' <= #[trigger] s[i] <= 'z' || s[i] == '_',
    ensures
        !contains_char(s, '='),
        !contains_char(s, '&'),
        !contains_char(s, '#'),
{
    lemma_index_of_is(s, '=', s.len() as int);
    lemma_index_of_is(s, '&', s.len() as int);
    lemma_index_of_is(s, '#', s.len() as int);
}

/// Percent-encoded text holds none of `&`, `#` and `=`.
proof fn lemma_encoded_free(bytes: Seq<u8>)
    ensures
        !contains_char(percent_encode(bytes), '&'),
        !contains_char(percent_encode(bytes), '#'),
        !contains_char(percent_encode(bytes), '='),
{
    let s = percent_encode(bytes);
    lemma_encoded_chars(bytes);
    assert forall|i: int| 0 <= i < s.len() implies s[i] != '&' && s[i] != '#' && s[i] != '=' by {
        assert(is_encoded_char(s[i]));
    }
    lemma_index_of_is(s, '&', s.len() as int);
    lemma_index_of_is(s, '#', s.len() as int);
    lemma_index_of_is(s, '=', s.len() as int);
}

/// A parameter holds `c`, which is not `=`, exactly when its key or its
/// value does.
proof fn lemma_parameter_contains(key: Seq<char>, value: Seq<char>, c: char)
    requires
        c != '=',
    ensures
        contains_char(parameter(key, value), c) <==> contains_char(key, c) || contains_char(
            value,
            c,
        ),
{
    lemma_contains_char_push(key, '=', c);
    lemma_contains_char_concat(key.push('='), value, c);
}

/// The five parameters of the authorization query.
pub open spec fn authorization_parameters(
    client_id: Seq<char>,
    redirect_uri: Seq<char>,
    scope: Seq<char>,
    state: Seq<char>,
) -> Seq<Seq<char>> {
    seq![
        parameter("client_id"@, percent_encode(encode_utf8(client_id))),
        parameter("response_type"@, "code"@),
        parameter("redirect_uri"@, percent_encode(encode_utf8(redirect_uri))),
        parameter("scope"@, percent_encode(encode_utf8(scope))),
        parameter("state"@, percent_encode(encode_utf8(state))),
    ]
}

/// Of the parameters, the one at index `at` has the key `key`, and no
/// other has it.
pub open spec fn only_at(params: Seq<Seq<char>>, key: Seq<char>, at: int) -> bool {
    forall|k: int| 0 <= k < params.len() ==> (has_key(#[trigger] params[k], key) <==> k == at)
}

/// No parameter of the authorization query holds `&`, `#` or a second `=`
/// that could be taken for a separator: keys are fixed words and values are
/// percent-encoded.
proof fn lemma_parameters_free(
    client_id: Seq<char>,
    redirect_uri: Seq<char>,
    scope: Seq<char>,
    state: Seq<char>,
    c: char,
)
    requires
        c == '&' || c == '#',
    ensures
        forall|k: int|
            0 <= k < 5 ==> !contains_char(
                #[trigger] authorization_parameters(client_id, redirect_uri, scope, state)[k],
                c,
            ),
{
    lemma_fixed_texts();
    let ec = percent_encode(encode_utf8(client_id));
    let er = percent_encode(encode_utf8(redirect_uri));
    let es = percent_encode(encode_utf8(scope));
    let et = percent_encode(encode_utf8(state));
    lemma_encoded_free(encode_utf8(client_id));
    lemma_encoded_free(encode_utf8(redirect_uri));
    lemma_encoded_free(encode_utf8(scope));
    lemma_encoded_free(encode_utf8(state));
    lemma_parameter_contains("client_id"@, ec, c);
    lemma_parameter_contains("response_type"@, "code"@, c);
    lemma_parameter_contains("redirect_uri"@, er, c);
    lemma_parameter_contains("scope"@, es, c);
    lemma_parameter_contains("state"@, et, c);
}

/// Five texts joined by `&` hold a character other than `&` only when one
/// of them does, and split at `&` into the five when none of them holds `&`.
proof fn lemma_five_joined(p: Seq<Seq<char>>)
    requires
        p.len() == 5,
    ensures
        (forall|k: int| 0 <= k < 5 ==> !contains_char(#[trigger] p[k], '#')) ==> !contains_char(
            p[0].push('&') + (p[1].push('&') + (p[2].push('&') + (p[3].push('&') + p[4]))),
            '#',
        ),
        (forall|k: int| 0 <= k < 5 ==> !contains_char(#[trigger] p[k], '&')) ==> split(
            p[0].push('&') + (p[1].push('&') + (p[2].push('&') + (p[3].push('&') + p[4]))),
            '&',
        ) == p,
{
    let from3 = p[3].push('&') + p[4];
    let from2 = p[2].push('&') + from3;
    let from1 = p[1].push('&') + from2;
    let from0 = p[0].push('&') + from1;
    if forall|k: int| 0 <= k < 5 ==> !contains_char(#[trigger] p[k], '#') {
        assert(!contains_char(p[0], '#') && !contains_char(p[1], '#') && !contains_char(p[2], '#')
            && !contains_char(p[3], '#') && !contains_char(p[4], '#'));
        lemma_contains_char_push(p[3], '&', '#');
        lemma_contains_char_concat(p[3].push('&'), p[4], '#');
        lemma_contains_char_push(p[2], '&', '#');
        lemma_contains_char_concat(p[2].push('&'), from3, '#');
        lemma_contains_char_push(p[1], '&', '#');
        lemma_contains_char_concat(p[1].push('&'), from2, '#');
        lemma_contains_char_push(p[0], '&', '#');
        lemma_contains_char_concat(p[0].push('&'), from1, '#');
    }
    if forall|k: int| 0 <= k < 5 ==> !contains_char(#[trigger] p[k], '&') {
        assert(!contains_char(p[0], '&') && !contains_char(p[1], '&') && !contains_char(p[2], '&')
            && !contains_char(p[3], '&') && !contains_char(p[4], '&'));
        lemma_split_without_separator(p[0], '&');
        lemma_split_without_separator(p[1], '&');
        lemma_split_without_separator(p[2], '&');
        lemma_split_without_separator(p[3], '&');
        lemma_split_without_separator(p[4], '&');
        lemma_split_concat(p[3], p[4], '&');
        assert(split(from3, '&') =~= seq![p[3], p[4]]);
        lemma_split_concat(p[2], from3, '&');
        assert(split(from2, '&') =~= seq![p[2], p[3], p[4]]);
        lemma_split_concat(p[1], from2, '&');
        assert(split(from1, '&') =~= seq![p[1], p[2], p[3], p[4]]);
        lemma_split_concat(p[0], from1, '&');
        assert(split(from0, '&') =~= p);
    }
}

/// The query that is read from the authorization URL is its query, and
/// splits into its five parameters.
pub proof fn lemma_authorization_url_splits(
    client_id: Seq<char>,
    redirect_uri: Seq<char>,
    scope: Seq<char>,
    state: Seq<char>,
)
    ensures
        url_query(authorization_url(client_id, redirect_uri, scope, state)) == authorization_query(
            client_id,
            redirect_uri,
            scope,
            state,
        ),
        split(url_query(authorization_url(client_id, redirect_uri, scope, state)), '&')
            == authorization_parameters(client_id, redirect_uri, scope, state),
{
    let base = "https://accounts.spotify.com/authorize"@;
    let p = authorization_parameters(client_id, redirect_uri, scope, state);
    let query = authorization_query(client_id, redirect_uri, scope, state);
    let url = authorization_url(client_id, redirect_uri, scope, state);
    assert(query == p[0].push('&') + (p[1].push('&') + (p[2].push('&') + (p[3].push('&')
        + p[4]))));
    lemma_parameters_free(client_id, redirect_uri, scope, state, '&');
    lemma_parameters_free(client_id, redirect_uri, scope, state, '#');
    lemma_five_joined(p);
    assert(after_question(url) == Some(query)) by {
        lemma_fixed_texts();
        lemma_index_of(base, '?');
        assert forall|j: int| 0 <= j < base.len() implies url[j] != '?' by {
            assert(url[j] == base[j]);
        }
        assert(url[base.len() as int] == '?');
        lemma_index_of_is(url, '?', base.len() as int);
        assert(url.skip(base.len() as int + 1) =~= query);
    }
    lemma_index_of(query, '#');
    assert(query.take(query.len() as int) =~= query);
}

/// Each of the keys `client_id`, `response_type`, `redirect_uri`, `scope`
/// and `state` stands in the authorization URL once, at its place.
pub proof fn lemma_authorization_url_keys(
    client_id: Seq<char>,
    redirect_uri: Seq<char>,
    scope: Seq<char>,
    state: Seq<char>,
)
    ensures
        only_at(authorization_parameters(client_id, redirect_uri, scope, state), "client_id"@, 0),
        only_at(
            authorization_parameters(client_id, redirect_uri, scope, state),
            "response_type"@,
            1,
        ),
        only_at(
            authorization_parameters(client_id, redirect_uri, scope, state),
            "redirect_uri"@,
            2,
        ),
        only_at(authorization_parameters(client_id, redirect_uri, scope, state), "scope"@, 3),
        only_at(authorization_parameters(client_id, redirect_uri, scope, state), "state"@, 4),
{
    lemma_fixed_texts();
    lemma_parameter("client_id"@, percent_encode(encode_utf8(client_id)));
    lemma_parameter("response_type"@, "code"@);
    lemma_parameter("redirect_uri"@, percent_encode(encode_utf8(redirect_uri)));
    lemma_parameter("scope"@, percent_encode(encode_utf8(scope)));
    lemma_parameter("state"@, percent_encode(encode_utf8(state)));
}

/// The parameters of the authorization URL, read back from it and
/// percent-decoded, are the inputs, whatever characters they hold: client
/// identifier, redirect URI, scope and state each give their own UTF-8
/// bytes.
pub proof fn lemma_authorization_url_parameters(
    client_id: Seq<char>,
    redirect_uri: Seq<char>,
    scope: Seq<char>,
    state: Seq<char>,
)
    ensures
        url_parameter(
            authorization_url(client_id, redirect_uri, scope, state),
            "client_id"@,
        ) == Some(encode_utf8(client_id)),
        url_parameter(
            authorization_url(client_id, redirect_uri, scope, state),
            "redirect_uri"@,
        ) == Some(encode_utf8(redirect_uri)),
        url_parameter(authorization_url(client_id, redirect_uri, scope, state), "scope"@) == Some(
            encode_utf8(scope),
        ),
        url_parameter(authorization_url(client_id, redirect_uri, scope, state), "state"@) == Some(
            encode_utf8(state),
        ),
{
    let ec = percent_encode(encode_utf8(client_id));
    let er = percent_encode(encode_utf8(redirect_uri));
    let es = percent_encode(encode_utf8(scope));
    let et = percent_encode(encode_utf8(state));
    let params = authorization_parameters(client_id, redirect_uri, scope, state);
    lemma_authorization_url_splits(client_id, redirect_uri, scope, state);
    lemma_authorization_url_keys(client_id, redirect_uri, scope, state);
    lemma_fixed_texts();
    lemma_parameter("client_id"@, ec);
    lemma_parameter("redirect_uri"@, er);
    lemma_parameter("scope"@, es);
    lemma_parameter("state"@, et);
    assert(first_value(params, "client_id"@) == Some(ec)) by {
        assert(has_key(params[0], "client_id"@));
    }
    assert(first_value(params, "redirect_uri"@) == Some(er)) by {
        lemma_first_value_skip(params, "redirect_uri"@, 2);
        assert(params.skip(2)[0] == params[2]);
    }
    assert(first_value(params, "scope"@) == Some(es)) by {
        lemma_first_value_skip(params, "scope"@, 3);
        assert(params.skip(3)[0] == params[3]);
    }
    assert(first_value(params, "state"@) == Some(et)) by {
        lemma_first_value_skip(params, "state"@, 4);
        assert(params.skip(4)[0] == params[4]);
    }
    lemma_decode_encode(encode_utf8(client_id));
    lemma_decode_encode(encode_utf8(redirect_uri));
    lemma_decode_encode(encode_utf8(scope));
    lemma_decode_encode(encode_utf8(state));
}

} // verus!
