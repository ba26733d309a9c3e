//! The loopback callback of the OAuth2 authorization-code flow.
//!
//! After the user's consent the browser is redirected to a listener on the
//! local machine. The listener reads one HTTP request; the authorization
//! code is the `code` parameter in the query of the request target.

use crate::query::{after_question, find_query_value, query_value};
use crate::text::{
    chars_of, decimal, decimal_chars, digit_value, find_char, index_of, pieces_view, slice_chars,
    split, split_chars, string_of,
};
use vstd::prelude::*;
use vstd::string::StringExecFns;

verus! {

/// Why the authorization flow failed.
#[derive(Debug)]
pub enum AuthError {
    /// Client identifier or client secret is missing.
    Configuration,
    /// The system could not open the browser; the text says why.
    BrowserLaunch(String),
    /// The listener could not be set up on its port; the text says why.
    Listener(String),
    /// No redirect arrived within the listener's bound.
    Timeout,
    /// A redirect arrived without a `code` parameter.
    RedirectParse,
    /// The redirect carries an `error` parameter with this value: the user
    /// or the provider denied the authorization.
    AuthorizationDenied(String),
    /// The token endpoint answered without success or with a body that is
    /// not a token; status and body are as received.
    TokenExchange { status: u16, body: String },
    /// The user gave the login up.
    Cancelled,
}

/// The characters with the Unicode property `White_Space`.
pub open spec fn is_whitespace(c: char) -> bool {
    let n = c as u32;
    ||| 0x09 <= n <= 0x0d
    ||| n == 0x20
    ||| n == 0x85
    ||| n == 0xa0
    ||| n == 0x1680
    ||| 0x2000 <= n <= 0x200a
    ||| n == 0x2028
    ||| n == 0x2029
    ||| n == 0x202f
    ||| n == 0x205f
    ||| n == 0x3000
}

/// Whether `c` has the Unicode property `White_Space`.
pub fn char_is_whitespace(c: char) -> (b: bool)
    ensures
        b == is_whitespace(c),
{
    let n: u32 = c as u32;
    (0x09 <= n && n <= 0x0d) || n == 0x20 || n == 0x85 || n == 0xa0 || n == 0x1680 || (0x2000 <= n
        && n <= 0x200a) || n == 0x2028 || n == 0x2029 || n == 0x202f || n == 0x205f || n == 0x3000
}

/// The length of the longest prefix of `s` made of whitespace only (when
/// `white`) or of no whitespace at all (when not).
pub open spec fn run_length(s: Seq<char>, white: bool) -> int
    decreases s.len(),
{
    if s.len() == 0 || is_whitespace(s[0]) != white {
        0
    } else {
        1 + run_length(s.drop_first(), white)
    }
}

/// The longest run ends at the first character of the other kind.
pub proof fn lemma_run_length(s: Seq<char>, white: bool)
    ensures
        0 <= run_length(s, white) <= s.len(),
        forall|j: int| 0 <= j < run_length(s, white) ==> is_whitespace(#[trigger] s[j]) == white,
        run_length(s, white) < s.len() ==> is_whitespace(s[run_length(s, white)]) != white,
    decreases s.len(),
{
    if s.len() > 0 && is_whitespace(s[0]) == white {
        let t = s.drop_first();
        lemma_run_length(t, white);
        assert forall|j: int| 0 <= j < run_length(s, white) implies is_whitespace(#[trigger] s[j])
            == white by {
            if j > 0 {
                assert(s[j] == t[j - 1]);
            }
        }
    }
}

/// A run that ends at the first character of the other kind is the longest.
pub proof fn lemma_run_length_is(s: Seq<char>, white: bool, n: int)
    requires
        0 <= n <= s.len(),
        forall|j: int| 0 <= j < n ==> is_whitespace(#[trigger] s[j]) == white,
        n < s.len() ==> is_whitespace(s[n]) != white,
    ensures
        run_length(s, white) == n,
{
    lemma_run_length(s, white);
    let k = run_length(s, white);
    if k < n {
        assert(is_whitespace(s[k]) == white);
    } else if k > n {
        assert(is_whitespace(s[n]) == white);
    }
}

/// The first line of a text: what stands before its first line feed.
pub open spec fn first_line(text: Seq<char>) -> Seq<char> {
    text.take(index_of(text, '\n'))
}

/// The second of the words of a line, where words are separated by
/// whitespace; `None` when the line has fewer than two words.
pub open spec fn second_word(line: Seq<char>) -> Option<Seq<char>> {
    let a = line.skip(run_length(line, true));
    let b = a.skip(run_length(a, false));
    let c = b.skip(run_length(b, true));
    let n = run_length(c, false);
    if n == 0 {
        None
    } else {
        Some(c.take(n))
    }
}

/// The request target of an HTTP request: the second word of its request
/// line.
pub open spec fn request_target(request: Seq<char>) -> Option<Seq<char>> {
    second_word(first_line(request))
}

/// The value that the query of the request target gives to `key`.
pub open spec fn target_parameter(request: Seq<char>, key: Seq<char>) -> Option<Seq<char>> {
    match request_target(request) {
        None => None,
        Some(target) => match after_question(target) {
            None => None,
            Some(query) => query_value(query, key),
        },
    }
}

/// The authorization code that a redirect request carries: the value of the
/// first `code` parameter in the query of its request target.
pub open spec fn authorization_code(request: Seq<char>) -> Option<Seq<char>> {
    target_parameter(request, "code"@)
}

/// End of the run that starts at `start`: the index of the first character
/// at or after `start` that is whitespace (when `white` is false) or is not
/// (when it is true).
fn skip_run(v: &Vec<char>, start: usize, end: usize, white: bool) -> (i: usize)
    requires
        start <= end <= v.len(),
    ensures
        start <= i <= end,
        i == start + run_length(v@.subrange(start as int, end as int), white),
{
    let mut i: usize = start;
    while i < end && char_is_whitespace(v[i]) == white
        invariant
            start <= i <= end <= v.len(),
            forall|j: int| start <= j < i ==> is_whitespace(#[trigger] v@[j]) == white,
        decreases end - i,
    {
        i += 1;
    }
    proof {
        let s = v@.subrange(start as int, end as int);
        assert forall|j: int| 0 <= j < i - start implies is_whitespace(#[trigger] s[j])
            == white by {
            assert(s[j] == v@[start + j]);
        }
        lemma_run_length_is(s, white, i - start);
    }
    i
}

/// The value that the query of the request target gives to `key`.
pub fn request_parameter(request: &str, key: &str) -> (value: Option<String>)
    ensures
        match target_parameter(request@, key@) {
            Some(v) => value matches Some(s) && s@ == v,
            None => value is None,
        },
{
    let v = chars_of(request);
    let end = find_char(&v, 0, '\n');
    let ghost line = first_line(request@);
    proof {
        assert(v@.skip(0) =~= v@);
        assert(line =~= v@.subrange(0, end as int));
    }
    let a = skip_run(&v, 0, end, true);
    let b = skip_run(&v, a, end, false);
    let c = skip_run(&v, b, end, true);
    let d = skip_run(&v, c, end, false);
    proof {
        let sa = line.skip(run_length(line, true));
        assert(sa =~= v@.subrange(a as int, end as int));
        let sb = sa.skip(run_length(sa, false));
        assert(sb =~= v@.subrange(b as int, end as int));
        let sc = sb.skip(run_length(sb, true));
        assert(sc =~= v@.subrange(c as int, end as int));
        assert(run_length(sc, false) == d - c);
        assert(sc.take(d - c) =~= v@.subrange(c as int, d as int));
    }
    if d == c {
        return None;
    }
    let target = slice_chars(&v, c, d);
    let q = find_char(&target, 0, '?');
    proof {
        assert(target@.skip(0) =~= target@);
    }
    if q >= target.len() {
        return None;
    }
    let query = slice_chars(&target, q + 1, target.len());
    proof {
        assert(query@ =~= target@.skip(q as int + 1));
    }
    find_query_value(&query, key)
}

/// The authorization code in a redirect request, if it carries one. The
/// request line is the first line; its second word is the request target;
/// the code is the value of the first `code` parameter in the target's
/// query. A request without a target, a target without a query and a query
/// without a `code` parameter give `None`.
pub fn extract_code_from_request(request: &str) -> (code: Option<String>)
    ensures
        match authorization_code(request@) {
            Some(c) => code matches Some(s) && s@ == c,
            None => code is None,
        },
{
    request_parameter(request, "code")
}

/// What a redirect request means for the flow: its code when it carries
/// one; else the provider's denial when it carries an `error` parameter;
/// else a redirect that cannot be read.
pub fn handle_redirect(request: &str) -> (outcome: Result<String, AuthError>)
    ensures
        match authorization_code(request@) {
            Some(c) => outcome matches Ok(code) && code@ == c,
            None => match target_parameter(request@, "error"@) {
                Some(e) => outcome matches Err(AuthError::AuthorizationDenied(reason)) && reason@
                    == e,
                None => outcome matches Err(AuthError::RedirectParse),
            },
        },
{
    match extract_code_from_request(request) {
        Some(code) => Ok(code),
        None => match request_parameter(request, "error") {
            Some(reason) => Err(AuthError::AuthorizationDenied(reason)),
            None => Err(AuthError::RedirectParse),
        },
    }
}

/// The port on which the listener waits when the redirect URI names none
/// that can be read.
pub const DEFAULT_CALLBACK_PORT: u16 = 8888;

/// The number of seconds that the listener waits for the redirect.
pub const CALLBACK_TIMEOUT_SECONDS: u64 = 300;

/// Every character is a decimal digit.
pub open spec fn all_digits(s: Seq<char>) -> bool {
    forall|i: int| 0 <= i < s.len() ==> '0' <= #[trigger] s[i] <= '9'
}

/// The number that the decimal digits of `s` denote.
pub open spec fn decimal_value(s: Seq<char>) -> nat
    decreases s.len(),
{
    if s.len() == 0 {
        0
    } else {
        decimal_value(s.drop_last()) * 10 + (s.last() as nat - '0' as nat) as nat
    }
}

/// The text in a redirect URI where the port stands: of the pieces between
/// colons the third, up to its first slash.
pub open spec fn port_text(redirect_uri: Seq<char>) -> Option<Seq<char>> {
    let pieces = split(redirect_uri, ':');
    if pieces.len() >= 3 {
        Some(pieces[2].take(index_of(pieces[2], '/')))
    } else {
        None
    }
}

/// The port that a text denotes: its value when it is made of decimal
/// digits, at least one, and is at most 65535.
pub open spec fn port_value(text: Seq<char>) -> Option<u16> {
    if text.len() >= 1 && all_digits(text) && decimal_value(text) <= 65535 {
        Some(decimal_value(text) as u16)
    } else {
        None
    }
}

/// The port of the loopback listener for a redirect URI: the port that the
/// URI names, or 8888 when it names none or none that is a port.
pub open spec fn callback_port_of(redirect_uri: Seq<char>) -> u16 {
    match port_text(redirect_uri) {
        Some(text) => match port_value(text) {
            Some(port) => port,
            None => DEFAULT_CALLBACK_PORT,
        },
        None => DEFAULT_CALLBACK_PORT,
    }
}

/// The value of a digit string grows with its length.
proof fn lemma_decimal_value_grows(s: Seq<char>, n: int)
    requires
        0 <= n <= s.len(),
        all_digits(s),
    ensures
        decimal_value(s.take(n)) <= decimal_value(s),
    decreases s.len() - n,
{
    if n < s.len() {
        let next = s.take(n + 1);
        assert(next.drop_last() =~= s.take(n));
        lemma_decimal_value_grows(s, n + 1);
    } else {
        assert(s.take(n) =~= s);
    }
}

/// The port that the characters `v[from..to]` denote.
fn parse_port(v: &Vec<char>, from: usize, to: usize) -> (port: Option<u16>)
    requires
        from <= to <= v.len(),
    ensures
        port == port_value(v@.subrange(from as int, to as int)),
{
    let ghost text = v@.subrange(from as int, to as int);
    if from == to {
        return None;
    }
    let mut value: u32 = 0;
    let mut i: usize = from;
    proof {
        assert(text.take(0) =~= Seq::<char>::empty());
    }
    while i < to
        invariant
            from <= i <= to <= v.len(),
            text == v@.subrange(from as int, to as int),
            all_digits(text.take(i - from)),
            value == decimal_value(text.take(i - from)),
            value <= 65535,
        decreases to - i,
    {
        let c = v[i];
        let ghost prefix = text.take(i - from + 1);
        let ghost before = text.take(i - from);
        proof {
            assert(prefix.drop_last() =~= before);
            assert(prefix.last() == c);
            assert(text[i - from] == c);
        }
        let digit = match digit_value(c) {
            Some(d) => d,
            None => {
                return None;
            },
        };
        let next: u32 = value * 10 + digit as u32;
        proof {
            assert forall|j: int| 0 <= j < prefix.len() implies '0' <= #[trigger] prefix[j]
                <= '9' by {
                if j < i - from {
                    assert(prefix[j] == before[j]);
                    assert('0' <= before[j] <= '9');
                } else {
                    assert(prefix[j] == c);
                }
            }
            assert(next == decimal_value(prefix));
        }
        if next > 65535 {
            proof {
                if all_digits(text) {
                    lemma_decimal_value_grows(text, i - from + 1);
                }
            }
            return None;
        }
        value = next;
        i += 1;
    }
    proof {
        assert(text.take(to - from) =~= text);
    }
    Some(value as u16)
}

/// The port on which the loopback listener waits for the redirect to
/// `redirect_uri`: the port that the URI names, which is the text behind
/// its second colon up to the next slash, or 8888 when that text is no port
/// or there is none.
pub fn callback_port(redirect_uri: &str) -> (port: u16)
    ensures
        port == callback_port_of(redirect_uri@),
{
    let v = chars_of(redirect_uri);
    let pieces = split_chars(&v, ':');
    if pieces.len() < 3 {
        proof {
            assert(pieces_view(pieces@).len() == pieces.len());
        }
        return DEFAULT_CALLBACK_PORT;
    }
    let piece = &pieces[2];
    let end = find_char(piece, 0, '/');
    proof {
        assert(pieces_view(pieces@)[2] == piece@);
        assert(piece@.skip(0) =~= piece@);
        assert(piece@.take(end as int) =~= piece@.subrange(0, end as int));
    }
    match parse_port(piece, 0, end) {
        Some(port) => port,
        None => DEFAULT_CALLBACK_PORT,
    }
}

/// The address on which the loopback listener binds: the local host and the
/// port, in decimal.
pub fn bind_address(port: u16) -> (address: String)
    ensures
        address@ == "127.0.0.1:"@ + decimal(port as nat),
{
    let digits = decimal_chars(port as u64);
    let mut address = String::from_str("127.0.0.1:");
    let text = string_of(&digits);
    address.append(text.as_str());
    address
}

/// The answer that the listener writes to the browser after it has taken
/// the code: a page that says so and closes itself.
pub open spec fn success_page() -> Seq<char> {
    "HTTP/1.1 200 OK\r\nContent-Type: text/html\r\n\r\n<html><body><h1>Authentication successful!</h1><p>You can close this window and return to the app.</p><script>window.close();</script></body></html>"@
}

/// The answer that the listener writes to the browser after it has taken
/// the code.
pub fn success_response() -> (response: String)
    ensures
        response@ == success_page(),
{
    String::from_str(
        "HTTP/1.1 200 OK\r\nContent-Type: text/html\r\n\r\n<html><body><h1>Authentication successful!</h1><p>You can close this window and return to the app.</p><script>window.close();</script></body></html>",
    )
}

} // verus!
