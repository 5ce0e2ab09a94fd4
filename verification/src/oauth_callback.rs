//! The local OAuth callback of an MCP login: which port it listens on, the
//! redirect address the provider is given, how long the login waits, how
//! the redirect it receives is read (authorization code and state, or the
//! provider's error), and what the browser is answered.
use vstd::prelude::*;

use crate::gateway_web::{after_first, before_first, split_char, split_on};
use crate::text::{concat, decimal, push_str, str_eq, strings_view, to_owned_string, u64_to_string};

verus! {

/// The text of a percent-encoded value as `urlencoding::decode` reads it;
/// `None` when the decoded bytes are not UTF-8.
pub uninterp spec fn url_decoded(text: Seq<char>) -> Option<Seq<char>>;

/// Percent-decodes a query value with `urlencoding::decode`. The crate
/// hands back the text itself when it holds no `%`; otherwise the result is
/// named, not stated.
#[verifier::external_body]
fn decode_query_value(text: &str) -> (r: Option<String>)
    ensures
        match r {
            Some(s) => url_decoded(text@) == Some(s@),
            None => url_decoded(text@) is None,
        },
        !text@.contains('%') ==> crate::text::opt_view(r) == Some(text@),
{
    urlencoding::decode(text).ok().map(|s| s.into_owned())
}

/// What the callback carried on success.
#[derive(Debug, Clone, PartialEq, Eq)]
pub struct OauthCallbackResult {
    pub code: String,
    pub state: String,
}

/// How a request to the callback server is read.
#[derive(Debug, Clone, PartialEq, Eq)]
pub enum CallbackOutcome {
    Success(OauthCallbackResult),
    Error(String),
    Invalid,
}

/// The fields the query pairs set: a later pair of a name replaces an
/// earlier one; pairs without `=` or whose value does not decode are
/// skipped.
pub open spec fn callback_fields(pairs: Seq<Seq<char>>) -> (Option<Seq<char>>, Option<Seq<char>>, Option<Seq<char>>)
    decreases pairs.len(),
{
    if pairs.len() == 0 {
        (None, None, None)
    } else {
        let prev = callback_fields(pairs.drop_last());
        let pair = pairs.last();
        match after_first(pair, '=') {
            None => prev,
            Some(value) => match url_decoded(value) {
                None => prev,
                Some(d) => {
                    let key = before_first(pair, '=');
                    if key == "code"@ {
                        (Some(d), prev.1, prev.2)
                    } else if key == "state"@ {
                        (prev.0, Some(d), prev.2)
                    } else if key == "error_description"@ {
                        (prev.0, prev.1, Some(d))
                    } else {
                        prev
                    }
                },
            },
        }
    }
}

/// The outcome of a callback request, as text.
pub enum OutcomeView {
    Success(Seq<char>, Seq<char>),
    Error(Seq<char>),
    Invalid,
}

/// The outcome of a callback request path: the route must be `/callback`
/// with a query; a code and a state give success, else an error
/// description gives an error, else the request is invalid.
pub open spec fn callback_outcome_spec(path: Seq<char>) -> OutcomeView {
    match after_first(path, '?') {
        None => OutcomeView::Invalid,
        Some(query) => if before_first(path, '?') != "/callback"@ {
            OutcomeView::Invalid
        } else {
            let f = callback_fields(split_on(query, '&'));
            match (f.0, f.1) {
                (Some(code), Some(state)) => OutcomeView::Success(code, state),
                _ => match f.2 {
                    Some(d) => OutcomeView::Error(d),
                    None => OutcomeView::Invalid,
                },
            }
        },
    }
}

/// The view of an outcome.
pub open spec fn outcome_view(o: CallbackOutcome) -> OutcomeView {
    match o {
        CallbackOutcome::Success(r) => OutcomeView::Success(r.code@, r.state@),
        CallbackOutcome::Error(d) => OutcomeView::Error(d@),
        CallbackOutcome::Invalid => OutcomeView::Invalid,
    }
}

/// Reads the request path the browser was redirected to.
pub fn parse_oauth_callback(path: &str) -> (r: CallbackOutcome)
    ensures
        outcome_view(r) == callback_outcome_spec(path@),
{
    let query = match crate::gateway_web::after_first_text(path, '?') {
        Some(q) => q,
        None => return CallbackOutcome::Invalid,
    };
    let route = crate::gateway_web::before_first_text(path, '?');
    if !str_eq(route.as_str(), "/callback") {
        return CallbackOutcome::Invalid;
    }
    let pairs = split_char(query.as_str(), '&');
    let ghost ps = strings_view(pairs@);
    let mut code: Option<String> = None;
    let mut state: Option<String> = None;
    let mut error_description: Option<String> = None;
    let mut i: usize = 0;
    proof {
        assert(ps.take(0) =~= Seq::<Seq<char>>::empty());
    }
    while i < pairs.len()
        invariant
            i <= pairs@.len(),
            ps == strings_view(pairs@),
            ({
                let f = callback_fields(ps.take(i as int));
                &&& crate::text::opt_view(code) == f.0
                &&& crate::text::opt_view(state) == f.1
                &&& crate::text::opt_view(error_description) == f.2
            }),
        decreases pairs@.len() - i,
    {
        let pair = pairs[i].as_str();
        proof {
            assert(ps.take(i + 1).drop_last() =~= ps.take(i as int));
            assert(ps.take(i + 1).last() == pair@);
            reveal_strlit("code");
            reveal_strlit("state");
            reveal_strlit("error_description");
        }
        if let Some(value) = crate::gateway_web::after_first_text(pair, '=') {
            if let Some(decoded) = decode_query_value(value.as_str()) {
                let key = crate::gateway_web::before_first_text(pair, '=');
                if str_eq(key.as_str(), "code") {
                    code = Some(decoded);
                } else if str_eq(key.as_str(), "state") {
                    state = Some(decoded);
                } else if str_eq(key.as_str(), "error_description") {
                    error_description = Some(decoded);
                }
            }
        }
        i = i + 1;
    }
    proof {
        assert(ps.take(pairs@.len() as int) =~= ps);
    }
    match (code, state) {
        (Some(code), Some(state)) => CallbackOutcome::Success(OauthCallbackResult { code, state }),
        _ => match error_description {
            Some(d) => CallbackOutcome::Error(d),
            None => CallbackOutcome::Invalid,
        },
    }
}

/// The answer the callback server sends: status and body.
pub open spec fn callback_response_spec(o: OutcomeView) -> (u16, Seq<char>) {
    match o {
        OutcomeView::Success(_, _) => (200, "Authentication complete. You may close this window."@),
        OutcomeView::Error(d) => (400, "OAuth error: "@ + d),
        OutcomeView::Invalid => (400, "Invalid OAuth callback"@),
    }
}

/// What the browser is answered for a callback request; the server stops
/// listening after a success.
pub fn callback_response(outcome: &CallbackOutcome) -> (r: (u16, String))
    ensures
        r.0 == callback_response_spec(outcome_view(*outcome)).0,
        r.1@ == callback_response_spec(outcome_view(*outcome)).1,
{
    match outcome {
        CallbackOutcome::Success(_) => (200, to_owned_string("Authentication complete. You may close this window.")),
        CallbackOutcome::Error(d) => (400, concat("OAuth error: ", d.as_str())),
        CallbackOutcome::Invalid => (400, to_owned_string("Invalid OAuth callback")),
    }
}

/// Checks a configured callback port: port 0 is refused.
pub fn resolve_callback_port(callback_port: Option<u16>) -> (r: Result<Option<u16>, String>)
    ensures
        match callback_port {
            Some(0) => r matches Err(e) && e@ == "invalid callback port `0`: port must be between 1 and 65535"@,
            _ => r == Ok::<Option<u16>, String>(callback_port),
        },
{
    match callback_port {
        Some(0) => Err(to_owned_string("invalid callback port `0`: port must be between 1 and 65535")),
        _ => Ok(callback_port),
    }
}

/// How long a login waits for the provider's redirect when none is set.
pub const DEFAULT_OAUTH_TIMEOUT_SECS: i64 = 300;

/// The address the callback server binds: the loopback address, on the
/// port asked for or on any free one.
pub fn callback_bind_addr(port: Option<u16>) -> (r: String)
    ensures
        r@ == match port {
            Some(p) => "127.0.0.1:"@ + decimal(p as nat),
            None => "127.0.0.1:0"@,
        },
{
    match port {
        Some(p) => {
            let mut r = to_owned_string("127.0.0.1:");
            let n = u64_to_string(p as u64);
            push_str(&mut r, n.as_str());
            r
        },
        None => to_owned_string("127.0.0.1:0"),
    }
}

/// The address the provider redirects to: the callback path on the address
/// the server listens on, an IPv6 address in brackets.
pub fn callback_redirect_uri(ip: &str, ipv6: bool, port: u16) -> (r: String)
    ensures
        r@ == "http://"@ + (if ipv6 {
            "["@ + ip@ + "]"@
        } else {
            ip@
        }) + ":"@ + decimal(port as nat) + "/callback"@,
{
    let mut r = to_owned_string("http://");
    if ipv6 {
        push_str(&mut r, "[");
        push_str(&mut r, ip);
        push_str(&mut r, "]");
    } else {
        push_str(&mut r, ip);
    }
    push_str(&mut r, ":");
    let n = u64_to_string(port as u64);
    push_str(&mut r, n.as_str());
    push_str(&mut r, "/callback");
    r
}

/// How many seconds a login waits for the redirect: the number asked for,
/// at least one, or the default.
pub fn login_timeout_secs(timeout_secs: Option<i64>) -> (n: i64)
    ensures
        n == match timeout_secs {
            Some(t) => if t < 1 {
                1
            } else {
                t
            },
            None => DEFAULT_OAUTH_TIMEOUT_SECS,
        },
        n >= 1,
{
    match timeout_secs {
        Some(t) => if t < 1 {
            1
        } else {
            t
        },
        None => DEFAULT_OAUTH_TIMEOUT_SECS,
    }
}

} // verus!
