//! The web gateway's request rules: who may connect (token from a bearer
//! header, a custom header, a query parameter or a cookie), how the token
//! cookie is encoded, which host and scheme a request was addressed to, the
//! page that loads the development server, and how the gateway's bind
//! address, broker and token settings are read. Headers arrive as the text
//! of their values; sockets, files and the environment stay with the caller.
use vstd::prelude::*;

use crate::text::{
    ascii_lower_seq, clone_string, push_char, push_str, split_words,
    str_eq, strings_view, to_ascii_lowercase, to_chars, to_owned_string, trim_string, trimmed,
    u64_to_string, decimal, words_of, from_chars_range,
};

verus! {

/// Position of the first `c` in `s`, if any.
pub open spec fn first_pos(s: Seq<char>, c: char) -> Option<int>
    decreases s.len(),
{
    if s.len() == 0 {
        None
    } else {
        match first_pos(s.drop_last(), c) {
            Some(i) => Some(i),
            None => if s.last() == c {
                Some(s.len() - 1)
            } else {
                None
            },
        }
    }
}

/// The part of `s` before its first `c` (all of `s` when there is none).
pub open spec fn before_first(s: Seq<char>, c: char) -> Seq<char> {
    match first_pos(s, c) {
        Some(i) => s.take(i),
        None => s,
    }
}

/// The part of `s` after its first `c`, if there is one.
pub open spec fn after_first(s: Seq<char>, c: char) -> Option<Seq<char>> {
    match first_pos(s, c) {
        Some(i) => Some(s.skip(i + 1)),
        None => None,
    }
}

proof fn lemma_first_pos(s: Seq<char>, c: char)
    ensures
        match first_pos(s, c) {
            Some(i) => 0 <= i < s.len() && s[i] == c && forall|j: int| 0 <= j < i ==> s[j] != c,
            None => forall|j: int| 0 <= j < s.len() ==> s[j] != c,
        },
    decreases s.len(),
{
    if s.len() > 0 {
        let p = s.drop_last();
        lemma_first_pos(p, c);
        assert forall|j: int| 0 <= j < p.len() implies p[j] == s[j] by {}
    }
}

/// Position of the first `c` in `v`, as `first_pos`.
fn find_char(v: &Vec<char>, c: char) -> (r: Option<usize>)
    ensures
        match r {
            Some(i) => first_pos(v@, c) == Some(i as int),
            None => first_pos(v@, c) is None,
        },
{
    proof {
        lemma_first_pos(v@, c);
    }
    let mut i: usize = 0;
    while i < v.len()
        invariant
            i <= v@.len(),
            forall|j: int| 0 <= j < i ==> v@[j] != c,
        decreases v@.len() - i,
    {
        if v[i] == c {
            proof {
                lemma_first_pos(v@, c);
                match first_pos(v@, c) {
                    Some(k) => {
                        if k < i {
                            assert(v@[k] != c);
                        } else if k > i {
                            assert(v@[i as int] != c);
                        }
                    },
                    None => {
                        assert(v@[i as int] != c);
                    },
                }
            }
            return Some(i);
        }
        i = i + 1;
    }
    proof {
        lemma_first_pos(v@, c);
        if let Some(k) = first_pos(v@, c) {
            assert(v@[k] != c);
        }
    }
    None
}

/// The part of `s` before its first `c`.
pub fn before_first_text(s: &str, c: char) -> (r: String)
    ensures
        r@ == before_first(s@, c),
{
    let v = to_chars(s);
    proof {
        lemma_first_pos(v@, c);
    }
    match find_char(&v, c) {
        Some(i) => {
            proof {
                assert(v@.subrange(0, i as int) =~= v@.take(i as int));
            }
            from_chars_range(&v, 0, i)
        },
        None => {
            proof {
                assert(v@.subrange(0, v@.len() as int) =~= v@);
            }
            from_chars_range(&v, 0, v.len())
        },
    }
}

/// The part of `s` after its first `c`.
pub fn after_first_text(s: &str, c: char) -> (r: Option<String>)
    ensures
        match r {
            Some(t) => after_first(s@, c) == Some(t@),
            None => after_first(s@, c) is None,
        },
{
    let v = to_chars(s);
    match find_char(&v, c) {
        Some(i) => {
            proof {
                lemma_first_pos(v@, c);
                assert(i < v@.len());
                assert(v@.subrange(i + 1, v@.len() as int) =~= v@.skip(i + 1));
            }
            Some(from_chars_range(&v, i + 1, v.len()))
        },
        None => None,
    }
}

/// The pieces of `s` between the characters `c`, as `str::split` gives
/// them: one more piece than there are `c`, empty pieces included.
pub open spec fn split_on(s: Seq<char>, c: char) -> Seq<Seq<char>>
    decreases s.len(),
{
    if s.len() == 0 {
        seq![Seq::<char>::empty()]
    } else {
        let p = split_on(s.drop_last(), c);
        if s.last() == c {
            p.push(Seq::<char>::empty())
        } else {
            p.update(p.len() - 1, p.last().push(s.last()))
        }
    }
}

pub proof fn lemma_split_on_len(s: Seq<char>, c: char)
    ensures
        split_on(s, c).len() >= 1,
    decreases s.len(),
{
    if s.len() > 0 {
        lemma_split_on_len(s.drop_last(), c);
    }
}

/// The pieces of `s` between the characters `c`.
pub fn split_char(s: &str, c: char) -> (r: Vec<String>)
    ensures
        strings_view(r@) == split_on(s@, c),
{
    let v = to_chars(s);
    let mut pieces: Vec<String> = Vec::new();
    pieces.push(String::new());
    let mut i: usize = 0;
    proof {
        assert(v@.take(0) =~= Seq::<char>::empty());
        assert(strings_view(pieces@) =~= seq![Seq::<char>::empty()]);
    }
    while i < v.len()
        invariant
            i <= v@.len(),
            v@ == s@,
            strings_view(pieces@) == split_on(v@.take(i as int), c),
            pieces@.len() >= 1,
        decreases v@.len() - i,
    {
        let ch = v[i];
        let ghost p0 = strings_view(pieces@);
        proof {
            assert(v@.take(i + 1).drop_last() =~= v@.take(i as int));
            lemma_split_on_len(v@.take(i as int), c);
        }
        if ch == c {
            pieces.push(String::new());
            proof {
                assert(strings_view(pieces@) =~= p0.push(Seq::<char>::empty()));
            }
        } else {
            let k = pieces.len() - 1;
            let mut last = pieces.pop().unwrap();
            push_char(&mut last, ch);
            pieces.push(last);
            proof {
                assert(strings_view(pieces@) =~= p0.update(k as int, p0.last().push(ch)));
            }
        }
        i = i + 1;
    }
    proof {
        assert(v@.take(v@.len() as int) =~= v@);
    }
    pieces
}

/// The token of an `Authorization` header: its second word, when its first
/// word is `bearer` in any case.
pub open spec fn bearer_token_spec(header: Option<Seq<char>>) -> Option<Seq<char>> {
    match header {
        Some(h) => {
            let w = words_of(h);
            if w.len() >= 2 && ascii_lower_seq(w[0]) == "bearer"@ {
                Some(w[1])
            } else {
                None
            }
        },
        None => None,
    }
}

/// The bearer token of an `Authorization` header value.
pub fn extract_bearer_token(authorization: Option<&str>) -> (r: Option<String>)
    ensures
        match r {
            Some(t) => bearer_token_spec(opt_str_view(authorization)) == Some(t@),
            None => bearer_token_spec(opt_str_view(authorization)) is None,
        },
{
    let header = match authorization {
        Some(h) => h,
        None => return None,
    };
    let words = split_words(header);
    if words.len() < 2 {
        return None;
    }
    let scheme = to_ascii_lowercase(words[0].as_str());
    proof {
        assert(strings_view(words@)[0] == words@[0]@);
        assert(strings_view(words@)[1] == words@[1]@);
    }
    if str_eq(scheme.as_str(), "bearer") {
        Some(clone_string(&words[1]))
    } else {
        None
    }
}

/// Name of a cookie piece: the trimmed text before its first `=`.
pub open spec fn cookie_name(piece: Seq<char>) -> Seq<char> {
    trimmed(before_first(trimmed(piece), '='))
}

/// Value of a cookie piece: the trimmed text after its first `=`, empty
/// when it has none.
pub open spec fn cookie_value(piece: Seq<char>) -> Seq<char> {
    match after_first(trimmed(piece), '=') {
        Some(v) => trimmed(v),
        None => Seq::empty(),
    }
}

/// Value of the first piece named `key`.
pub open spec fn find_cookie(pieces: Seq<Seq<char>>, key: Seq<char>) -> Option<Seq<char>>
    decreases pieces.len(),
{
    if pieces.len() == 0 {
        None
    } else if cookie_name(pieces[0]) == key {
        Some(cookie_value(pieces[0]))
    } else {
        find_cookie(pieces.drop_first(), key)
    }
}

/// Value of the cookie `key` in a `Cookie` header: the header is split at
/// `;`, and the first piece with that name wins.
pub open spec fn cookie_token_spec(header: Option<Seq<char>>, key: Seq<char>) -> Option<Seq<char>> {
    match header {
        Some(h) => find_cookie(split_on(h, ';'), key),
        None => None,
    }
}

/// The value of cookie `key` in a `Cookie` header value.
pub fn extract_cookie_token(cookie_header: Option<&str>, key: &str) -> (r: Option<String>)
    ensures
        match r {
            Some(t) => cookie_token_spec(opt_str_view(cookie_header), key@) == Some(t@),
            None => cookie_token_spec(opt_str_view(cookie_header), key@) is None,
        },
{
    let header = match cookie_header {
        Some(h) => h,
        None => return None,
    };
    let pieces = split_char(header, ';');
    let ghost ps = strings_view(pieces@);
    let mut i: usize = 0;
    proof {
        assert(ps.skip(0) =~= ps);
    }
    while i < pieces.len()
        invariant
            i <= pieces@.len(),
            ps == strings_view(pieces@),
            ps == split_on(header@, ';'),
            opt_str_view(cookie_header) == Some(header@),
            find_cookie(ps, key@) == find_cookie(ps.skip(i as int), key@),
        decreases pieces@.len() - i,
    {
        let chunk = trim_string(pieces[i].as_str());
        let name_part = before_first_text(chunk.as_str(), '=');
        let name = trim_string(name_part.as_str());
        proof {
            assert(ps.skip(i as int)[0] == pieces@[i as int]@);
            assert(ps.skip(i as int).drop_first() =~= ps.skip(i + 1));
        }
        if str_eq(name.as_str(), key) {
            let value = match after_first_text(chunk.as_str(), '=') {
                Some(v) => trim_string(v.as_str()),
                None => String::new(),
            };
            proof {
                assert(cookie_name(ps.skip(i as int)[0]) == key@);
                assert(value@ == cookie_value(ps.skip(i as int)[0]));
                assert(ps.skip(i as int).len() > 0);
                assert(find_cookie(ps.skip(i as int), key@) == Some(value@));
                assert(split_on(header@, ';') == ps);
                assert(opt_str_view(cookie_header) == Some(header@));
            }
            return Some(value);
        }
        i = i + 1;
    }
    proof {
        assert(ps.skip(i as int) =~= Seq::<Seq<char>>::empty());
    }
    None
}

/// A request without a valid token.
#[derive(Debug, Clone, Copy, PartialEq, Eq, Structural)]
pub enum GatewayAuthError {
    Unauthorized,
}

impl GatewayAuthError {
    /// The HTTP status the gateway answers with.
    pub fn status(&self) -> (s: u16)
        ensures
            s == 401,
    {
        401
    }

    /// The error message of the answer.
    pub fn message(&self) -> (s: &'static str)
        ensures
            s@ == "unauthorized"@,
    {
        proof {
            reveal_strlit("unauthorized");
        }
        "unauthorized"
    }
}

/// Whether a request may pass: no token (or an empty one) is configured, or
/// the token arrives as a bearer header (else the `x-code-token` header),
/// as the `token` query parameter, or as the token cookie.
pub open spec fn authorized_spec(
    expected: Option<Seq<char>>,
    authorization: Option<Seq<char>>,
    x_code_token: Option<Seq<char>>,
    cookie_header: Option<Seq<char>>,
    query_token: Option<Seq<char>>,
) -> bool {
    match expected {
        None => true,
        Some(e) => {
            let header_token = match bearer_token_spec(authorization) {
                Some(t) => Some(t),
                None => x_code_token,
            };
            ||| e.len() == 0
            ||| header_token == Some(e)
            ||| query_token == Some(e)
            ||| cookie_token_spec(cookie_header, "codeGatewayToken"@) == Some(e)
        },
    }
}

/// The text of an optional string slice.
pub open spec fn opt_str_view(s: Option<&str>) -> Option<Seq<char>> {
    match s {
        Some(t) => Some(t@),
        None => None,
    }
}

fn opt_eq(a: &Option<String>, b: &str) -> (r: bool)
    ensures
        r == (a matches Some(t) && t@ == b@),
{
    match a {
        Some(t) => str_eq(t.as_str(), b),
        None => false,
    }
}

/// Checks a request's token against the gateway's.
pub fn enforce_auth(
    expected: Option<&str>,
    authorization: Option<&str>,
    x_code_token: Option<&str>,
    cookie_header: Option<&str>,
    query_token: Option<&str>,
) -> (r: Result<(), GatewayAuthError>)
    ensures
        r is Ok == authorized_spec(
            opt_str_view(expected),
            opt_str_view(authorization),
            opt_str_view(x_code_token),
            opt_str_view(cookie_header),
            opt_str_view(query_token),
        ),
{
    let e = match expected {
        Some(e) => e,
        None => return Ok(()),
    };
    if e.is_empty() {
        return Ok(());
    }
    let header_token = match extract_bearer_token(authorization) {
        Some(t) => Some(t),
        None => match x_code_token {
            Some(x) => Some(to_owned_string(x)),
            None => None,
        },
    };
    let cookie_token = extract_cookie_token(cookie_header, "codeGatewayToken");
    let query_ok = match query_token {
        Some(q) => str_eq(q, e),
        None => false,
    };
    proof {
        reveal_strlit("codeGatewayToken");
    }
    if opt_eq(&header_token, e) || query_ok || opt_eq(&cookie_token, e) {
        Ok(())
    } else {
        Err(GatewayAuthError::Unauthorized)
    }
}

/// A byte that the cookie encoding keeps as it is: an ASCII letter or
/// digit, or one of `-`, `_`, `.`, `~`.
pub open spec fn cookie_safe(b: u8) -> bool {
    ||| (48 <= b && b <= 57)
    ||| (65 <= b && b <= 90)
    ||| (97 <= b && b <= 122)
    ||| b == 45 || b == 95 || b == 46 || b == 126
}

/// Upper-case hexadecimal digit of `n`, for `n < 16`.
pub open spec fn hex_digit(n: nat) -> char {
    if n < 10 {
        (48 + n) as char
    } else {
        (55 + n) as char
    }
}

/// Percent encoding of bytes: safe bytes as themselves, others as `%`
/// and two upper-case hexadecimal digits.
pub open spec fn cookie_encoding(b: Seq<u8>) -> Seq<char>
    decreases b.len(),
{
    if b.len() == 0 {
        Seq::empty()
    } else {
        let prev = cookie_encoding(b.drop_last());
        let x = b.last();
        if cookie_safe(x) {
            prev.push(x as char)
        } else {
            prev + seq!['%', hex_digit((x / 16) as nat), hex_digit((x % 16) as nat)]
        }
    }
}

/// Upper-case hexadecimal digit of the low four bits of `nibble`.
pub fn hex_char(nibble: u8) -> (c: char)
    ensures
        c == hex_digit((nibble % 16) as nat),
{
    let n = nibble & 0x0f;
    proof {
        assert(nibble & 0x0f == nibble % 16) by (bit_vector);
    }
    if n < 10 {
        (48u8 + n) as char
    } else {
        (55u8 + n) as char
    }
}

/// Percent-encodes the UTF-8 bytes of a cookie value.
pub fn encode_cookie_value(value: &str) -> (r: String)
    ensures
        r@ == cookie_encoding(vstd::utf8::encode_utf8(value@)),
{
    let bytes = value.as_bytes();
    let mut out = String::new();
    let mut i: usize = 0;
    proof {
        vstd::slice::axiom_spec_len(bytes);
    }
    while i < bytes.len()
        invariant
            i <= bytes@.len(),
            bytes@ == vstd::utf8::encode_utf8(value@),
            out@ == cookie_encoding(bytes@.take(i as int)),
        decreases bytes@.len() - i,
    {
        let b = bytes[i];
        proof {
            assert(bytes@.take(i + 1).drop_last() =~= bytes@.take(i as int));
            assert(bytes@.take(i + 1).last() == b);
        }
        let safe = (48 <= b && b <= 57) || (65 <= b && b <= 90) || (97 <= b && b <= 122) || b == 45
            || b == 95 || b == 46 || b == 126;
        if safe {
            push_char(&mut out, b as char);
        } else {
            let hi = b >> 4;
            proof {
                assert(b >> 4 == b / 16) by (bit_vector);
                assert(hi % 16 == hi);
            }
            push_char(&mut out, '%');
            push_char(&mut out, hex_char(hi));
            push_char(&mut out, hex_char(b));
            proof {
                assert(out@ =~= cookie_encoding(bytes@.take(i as int)) + seq!['%', hex_digit((b / 16) as nat), hex_digit((b % 16) as nat)]);
            }
        }
        i = i + 1;
    }
    proof {
        assert(bytes@.take(bytes@.len() as int) =~= bytes@);
    }
    out
}

/// The `Set-Cookie` value that hands a token to the browser.
pub open spec fn token_cookie_spec(token: Seq<u8>) -> Seq<char> {
    "codeGatewayToken="@ + cookie_encoding(token) + "; Path=/; SameSite=Lax"@
}

/// The `Set-Cookie` value that stores the gateway token in the browser.
pub fn token_cookie(token: &str) -> (r: String)
    ensures
        r@ == token_cookie_spec(vstd::utf8::encode_utf8(token@)),
{
    let mut out = to_owned_string("codeGatewayToken=");
    let encoded = encode_cookie_value(token);
    push_str(&mut out, encoded.as_str());
    push_str(&mut out, "; Path=/; SameSite=Lax");
    out
}

/// Occurrences of `c` in `s`.
pub open spec fn char_count(s: Seq<char>, c: char) -> nat
    decreases s.len(),
{
    if s.len() == 0 {
        0
    } else {
        char_count(s.drop_last(), c) + if s.last() == c {
            1nat
        } else {
            0nat
        }
    }
}

/// The host part of a `host[:port]` text: a bracketed IPv6 address up to
/// its `]`, the text before the colon when there is exactly one, else the
/// text itself.
pub open spec fn normalized_host(raw: Seq<char>) -> Seq<char> {
    if raw.len() > 0 && raw[0] == '[' && first_pos(raw, ']') is Some {
        raw.take(first_pos(raw, ']').unwrap() + 1)
    } else if char_count(raw, ':') == 1 {
        before_first(raw, ':')
    } else {
        raw
    }
}

/// Strips the port from a host header value.
pub fn normalize_host(raw_host: &str) -> (r: String)
    ensures
        r@ == normalized_host(raw_host@),
{
    let v = to_chars(raw_host);
    proof {
        lemma_first_pos(v@, ']');
    }
    if v.len() > 0 && v[0] == '[' {
        if let Some(end) = find_char(&v, ']') {
            proof {
                assert(v@.subrange(0, end + 1) =~= v@.take(end + 1));
            }
            return from_chars_range(&v, 0, end + 1);
        }
    }
    let mut colons: usize = 0;
    let mut i: usize = 0;
    while i < v.len()
        invariant
            i <= v@.len(),
            colons == char_count(v@.take(i as int), ':'),
            colons <= i,
        decreases v@.len() - i,
    {
        proof {
            assert(v@.take(i + 1).drop_last() =~= v@.take(i as int));
        }
        if v[i] == ':' {
            colons = colons + 1;
        }
        i = i + 1;
    }
    proof {
        assert(v@.take(v@.len() as int) =~= v@);
    }
    if colons == 1 {
        before_first_text(raw_host, ':')
    } else {
        to_owned_string(raw_host)
    }
}

/// The first comma-separated entry of a forwarding header, trimmed, if it
/// is not empty.
pub open spec fn first_forwarded(v: Option<Seq<char>>) -> Option<Seq<char>> {
    match v {
        Some(t) => {
            let e = trimmed(before_first(t, ','));
            if e.len() > 0 {
                Some(e)
            } else {
                None
            }
        },
        None => None,
    }
}

/// The host a request was addressed to: the first `x-forwarded-host` entry,
/// else the `host` header, without its port; `fallback` when neither is
/// there.
pub open spec fn request_host_spec(forwarded_host: Option<Seq<char>>, host: Option<Seq<char>>, fallback: Seq<char>) -> Seq<char> {
    let h = match first_forwarded(forwarded_host) {
        Some(f) => Some(f),
        None => match host {
            Some(t) => if trimmed(t).len() > 0 {
                Some(trimmed(t))
            } else {
                None
            },
            None => None,
        },
    };
    match h {
        Some(raw) => normalized_host(raw),
        None => fallback,
    }
}

fn first_forwarded_exec(v: Option<&str>) -> (r: Option<String>)
    ensures
        match r {
            Some(t) => first_forwarded(opt_str_view(v)) == Some(t@),
            None => first_forwarded(opt_str_view(v)) is None,
        },
{
    match v {
        Some(t) => {
            let b = before_first_text(t, ',');
            let e = trim_string(b.as_str());
            if e.as_str().is_empty() {
                None
            } else {
                Some(e)
            }
        },
        None => None,
    }
}

/// The host a request was addressed to.
pub fn request_host(forwarded_host: Option<&str>, host: Option<&str>, fallback: &str) -> (r: String)
    ensures
        r@ == request_host_spec(opt_str_view(forwarded_host), opt_str_view(host), fallback@),
{
    let h = match first_forwarded_exec(forwarded_host) {
        Some(f) => Some(f),
        None => match host {
            Some(t) => {
                let tt = trim_string(t);
                if tt.as_str().is_empty() {
                    None
                } else {
                    Some(tt)
                }
            },
            None => None,
        },
    };
    match h {
        Some(raw) => normalize_host(raw.as_str()),
        None => to_owned_string(fallback),
    }
}

/// The scheme a request came in with: `https` when the first
/// `x-forwarded-proto` entry says so, else `http`.
pub open spec fn request_scheme_spec(forwarded_proto: Option<Seq<char>>) -> Seq<char> {
    if first_forwarded(forwarded_proto) == Some("https"@) {
        "https"@
    } else {
        "http"@
    }
}

/// The scheme a request came in with.
pub fn request_scheme(forwarded_proto: Option<&str>) -> (r: &'static str)
    ensures
        r@ == request_scheme_spec(opt_str_view(forwarded_proto)),
{
    match first_forwarded_exec(forwarded_proto) {
        Some(p) => if str_eq(p.as_str(), "https") {
            "https"
        } else {
            "http"
        },
        None => "http",
    }
}

/// `s` without trailing `c`s.
pub open spec fn trim_trailing(s: Seq<char>, c: char) -> Seq<char>
    decreases s.len(),
{
    if s.len() > 0 && s.last() == c {
        trim_trailing(s.drop_last(), c)
    } else {
        s
    }
}

/// The page that loads the web UI from the development server at `origin`.
pub open spec fn dev_index_spec(origin: Seq<char>) -> Seq<char> {
    let o = trim_trailing(origin, '/');
    "<!doctype html>\n<html lang=\"en\">\n  <head>\n    <meta charset=\"UTF-8\" />\n    <meta name=\"viewport\" content=\"width=device-width, initial-scale=1\" />\n    <title>Every Code</title>\n    <script>\n      (function () {\n        var saved = localStorage.getItem(\"codeTheme\");\n        document.documentElement.dataset.theme = saved || \"dark\";\n      })();\n    </script>\n    <script type=\"module\" src=\""@
        + o + "/assets/@vite/client\"></script>\n  </head>\n  <body>\n    <div id=\"root\"></div>\n    <script type=\"module\" src=\""@
        + o + "/assets/src/main.ts\"></script>\n  </body>\n</html>\n"@
}

/// The HTML page that loads the web UI from the development server.
pub fn dev_index_html(origin: &str) -> (r: String)
    ensures
        r@ == dev_index_spec(origin@),
{
    let v = to_chars(origin);
    let mut end = v.len();
    proof {
        assert(v@.subrange(0, end as int) =~= v@);
    }
    while end > 0 && v[end - 1] == '/'
        invariant
            end <= v@.len(),
            trim_trailing(v@, '/') == trim_trailing(v@.subrange(0, end as int), '/'),
        decreases end,
    {
        proof {
            assert(v@.subrange(0, end as int).drop_last() =~= v@.subrange(0, end - 1));
        }
        end = end - 1;
    }
    let o = from_chars_range(&v, 0, end);
    let mut out = to_owned_string("<!doctype html>\n<html lang=\"en\">\n  <head>\n    <meta charset=\"UTF-8\" />\n    <meta name=\"viewport\" content=\"width=device-width, initial-scale=1\" />\n    <title>Every Code</title>\n    <script>\n      (function () {\n        var saved = localStorage.getItem(\"codeTheme\");\n        document.documentElement.dataset.theme = saved || \"dark\";\n      })();\n    </script>\n    <script type=\"module\" src=\"");
    push_str(&mut out, o.as_str());
    push_str(&mut out, "/assets/@vite/client\"></script>\n  </head>\n  <body>\n    <div id=\"root\"></div>\n    <script type=\"module\" src=\"");
    push_str(&mut out, o.as_str());
    push_str(&mut out, "/assets/src/main.ts\"></script>\n  </body>\n</html>\n");
    proof {
        assert(o@ == trim_trailing(origin@, '/'));
    }
    out
}

/// The web UI development server the gateway starts and proxies to.
#[derive(Debug, Clone)]
pub struct WebUiDevServer {
    pub bind_host: String,
    pub port: u16,
    pub restart_on_start: bool,
}

impl WebUiDevServer {
    /// A development server description.
    pub fn new(bind_host: String, port: u16, restart_on_start: bool) -> (d: Self)
        ensures
            d.bind_host == bind_host,
            d.port == port,
            d.restart_on_start == restart_on_start,
    {
        WebUiDevServer { bind_host, port, restart_on_start }
    }

    /// The origin a browser reaches the development server at, through
    /// `host` with `scheme`.
    pub fn origin_for(&self, host: &str, scheme: &str) -> (r: String)
        ensures
            r@ == scheme@ + "://"@ + host@ + ":"@ + decimal(self.port as nat),
    {
        let mut out = to_owned_string(scheme);
        push_str(&mut out, "://");
        push_str(&mut out, host);
        push_str(&mut out, ":");
        let p = u64_to_string(self.port as u64);
        push_str(&mut out, p.as_str());
        out
    }
}

/// Which port the development server the gateway runs itself listens on,
/// if it runs one. With a restart requested the running server is stopped
/// first; if one still runs, the free port after it is used, and with none
/// free the running server is reused. Without a restart a running server
/// is reused, and otherwise the configured port is used.
pub open spec fn managed_dev_port(restart: bool, stopped: bool, running: bool, port: u16, free_after: Option<u16>) -> Option<u16> {
    if restart {
        if !stopped && running {
            free_after
        } else {
            Some(port)
        }
    } else if running {
        None
    } else {
        Some(port)
    }
}

/// The development server the gateway runs itself, if any, given whether
/// stopping a running one succeeded, whether one runs, and the first free
/// port after the configured one. `stopped` is read only on a restart,
/// `running` only when nothing was stopped, and `free_after` only when a
/// restart left a server running.
pub fn managed_dev_server(dev: &WebUiDevServer, stopped: bool, running: bool, free_after: Option<u16>) -> (r: Option<WebUiDevServer>)
    ensures
        match managed_dev_port(dev.restart_on_start, stopped, running, dev.port, free_after) {
            Some(p) => r matches Some(d) && d.port == p && d.bind_host@ == dev.bind_host@
                && d.restart_on_start == dev.restart_on_start,
            None => r is None,
        },
{
    let port = if dev.restart_on_start {
        if !stopped && running {
            free_after
        } else {
            Some(dev.port)
        }
    } else if running {
        None
    } else {
        Some(dev.port)
    };
    match port {
        Some(p) => Some(WebUiDevServer::new(clone_string(&dev.bind_host), p, dev.restart_on_start)),
        None => None,
    }
}

/// The development server moved to the first free port from its own, when
/// one was found; it stays where it is otherwise.
pub fn settle_dev_port(candidate: WebUiDevServer, free: Option<u16>) -> (r: WebUiDevServer)
    ensures
        r.port == match free {
            Some(p) => p,
            None => candidate.port,
        },
        r.bind_host@ == candidate.bind_host@,
        r.restart_on_start == candidate.restart_on_start,
{
    match free {
        Some(p) => if p != candidate.port {
            WebUiDevServer::new(candidate.bind_host, p, candidate.restart_on_start)
        } else {
            candidate
        },
        None => candidate,
    }
}

/// The address the gateway announces: `http://host:port/`.
pub open spec fn gateway_url_spec(host: Seq<char>, port: u16) -> Seq<char> {
    "http://"@ + host + ":"@ + decimal(port as nat) + "/"@
}

/// The URLs the gateway announces: its address, and, when it has a token,
/// the address that hands the token to the browser in its fragment.
pub fn gateway_urls(advertised_host: &str, port: u16, token: &str) -> (r: (String, Option<String>))
    ensures
        r.0@ == gateway_url_spec(advertised_host@, port),
        match r.1 {
            Some(b) => token@.len() > 0 && b@ == gateway_url_spec(advertised_host@, port) + "#token="@
                + cookie_encoding(vstd::utf8::encode_utf8(token@)),
            None => token@.len() == 0,
        },
{
    let mut url = to_owned_string("http://");
    push_str(&mut url, advertised_host);
    push_str(&mut url, ":");
    let p = u64_to_string(port as u64);
    push_str(&mut url, p.as_str());
    push_str(&mut url, "/");
    if token.is_empty() {
        (url, None)
    } else {
        let mut bootstrap = clone_string(&url);
        push_str(&mut bootstrap, "#token=");
        let encoded = encode_cookie_value(token);
        push_str(&mut bootstrap, encoded.as_str());
        (url, Some(bootstrap))
    }
}

/// The arguments `npm` is run with to start the development server: the
/// `dev` script, with CORS on, the host and port of the server, and no
/// other port should that one be taken.
pub fn dev_server_args(dev: &WebUiDevServer) -> (r: Vec<String>)
    ensures
        strings_view(r@) == seq!["run"@, "dev"@, "--"@, "--cors"@, "--host"@, dev.bind_host@, "--port"@,
            decimal(dev.port as nat), "--strictPort"@],
{
    let mut r: Vec<String> = Vec::new();
    r.push(to_owned_string("run"));
    r.push(to_owned_string("dev"));
    r.push(to_owned_string("--"));
    r.push(to_owned_string("--cors"));
    r.push(to_owned_string("--host"));
    r.push(clone_string(&dev.bind_host));
    r.push(to_owned_string("--port"));
    r.push(u64_to_string(dev.port as u64));
    r.push(to_owned_string("--strictPort"));
    proof {
        assert(strings_view(r@) =~= seq!["run"@, "dev"@, "--"@, "--cors"@, "--host"@, dev.bind_host@, "--port"@,
            decimal(dev.port as nat), "--strictPort"@]);
    }
    r
}

/// Where `npm` is looked for, in order, before falling back to the name
/// `npm` on the search path: the path `CODE_WEBUI_NPM` names, then the
/// Homebrew install.
pub fn npm_candidates(configured: Option<&str>) -> (r: Vec<String>)
    ensures
        strings_view(r@) == match configured {
            Some(c) => seq![c@, "/opt/homebrew/bin/npm"@],
            None => seq!["/opt/homebrew/bin/npm"@],
        },
{
    let mut r: Vec<String> = Vec::new();
    match configured {
        Some(c) => r.push(to_owned_string(c)),
        None => {},
    }
    r.push(to_owned_string("/opt/homebrew/bin/npm"));
    proof {
        match configured {
            Some(c) => assert(strings_view(r@) =~= seq![c@, "/opt/homebrew/bin/npm"@]),
            None => assert(strings_view(r@) =~= seq!["/opt/homebrew/bin/npm"@]),
        }
    }
    r
}

/// Where the gateway finds the app server broker.
#[derive(Debug, Clone, PartialEq, Eq)]
pub enum BrokerSetting {
    /// No broker: the gateway runs conversations itself.
    Disabled,
    /// The app server's default listening socket.
    Auto,
    /// A socket at this path.
    Path(String),
}

/// The broker setting that a raw value names.
pub open spec fn broker_setting_spec(raw: Option<Seq<char>>) -> Option<Option<Seq<char>>> {
    match raw {
        None => None,
        Some(r) => {
            let t = trimmed(r);
            if t.len() == 0 || t == "0"@ || ascii_lower_seq(t) == "off"@ {
                None
            } else if ascii_lower_seq(t) == "auto"@ {
                Some(None)
            } else {
                Some(Some(t))
            }
        },
    }
}

/// Reads the broker setting: the override, else the configured value;
/// empty, `0` and `off` (in any case) turn the broker off, `auto` asks for
/// the default socket, and anything else is a socket path.
pub fn broker_setting(override_value: Option<&str>, configured: Option<&str>) -> (b: BrokerSetting)
    ensures
        ({
            let raw = match opt_str_view(override_value) {
                Some(o) => Some(o),
                None => opt_str_view(configured),
            };
            match broker_setting_spec(raw) {
                None => b == BrokerSetting::Disabled,
                Some(None) => b == BrokerSetting::Auto,
                Some(Some(p)) => b matches BrokerSetting::Path(q) && q@ == p,
            }
        }),
{
    let raw = match override_value {
        Some(o) => o,
        None => match configured {
            Some(c) => c,
            None => return BrokerSetting::Disabled,
        },
    };
    let t = trim_string(raw);
    let lower = to_ascii_lowercase(t.as_str());
    if t.as_str().is_empty() || str_eq(t.as_str(), "0") || str_eq(lower.as_str(), "off") {
        return BrokerSetting::Disabled;
    }
    if str_eq(lower.as_str(), "auto") {
        return BrokerSetting::Auto;
    }
    BrokerSetting::Path(t)
}

/// The bind address text: the command line's, else the configured one,
/// trimmed; the default when there is none or it is empty or `off`.
pub open spec fn bind_text_spec(cli_bind: Option<Seq<char>>, configured: Option<Seq<char>>) -> Seq<char> {
    let raw = match cli_bind {
        Some(c) => c,
        None => match configured {
            Some(c) => c,
            None => "127.0.0.1:3210"@,
        },
    };
    let t = trimmed(raw);
    if t.len() == 0 || ascii_lower_seq(t) == "off"@ {
        "127.0.0.1:3210"@
    } else {
        t
    }
}

/// The address text the gateway binds to, before it is parsed.
pub fn gateway_bind_text(cli_bind: Option<&str>, configured: Option<&str>) -> (r: String)
    ensures
        r@ == bind_text_spec(opt_str_view(cli_bind), opt_str_view(configured)),
{
    let raw = match cli_bind {
        Some(c) => c,
        None => match configured {
            Some(c) => c,
            None => "127.0.0.1:3210",
        },
    };
    let t = trim_string(raw);
    let lower = to_ascii_lowercase(t.as_str());
    if t.as_str().is_empty() || str_eq(lower.as_str(), "off") {
        to_owned_string("127.0.0.1:3210")
    } else {
        t
    }
}

/// The gateway token to use: the command line's; else the environment's
/// (an all-white-space value turns auth off); else the stored token,
/// trimmed, when it is not empty. `None` asks for a fresh token.
pub open spec fn gateway_token_spec(cli_token: Option<Seq<char>>, env_token: Option<Seq<char>>, stored: Option<Seq<char>>) -> Option<Seq<char>> {
    match cli_token {
        Some(t) => Some(t),
        None => match env_token {
            Some(t) => if trimmed(t).len() == 0 {
                Some(Seq::empty())
            } else {
                Some(t)
            },
            None => match stored {
                Some(s) => if trimmed(s).len() > 0 {
                    Some(trimmed(s))
                } else {
                    None
                },
                None => None,
            },
        },
    }
}

/// Picks the gateway token from the command line, the environment and the
/// stored token file, in that order.
pub fn gateway_token(cli_token: Option<String>, env_token: Option<&str>, stored: Option<&str>) -> (r: Option<String>)
    ensures
        match r {
            Some(t) => gateway_token_spec(opt_view_string(cli_token), opt_str_view(env_token), opt_str_view(stored)) == Some(t@),
            None => gateway_token_spec(opt_view_string(cli_token), opt_str_view(env_token), opt_str_view(stored)) is None,
        },
{
    if let Some(t) = cli_token {
        return Some(t);
    }
    if let Some(t) = env_token {
        let tt = trim_string(t);
        if tt.as_str().is_empty() {
            return Some(String::new());
        }
        return Some(to_owned_string(t));
    }
    if let Some(s) = stored {
        let ts = trim_string(s);
        if !ts.as_str().is_empty() {
            return Some(ts);
        }
    }
    None
}

/// The text of an optional string.
pub open spec fn opt_view_string(s: Option<String>) -> Option<Seq<char>> {
    match s {
        Some(t) => Some(t@),
        None => None,
    }
}

/// A character a generated token is made of: an ASCII letter or digit, or
/// one of `-`, `_`, `.`, `~`.
pub open spec fn token_char(c: char) -> bool {
    ||| ('0' <= c && c <= '9')
    ||| ('A' <= c && c <= 'Z')
    ||| ('a' <= c && c <= 'z')
    ||| c == '-' || c == '_' || c == '.' || c == '~'
}

proof fn lemma_encoding_of_token_chars(t: Seq<char>, k: int)
    requires
        0 <= k <= t.len(),
        forall|i: int| 0 <= i < t.len() ==> token_char(#[trigger] t[i]),
        vstd::utf8::encode_utf8(t).len() == t.len(),
        forall|i: int| 0 <= i < t.len() ==> t[i] as u8 == #[trigger] vstd::utf8::encode_utf8(t)[i],
    ensures
        cookie_encoding(vstd::utf8::encode_utf8(t).take(k)) == t.take(k),
    decreases k,
{
    let b = vstd::utf8::encode_utf8(t);
    if k > 0 {
        lemma_encoding_of_token_chars(t, k - 1);
        assert(b.take(k).drop_last() =~= b.take(k - 1));
        assert(b.take(k).last() == b[k - 1]);
        let c = t[k - 1];
        assert(token_char(c));
        assert(b[k - 1] == c as u8);
        assert(cookie_safe(b[k - 1]));
        assert((b[k - 1] as char) == c);
        assert(t.take(k) =~= t.take(k - 1).push(c));
    }
}

proof fn lemma_split_without_separator(s: Seq<char>, c: char)
    requires
        !s.contains(c),
    ensures
        split_on(s, c) == seq![s],
    decreases s.len(),
{
    if s.len() > 0 {
        let p = s.drop_last();
        assert(!p.contains(c)) by {
            if p.contains(c) {
                let i = choose|i: int| 0 <= i < p.len() && p[i] == c;
                assert(s[i] == c);
            }
        }
        lemma_split_without_separator(p, c);
        assert(s.last() != c) by {
            assert(s[s.len() - 1] == s.last());
        }
        assert(p.push(s.last()) =~= s);
    } else {
        assert(s =~= Seq::<char>::empty());
    }
}

/// The token cookie lets the browser in: for a token made of token
/// characters, the cookie value the index page sets is the token itself,
/// and a request that sends that cookie back is authorized.
pub proof fn law_token_cookie_authorizes(token: Seq<char>)
    requires
        token.len() > 0,
        forall|i: int| 0 <= i < token.len() ==> token_char(#[trigger] token[i]),
    ensures
        cookie_encoding(vstd::utf8::encode_utf8(token)) == token,
        authorized_spec(Some(token), None, None, Some("codeGatewayToken="@ + token), None),
{
    assert(vstd::utf8::is_ascii_chars(token));
    vstd::utf8::is_ascii_chars_encode_utf8(token);
    lemma_encoding_of_token_chars(token, token.len() as int);
    assert(vstd::utf8::encode_utf8(token).take(token.len() as int) =~= vstd::utf8::encode_utf8(token));
    assert(token.take(token.len() as int) =~= token);
    reveal_strlit("codeGatewayToken=");
    reveal_strlit("codeGatewayToken");
    let key = "codeGatewayToken"@;
    let h = "codeGatewayToken="@ + token;
    assert(h.len() == 17 + token.len());
    assert(!h.contains(';')) by {
        if h.contains(';') {
            let i = choose|i: int| 0 <= i < h.len() && h[i] == ';';
            if i >= 17 {
                assert(h[i] == token[i - 17]);
                assert(token_char(token[i - 17]));
            }
        }
    }
    lemma_split_without_separator(h, ';');
    assert(!crate::text::is_ws(h[0]));
    assert(crate::text::trim_start(h) == h);
    assert(h.last() == token.last());
    assert(token_char(token[token.len() - 1]));
    assert(!crate::text::is_ws(h.last()));
    assert(crate::text::trim_end(h) == h);
    assert(trimmed(h) == h);
    lemma_first_pos(h, '=');
    assert(h[16] == '=');
    match first_pos(h, '=') {
        Some(k) => {
            if k < 16 {
                assert(h[k] != '=');
            } else if k > 16 {
                assert(h[16] != '=');
            }
        },
        None => {
            assert(h[16] != '=');
        },
    }
    assert(first_pos(h, '=') == Some(16int));
    assert(before_first(h, '=') =~= key);
    assert(!crate::text::is_ws(key[0]));
    assert(crate::text::trim_start(key) == key);
    assert(!crate::text::is_ws(key.last()));
    assert(crate::text::trim_end(key) == key);
    assert(cookie_name(h) == key);
    assert(after_first(h, '=') == Some(h.skip(17)));
    assert(h.skip(17) =~= token);
    assert(token[0] == token[0]);
    assert(token_char(token[0]));
    assert(crate::text::trim_start(token) == token);
    assert(crate::text::trim_end(token) == token);
    assert(cookie_value(h) == token);
    assert(find_cookie(seq![h], key) == Some(token));
}

} // verus!
