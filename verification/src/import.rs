//! Generating collections from other formats: a curl command line becomes a
//! one-request collection, with sensitive values replaced by placeholders.

use vstd::prelude::*;
use crate::json::{
    JsonKind, JsonShape, json_kind, json_object_text, json_object_value, json_parse_result, json_pretty, json_pretty_text,
    json_shape, json_string_text, json_string_value, member_views, parse_json_value, parse_yaml_as_json,
    yaml_json_result, JsonDoc,
};
use crate::text::{
    chars_of, char_pos_from, concat, contains_seq, find_char_from, is_whitespace, is_ws, lowercase,
    owned, push_char, push_str, str_contains, str_eq, str_starts_with, has_prefix, string_from_range,
    to_lowercase, to_uppercase, trim, trim_str, uppercase, views,
};

verus! {

/// Whether the generated collection gets assertions.
#[derive(Clone, Copy, PartialEq, Eq, Structural)]
pub enum ImportMode {
    /// Method, URL, headers and body only.
    Scaffold,
    /// Also a basic status assertion.
    WithTests,
}

/// Errors of collection import.
#[derive(Debug)]
pub enum ImportError {
    /// The curl command could not be parsed.
    CurlParse(String),
    /// The OpenAPI document could not be parsed.
    OpenApiParse(String),
    /// The document has no top-level `openapi` or `swagger` key.
    UnrecognisedFormat,
    /// Fetching a remote document timed out.
    FetchTimeout { url: String },
    /// The generated collection could not be serialised.
    Serialize(String),
}

/// The message of an [`ImportError`].
pub open spec fn import_error_text(e: ImportError) -> Seq<char> {
    match e {
        ImportError::CurlParse(m) => "Failed to parse curl command: "@ + m@,
        ImportError::OpenApiParse(m) => "Failed to parse OpenAPI spec: "@ + m@,
        ImportError::UnrecognisedFormat => "Unrecognised spec format: expected 'openapi' or 'swagger' key at top level"@,
        ImportError::FetchTimeout { url } => "Fetch timed out fetching "@ + url@,
        ImportError::Serialize(m) => "Failed to serialize collection: "@ + m@,
    }
}

impl ImportError {
    /// The human-readable message (the error's display text).
    pub fn message(&self) -> (r: String)
        ensures
            r@ == import_error_text(*self),
    {
        match self {
            ImportError::CurlParse(m) => concat("Failed to parse curl command: ", m.as_str()),
            ImportError::OpenApiParse(m) => concat("Failed to parse OpenAPI spec: ", m.as_str()),
            ImportError::UnrecognisedFormat => owned(
                "Unrecognised spec format: expected 'openapi' or 'swagger' key at top level",
            ),
            ImportError::FetchTimeout { url } => concat("Fetch timed out fetching ", url.as_str()),
            ImportError::Serialize(m) => concat("Failed to serialize collection: ", m.as_str()),
        }
    }
}

// ─── tokenizer ───────────────────────────────────────────────────────────────

/// What the previous character asked of the next one.
#[derive(Clone, Copy, PartialEq, Eq, Structural)]
pub enum Pending {
    /// Nothing.
    Nothing,
    /// Take the next character literally (after `\` inside double quotes).
    Literal,
    /// Drop the next character (after `\` outside quotes: a line
    /// continuation).
    Drop,
}

/// The tokenizer's state: the tokens so far, the token being read, the open
/// quotes and what the previous character asked.
pub struct TokState {
    pub tokens: Seq<Seq<char>>,
    pub current: Seq<char>,
    pub in_single: bool,
    pub in_double: bool,
    pub pending: Pending,
}

/// The tokenizer's start state.
pub open spec fn tok_start() -> TokState {
    TokState { tokens: Seq::empty(), current: Seq::empty(), in_single: false, in_double: false, pending: Pending::Nothing }
}

/// One character through the tokenizer: quotes toggle (one kind only outside
/// the other), `\` escapes the next character inside double quotes and drops
/// it outside quotes, unquoted whitespace ends a token, anything else joins
/// the current token.
pub open spec fn tok_step(st: TokState, c: char) -> TokState {
    if st.pending == Pending::Literal {
        TokState { current: st.current.push(c), pending: Pending::Nothing, ..st }
    } else if st.pending == Pending::Drop {
        TokState { pending: Pending::Nothing, ..st }
    } else if c == '\'' && !st.in_double {
        TokState { in_single: !st.in_single, ..st }
    } else if c == '"' && !st.in_single {
        TokState { in_double: !st.in_double, ..st }
    } else if c == '\\' && st.in_double {
        TokState { pending: Pending::Literal, ..st }
    } else if c == '\\' && !st.in_single && !st.in_double {
        TokState { pending: Pending::Drop, ..st }
    } else if is_ws(c) && !st.in_single && !st.in_double {
        if st.current.len() > 0 {
            TokState { tokens: st.tokens.push(st.current), current: Seq::empty(), ..st }
        } else {
            st
        }
    } else {
        TokState { current: st.current.push(c), ..st }
    }
}

/// The tokenizer's state after reading `s`.
pub open spec fn tok_run(s: Seq<char>) -> TokState
    decreases s.len(),
{
    if s.len() == 0 {
        tok_start()
    } else {
        tok_step(tok_run(s.drop_last()), s.last())
    }
}

/// The tokens of a shell-style command line.
pub open spec fn tokens_of(s: Seq<char>) -> Seq<Seq<char>> {
    let st = tok_run(s);
    if st.current.len() > 0 { st.tokens.push(st.current) } else { st.tokens }
}

/// Splits a shell-style curl command into tokens, honouring single and double
/// quotes, `\` escapes inside double quotes and `\` line continuations.
pub fn tokenize(input: &str) -> (r: Vec<String>)
    ensures
        views(r@) == tokens_of(input@),
{
    let v = chars_of(input);
    let mut tokens: Vec<String> = Vec::new();
    let mut current = String::new();
    let mut in_single = false;
    let mut in_double = false;
    let mut pending = Pending::Nothing;
    let mut i: usize = 0;
    assert(v@.take(0) =~= Seq::<char>::empty());
    assert(views(tokens@) =~= Seq::<Seq<char>>::empty());
    while i < v.len()
        invariant
            i <= v@.len(),
            v@ == input@,
            tok_run(v@.take(i as int)) == (TokState { tokens: views(tokens@), current: current@, in_single, in_double, pending }),
        decreases v@.len() - i,
    {
        proof {
            assert(v@.take(i + 1).drop_last() =~= v@.take(i as int));
            assert(v@.take(i + 1).last() == v@[i as int]);
        }
        let c = v[i];
        if pending == Pending::Literal {
            push_char(&mut current, c);
            pending = Pending::Nothing;
        } else if pending == Pending::Drop {
            pending = Pending::Nothing;
        } else if c == '\'' && !in_double {
            in_single = !in_single;
        } else if c == '"' && !in_single {
            in_double = !in_double;
        } else if c == '\\' && in_double {
            pending = Pending::Literal;
        } else if c == '\\' && !in_single && !in_double {
            pending = Pending::Drop;
        } else if is_whitespace(c) && !in_single && !in_double {
            proof {
                crate::text::lemma_utf8_len_ge(current@);
            }
            if crate::text::byte_len(current.as_str()) > 0 {
                let ghost before = tokens@;
                let ghost tv = current@;
                tokens.push(current);
                assert(views(tokens@) =~= views(before).push(tv));
                current = String::new();
                assert(current@ =~= Seq::<char>::empty());
            }
        } else {
            push_char(&mut current, c);
        }
        i = i + 1;
    }
    assert(v@.take(i as int) =~= v@);
    proof {
        crate::text::lemma_utf8_len_ge(current@);
    }
    if crate::text::byte_len(current.as_str()) > 0 {
        let ghost before = tokens@;
        let ghost tv = current@;
        tokens.push(current);
        assert(views(tokens@) =~= views(before).push(tv));
    }
    tokens
}

// ─── curl arguments ──────────────────────────────────────────────────────────

/// The request described by a curl command so far.
pub struct CurlAcc {
    pub method: Option<Seq<char>>,
    pub url: Option<Seq<char>>,
    pub headers: Seq<(Seq<char>, Seq<char>)>,
    pub body: Option<Seq<char>>,
    pub has_user: bool,
}

pub open spec fn is_method_flag(t: Seq<char>) -> bool { t == "-X"@ || t == "--request"@ }
pub open spec fn is_header_flag(t: Seq<char>) -> bool { t == "-H"@ || t == "--header"@ }
pub open spec fn is_data_flag(t: Seq<char>) -> bool {
    t == "-d"@ || t == "--data"@ || t == "--data-raw"@ || t == "--data-binary"@
}
pub open spec fn is_user_flag(t: Seq<char>) -> bool { t == "-u"@ || t == "--user"@ }
pub open spec fn is_url_flag(t: Seq<char>) -> bool { t == "--url"@ }

/// A `-H` value split at its first `:`, both sides trimmed; nothing when it
/// has no colon.
pub open spec fn header_pair(raw: Seq<char>) -> Option<(Seq<char>, Seq<char>)> {
    match char_pos_from(raw, ':', 0) {
        None => None,
        Some(p) => Some((trim(raw.take(p)), trim(raw.skip(p + 1)))),
    }
}

/// Reads the arguments of a curl command from position `i` on. An option
/// that takes a value takes the next token (or nothing when there is none,
/// which clears what it sets); other options are ignored; the first bare
/// argument is the URL.
pub open spec fn parse_from(ts: Seq<Seq<char>>, i: int, acc: CurlAcc) -> CurlAcc
    decreases ts.len() - i,
{
    if i < 0 || i >= ts.len() {
        acc
    } else {
        let t = ts[i];
        let next: Option<Seq<char>> = if i + 1 < ts.len() { Some(ts[i + 1]) } else { None };
        let skip2 = if i + 2 <= ts.len() { i + 2 } else { ts.len() as int };
        if is_method_flag(t) {
            parse_from(ts, skip2, CurlAcc { method: match next { Some(m) => Some(uppercase(m)), None => None }, ..acc })
        } else if is_header_flag(t) {
            let headers = match next {
                Some(raw) => match header_pair(raw) {
                    Some(p) => acc.headers.push(p),
                    None => acc.headers,
                },
                None => acc.headers,
            };
            parse_from(ts, skip2, CurlAcc { headers, ..acc })
        } else if is_data_flag(t) {
            parse_from(ts, skip2, CurlAcc { body: next, ..acc })
        } else if is_user_flag(t) {
            parse_from(ts, skip2, CurlAcc { has_user: next is Some, ..acc })
        } else if is_url_flag(t) {
            parse_from(ts, skip2, CurlAcc { url: next, ..acc })
        } else if t.len() > 0 && t[0] == '-' {
            parse_from(ts, i + 1, acc)
        } else {
            parse_from(ts, i + 1, CurlAcc { url: if acc.url is None { Some(t) } else { acc.url }, ..acc })
        }
    }
}

/// A parsed curl command.
pub struct ParsedCurl {
    pub method: String,
    pub url: String,
    pub headers: Vec<(String, String)>,
    pub body: Option<String>,
}

/// The header pairs of a parsed command.
pub open spec fn pair_views(v: Seq<(String, String)>) -> Seq<(Seq<char>, Seq<char>)> {
    v.map_values(|p: (String, String)| (p.0@, p.1@))
}

/// The `Authorization` header that stands for `-u` credentials.
pub open spec fn basic_auth_header() -> (Seq<char>, Seq<char>) {
    ("Authorization"@, "Basic {{credentials}}"@)
}

/// What the arguments of a curl command (after `curl` itself) describe: the
/// URL is required; the method is `-X`'s, else `POST` with a body and `GET`
/// without; `-u` adds a placeholder `Authorization` header.
pub open spec fn parsed_curl_rel(ts: Seq<Seq<char>>, r: Result<ParsedCurl, ImportError>) -> bool {
    let acc = parse_from(ts, 1, CurlAcc { method: None, url: None, headers: Seq::empty(), body: None, has_user: false });
    match acc.url {
        None => r matches Err(ImportError::CurlParse(m)) && m@ == "no URL found"@,
        Some(u) => r matches Ok(p) && p.url@ == u
            && p.method@ == match acc.method {
                Some(m) => m,
                None => if acc.body is Some { "POST"@ } else { "GET"@ },
            }
            && pair_views(p.headers@) == if acc.has_user { acc.headers.push(basic_auth_header()) } else { acc.headers }
            && match (p.body, acc.body) {
                (Some(b), Some(x)) => b@ == x,
                (None, None) => true,
                _ => false,
            },
    }
}

fn split_header(raw: &str) -> (r: Option<(String, String)>)
    ensures
        match (r, header_pair(raw@)) {
            (Some((n, v)), Some((sn, sv))) => n@ == sn && v@ == sv,
            (None, None) => true,
            _ => false,
        },
{
    let v = chars_of(raw);
    match find_char_from(&v, ':', 0) {
        None => None,
        Some(p) => {
            proof {
                crate::text::lemma_char_pos_from(v@, ':', 0);
            }
            let (a, b) = crate::text::trim_bounds(&v, 0, p);
            let (c, d) = crate::text::trim_bounds(&v, p + 1, v.len());
            assert(v@.subrange(0, p as int) =~= v@.take(p as int));
            assert(v@.subrange(p + 1, v@.len() as int) =~= v@.skip(p + 1));
            Some((string_from_range(&v, a, b), string_from_range(&v, c, d)))
        },
    }
}

fn token_at(tokens: &Vec<String>, i: usize) -> (r: Option<String>)
    ensures
        match r {
            Some(t) => i < tokens@.len() && t@ == tokens@[i as int]@,
            None => i >= tokens@.len(),
        },
{
    if i < tokens.len() {
        Some(owned(tokens[i].as_str()))
    } else {
        None
    }
}

proof fn lemma_dash_prefix(t: Seq<char>)
    ensures
        has_prefix(t, "-"@) == (t.len() > 0 && t[0] == '-'),
{
    reveal_strlit("-");
    assert("-"@ =~= seq!['-']);
    assert("-"@.len() == 1 && "-"@[0] == '-');
    if t.len() > 0 {
        assert(t.take(1) =~= seq![t[0]]);
        if t[0] == '-' {
            assert(t.take(1) =~= "-"@);
        } else {
            assert(t.take(1)[0] != "-"@[0]);
        }
    }
}

/// Reads the arguments of a curl command: `-X`/`--request`, `-H`/`--header`,
/// `-d`/`--data`/`--data-raw`/`--data-binary`, `-u`/`--user`, `--url`, and a
/// bare URL; other options are ignored.
pub fn parse_tokens(tokens: &Vec<String>) -> (r: Result<ParsedCurl, ImportError>)
    ensures
        parsed_curl_rel(views(tokens@), r),
{
    let ghost ts = views(tokens@);
    let ghost start = CurlAcc { method: None, url: None, headers: Seq::empty(), body: None, has_user: false };
    let mut method: Option<String> = None;
    let mut url: Option<String> = None;
    let mut headers: Vec<(String, String)> = Vec::new();
    let mut body: Option<String> = None;
    let mut has_user = false;
    let mut i: usize = 1;
    assert(pair_views(headers@) =~= Seq::<(Seq<char>, Seq<char>)>::empty());
    while i < tokens.len()
        invariant
            ts == views(tokens@),
            1 <= i,
            parse_from(ts, 1, start) == parse_from(ts, i as int, CurlAcc {
                method: match method { Some(m) => Some(m@), None => None },
                url: match url { Some(u) => Some(u@), None => None },
                headers: pair_views(headers@),
                body: match body { Some(b) => Some(b@), None => None },
                has_user,
            }),
        decreases tokens@.len() - i,
    {
        let t = tokens[i].as_str();
        let ghost tv = ts[i as int];
        assert(tv == t@);
        if str_eq(t, "-X") || str_eq(t, "--request") {
            i = i + 1;
            method = match token_at(tokens, i) {
                Some(m) => Some(to_uppercase(m.as_str())),
                None => None,
            };
        } else if str_eq(t, "-H") || str_eq(t, "--header") {
            i = i + 1;
            match token_at(tokens, i) {
                Some(raw) => match split_header(raw.as_str()) {
                    Some(pair) => {
                        let ghost before = headers@;
                        let ghost pv = (pair.0@, pair.1@);
                        headers.push(pair);
                        assert(pair_views(headers@) =~= pair_views(before).push(pv));
                    },
                    None => {},
                },
                None => {},
            }
        } else if str_eq(t, "-d") || str_eq(t, "--data") || str_eq(t, "--data-raw") || str_eq(t, "--data-binary") {
            i = i + 1;
            body = token_at(tokens, i);
        } else if str_eq(t, "-u") || str_eq(t, "--user") {
            i = i + 1;
            has_user = token_at(tokens, i).is_some();
        } else if str_eq(t, "--url") {
            i = i + 1;
            url = token_at(tokens, i);
        } else if str_starts_with(t, "-") {
            proof {
                lemma_dash_prefix(t@);
            }
        } else {
            proof {
                lemma_dash_prefix(t@);
            }
            if url.is_none() {
                url = Some(owned(t));
            }
        }
        if i < tokens.len() {
            i = i + 1;
        }
    }
    let url = match url {
        None => {
            return Err(ImportError::CurlParse(owned("no URL found")));
        },
        Some(u) => u,
    };
    let method = match method {
        Some(m) => m,
        None => if body.is_some() { owned("POST") } else { owned("GET") },
    };
    if has_user {
        let ghost before = headers@;
        headers.push((owned("Authorization"), owned("Basic {{credentials}}")));
        assert(pair_views(headers@) =~= pair_views(before).push(basic_auth_header()));
    }
    Ok(ParsedCurl { method, url, headers, body })
}

// ─── sensitive values ────────────────────────────────────────────────────────

/// The placeholder that replaces the value of a sensitive header, by its
/// lowercased name.
pub open spec fn sensitive_placeholder(lower: Seq<char>) -> Option<Seq<char>> {
    if lower == "authorization"@ {
        Some("{{authorization}}"@)
    } else if lower == "x-api-key"@ {
        Some("{{api_key}}"@)
    } else if lower == "x-auth-token"@ {
        Some("{{auth_token}}"@)
    } else if lower == "cookie"@ {
        Some("{{cookie}}"@)
    } else {
        None
    }
}

/// A header with a sensitive value replaced by its placeholder; a value that
/// already holds `{{` is kept.
pub open spec fn scrub_pair(p: (Seq<char>, Seq<char>)) -> (Seq<char>, Seq<char>) {
    if contains_seq(p.1, "{{"@) {
        p
    } else {
        match sensitive_placeholder(lowercase(p.0)) {
            Some(ph) => (p.0, ph),
            None => p,
        }
    }
}

fn placeholder_for(lower: &str) -> (r: Option<String>)
    ensures
        match (r, sensitive_placeholder(lower@)) {
            (Some(x), Some(y)) => x@ == y,
            (None, None) => true,
            _ => false,
        },
{
    if str_eq(lower, "authorization") {
        Some(owned("{{authorization}}"))
    } else if str_eq(lower, "x-api-key") {
        Some(owned("{{api_key}}"))
    } else if str_eq(lower, "x-auth-token") {
        Some(owned("{{auth_token}}"))
    } else if str_eq(lower, "cookie") {
        Some(owned("{{cookie}}"))
    } else {
        None
    }
}

/// Replaces the values of sensitive headers (`Authorization`, `X-Api-Key`,
/// `X-Auth-Token`, `Cookie`, in any case) with placeholders.
pub fn scrub_headers(headers: Vec<(String, String)>) -> (r: Vec<(String, String)>)
    ensures
        pair_views(r@) == pair_views(headers@).map_values(|p: (Seq<char>, Seq<char>)| scrub_pair(p)),
{
    let ghost src = pair_views(headers@);
    let mut out: Vec<(String, String)> = Vec::new();
    let mut i: usize = 0;
    while i < headers.len()
        invariant
            i <= headers@.len(),
            src == pair_views(headers@),
            pair_views(out@) == src.take(i as int).map_values(|p: (Seq<char>, Seq<char>)| scrub_pair(p)),
        decreases headers@.len() - i,
    {
        let name = owned(headers[i].0.as_str());
        let value = owned(headers[i].1.as_str());
        let ghost pv = (name@, value@);
        let lower = to_lowercase(name.as_str());
        let pair = if str_contains(value.as_str(), "{{") {
            (name, value)
        } else {
            match placeholder_for(lower.as_str()) {
                Some(ph) => (name, ph),
                None => (name, value),
            }
        };
        let ghost before = out@;
        let ghost outv = (pair.0@, pair.1@);
        out.push(pair);
        proof {
            assert(src[i as int] == pv);
            assert(outv == scrub_pair(pv));
            assert(pair_views(out@) =~= pair_views(before).push(outv));
            assert(src.take(i + 1).map_values(|p: (Seq<char>, Seq<char>)| scrub_pair(p)) =~= src.take(i as int).map_values(
                |p: (Seq<char>, Seq<char>)| scrub_pair(p),
            ).push(scrub_pair(src[i as int])));
        }
        i = i + 1;
    }
    assert(src.take(i as int) =~= src);
    out
}

/// The body fields whose values are replaced by placeholders.
pub open spec fn sensitive_field(k: Seq<char>) -> bool {
    k == "password"@ || k == "secret"@ || k == "token"@ || k == "api_key"@
}

/// A member of a scrubbed object: a sensitive field's value becomes the JSON
/// string `{{field}}`.
pub open spec fn scrub_member(m: (Seq<char>, Seq<char>)) -> (Seq<char>, Seq<char>) {
    if sensitive_field(m.0) {
        (m.0, json_string_text("{{"@ + m.0 + "}}"@))
    } else {
        m
    }
}

/// A scrubbed body: a JSON object with its sensitive fields replaced, other
/// JSON as its compact text, anything else unchanged.
pub open spec fn scrubbed_body(body: Seq<char>) -> Seq<char> {
    match json_parse_result(body) {
        Err(_) => body,
        Ok(t) => match json_kind(t) {
            JsonKind::Object(ms) => json_object_text(ms.map_values(|m: (Seq<char>, Seq<char>)| scrub_member(m))),
            _ => t,
        },
    }
}

/// Replaces the values of sensitive fields (`password`, `secret`, `token`,
/// `api_key`) of a JSON object body with `{{field}}` placeholders and
/// re-serialises it; a body that is not JSON is returned unchanged.
pub fn scrub_body(body: &str) -> (r: String)
    ensures
        r@ == scrubbed_body(body@),
{
    match parse_json_value(body) {
        Err(_) => owned(body),
        Ok(v) => match json_shape(&v) {
            JsonShape::Object(members) => {
                let ghost mv = member_views(members@);
                let mut rest = members;
                let mut out: Vec<(String, crate::json::JsonDoc)> = Vec::new();
                while rest.len() > 0
                    invariant
                        mv.len() == out@.len() + rest@.len(),
                        member_views(rest@) == mv.skip(out@.len() as int),
                        member_views(out@) == mv.take(out@.len() as int).map_values(
                            |m: (Seq<char>, Seq<char>)| scrub_member(m),
                        ),
                    decreases rest@.len(),
                {
                    let ghost n: int = out@.len() as int;
                    let ghost before = out@;
                    let ghost rv = rest@;
                    let (k, val) = rest.remove(0);
                    proof {
                        assert(member_views(rv)[0] == mv[n]);
                        assert(member_views(rest@) =~= member_views(rv).drop_first());
                        assert(mv.skip(n + 1) =~= mv.skip(n).drop_first());
                    }
                    let ks = k.as_str();
                    if str_eq(ks, "password") || str_eq(ks, "secret") || str_eq(ks, "token") || str_eq(ks, "api_key") {
                        let mut ph = owned("{{");
                        push_str(&mut ph, ks);
                        push_str(&mut ph, "}}");
                        out.push((owned(ks), json_string_value(ph)));
                    } else {
                        out.push((k, val));
                    }
                    proof {
                        assert(member_views(out@) =~= member_views(before).push(scrub_member(mv[n])));
                        assert(mv.take(n + 1).map_values(|m: (Seq<char>, Seq<char>)| scrub_member(m)) =~= mv.take(n).map_values(
                            |m: (Seq<char>, Seq<char>)| scrub_member(m),
                        ).push(scrub_member(mv[n])));
                    }
                }
                assert(mv.take(out@.len() as int) =~= mv);
                let o = json_object_value(out);
                owned(o.text())
            },
            _ => owned(v.text()),
        },
    }
}

// ─── URLs ────────────────────────────────────────────────────────────────────

/// The part of a URL after `http://` or `https://`, if it has either.
pub open spec fn after_scheme(u: Seq<char>) -> Option<Seq<char>> {
    if has_prefix(u, "http://"@) {
        Some(u.skip(7))
    } else if has_prefix(u, "https://"@) {
        Some(u.skip(8))
    } else {
        None
    }
}

/// The scheme and host of a URL (`scheme://host`); a URL without an HTTP
/// scheme is kept whole.
pub open spec fn base_url_of(u: Seq<char>) -> Seq<char> {
    match after_scheme(u) {
        None => u,
        Some(a) => (if has_prefix(u, "https"@) { "https"@ } else { "http"@ }) + "://"@
            + crate::http::up_to_char(a, '/'),
    }
}

/// The base URL of a URL is a prefix of it, scheme included as written: for
/// a URL with an HTTP scheme it ends at the first `/` after the scheme (or
/// is the whole URL when there is none), so the path follows it directly.
pub proof fn law_base_url_is_prefix(u: Seq<char>)
    ensures
        has_prefix(u, base_url_of(u)),
        after_scheme(u) is Some ==> base_url_of(u).len() == u.len() || u[base_url_of(u).len() as int] == '/',
{
    reveal_strlit("http://");
    reveal_strlit("https://");
    reveal_strlit("https");
    reveal_strlit("http");
    reveal_strlit("://");
    let b = base_url_of(u);
    match after_scheme(u) {
        None => {
            assert(u.take(u.len() as int) =~= u);
        },
        Some(a) => {
            let n: int = if has_prefix(u, "http://"@) { 7 } else { 8 };
            assert(a =~= u.skip(n));
            crate::text::lemma_char_pos_from(a, '/', 0);
            let t = crate::http::up_to_char(a, '/');
            if has_prefix(u, "http://"@) {
                assert(u.take(7) == "http://"@);
                assert(u.take(7)[4] == u[4]);
                assert("http://"@[4] == ':');
                assert(u[4] == ':');
                assert("https"@[4] == 's');
                assert(!has_prefix(u, "https"@)) by {
                    if has_prefix(u, "https"@) {
                        assert(u.take(5)[4] == u[4]);
                    }
                }
                assert(b == "http"@ + "://"@ + t);
                assert(u.take(b.len() as int) =~= b);
            } else {
                assert(has_prefix(u, "https://"@));
                assert(u.take(8) == "https://"@);
                assert forall|k: int| 0 <= k < 5 implies u.take(5)[k] == "https"@[k] by {
                    assert(u.take(8)[k] == u[k]);
                    assert("https://"@[k] == "https"@[k]);
                }
                assert(u.take(5) =~= "https"@);
                assert(has_prefix(u, "https"@));
                assert(b == "https"@ + "://"@ + t);
                assert(u.take(b.len() as int) =~= b);
            }
        },
    }
}

/// The path of a URL (`/` and what follows the host, up to a `?`); `/` for a
/// URL without an HTTP scheme.
pub open spec fn url_path_of(u: Seq<char>) -> Seq<char> {
    match after_scheme(u) {
        None => "/"@,
        Some(a) => {
            let rest = match char_pos_from(a, '/', 0) {
                None => Seq::empty(),
                Some(p) => a.skip(p + 1),
            };
            "/"@ + crate::http::up_to_char(rest, '?')
        },
    }
}

fn suffix_from(v: &Vec<char>, k: usize) -> (r: Vec<char>)
    requires
        k <= v.len(),
    ensures
        r@ == v@.skip(k as int),
{
    let mut out: Vec<char> = Vec::new();
    let mut i = k;
    while i < v.len()
        invariant
            k <= i <= v.len(),
            out@ == v@.subrange(k as int, i as int),
        decreases v.len() - i,
    {
        out.push(v[i]);
        i = i + 1;
        assert(out@ =~= v@.subrange(k as int, i as int));
    }
    assert(out@ =~= v@.skip(k as int));
    out
}

fn prefix_upto(v: &Vec<char>, c: char) -> (r: String)
    ensures
        r@ == crate::http::up_to_char(v@, c),
{
    match find_char_from(v, c, 0) {
        None => crate::text::string_from_chars(v),
        Some(p) => {
            let r = string_from_range(v, 0, p);
            assert(v@.subrange(0, p as int) =~= v@.take(p as int));
            r
        },
    }
}

fn strip_scheme(url: &str) -> (r: Option<Vec<char>>)
    ensures
        match (r, after_scheme(url@)) {
            (Some(a), Some(b)) => a@ == b,
            (None, None) => true,
            _ => false,
        },
{
    let v = chars_of(url);
    if str_starts_with(url, "http://") {
        proof {
            reveal_strlit("http://");
        }
        Some(suffix_from(&v, 7))
    } else if str_starts_with(url, "https://") {
        proof {
            reveal_strlit("https://");
        }
        Some(suffix_from(&v, 8))
    } else {
        None
    }
}

/// The scheme and host of a URL.
pub fn base_url(url: &str) -> (r: String)
    ensures
        r@ == base_url_of(url@),
        has_prefix(url@, r@),
{
    proof {
        law_base_url_is_prefix(url@);
    }
    match strip_scheme(url) {
        None => owned(url),
        Some(after) => {
            let scheme = if str_starts_with(url, "https") { owned("https") } else { owned("http") };
            let mut out = scheme;
            push_str(&mut out, "://");
            let host = prefix_upto(&after, '/');
            push_str(&mut out, host.as_str());
            out
        },
    }
}

/// The path of a URL, without its query string.
pub fn url_path(url: &str) -> (r: String)
    ensures
        r@ == url_path_of(url@),
{
    match strip_scheme(url) {
        None => owned("/"),
        Some(after) => {
            let rest: Vec<char> = match find_char_from(&after, '/', 0) {
                None => Vec::new(),
                Some(p) => suffix_from(&after, p + 1),
            };
            assert(rest@.len() == 0 ==> rest@ =~= Seq::<char>::empty());
            let path = prefix_upto(&rest, '?');
            concat("/", path.as_str())
        },
    }
}

/// The name of an imported request: method and path.
pub fn request_name(method: &str, url: &str) -> (r: String)
    ensures
        r@ == method@ + " "@ + url_path_of(url@),
{
    let mut s = owned(method);
    push_str(&mut s, " ");
    let p = url_path(url);
    push_str(&mut s, p.as_str());
    s
}

// ─── the generated collection ────────────────────────────────────────────────

/// The `headers:` lines of the generated request.
pub open spec fn header_lines(hs: Seq<(Seq<char>, Seq<char>)>) -> Seq<char>
    decreases hs.len(),
{
    if hs.len() == 0 {
        Seq::empty()
    } else {
        header_lines(hs.drop_last()) + "      "@ + hs.last().0 + ": \""@ + hs.last().1 + "\"\n"@
    }
}

/// The body content lines, each indented by eight spaces.
pub open spec fn indented_lines(ls: Seq<Seq<char>>) -> Seq<char>
    decreases ls.len(),
{
    if ls.len() == 0 {
        Seq::empty()
    } else {
        indented_lines(ls.drop_last()) + "        "@ + ls.last() + "\n"@
    }
}

/// The YAML text of an imported one-request collection.
pub open spec fn curl_yaml(
    base: Seq<char>,
    name: Seq<char>,
    method: Seq<char>,
    path: Seq<char>,
    headers: Seq<(Seq<char>, Seq<char>)>,
    content: Option<Seq<char>>,
    mode: ImportMode,
) -> Seq<char> {
    let headers_section = if headers.len() == 0 { Seq::empty() } else { "    headers:\n"@ + header_lines(headers) };
    let body_section = match content {
        None => Seq::empty(),
        Some(c) => "    body:\n      type: json\n      content: |\n"@ + indented_lines(crate::text::lines(c)),
    };
    let assertions = if mode == ImportMode::WithTests { "    assertions:\n      - status: 200\n"@ } else { Seq::empty() };
    "name: \"Imported Collection\"\nversion: \"1.0\"\n\nenvironment:\n  baseUrl: \""@ + base
        + "\"\n\nrequests:\n  - name: \""@ + name + "\"\n    method: "@ + method + "\n    url: \"{{baseUrl}}"@
        + path + "\"\n"@ + headers_section + body_section + assertions
}

fn header_text(hs: &Vec<(String, String)>) -> (r: String)
    ensures
        r@ == header_lines(pair_views(hs@)),
{
    let ghost hv = pair_views(hs@);
    let mut out = String::new();
    let mut i: usize = 0;
    assert(hv.take(0) =~= Seq::<(Seq<char>, Seq<char>)>::empty());
    while i < hs.len()
        invariant
            i <= hs@.len(),
            hv == pair_views(hs@),
            out@ == header_lines(hv.take(i as int)),
        decreases hs@.len() - i,
    {
        proof {
            assert(hv.take(i + 1).drop_last() =~= hv.take(i as int));
            assert(hv.take(i + 1).last() == hv[i as int]);
        }
        push_str(&mut out, "      ");
        push_str(&mut out, hs[i].0.as_str());
        push_str(&mut out, ": \"");
        push_str(&mut out, hs[i].1.as_str());
        push_str(&mut out, "\"\n");
        i = i + 1;
    }
    assert(hv.take(i as int) =~= hv);
    out
}

fn indent_text(content: &str) -> (r: String)
    ensures
        r@ == indented_lines(crate::text::lines(content@)),
{
    let ls = crate::text::split_lines(content);
    let ghost lv = views(ls@);
    let mut out = String::new();
    let mut i: usize = 0;
    assert(lv.take(0) =~= Seq::<Seq<char>>::empty());
    while i < ls.len()
        invariant
            i <= ls@.len(),
            lv == views(ls@),
            out@ == indented_lines(lv.take(i as int)),
        decreases ls@.len() - i,
    {
        proof {
            assert(lv.take(i + 1).drop_last() =~= lv.take(i as int));
            assert(lv.take(i + 1).last() == lv[i as int]);
        }
        push_str(&mut out, "        ");
        push_str(&mut out, ls[i].as_str());
        push_str(&mut out, "\n");
        i = i + 1;
    }
    assert(lv.take(i as int) =~= lv);
    out
}

/// The body content the generated collection shows: the scrubbed body,
/// pretty-printed when it is JSON.
pub open spec fn shown_body(raw: Seq<char>) -> Seq<char> {
    let s = scrubbed_body(raw);
    match json_parse_result(s) {
        Ok(t) => json_pretty(t),
        Err(_) => s,
    }
}

fn body_content(raw: &str) -> (r: String)
    ensures
        r@ == shown_body(raw@),
{
    let scrubbed = scrub_body(raw);
    match parse_json_value(scrubbed.as_str()) {
        Ok(v) => json_pretty_text(&v),
        Err(_) => scrubbed,
    }
}

/// The body content shown for a parsed command's body, if it has one.
pub open spec fn shown_content(body: Option<String>) -> Option<Seq<char>> {
    match body {
        Some(b) => Some(shown_body(b@)),
        None => None,
    }
}

/// What converting a curl command gives: the command must start with `curl`
/// and name a URL; the collection's one request has the command's method,
/// path, scrubbed headers and body (its JSON scrubbed and pretty-printed; a
/// body that is not JSON as it is).
pub open spec fn convert_rel(input: Seq<char>, mode: ImportMode, r: Result<String, ImportError>) -> bool {
    let ts = tokens_of(input);
    if ts.len() == 0 || lowercase(ts[0]) != "curl"@ {
        r matches Err(ImportError::CurlParse(m)) && m@ == "input must start with 'curl'"@
    } else {
        match r {
            Err(e) => parsed_curl_rel(ts, Err(e)),
            Ok(y) => exists|p: ParsedCurl|
                #![trigger parsed_curl_rel(ts, Ok(p))]
                parsed_curl_rel(ts, Ok(p)) && y@ == curl_yaml(
                    base_url_of(p.url@),
                    p.method@ + " "@ + url_path_of(p.url@),
                    p.method@,
                    url_path_of(p.url@),
                    pair_views(p.headers@).map_values(|h: (Seq<char>, Seq<char>)| scrub_pair(h)),
                    shown_content(p.body),
                    mode,
                ),
        }
    }
}

/// The method a curl command's arguments give: the last `-X`/`--request`
/// value, uppercased; else `POST` when a body is given; else `GET`.
pub open spec fn curl_method(input: Seq<char>) -> Seq<char> {
    let acc = parse_from(tokens_of(input), 1, CurlAcc { method: None, url: None, headers: Seq::empty(), body: None, has_user: false });
    match acc.method {
        Some(m) => m,
        None => if acc.body is Some { "POST"@ } else { "GET"@ },
    }
}

/// The request of an imported curl command uses the command's method: the
/// collection text holds the line `    method: M` with `M` as
/// [`curl_method`] gives it.
pub proof fn law_curl_method_line(input: Seq<char>, mode: ImportMode, y: String)
    requires
        convert_rel(input, mode, Ok(y)),
    ensures
        exists|pre: Seq<char>, post: Seq<char>| y@ == pre + "    method: "@ + curl_method(input) + "\n"@ + post,
{
    let ts = tokens_of(input);
    let p = choose|p: ParsedCurl| #[trigger] parsed_curl_rel(ts, Ok(p)) && y@ == curl_yaml(
        base_url_of(p.url@),
        p.method@ + " "@ + url_path_of(p.url@),
        p.method@,
        url_path_of(p.url@),
        pair_views(p.headers@).map_values(|h: (Seq<char>, Seq<char>)| scrub_pair(h)),
        shown_content(p.body),
        mode,
    );
    let base = base_url_of(p.url@);
    let name = p.method@ + " "@ + url_path_of(p.url@);
    let path = url_path_of(p.url@);
    let headers = pair_views(p.headers@).map_values(|h: (Seq<char>, Seq<char>)| scrub_pair(h));
    let content = shown_content(p.body);
    let headers_section = if headers.len() == 0 { Seq::empty() } else { "    headers:\n"@ + header_lines(headers) };
    let body_section = match content {
        None => Seq::empty(),
        Some(c) => "    body:\n      type: json\n      content: |\n"@ + indented_lines(crate::text::lines(c)),
    };
    let assertions = if mode == ImportMode::WithTests { "    assertions:\n      - status: 200\n"@ } else { Seq::empty() };
    let pre = "name: \"Imported Collection\"\nversion: \"1.0\"\n\nenvironment:\n  baseUrl: \""@ + base
        + "\"\n\nrequests:\n  - name: \""@ + name + "\"\n"@;
    let post = "    url: \"{{baseUrl}}"@ + path + "\"\n"@ + headers_section + body_section + assertions;
    assert(p.method@ == curl_method(input));
    reveal_strlit("\"\n    method: ");
    reveal_strlit("\n    url: \"{{baseUrl}}");
    reveal_strlit("\"\n\nrequests:\n  - name: \"");
    reveal_strlit("\"\n");
    reveal_strlit("    method: ");
    reveal_strlit("\n");
    reveal_strlit("    url: \"{{baseUrl}}");
    assert("\"\n    method: "@ =~= "\"\n"@ + "    method: "@);
    assert("\n    url: \"{{baseUrl}}"@ =~= "\n"@ + "    url: \"{{baseUrl}}"@);
    assert(y@ =~= pre + "    method: "@ + curl_method(input) + "\n"@ + post);
}

/// Importing a curl command with tests gives the scaffold's text followed by
/// a status assertion block.
pub proof fn law_with_tests_adds_status_assertion(input: Seq<char>, scaffold: String, with_tests: String)
    requires
        convert_rel(input, ImportMode::Scaffold, Ok(scaffold)),
        convert_rel(input, ImportMode::WithTests, Ok(with_tests)),
    ensures
        with_tests@ == scaffold@ + "    assertions:\n      - status: 200\n"@,
{
    let ts = tokens_of(input);
    let p1 = choose|p: ParsedCurl| #[trigger] parsed_curl_rel(ts, Ok(p)) && scaffold@ == curl_yaml(
        base_url_of(p.url@),
        p.method@ + " "@ + url_path_of(p.url@),
        p.method@,
        url_path_of(p.url@),
        pair_views(p.headers@).map_values(|h: (Seq<char>, Seq<char>)| scrub_pair(h)),
        shown_content(p.body),
        ImportMode::Scaffold,
    );
    let p2 = choose|p: ParsedCurl| #[trigger] parsed_curl_rel(ts, Ok(p)) && with_tests@ == curl_yaml(
        base_url_of(p.url@),
        p.method@ + " "@ + url_path_of(p.url@),
        p.method@,
        url_path_of(p.url@),
        pair_views(p.headers@).map_values(|h: (Seq<char>, Seq<char>)| scrub_pair(h)),
        shown_content(p.body),
        ImportMode::WithTests,
    );
    assert(p1.url@ == p2.url@);
    assert(p1.method@ == p2.method@);
    assert(pair_views(p1.headers@) == pair_views(p2.headers@));
    assert(shown_content(p1.body) == shown_content(p2.body));
    assert(with_tests@ =~= scaffold@ + "    assertions:\n      - status: 200\n"@);
}

/// Converts a curl command into the YAML text of a one-request collection.
pub fn convert(input: &str, mode: ImportMode) -> (r: Result<String, ImportError>)
    ensures
        convert_rel(input@, mode, r),
{
    let tokens = tokenize(input);
    if tokens.len() == 0 {
        return Err(ImportError::CurlParse(owned("input must start with 'curl'")));
    }
    let first = to_lowercase(tokens[0].as_str());
    if !str_eq(first.as_str(), "curl") {
        return Err(ImportError::CurlParse(owned("input must start with 'curl'")));
    }
    let parsed = match parse_tokens(&tokens) {
        Ok(p) => p,
        Err(e) => {
            return Err(e);
        },
    };
    let ghost pv = parsed;
    let headers = scrub_headers(parsed.headers);
    let base = base_url(parsed.url.as_str());
    let path = url_path(parsed.url.as_str());
    let name = request_name(parsed.method.as_str(), parsed.url.as_str());
    let content: Option<String> = match &parsed.body {
        Some(b) => Some(body_content(b.as_str())),
        None => None,
    };
    let ghost cv: Option<Seq<char>> = if content is Some { Some(content->0@) } else { None };
    let mut y = owned("name: \"Imported Collection\"\nversion: \"1.0\"\n\nenvironment:\n  baseUrl: \"");
    push_str(&mut y, base.as_str());
    push_str(&mut y, "\"\n\nrequests:\n  - name: \"");
    push_str(&mut y, name.as_str());
    push_str(&mut y, "\"\n    method: ");
    push_str(&mut y, parsed.method.as_str());
    push_str(&mut y, "\n    url: \"{{baseUrl}}");
    push_str(&mut y, path.as_str());
    push_str(&mut y, "\"\n");
    if headers.len() > 0 {
        push_str(&mut y, "    headers:\n");
        let h = header_text(&headers);
        push_str(&mut y, h.as_str());
    }
    match &content {
        Some(c) => {
            push_str(&mut y, "    body:\n      type: json\n      content: |\n");
            let t = indent_text(c.as_str());
            push_str(&mut y, t.as_str());
        },
        None => {},
    }
    if mode == ImportMode::WithTests {
        push_str(&mut y, "    assertions:\n      - status: 200\n");
    }
    proof {
        let hv = pair_views(headers@);
        assert(hv.len() == 0 ==> header_lines(hv) =~= Seq::<char>::empty());
        let expected = curl_yaml(base_url_of(pv.url@), pv.method@ + " "@ + url_path_of(pv.url@), pv.method@, url_path_of(pv.url@), hv, cv, mode);
        assert(cv == shown_content(pv.body));
        assert(y@ =~= expected);
    }
    Ok(y)
}

/// Parses a curl command and returns the YAML text of a collection holding
/// its request; sensitive header and body values become placeholders.
pub fn from_curl(input: &str, mode: ImportMode) -> (r: Result<String, ImportError>)
    ensures
        convert_rel(input@, mode, r),
{
    convert(input, mode)
}

// ─── OpenAPI ─────────────────────────────────────────────────────────────────

/// The value of the first member named `k` among object members `ms`.
pub open spec fn member_of(ms: Seq<(Seq<char>, Seq<char>)>, k: Seq<char>) -> Option<Seq<char>>
    decreases ms.len(),
{
    if ms.len() == 0 {
        None
    } else if ms[0].0 == k {
        Some(ms[0].1)
    } else {
        member_of(ms.drop_first(), k)
    }
}

/// The member `k` of the JSON value `d` (by compact text); `None` when there
/// is no value, it is not an object, or it has no such member.
pub open spec fn field_of(d: Option<Seq<char>>, k: Seq<char>) -> Option<Seq<char>> {
    match d {
        Some(t) => match json_kind(t) {
            JsonKind::Object(ms) => member_of(ms, k),
            _ => None,
        },
        None => None,
    }
}

/// The content of `d` when it is a JSON string.
pub open spec fn string_of(d: Option<Seq<char>>) -> Option<Seq<char>> {
    match d {
        Some(t) => match json_kind(t) {
            JsonKind::Str(s) => Some(s),
            _ => None,
        },
        None => None,
    }
}

/// The first element of `d` when it is a non-empty JSON array.
pub open spec fn first_item(d: Option<Seq<char>>) -> Option<Seq<char>> {
    match d {
        Some(t) => match json_kind(t) {
            JsonKind::Array(items) => if items.len() > 0 {
                Some(items[0])
            } else {
                None
            },
            _ => None,
        },
        None => None,
    }
}

/// `s`, or `dflt` when there is none.
pub open spec fn or_text(s: Option<Seq<char>>, dflt: Seq<char>) -> Seq<char> {
    match s {
        Some(x) => x,
        None => dflt,
    }
}

/// The collection name: `info.title`, or `Imported API`.
pub open spec fn openapi_title(doc: Seq<char>) -> Seq<char> {
    or_text(string_of(field_of(field_of(Some(doc), "info"@), "title"@)), "Imported API"@)
}

/// The base URL: the first server's `url` (OpenAPI 3); else, for a Swagger 2
/// `host`, the first of `schemes` (default `https`), `://`, the host and the
/// `basePath`; else empty.
pub open spec fn openapi_base(doc: Seq<char>) -> Seq<char> {
    match string_of(field_of(first_item(field_of(Some(doc), "servers"@)), "url"@)) {
        Some(u) => u,
        None => match string_of(field_of(Some(doc), "host"@)) {
            Some(h) => or_text(string_of(first_item(field_of(Some(doc), "schemes"@))), "https"@) + "://"@ + h
                + or_text(string_of(field_of(Some(doc), "basePath"@)), Seq::empty()),
            None => Seq::empty(),
        },
    }
}

/// The HTTP method an operation key of a path item names, if any.
pub open spec fn method_name(k: Seq<char>) -> Option<Seq<char>> {
    if k == "get"@ {
        Some("GET"@)
    } else if k == "put"@ {
        Some("PUT"@)
    } else if k == "post"@ {
        Some("POST"@)
    } else if k == "delete"@ {
        Some("DELETE"@)
    } else if k == "options"@ {
        Some("OPTIONS"@)
    } else if k == "head"@ {
        Some("HEAD"@)
    } else if k == "patch"@ {
        Some("PATCH"@)
    } else if k == "trace"@ {
        Some("TRACE"@)
    } else {
        None
    }
}

/// The (method, path) pairs of path `p`'s operation members `ops`, in order.
pub open spec fn path_ops(p: Seq<char>, ops: Seq<(Seq<char>, Seq<char>)>) -> Seq<(Seq<char>, Seq<char>)>
    decreases ops.len(),
{
    if ops.len() == 0 {
        Seq::empty()
    } else {
        let rest = path_ops(p, ops.drop_last());
        match method_name(ops.last().0) {
            Some(m) => rest.push((m, p)),
            None => rest,
        }
    }
}

/// The operations of one `paths` member: those of its path item when it is
/// an object.
pub open spec fn item_ops(entry: (Seq<char>, Seq<char>)) -> Seq<(Seq<char>, Seq<char>)> {
    match json_kind(entry.1) {
        JsonKind::Object(ops) => path_ops(entry.0, ops),
        _ => Seq::empty(),
    }
}

/// The (method, path) pairs of the `paths` members `ps`, in order.
pub open spec fn paths_ops(ps: Seq<(Seq<char>, Seq<char>)>) -> Seq<(Seq<char>, Seq<char>)>
    decreases ps.len(),
{
    if ps.len() == 0 {
        Seq::empty()
    } else {
        paths_ops(ps.drop_last()) + item_ops(ps.last())
    }
}

/// The operations of a document: those of its `paths` object.
pub open spec fn openapi_ops(doc: Seq<char>) -> Seq<(Seq<char>, Seq<char>)> {
    match field_of(Some(doc), "paths"@) {
        Some(p) => match json_kind(p) {
            JsonKind::Object(ps) => paths_ops(ps),
            _ => Seq::empty(),
        },
        None => Seq::empty(),
    }
}

/// The YAML of one generated request.
pub open spec fn openapi_request_text(op: (Seq<char>, Seq<char>), mode: ImportMode) -> Seq<char> {
    let assertions = if mode == ImportMode::WithTests { "    assertions:\n      - status: 200\n"@ } else { Seq::empty() };
    "  - name: \""@ + op.0 + " "@ + op.1 + "\"\n    method: "@ + op.0 + "\n    url: \"{{baseUrl}}"@ + op.1 + "\"\n"@
        + assertions
}

/// The YAML of the generated requests, in order.
pub open spec fn openapi_requests_text(ops: Seq<(Seq<char>, Seq<char>)>, mode: ImportMode) -> Seq<char>
    decreases ops.len(),
{
    if ops.len() == 0 {
        Seq::empty()
    } else {
        openapi_requests_text(ops.drop_last(), mode) + openapi_request_text(ops.last(), mode)
    }
}

/// The YAML text of the collection generated from an OpenAPI document.
pub open spec fn openapi_yaml(doc: Seq<char>, mode: ImportMode) -> Seq<char> {
    let ops = openapi_ops(doc);
    "name: \""@ + openapi_title(doc) + "\"\nversion: \"1.0\"\n\nenvironment:\n  baseUrl: \""@ + openapi_base(doc)
        + "\"\n\nrequests:"@ + if ops.len() == 0 {
        " []\n"@
    } else {
        "\n"@ + openapi_requests_text(ops, mode)
    }
}

/// What converting an OpenAPI or Swagger document gives: a parse error, a
/// document without a top-level `openapi` or `swagger` key, or the
/// collection text.
pub open spec fn openapi_rel(spec: Seq<char>, mode: ImportMode, r: Result<String, ImportError>) -> bool {
    match yaml_json_result(spec) {
        Err(t) => r matches Err(ImportError::OpenApiParse(m)) && m@ == t,
        Ok(doc) => if field_of(Some(doc), "openapi"@) is None && field_of(Some(doc), "swagger"@) is None {
            r matches Err(ImportError::UnrecognisedFormat)
        } else {
            r matches Ok(y) && y@ == openapi_yaml(doc, mode)
        },
    }
}

/// Views of an optional JSON value.
pub open spec fn opt_doc(d: Option<JsonDoc>) -> Option<Seq<char>> {
    match d {
        Some(x) => Some(x@),
        None => None,
    }
}

fn field(d: &Option<JsonDoc>, k: &str) -> (r: Option<JsonDoc>)
    ensures
        opt_doc(r) == field_of(opt_doc(*d), k@),
{
    let x = match d {
        Some(x) => x,
        None => {
            return None;
        },
    };
    match json_shape(x) {
        JsonShape::Object(ms) => {
            let ghost mv = member_views(ms@);
            assert(json_kind(x@) == JsonKind::Object(mv));
            assert(opt_doc(*d) == Some(x@));
            assert(field_of(opt_doc(*d), k@) == member_of(mv, k@));
            let mut ms = ms;
            let mut i: usize = 0;
            assert(mv.skip(0) =~= mv);
            while i < ms.len()
                invariant
                    i <= ms@.len(),
                    mv == member_views(ms@),
                    field_of(opt_doc(*d), k@) == member_of(mv, k@),
                    member_of(mv, k@) == member_of(mv.skip(i as int), k@),
                decreases ms.len() - i,
            {
                proof {
                    assert(mv.skip(i as int)[0] == mv[i as int]);
                    assert(mv.skip(i as int).drop_first() =~= mv.skip(i + 1));
                }
                if str_eq(ms[i].0.as_str(), k) {
                    let ghost before = ms@;
                    assert(mv[i as int].0 == k@);
                    assert(member_of(mv.skip(i as int), k@) == Some(mv[i as int].1));
                    let (_, v) = ms.remove(i);
                    assert(v == before[i as int].1);
                    assert(v@ == mv[i as int].1);
                    assert(opt_doc(Some(v)) == Some(mv[i as int].1));
                    return Some(v);
                }
                i = i + 1;
            }
            assert(mv.skip(i as int) =~= Seq::<(Seq<char>, Seq<char>)>::empty());
            None
        },
        _ => None,
    }
}

fn string_value(d: &Option<JsonDoc>) -> (r: Option<String>)
    ensures
        match r {
            Some(s) => string_of(opt_doc(*d)) == Some(s@),
            None => string_of(opt_doc(*d)) is None,
        },
{
    match d {
        Some(x) => match json_shape(x) {
            JsonShape::Str(s) => Some(s),
            _ => None,
        },
        None => None,
    }
}

fn first_element(d: &Option<JsonDoc>) -> (r: Option<JsonDoc>)
    ensures
        opt_doc(r) == first_item(opt_doc(*d)),
{
    match d {
        Some(x) => match json_shape(x) {
            JsonShape::Array(items) => {
                if items.len() > 0 {
                    let mut items = items;
                    let ghost iv = crate::json::doc_views(items@);
                    let v = items.remove(0);
                    assert(v@ == iv[0]);
                    Some(v)
                } else {
                    None
                }
            },
            _ => None,
        },
        None => None,
    }
}

fn text_or(s: Option<String>, dflt: &str) -> (r: String)
    ensures
        r@ == or_text(
            match s {
                Some(x) => Some(x@),
                None => None,
            },
            dflt@,
        ),
{
    match s {
        Some(x) => x,
        None => owned(dflt),
    }
}

fn method_of(k: &str) -> (r: Option<String>)
    ensures
        match r {
            Some(m) => method_name(k@) == Some(m@),
            None => method_name(k@) is None,
        },
{
    if str_eq(k, "get") {
        Some(owned("GET"))
    } else if str_eq(k, "put") {
        Some(owned("PUT"))
    } else if str_eq(k, "post") {
        Some(owned("POST"))
    } else if str_eq(k, "delete") {
        Some(owned("DELETE"))
    } else if str_eq(k, "options") {
        Some(owned("OPTIONS"))
    } else if str_eq(k, "head") {
        Some(owned("HEAD"))
    } else if str_eq(k, "patch") {
        Some(owned("PATCH"))
    } else if str_eq(k, "trace") {
        Some(owned("TRACE"))
    } else {
        None
    }
}

fn collect_ops(paths: &Option<JsonDoc>) -> (r: Vec<(String, String)>)
    ensures
        pair_views(r@) == match paths {
            Some(p) => match json_kind(p@) {
                JsonKind::Object(ps) => paths_ops(ps),
                _ => Seq::empty(),
            },
            None => Seq::<(Seq<char>, Seq<char>)>::empty(),
        },
{
    let mut out: Vec<(String, String)> = Vec::new();
    let p = match paths {
        Some(p) => p,
        None => {
            assert(pair_views(out@) =~= Seq::<(Seq<char>, Seq<char>)>::empty());
            return out;
        },
    };
    match json_shape(p) {
        JsonShape::Object(ps) => {
            let ghost pv = member_views(ps@);
            let mut i: usize = 0;
            assert(pv.take(0) =~= Seq::<(Seq<char>, Seq<char>)>::empty());
            assert(pair_views(out@) =~= Seq::<(Seq<char>, Seq<char>)>::empty());
            while i < ps.len()
                invariant
                    i <= ps@.len(),
                    pv == member_views(ps@),
                    pair_views(out@) == paths_ops(pv.take(i as int)),
                decreases ps.len() - i,
            {
                let ghost start = pair_views(out@);
                let ghost entry = pv[i as int];
                proof {
                    assert(pv.take(i + 1).drop_last() =~= pv.take(i as int));
                    assert(pv.take(i + 1).last() == entry);
                }
                match json_shape(&ps[i].1) {
                    JsonShape::Object(ops) => {
                        let ghost ov = member_views(ops@);
                        let mut j: usize = 0;
                        assert(ov.take(0) =~= Seq::<(Seq<char>, Seq<char>)>::empty());
                        assert(start + path_ops(entry.0, ov.take(0)) =~= start);
                        while j < ops.len()
                            invariant
                                j <= ops@.len(),
                                i < ps@.len(),
                                ov == member_views(ops@),
                                entry.0 == ps@[i as int].0@,
                                pair_views(out@) == start + path_ops(entry.0, ov.take(j as int)),
                            decreases ops.len() - j,
                        {
                            proof {
                                assert(ov.take(j + 1).drop_last() =~= ov.take(j as int));
                                assert(ov.take(j + 1).last() == ov[j as int]);
                            }
                            match method_of(ops[j].0.as_str()) {
                                Some(m) => {
                                    let ghost before = out@;
                                    let pair = (m, owned(ps[i].0.as_str()));
                                    out.push(pair);
                                    assert(pair_views(out@) =~= pair_views(before).push((pair.0@, pair.1@)));
                                    assert(start + path_ops(entry.0, ov.take(j + 1)) =~= (start + path_ops(
                                        entry.0,
                                        ov.take(j as int),
                                    )).push((pair.0@, pair.1@)));
                                },
                                None => {},
                            }
                            j = j + 1;
                        }
                        assert(ov.take(j as int) =~= ov);
                    },
                    _ => {
                        assert(start + item_ops(entry) =~= start);
                    },
                }
                i = i + 1;
            }
            assert(pv.take(i as int) =~= pv);
            out
        },
        _ => {
            assert(pair_views(out@) =~= Seq::<(Seq<char>, Seq<char>)>::empty());
            out
        },
    }
}

fn render_openapi(title: &str, base: &str, ops: &Vec<(String, String)>, mode: ImportMode) -> (r: String)
    ensures
        ({
            let ov = pair_views(ops@);
            r@ == "name: \""@ + title@ + "\"\nversion: \"1.0\"\n\nenvironment:\n  baseUrl: \""@ + base@ + "\"\n\nrequests:"@
                + if ov.len() == 0 {
                " []\n"@
            } else {
                "\n"@ + openapi_requests_text(ov, mode)
            }
        }),
{
    let ghost ov = pair_views(ops@);
    let mut y = owned("name: \"");
    push_str(&mut y, title);
    push_str(&mut y, "\"\nversion: \"1.0\"\n\nenvironment:\n  baseUrl: \"");
    push_str(&mut y, base);
    push_str(&mut y, "\"\n\nrequests:");
    if ops.len() == 0 {
        push_str(&mut y, " []\n");
        return y;
    }
    push_str(&mut y, "\n");
    let ghost head = y@;
    let mut k: usize = 0;
    assert(ov.take(0) =~= Seq::<(Seq<char>, Seq<char>)>::empty());
    assert(head + openapi_requests_text(ov.take(0), mode) =~= head);
    while k < ops.len()
        invariant
            k <= ops@.len(),
            ov == pair_views(ops@),
            y@ == head + openapi_requests_text(ov.take(k as int), mode),
        decreases ops.len() - k,
    {
        proof {
            assert(ov.take(k + 1).drop_last() =~= ov.take(k as int));
            assert(ov.take(k + 1).last() == ov[k as int]);
        }
        let ghost before = y@;
        push_str(&mut y, "  - name: \"");
        push_str(&mut y, ops[k].0.as_str());
        push_str(&mut y, " ");
        push_str(&mut y, ops[k].1.as_str());
        push_str(&mut y, "\"\n    method: ");
        push_str(&mut y, ops[k].0.as_str());
        push_str(&mut y, "\n    url: \"{{baseUrl}}");
        push_str(&mut y, ops[k].1.as_str());
        push_str(&mut y, "\"\n");
        if mode == ImportMode::WithTests {
            push_str(&mut y, "    assertions:\n      - status: 200\n");
        }
        assert(y@ =~= before + openapi_request_text(ov[k as int], mode));
        k = k + 1;
    }
    assert(ov.take(k as int) =~= ov);
    y
}

/// Converts an OpenAPI or Swagger document (YAML or JSON text) into the YAML
/// text of a collection: one request per operation under `paths`, named by
/// method and path, against a `baseUrl` taken from the servers or host.
pub fn from_openapi(spec: &str, mode: ImportMode) -> (r: Result<String, ImportError>)
    ensures
        openapi_rel(spec@, mode, r),
{
    let doc = match parse_yaml_as_json(spec) {
        Ok(d) => Some(d),
        Err(m) => {
            return Err(ImportError::OpenApiParse(m));
        },
    };
    if field(&doc, "openapi").is_none() && field(&doc, "swagger").is_none() {
        return Err(ImportError::UnrecognisedFormat);
    }
    let title = text_or(string_value(&field(&field(&doc, "info"), "title")), "Imported API");
    let ghost d0 = doc->0@;
    let servers_url = string_value(&field(&first_element(&field(&doc, "servers")), "url"));
    let base = match servers_url {
        Some(u) => u,
        None => match string_value(&field(&doc, "host")) {
            Some(h) => {
                let mut b = text_or(string_value(&first_element(&field(&doc, "schemes"))), "https");
                let ghost scheme = b@;
                push_str(&mut b, "://");
                push_str(&mut b, h.as_str());
                let bp = text_or(string_value(&field(&doc, "basePath")), "");
                push_str(&mut b, bp.as_str());
                proof {
                    reveal_strlit("");
                    assert(bp@ == or_text(string_of(field_of(Some(d0), "basePath"@)), Seq::empty()));
                    assert(b@ == scheme + "://"@ + h@ + bp@);
                }
                b
            },
            None => String::new(),
        },
    };
    let ops = collect_ops(&field(&doc, "paths"));
    let y = render_openapi(title.as_str(), base.as_str(), &ops, mode);
    proof {
        let d = doc->0@;
        assert(opt_doc(doc) == Some(d));
        assert(title@ == openapi_title(d));
        assert(base@ == openapi_base(d));
        assert(pair_views(ops@) == openapi_ops(d));
        assert(y@ == openapi_yaml(d, mode));
    }
    Ok(y)
}

} // verus!
