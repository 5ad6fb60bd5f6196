//! The HTTP side of a request, as far as it is computation: the response
//! record, the resolved request handed to the transport, the merging of
//! response headers, the display form of a form body, and the mapping of
//! transport failures to request errors.

use vstd::prelude::*;
use crate::error::RequestError;
use crate::strmap::{StrMap, is_sorted_lex, no_dups};
use crate::text::{
    chars_of, char_pos_from, find_char_from, find_from, first_occurrence, lemma_char_pos_from,
    lemma_first_occurrence_from, lowercase, owned, push_str, str_contains, contains_seq,
    string_from_range, to_lowercase, views,
};
use crate::yaml::YamlValue;

verus! {

/// Per-request timing breakdown, in milliseconds.
///
/// Only `wait_ms` (request sent to first byte) and `receive_ms` (body read)
/// are measured by the transport; `total_ms` is the whole request lifecycle,
/// set by the runner. The other phases are not measured and stay 0.
#[derive(Debug, Clone, Copy)]
pub struct RequestTiming {
    pub dns_ms: u64,
    pub connect_ms: u64,
    pub tls_ms: u64,
    pub send_ms: u64,
    pub wait_ms: u64,
    pub receive_ms: u64,
    pub total_ms: u64,
}

impl Default for RequestTiming {
    fn default() -> (r: Self)
        ensures
            r.dns_ms == 0 && r.connect_ms == 0 && r.tls_ms == 0 && r.send_ms == 0,
            r.wait_ms == 0 && r.receive_ms == 0 && r.total_ms == 0,
    {
        RequestTiming {
            dns_ms: 0,
            connect_ms: 0,
            tls_ms: 0,
            send_ms: 0,
            wait_ms: 0,
            receive_ms: 0,
            total_ms: 0,
        }
    }
}

/// A captured HTTP response. 4xx and 5xx statuses are responses, not errors.
pub struct HttpResponse {
    /// HTTP status code.
    pub status: u16,
    /// Response headers, names lowercased; repeated headers joined with `, `.
    pub headers: StrMap,
    /// Response body as text.
    pub body: String,
    /// Timing breakdown.
    pub timing: RequestTiming,
    /// The request body as sent, for display; `None` when there was none.
    pub request_body: Option<String>,
    /// The fully interpolated request URL.
    pub url: String,
}

/// A request body with its placeholders resolved, ready for the transport.
pub enum ResolvedBody {
    /// A JSON body, as the YAML value to serialise.
    Json(YamlValue),
    /// A text body.
    Text(String),
    /// URL-encoded form fields.
    Form(StrMap),
}

/// A request with every template resolved, ready for the transport.
pub struct ResolvedRequest {
    pub method: String,
    pub url: String,
    pub headers: StrMap,
    pub body: Option<ResolvedBody>,
    /// Per-request timeout in milliseconds.
    pub timeout_ms: u64,
}

// ─── response headers ────────────────────────────────────────────────────────

/// The header map built from raw `(name, value)` pairs in arrival order:
/// names are lowercased, and a repeated name gets its values joined with
/// `, `.
pub open spec fn merged_headers(raw: Seq<(Seq<char>, Seq<char>)>) -> Map<Seq<char>, Seq<char>>
    decreases raw.len(),
{
    if raw.len() == 0 {
        Map::empty()
    } else {
        let m = merged_headers(raw.drop_last());
        let k = lowercase(raw.last().0);
        let v = raw.last().1;
        if m.contains_key(k) {
            m.insert(k, m[k] + seq![',', ' '] + v)
        } else {
            m.insert(k, v)
        }
    }
}

/// Builds the response header map from the raw header pairs, lowercasing
/// names and joining repeated values with `, `.
pub fn merge_response_headers(raw: &Vec<(String, String)>) -> (r: StrMap)
    ensures
        r@ == merged_headers(raw@.map_values(|p: (String, String)| (p.0@, p.1@))),
{
    let ghost rv = raw@.map_values(|p: (String, String)| (p.0@, p.1@));
    let mut m = StrMap::new();
    let mut i: usize = 0;
    assert(rv.take(0) =~= Seq::<(Seq<char>, Seq<char>)>::empty());
    while i < raw.len()
        invariant
            i <= raw.len(),
            rv == raw@.map_values(|p: (String, String)| (p.0@, p.1@)),
            m@ == merged_headers(rv.take(i as int)),
        decreases raw.len() - i,
    {
        proof {
            assert(rv.take(i + 1).drop_last() =~= rv.take(i as int));
            assert(rv.take(i + 1).last() == rv[i as int]);
        }
        let key = to_lowercase(raw[i].0.as_str());
        let existing = match m.get(key.as_str()) {
            Some(old) => Some(owned(old.as_str())),
            None => None,
        };
        let ghost prev = m@;
        let ghost kk = key@;
        match existing {
            Some(mut joined) => {
                let ghost base = joined@;
                push_str(&mut joined, ", ");
                push_str(&mut joined, raw[i].1.as_str());
                proof {
                    reveal_strlit(", ");
                    assert(", "@ =~= seq![',', ' ']);
                    assert(joined@ == prev[kk] + seq![',', ' '] + rv[i as int].1);
                }
                m.insert(key, joined);
            },
            None => {
                m.insert(key, owned(raw[i].1.as_str()));
            },
        }
        i = i + 1;
    }
    proof {
        crate::text::lemma_take_all(rv);
    }
    m
}

// ─── domain of a URL ─────────────────────────────────────────────────────────

/// `s` up to (not including) its first `c`, or all of `s`.
pub open spec fn up_to_char(s: Seq<char>, c: char) -> Seq<char> {
    match char_pos_from(s, c, 0) {
        None => s,
        Some(i) => s.take(i),
    }
}

/// The host part of a URL, for error messages: the text after the first
/// `://` (up to a further `://`), cut at the first `/` and then at the first
/// `:`; the whole URL when it holds no `://`.
pub open spec fn url_domain(u: Seq<char>) -> Seq<char> {
    let sep = seq![':', '/', '/'];
    match first_occurrence(u, sep) {
        None => u,
        Some(p) => {
            let rest = u.skip(p + 3);
            let piece = match first_occurrence(rest, sep) {
                None => rest,
                Some(q) => rest.take(q),
            };
            up_to_char(up_to_char(piece, '/'), ':')
        },
    }
}

fn cut_at(v: &Vec<char>, c: char) -> (r: Vec<char>)
    ensures
        r@ == up_to_char(v@, c),
{
    match find_char_from(v, c, 0) {
        None => {
            let mut out: Vec<char> = Vec::new();
            let mut i: usize = 0;
            while i < v.len()
                invariant
                    i <= v.len(),
                    out@ == v@.take(i as int),
                decreases v.len() - i,
            {
                out.push(v[i]);
                i = i + 1;
                assert(out@ =~= v@.take(i as int));
            }
            out
        },
        Some(k) => {
            let mut out: Vec<char> = Vec::new();
            let mut i: usize = 0;
            while i < k
                invariant
                    i <= k < v.len(),
                    out@ == v@.take(i as int),
                decreases k - i,
            {
                out.push(v[i]);
                i = i + 1;
                assert(out@ =~= v@.take(i as int));
            }
            out
        },
    }
}

/// Extracts the host name from a URL, for use in error messages.
pub fn extract_domain(url: &str) -> (r: String)
    ensures
        r@ == url_domain(url@),
{
    let v = chars_of(url);
    let sep = vec![':', '/', '/'];
    assert(sep@ =~= seq![':', '/', '/']);
    match find_from(&v, &sep, 0) {
        None => owned(url),
        Some(p) => {
            proof {
                lemma_first_occurrence_from(v@, sep@, 0);
                assert(crate::text::occurs_at(v@, sep@, p as int));
            }
            let mut rest: Vec<char> = Vec::new();
            let mut i = p + 3;
            while i < v.len()
                invariant
                    p + 3 <= i <= v.len(),
                    rest@ == v@.subrange(p + 3, i as int),
                decreases v.len() - i,
            {
                rest.push(v[i]);
                i = i + 1;
                assert(rest@ =~= v@.subrange(p + 3, i as int));
            }
            assert(rest@ =~= v@.skip(p + 3));
            let piece = match find_from(&rest, &sep, 0) {
                None => rest,
                Some(q) => {
                    let mut out: Vec<char> = Vec::new();
                    let mut j: usize = 0;
                    proof {
                        lemma_first_occurrence_from(rest@, sep@, 0);
                        assert(crate::text::occurs_at(rest@, sep@, q as int));
                    }
                    while j < q
                        invariant
                            j <= q <= rest.len(),
                            out@ == rest@.take(j as int),
                        decreases q - j,
                    {
                        out.push(rest[j]);
                        j = j + 1;
                        assert(out@ =~= rest@.take(j as int));
                    }
                    out
                },
            };
            let a = cut_at(&piece, '/');
            let b = cut_at(&a, ':');
            crate::text::string_from_chars(&b)
        },
    }
}

// ─── transport failures ──────────────────────────────────────────────────────

/// What the transport reports about a failed request: its classification
/// flags and its message.
pub struct TransportFailure {
    /// The request timed out.
    pub is_timeout: bool,
    /// The redirect limit was hit.
    pub is_redirect: bool,
    /// Connecting failed (DNS, TLS or TCP).
    pub is_connect: bool,
    /// The transport's error message.
    pub message: String,
}

/// The request error for a transport failure on `url`: timeouts and redirect
/// loops by their flags; connect failures by their lowercased message
/// (`dns`, then `tls` or `certificate`, then `connection refused`); anything
/// else as a network error carrying the message.
pub open spec fn transport_error(f: TransportFailure, url: Seq<char>, timeout_ms: u64, r: RequestError) -> bool {
    let low = lowercase(f.message@);
    if f.is_timeout {
        r matches RequestError::Timeout { url: u, timeout_ms: t } && u@ == url && t == timeout_ms
    } else if f.is_redirect {
        r matches RequestError::TooManyRedirects { url: u, max_redirects: m } && u@ == url && m == 10
    } else if f.is_connect && contains_seq(low, "dns"@) {
        r matches RequestError::DnsResolution { domain, cause } && domain@ == url_domain(url)
            && cause@ == f.message@
    } else if f.is_connect && (contains_seq(low, "tls"@) || contains_seq(low, "certificate"@)) {
        r matches RequestError::TlsHandshake { domain, cause } && domain@ == url_domain(url)
            && cause@ == f.message@
    } else if f.is_connect && contains_seq(low, "connection refused"@) {
        r matches RequestError::ConnectionRefused { url: u } && u@ == url
    } else {
        r matches RequestError::Network { cause } && cause@ == f.message@
    }
}

/// Maps a transport failure on `url` to the matching [`RequestError`].
pub fn map_transport_error(f: &TransportFailure, url: &str, timeout_ms: u64) -> (r: RequestError)
    ensures
        transport_error(*f, url@, timeout_ms, r),
{
    if f.is_timeout {
        return RequestError::Timeout { url: owned(url), timeout_ms };
    }
    if f.is_redirect {
        return RequestError::TooManyRedirects { url: owned(url), max_redirects: 10 };
    }
    if f.is_connect {
        let low = to_lowercase(f.message.as_str());
        if str_contains(low.as_str(), "dns") {
            return RequestError::DnsResolution {
                domain: extract_domain(url),
                cause: owned(f.message.as_str()),
            };
        }
        if str_contains(low.as_str(), "tls") || str_contains(low.as_str(), "certificate") {
            return RequestError::TlsHandshake {
                domain: extract_domain(url),
                cause: owned(f.message.as_str()),
            };
        }
        if str_contains(low.as_str(), "connection refused") {
            return RequestError::ConnectionRefused { url: owned(url) };
        }
    }
    RequestError::Network { cause: owned(f.message.as_str()) }
}

// ─── form bodies ─────────────────────────────────────────────────────────────

/// The `application/x-www-form-urlencoded` byte serialisation of a string, as
/// `form_urlencoded::byte_serialize` computes it from the UTF-8 bytes of `s`.
pub uninterp spec fn form_encoded(s: Seq<char>) -> Seq<char>;

/// Pairs written as `name=value`, joined with `&`.
pub open spec fn joined_pairs(ps: Seq<(Seq<char>, Seq<char>)>) -> Seq<char>
    decreases ps.len(),
{
    if ps.len() == 0 {
        Seq::empty()
    } else {
        let pair = ps.last().0 + seq!['='] + ps.last().1;
        if ps.len() == 1 {
            pair
        } else {
            joined_pairs(ps.drop_last()) + seq!['&'] + pair
        }
    }
}

/// Both parts of each pair byte-serialised.
pub open spec fn encoded_pairs(ps: Seq<(Seq<char>, Seq<char>)>) -> Seq<(Seq<char>, Seq<char>)> {
    ps.map_values(|p: (Seq<char>, Seq<char>)| (form_encoded(p.0), form_encoded(p.1)))
}

/// Wraps `url::form_urlencoded::Serializer` on a new `String`: the pairs
/// appended in order (`extend_pairs`), then `finish`. Each pair is written as
/// its byte-serialised name (named by [`form_encoded`]), `=` and
/// byte-serialised value, with `&` between pairs.
#[verifier::external_body]
fn form_serialize(pairs: &Vec<(String, String)>) -> (r: String)
    ensures
        r@ == joined_pairs(
            pairs@.map_values(|p: (String, String)| (form_encoded(p.0@), form_encoded(p.1@))),
        ),
{
    url::form_urlencoded::Serializer::new(String::new()).extend_pairs(pairs.iter()).finish()
}

/// The `name=value` pairs of `form` for the keys `ks`, both parts
/// byte-serialised, joined with `&`.
pub open spec fn form_pairs_text(ks: Seq<Seq<char>>, form: Map<Seq<char>, Seq<char>>) -> Seq<char> {
    joined_pairs(encoded_pairs(ks.map_values(|k: Seq<char>| (k, form[k]))))
}

/// The display form of a form body: its fields sorted by name and
/// URL-encoded as `name=value` pairs joined with `&`.
pub fn form_display(form: &StrMap) -> (r: String)
    ensures
        exists|ks: Seq<Seq<char>>|
            is_sorted_lex(ks) && no_dups(ks) && (forall|k: Seq<char>| #[trigger] ks.contains(k) <==> form@.contains_key(k))
                && r@ == form_pairs_text(ks, form@),
{
    let keys = form.sorted_keys();
    let ghost ks = views(keys@);
    let ghost target = ks.map_values(|k: Seq<char>| (k, form@[k]));
    let mut pairs: Vec<(String, String)> = Vec::new();
    let mut i: usize = 0;
    while i < keys.len()
        invariant
            i <= keys.len(),
            ks == views(keys@),
            target == ks.map_values(|k: Seq<char>| (k, form@[k])),
            forall|k: Seq<char>| #[trigger] ks.contains(k) ==> form@.contains_key(k),
            pairs@.map_values(|p: (String, String)| (p.0@, p.1@)) == target.take(i as int),
        decreases keys.len() - i,
    {
        proof {
            assert(ks.contains(ks[i as int]));
        }
        let v = match form.get(keys[i].as_str()) {
            Some(v) => owned(v.as_str()),
            None => String::new(),
        };
        let ghost before = pairs@;
        let pair = (owned(keys[i].as_str()), v);
        let ghost pv = (pair.0@, pair.1@);
        pairs.push(pair);
        assert(pairs@.map_values(|p: (String, String)| (p.0@, p.1@)) =~= before.map_values(
            |p: (String, String)| (p.0@, p.1@),
        ).push(pv));
        assert(target.take(i + 1) =~= target.take(i as int).push(target[i as int]));
        i = i + 1;
    }
    assert(target.take(i as int) =~= target);
    assert(pairs@.map_values(|p: (String, String)| (form_encoded(p.0@), form_encoded(p.1@))) =~= encoded_pairs(
        target,
    ));
    form_serialize(&pairs)
}

} // verus!
