//! Error types of collection loading and request execution, with their
//! human-readable messages.

use vstd::prelude::*;
use crate::text::{views, lemma_views_push, lemma_take_next, lemma_take_all, concat, decimal, owned, push_str, u64_to_string, usize_to_string};
use crate::script::ScriptError;

verus! {

/// The `Debug` rendering of a string slice (quoted and escaped), as
/// `format!("{:?}", s)` computes it.
pub uninterp spec fn debug_str(s: Seq<char>) -> Seq<char>;

/// Wraps `<str as Debug>::fmt`: the quoted, escaped form of `s`, a function of
/// `s` alone (named by [`debug_str`]).
#[verifier::external_body]
pub(crate) fn debug_quote(s: &str) -> (r: String)
    ensures
        r@ == debug_str(s@),
{
    format!("{:?}", s)
}

/// `items` joined with `sep` between consecutive elements.
pub open spec fn join_seq(items: Seq<Seq<char>>, sep: Seq<char>) -> Seq<char>
    decreases items.len(),
{
    if items.len() == 0 {
        Seq::empty()
    } else if items.len() == 1 {
        items[0]
    } else {
        join_seq(items.drop_last(), sep) + sep + items.last()
    }
}

/// The `Debug` rendering of a list of strings: `["a", "b"]`.
pub open spec fn debug_list(items: Seq<Seq<char>>) -> Seq<char> {
    "["@ + join_seq(items.map_values(|s: Seq<char>| debug_str(s)), ", "@) + "]"@
}

/// Joins `items` with `sep`.
pub fn join_strings(items: &Vec<String>, sep: &str) -> (r: String)
    ensures
        r@ == join_seq(items@.map_values(|s: String| s@), sep@),
{
    let ghost v = items@.map_values(|s: String| s@);
    let mut out = String::new();
    let mut i: usize = 0;
    while i < items.len()
        invariant
            i <= items@.len(),
            v == items@.map_values(|s: String| s@),
            out@ == join_seq(v.take(i as int), sep@),
        decreases items@.len() - i,
    {
        if i > 0 {
            push_str(&mut out, sep);
        }
        push_str(&mut out, items[i].as_str());
        proof {
            assert(v.take(i + 1).drop_last() =~= v.take(i as int));
            if i == 0 {
                assert(v.take(0) =~= Seq::<Seq<char>>::empty());
                assert(out@ =~= v.take(1)[0]);
            }
        }
        i = i + 1;
    }
    proof {
        assert(v.take(items@.len() as int) =~= v);
    }
    out
}

/// Renders a list of strings the way `Vec<String>`'s `Debug` does.
pub fn debug_string_list(items: &Vec<String>) -> (r: String)
    ensures
        r@ == debug_list(items@.map_values(|s: String| s@)),
{
    let mut quoted: Vec<String> = Vec::new();
    let mut i: usize = 0;
    while i < items.len()
        invariant
            i <= items@.len(),
            quoted@.map_values(|s: String| s@) == items@.map_values(|s: String| s@).take(
                i as int,
            ).map_values(|s: Seq<char>| debug_str(s)),
        decreases items@.len() - i,
    {
        let ghost before = quoted@;
        let q = debug_quote(items[i].as_str());
        quoted.push(q);
        proof {
            lemma_views_push(before, q);
            let v = views(items@);
            lemma_take_next(v, i as int);
            assert(v.take(i + 1).map_values(|s: Seq<char>| debug_str(s)) =~= v.take(i as int).map_values(|s: Seq<char>| debug_str(s)).push(debug_str(v[i as int])));
        }
        i = i + 1;
    }
    proof {
        assert(items@.map_values(|s: String| s@).take(items@.len() as int) =~= items@.map_values(
            |s: String| s@,
        ));
    }
    let joined = join_strings(&quoted, ", ");
    let mut out = owned("[");
    push_str(&mut out, joined.as_str());
    push_str(&mut out, "]");
    out
}

/// All errors that collection loading and template interpolation produce.
#[derive(Debug)]
pub enum CollectionError {
    /// The collection file could not be read from disk.
    FileRead { path: String, cause: String },
    /// The collection file exceeds the 10 MB size limit.
    FileTooLarge { size_bytes: usize },
    /// A YAML anchor (`&name`) was found.
    AnchorsNotAllowed,
    /// A YAML alias (`*name`) was found.
    AliasesNotAllowed,
    /// A key appears more than once at the same YAML level.
    DuplicateKey { key: String },
    /// The raw YAML could not be parsed.
    YamlParse { cause: String },
    /// The YAML document is nested more than the allowed number of levels.
    NestingTooDeep { max: usize },
    /// An unknown field was found; `suggestion` holds a close valid field name.
    UnknownField { field: String, suggestion: Option<String> },
    /// A required field is absent.
    MissingField { field: String },
    /// A `{{variable}}` placeholder names no defined variable.
    VariableNotFound { variable: String, available: Vec<String> },
    /// A `{{` was opened but never closed; `position` is its byte offset.
    VariableSyntaxError { template: String, position: usize },
}

/// The message of a [`CollectionError`].
pub open spec fn collection_error_text(e: CollectionError) -> Seq<char> {
    match e {
        CollectionError::FileRead { path, cause } => "Could not read file "@ + path@ + ": "@
            + cause@,
        CollectionError::FileTooLarge { size_bytes } => "Collection file too large: "@ + decimal(
            size_bytes as nat,
        ) + " bytes (limit: 10MB)"@,
        CollectionError::AnchorsNotAllowed => "Anchors are not allowed in Strex collections"@,
        CollectionError::AliasesNotAllowed => "Aliases are not allowed in Strex collections"@,
        CollectionError::DuplicateKey { key } => "Duplicate key '"@ + key@ + "' found"@,
        CollectionError::YamlParse { cause } => "YAML parse error: "@ + cause@,
        CollectionError::NestingTooDeep { max } => "Maximum nesting depth exceeded ("@ + decimal(
            max as nat,
        ) + " levels)"@,
        CollectionError::UnknownField { field, suggestion } => "Unknown field '"@ + field@ + "'"@
            + match suggestion {
            Some(s) => ". Did you mean '"@ + s@ + "'?"@,
            None => Seq::empty(),
        },
        CollectionError::MissingField { field } => "Missing required field '"@ + field@ + "'"@,
        CollectionError::VariableNotFound { variable, available } => "Variable '"@ + variable@
            + "' not found. Available: "@ + debug_list(available@.map_values(|s: String| s@)),
        CollectionError::VariableSyntaxError { template, position } =>
            "Malformed variable placeholder in template '"@ + template@ + "' at position "@
            + decimal(position as nat),
    }
}

impl CollectionError {
    /// The human-readable message (the error's display text).
    pub fn message(&self) -> (r: String)
        ensures
            r@ == collection_error_text(*self),
    {
        match self {
            CollectionError::FileRead { path, cause } => {
                let mut s = owned("Could not read file ");
                push_str(&mut s, path.as_str());
                push_str(&mut s, ": ");
                push_str(&mut s, cause.as_str());
                s
            },
            CollectionError::FileTooLarge { size_bytes } => {
                let mut s = owned("Collection file too large: ");
                let n = usize_to_string(*size_bytes);
                push_str(&mut s, n.as_str());
                push_str(&mut s, " bytes (limit: 10MB)");
                s
            },
            CollectionError::AnchorsNotAllowed => owned("Anchors are not allowed in Strex collections"),
            CollectionError::AliasesNotAllowed => owned("Aliases are not allowed in Strex collections"),
            CollectionError::DuplicateKey { key } => {
                let mut s = owned("Duplicate key '");
                push_str(&mut s, key.as_str());
                push_str(&mut s, "' found");
                s
            },
            CollectionError::YamlParse { cause } => concat("YAML parse error: ", cause.as_str()),
            CollectionError::NestingTooDeep { max } => {
                let mut s = owned("Maximum nesting depth exceeded (");
                let n = usize_to_string(*max);
                push_str(&mut s, n.as_str());
                push_str(&mut s, " levels)");
                s
            },
            CollectionError::UnknownField { field, suggestion } => {
                let mut s = owned("Unknown field '");
                push_str(&mut s, field.as_str());
                push_str(&mut s, "'");
                match suggestion {
                    Some(sug) => {
                        push_str(&mut s, ". Did you mean '");
                        push_str(&mut s, sug.as_str());
                        push_str(&mut s, "'?");
                    },
                    None => {
                        assert(s@ + Seq::<char>::empty() =~= s@);
                    },
                }
                s
            },
            CollectionError::MissingField { field } => {
                let mut s = owned("Missing required field '");
                push_str(&mut s, field.as_str());
                push_str(&mut s, "'");
                s
            },
            CollectionError::VariableNotFound { variable, available } => {
                let mut s = owned("Variable '");
                push_str(&mut s, variable.as_str());
                push_str(&mut s, "' not found. Available: ");
                let list = debug_string_list(available);
                push_str(&mut s, list.as_str());
                s
            },
            CollectionError::VariableSyntaxError { template, position } => {
                let mut s = owned("Malformed variable placeholder in template '");
                push_str(&mut s, template.as_str());
                push_str(&mut s, "' at position ");
                let n = usize_to_string(*position);
                push_str(&mut s, n.as_str());
                s
            },
        }
    }
}

/// Identifies which assertion type produced a failure.
#[derive(Debug, Clone, Copy, PartialEq, Eq, Structural)]
pub enum AssertionType {
    /// A `status` assertion.
    Status,
    /// A `jsonPath` assertion.
    JsonPath,
    /// A `header` assertion.
    Header,
    /// An `assert()` call in a post-request script.
    Script,
}

/// A single assertion failure; failures do not stop a request.
#[derive(Debug)]
pub struct AssertionFailure {
    /// Which kind of assertion failed.
    pub assertion_type: AssertionType,
    /// What value was expected.
    pub expected: String,
    /// What value was actually observed.
    pub actual: String,
    /// The JSONPath expression, for `jsonPath` assertions.
    pub path: Option<String>,
}

/// A stopping error for a single request: the request is marked as errored and
/// execution continues with the next one.
#[derive(Debug)]
pub enum RequestError {
    /// Variable interpolation failed.
    Interpolation(CollectionError),
    /// DNS resolution failed.
    DnsResolution { domain: String, cause: String },
    /// TLS handshake failed.
    TlsHandshake { domain: String, cause: String },
    /// TCP connection refused.
    ConnectionRefused { url: String },
    /// The request timed out.
    Timeout { url: String, timeout_ms: u64 },
    /// The redirect limit was exceeded.
    TooManyRedirects { url: String, max_redirects: u32 },
    /// The HTTP response could not be read or decoded.
    InvalidResponse { cause: String },
    /// Any other transport error.
    Network { cause: String },
    /// An assertion map in the YAML is malformed.
    InvalidAssertion { cause: String },
    /// A request body has structurally invalid content.
    InvalidBody { cause: String },
    /// A pre- or post-request script failed.
    Script(ScriptError),
}

/// The message of a [`RequestError`].
pub open spec fn request_error_text(e: RequestError) -> Seq<char> {
    match e {
        RequestError::Interpolation(c) => "Variable interpolation failed: "@
            + collection_error_text(c),
        RequestError::DnsResolution { domain, cause } => "DNS resolution failed for '"@ + domain@
            + "': "@ + cause@,
        RequestError::TlsHandshake { domain, cause } => "TLS handshake failed for '"@ + domain@
            + "': "@ + cause@,
        RequestError::ConnectionRefused { url } => "Connection refused to '"@ + url@ + "'"@,
        RequestError::Timeout { url, timeout_ms } => "Request to '"@ + url@ + "' timed out after "@
            + decimal(timeout_ms as nat) + "ms"@,
        RequestError::TooManyRedirects { url, max_redirects } => "Too many redirects for '"@
            + url@ + "' (max: "@ + decimal(max_redirects as nat) + ")"@,
        RequestError::InvalidResponse { cause } => "Invalid HTTP response: "@ + cause@,
        RequestError::Network { cause } => "Network error: "@ + cause@,
        RequestError::InvalidAssertion { cause } => "Invalid assertion definition: "@ + cause@,
        RequestError::InvalidBody { cause } => "Invalid request body: "@ + cause@,
        RequestError::Script(s) => "Script error: "@ + crate::script::script_error_text(s),
    }
}

impl RequestError {
    /// The human-readable message (the error's display text).
    pub fn message(&self) -> (r: String)
        ensures
            r@ == request_error_text(*self),
    {
        match self {
            RequestError::Interpolation(c) => {
                let inner = c.message();
                concat("Variable interpolation failed: ", inner.as_str())
            },
            RequestError::DnsResolution { domain, cause } => {
                let mut s = owned("DNS resolution failed for '");
                push_str(&mut s, domain.as_str());
                push_str(&mut s, "': ");
                push_str(&mut s, cause.as_str());
                s
            },
            RequestError::TlsHandshake { domain, cause } => {
                let mut s = owned("TLS handshake failed for '");
                push_str(&mut s, domain.as_str());
                push_str(&mut s, "': ");
                push_str(&mut s, cause.as_str());
                s
            },
            RequestError::ConnectionRefused { url } => {
                let mut s = owned("Connection refused to '");
                push_str(&mut s, url.as_str());
                push_str(&mut s, "'");
                s
            },
            RequestError::Timeout { url, timeout_ms } => {
                let mut s = owned("Request to '");
                push_str(&mut s, url.as_str());
                push_str(&mut s, "' timed out after ");
                let n = u64_to_string(*timeout_ms);
                push_str(&mut s, n.as_str());
                push_str(&mut s, "ms");
                s
            },
            RequestError::TooManyRedirects { url, max_redirects } => {
                let mut s = owned("Too many redirects for '");
                push_str(&mut s, url.as_str());
                push_str(&mut s, "' (max: ");
                let n = u64_to_string(*max_redirects as u64);
                push_str(&mut s, n.as_str());
                push_str(&mut s, ")");
                s
            },
            RequestError::InvalidResponse { cause } => concat("Invalid HTTP response: ", cause.as_str()),
            RequestError::Network { cause } => concat("Network error: ", cause.as_str()),
            RequestError::InvalidAssertion { cause } => concat(
                "Invalid assertion definition: ",
                cause.as_str(),
            ),
            RequestError::InvalidBody { cause } => concat("Invalid request body: ", cause.as_str()),
            RequestError::Script(e) => {
                let inner = e.message();
                concat("Script error: ", inner.as_str())
            },
        }
    }
}

} // verus!
