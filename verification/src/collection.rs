//! The collection model: requests, bodies and failure actions, as loaded from
//! a collection file.

use vstd::prelude::*;
use crate::strmap::StrMap;
use crate::yaml::{AssertionMap, YamlValue};
use crate::text::{concat, owned, push_str, str_eq};

verus! {

/// What to do when a request fails (an assertion fails or a script throws).
#[derive(Debug, Clone)]
pub enum OnFailure {
    /// Abort the run: every later request is skipped.
    Stop,
    /// Skip requests until the named one, then resume there.
    SkipTo(String),
}

/// Reads the scalar form of a failure action: only `stop` is known.
pub fn on_failure_from_name(v: &str) -> (r: Result<OnFailure, String>)
    ensures
        v@ == "stop"@ ==> r matches Ok(OnFailure::Stop),
        v@ != "stop"@ ==> (r matches Err(m) && m@ == "unknown variant `"@ + v@ + "`, expected `stop`"@),
{
    if str_eq(v, "stop") {
        Ok(OnFailure::Stop)
    } else {
        let mut m = owned("unknown variant `");
        push_str(&mut m, v);
        push_str(&mut m, "`, expected `stop`");
        Err(m)
    }
}

/// Checks the first key of the mapping form of a failure action: there must
/// be one, and it must be `skip_to`.
pub fn check_skip_to_key(key: Option<&str>) -> (r: Result<(), String>)
    ensures
        key is None ==> (r matches Err(m) && m@ == "expected `skip_to` key"@),
        key is Some && key->0@ == "skip_to"@ ==> r is Ok,
        key is Some && key->0@ != "skip_to"@ ==> (r matches Err(m) && m@ == "unknown field `"@ + key->0@
            + "`, expected `skip_to`"@),
{
    match key {
        None => Err(owned("expected `skip_to` key")),
        Some(k) => {
            if str_eq(k, "skip_to") {
                Ok(())
            } else {
                let mut m = owned("unknown field `");
                push_str(&mut m, k);
                push_str(&mut m, "`, expected `skip_to`");
                Err(m)
            }
        },
    }
}

/// Completes the mapping form of a failure action from the `skip_to` target:
/// a further key is refused.
pub fn finish_skip_to(target: String, extra_key: bool) -> (r: Result<OnFailure, String>)
    ensures
        !extra_key ==> (r matches Ok(OnFailure::SkipTo(t)) && t@ == target@),
        extra_key ==> (r matches Err(m) && m@ == "unexpected extra key after `skip_to`"@),
{
    if extra_key {
        Err(owned("unexpected extra key after `skip_to`"))
    } else {
        Ok(OnFailure::SkipTo(target))
    }
}

/// How a request body is serialised.
#[derive(Debug, Clone, Copy, PartialEq, Eq, Structural)]
pub enum BodyType {
    /// JSON (`Content-Type: application/json`).
    Json,
    /// Plain text (`Content-Type: text/plain`).
    Text,
    /// URL-encoded form data.
    Form,
}

/// The body to send with a request.
#[derive(Clone)]
pub struct Body {
    /// How the content is serialised.
    pub body_type: BodyType,
    /// The content: a scalar, mapping or sequence.
    pub content: YamlValue,
}

/// One HTTP request of a collection.
#[derive(Clone)]
pub struct Request {
    /// Unique name, used in output.
    pub name: String,
    /// HTTP method.
    pub method: String,
    /// Target URL; may hold `{{variable}}` placeholders.
    pub url: String,
    /// Request headers; values may hold placeholders.
    pub headers: StrMap,
    /// Optional body.
    pub body: Option<Body>,
    /// Script run before the request is sent.
    pub pre_script: Option<String>,
    /// Script run after the response arrives.
    pub post_script: Option<String>,
    /// Declarative assertions, as written.
    pub assertions: Vec<AssertionMap>,
    /// Per-request timeout in milliseconds.
    pub timeout: Option<u64>,
    /// What to do when this request fails; `None` means continue.
    pub on_failure: Option<OnFailure>,
}

/// A collection: named requests with their environment and variables.
#[derive(Clone)]
pub struct Collection {
    /// Human-readable name.
    pub name: String,
    /// Schema version string.
    pub version: String,
    /// Inline environment: lowest priority in variable resolution.
    pub environment: StrMap,
    /// Declared variables in declaration order; `None` declares a variable
    /// with no value yet.
    pub variables: Vec<(String, Option<String>)>,
    /// Requests, in execution order.
    pub requests: Vec<Request>,
}

} // verus!
