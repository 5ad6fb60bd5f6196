//! `{{variable}}` template interpolation.

use vstd::prelude::*;
use crate::error::CollectionError;
use crate::strmap::{StrMap, is_sorted_lex, no_dups};
use crate::text::{
    byte_len, chars_of, lemma_first_occurrence_from, find_from, first_occurrence_from, occurs_at, lemma_utf8_len_prefix_mono, owned,
    push_char, push_str, string_from_range, trim, trim_bounds, utf8_len, utf8_prefix_len, views,
};

verus! {

/// Why a template cannot be interpolated.
pub enum InterpError {
    /// The `{{` at this character position is never closed.
    Unclosed(int),
    /// The placeholder names this key, which is not defined.
    Missing(Seq<char>),
}

/// The closing delimiter `}}`.
pub open spec fn close_delim() -> Seq<char> {
    seq!['}', '}']
}

/// A placeholder opens at position `i` of `t`.
pub open spec fn opens_at(t: Seq<char>, i: int) -> bool {
    0 <= i && i + 1 < t.len() && t[i] == '{' && t[i + 1] == '{'
}

/// Prefixes `out` to a successful result.
pub open spec fn prepend(out: Seq<char>, r: Result<Seq<char>, InterpError>) -> Result<Seq<char>, InterpError> {
    match r {
        Ok(s) => Ok(out + s),
        Err(e) => Err(e),
    }
}

/// Interpolating `t` from character position `i` on: text is copied, and each
/// `{{key}}` is replaced by the value of the trimmed key; the first `}}` after
/// an opening `{{` closes it.
pub open spec fn interp_from(t: Seq<char>, i: int, vars: Map<Seq<char>, Seq<char>>) -> Result<Seq<char>, InterpError>
    decreases t.len() - i,
{
    if i < 0 || i >= t.len() {
        Ok(Seq::empty())
    } else if opens_at(t, i) {
        match first_occurrence_from(t, close_delim(), i + 2) {
            None => Err(InterpError::Unclosed(i)),
            Some(j) => {
                proof {
                    lemma_first_occurrence_from(t, close_delim(), i + 2);
                }
                let key = trim(t.subrange(i + 2, j));
                if !vars.contains_key(key) {
                    Err(InterpError::Missing(key))
                } else {
                    prepend(vars[key], interp_from(t, j + 2, vars))
                }
            },
        }
    } else {
        prepend(seq![t[i]], interp_from(t, i + 1, vars))
    }
}

/// The result of interpolating template `t` with `vars`.
pub open spec fn interpolation(t: Seq<char>, vars: Map<Seq<char>, Seq<char>>) -> Result<Seq<char>, InterpError> {
    interp_from(t, 0, vars)
}

proof fn lemma_plain_from(t: Seq<char>, i: int, vars: Map<Seq<char>, Seq<char>>)
    requires
        0 <= i <= t.len(),
        forall|j: int| !#[trigger] opens_at(t, j),
    ensures
        interp_from(t, i, vars) == Ok::<Seq<char>, InterpError>(t.skip(i)),
    decreases t.len() - i,
{
    if i < t.len() {
        lemma_plain_from(t, i + 1, vars);
        assert(!opens_at(t, i));
        assert(seq![t[i]] + t.skip(i + 1) =~= t.skip(i));
    } else {
        assert(t.skip(i) =~= Seq::<char>::empty());
    }
}

/// Text without `{{` is left as it is: interpolating a template in which no
/// placeholder opens gives the template back, whatever the variables.
pub proof fn law_plain_text_unchanged(t: Seq<char>, vars: Map<Seq<char>, Seq<char>>)
    requires
        forall|i: int| !#[trigger] opens_at(t, i),
    ensures
        interpolation(t, vars) == Ok::<Seq<char>, InterpError>(t),
{
    lemma_plain_from(t, 0, vars);
    assert(t.skip(0) =~= t);
}

proof fn lemma_no_close_inside(k: Seq<char>, q: int)
    requires
        forall|i: int| 0 <= i < k.len() ==> #[trigger] k[i] != '}',
        2 <= q < k.len() + 2,
    ensures
        !occurs_at(seq!['{', '{'] + k + close_delim(), close_delim(), q),
{
    let a = seq!['{', '{'] + k;
    let t = a + close_delim();
    assert(a[q] == k[q - 2]);
    assert(t[q] == a[q]);
    if occurs_at(t, close_delim(), q) {
        assert(t.subrange(q, q + 2)[0] == t[q]);
        assert(close_delim()[0] == '}');
    }
}

proof fn lemma_first_close(k: Seq<char>, from: int)
    requires
        forall|i: int| 0 <= i < k.len() ==> #[trigger] k[i] != '}',
        2 <= from <= k.len() + 2,
    ensures
        first_occurrence_from(seq!['{', '{'] + k + close_delim(), close_delim(), from) == Some(k.len() as int + 2),
    decreases k.len() + 2 - from,
{
    let t = seq!['{', '{'] + k + close_delim();
    let n: int = k.len() as int;
    if from == n + 2 {
        assert(t.subrange(n + 2, n + 4) =~= close_delim());
        assert(occurs_at(t, close_delim(), n + 2));
    } else {
        lemma_no_close_inside(k, from);
        lemma_first_close(k, from + 1);
    }
}

/// A placeholder names its variable: `{{k}}` interpolates to the value of
/// `k` when `k` is defined, has no surrounding whitespace and no `}`.
pub proof fn law_placeholder_replaced(k: Seq<char>, vars: Map<Seq<char>, Seq<char>>)
    requires
        vars.contains_key(k),
        trim(k) == k,
        forall|i: int| 0 <= i < k.len() ==> #[trigger] k[i] != '}',
    ensures
        interpolation(seq!['{', '{'] + k + close_delim(), vars) == Ok::<Seq<char>, InterpError>(vars[k]),
{
    let t = seq!['{', '{'] + k + close_delim();
    let n: int = k.len() as int;
    lemma_first_close(k, 2);
    assert(opens_at(t, 0));
    assert(t.subrange(2, n + 2) =~= k);
    assert(interp_from(t, n + 4, vars) == Ok::<Seq<char>, InterpError>(Seq::empty()));
    assert(vars[k] + Seq::<char>::empty() =~= vars[k]);
}

proof fn lemma_occurrence_in_prefix(a: Seq<char>, b: Seq<char>, p: Seq<char>, f: int, j: int)
    requires
        0 <= f,
        first_occurrence_from(a, p, f) == Some(j),
    ensures
        first_occurrence_from(a + b, p, f) == Some(j),
    decreases a.len() - f,
{
    lemma_first_occurrence_from(a, p, f);
    if occurs_at(a, p, f) {
        assert((a + b).subrange(f, f + p.len()) =~= a.subrange(f, f + p.len()));
    } else {
        assert(f < j);
        assert((a + b).subrange(f, f + p.len()) =~= a.subrange(f, f + p.len()));
        assert(!occurs_at(a + b, p, f));
        lemma_occurrence_in_prefix(a, b, p, f + 1, j);
    }
}

proof fn lemma_occurrence_shift(a: Seq<char>, b: Seq<char>, p: Seq<char>, k: int)
    requires
        0 <= k,
    ensures
        first_occurrence_from(a + b, p, a.len() + k) == match first_occurrence_from(b, p, k) {
            Some(j) => Some(a.len() + j),
            None => None::<int>,
        },
    decreases b.len() - k,
{
    let s = a + b;
    let f = a.len() + k;
    if k <= b.len() && f + p.len() <= s.len() {
        assert(s.subrange(f, f + p.len()) =~= b.subrange(k, k + p.len()));
    }
    assert(occurs_at(s, p, f) == occurs_at(b, p, k));
    if k < b.len() && !occurs_at(b, p, k) {
        lemma_occurrence_shift(a, b, p, k + 1);
    }
}

proof fn lemma_interp_suffix(a: Seq<char>, b: Seq<char>, k: int, vars: Map<Seq<char>, Seq<char>>)
    requires
        0 <= k,
        interp_from(b, k, vars) is Ok,
    ensures
        interp_from(a + b, a.len() + k, vars) == interp_from(b, k, vars),
    decreases b.len() - k,
{
    let s = a + b;
    let i = a.len() + k;
    if k < b.len() {
        assert(opens_at(s, i) == opens_at(b, k));
        if opens_at(b, k) {
            lemma_occurrence_shift(a, b, close_delim(), k + 2);
            lemma_first_occurrence_from(b, close_delim(), k + 2);
            match first_occurrence_from(b, close_delim(), k + 2) {
                Some(j) => {
                    assert(first_occurrence_from(s, close_delim(), i + 2) == Some(a.len() + j));
                    assert(s.subrange(i + 2, a.len() + j) =~= b.subrange(k + 2, j));
                    lemma_interp_suffix(a, b, j + 2, vars);
                    assert(interp_from(s, a.len() + j + 2, vars) == interp_from(b, j + 2, vars));
                    assert(interp_from(s, i, vars) == interp_from(b, k, vars));
                },
                None => {},
            }
        } else {
            assert(s[i] == b[k]);
            lemma_interp_suffix(a, b, k + 1, vars);
            assert(interp_from(s, i + 1, vars) == interp_from(b, k + 1, vars));
            assert(interp_from(s, i, vars) == interp_from(b, k, vars));
        }
    } else {
        assert(i >= s.len());
    }
}

proof fn lemma_interp_concat_from(t1: Seq<char>, t2: Seq<char>, i: int, vars: Map<Seq<char>, Seq<char>>)
    requires
        0 <= i <= t1.len(),
        interp_from(t1, i, vars) is Ok,
        interpolation(t2, vars) is Ok,
        t1.len() == 0 || t1.last() != '{',
    ensures
        interp_from(t1 + t2, i, vars) == Ok::<Seq<char>, InterpError>(
            interp_from(t1, i, vars)->Ok_0 + interpolation(t2, vars)->Ok_0,
        ),
    decreases t1.len() - i,
{
    let s = t1 + t2;
    if i == t1.len() {
        lemma_interp_suffix(t1, t2, 0, vars);
        assert(Seq::<char>::empty() + interpolation(t2, vars)->Ok_0 =~= interpolation(t2, vars)->Ok_0);
    } else if opens_at(t1, i) {
        assert(opens_at(s, i));
        lemma_first_occurrence_from(t1, close_delim(), i + 2);
        let j = first_occurrence_from(t1, close_delim(), i + 2)->0;
        lemma_occurrence_in_prefix(t1, t2, close_delim(), i + 2, j);
        assert(s.subrange(i + 2, j) =~= t1.subrange(i + 2, j));
        let key = trim(t1.subrange(i + 2, j));
        lemma_interp_concat_from(t1, t2, j + 2, vars);
        assert(vars[key] + (interp_from(t1, j + 2, vars)->Ok_0 + interpolation(t2, vars)->Ok_0) =~= (vars[key] + interp_from(
            t1,
            j + 2,
            vars,
        )->Ok_0) + interpolation(t2, vars)->Ok_0);
    } else {
        assert(!opens_at(s, i));
        assert(s[i] == t1[i]);
        lemma_interp_concat_from(t1, t2, i + 1, vars);
        assert(seq![t1[i]] + (interp_from(t1, i + 1, vars)->Ok_0 + interpolation(t2, vars)->Ok_0) =~= (seq![t1[i]]
            + interp_from(t1, i + 1, vars)->Ok_0) + interpolation(t2, vars)->Ok_0);
    }
}

/// Interpolation distributes over concatenation: when two templates both
/// interpolate and the first does not end with `{` (which could open a
/// placeholder across the seam), their concatenation interpolates to the
/// concatenation of the results.
pub proof fn law_interpolate_concat(t1: Seq<char>, t2: Seq<char>, vars: Map<Seq<char>, Seq<char>>)
    requires
        interpolation(t1, vars) is Ok,
        interpolation(t2, vars) is Ok,
        t1.len() == 0 || t1.last() != '{',
    ensures
        interpolation(t1 + t2, vars) == Ok::<Seq<char>, InterpError>(
            interpolation(t1, vars)->Ok_0 + interpolation(t2, vars)->Ok_0,
        ),
{
    lemma_interp_concat_from(t1, t2, 0, vars);
}

/// `names` lists the keys of `vars` once each, in ascending order.
pub open spec fn is_sorted_key_list(names: Seq<Seq<char>>, vars: Map<Seq<char>, Seq<char>>) -> bool {
    &&& is_sorted_lex(names)
    &&& no_dups(names)
    &&& forall|k: Seq<char>| #[trigger] names.contains(k) <==> vars.contains_key(k)
}

/// What [`interpolate`] returns for template `t` and variables `vars`: the
/// interpolated text, or the error for the first problem met.
pub open spec fn interpolate_result(
    t: Seq<char>,
    vars: Map<Seq<char>, Seq<char>>,
    r: Result<String, CollectionError>,
) -> bool {
    match (r, interpolation(t, vars)) {
        (Ok(s), Ok(x)) => s@ == x,
        (Err(CollectionError::VariableSyntaxError { template, position }), Err(InterpError::Unclosed(p))) =>
            template@ == t && position == utf8_len(t.take(p)),
        (Err(CollectionError::VariableNotFound { variable, available }), Err(InterpError::Missing(k))) =>
            variable@ == k && is_sorted_key_list(views(available@), vars),
        _ => false,
    }
}

/// Resolves `{{variable}}` placeholders in `template` using `variables`.
///
/// Errors: `VariableNotFound` (with the sorted list of defined keys) when a
/// placeholder names an undefined key; `VariableSyntaxError` (with the byte
/// position of the `{{`) when a placeholder is never closed.
#[verifier::rlimit(40)]
pub fn interpolate(template: &str, variables: &StrMap) -> (r: Result<String, CollectionError>)
    ensures
        interpolate_result(template@, variables@, r),
{
    let tv = chars_of(template);
    let n = tv.len();
    let total = byte_len(template);
    let mut close: Vec<char> = Vec::new();
    close.push('}');
    close.push('}');
    assert(close@ =~= close_delim());
    let mut out = String::new();
    let mut i: usize = 0;
    let ghost t = tv@;
    while i < n
        invariant
            t == tv@,
            t == template@,
            n == tv@.len(),
            close@ == close_delim(),
            total == utf8_len(t),
            i <= n,
            interpolation(t, variables@) == prepend(out@, interp_from(t, i as int, variables@)),
        decreases n - i,
    {
        if tv[i] == '{' && i + 1 < n && tv[i + 1] == '{' {
            assert(opens_at(t, i as int));
            match find_from(&tv, &close, i + 2) {
                None => {
                    proof {
                        lemma_utf8_len_prefix_mono(t, i as int, n as int);
                        assert(t.take(n as int) =~= t);
                    }
                    let position = utf8_prefix_len(&tv, i);
                    return Err(CollectionError::VariableSyntaxError { template: owned(template), position });
                },
                Some(j) => {
                    let (a, b) = trim_bounds(&tv, i + 2, j);
                    let key = string_from_range(&tv, a, b);
                    assert(key@ == trim(t.subrange(i + 2, j as int)));
                    assert(interp_from(t, i as int, variables@) == (if !variables@.contains_key(key@) {
                        Err(InterpError::Missing(key@))
                    } else {
                        prepend(variables@[key@], interp_from(t, j + 2, variables@))
                    }));
                    match variables.get(key.as_str()) {
                        Some(v) => {
                            let ghost before = out@;
                            push_str(&mut out, v.as_str());
                            proof {
                                assert(out@ == before + v@);
                                assert(before + (v@ + Seq::<char>::empty()) =~= out@ + Seq::<char>::empty());
                                match interp_from(t, j + 2, variables@) {
                                    Ok(rest) => {
                                        assert(before + (v@ + rest) =~= out@ + rest);
                                    },
                                    Err(_) => {},
                                }
                            }
                            i = j + 2;
                        },
                        None => {
                            let available = variables.sorted_keys();
                            return Err(CollectionError::VariableNotFound { variable: key, available });
                        },
                    }
                },
            }
        } else {
            let ghost before = out@;
            push_char(&mut out, tv[i]);
            proof {
                match interp_from(t, i + 1, variables@) {
                    Ok(rest) => {
                        assert(before + (seq![t[i as int]] + rest) =~= out@ + rest);
                    },
                    Err(_) => {},
                }
            }
            i = i + 1;
        }
    }
    assert(out@ + Seq::<char>::empty() =~= out@);
    Ok(out)
}

} // verus!
