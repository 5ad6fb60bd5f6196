//! Static validation of a collection: every `{{placeholder}}` a request uses
//! must name a declared variable.

use vstd::prelude::*;
use crate::collection::{Collection, Request};
use crate::context::{declared_map, declared_variables};
use crate::error::join_seq;
use crate::runner::{entry_views, item_views};
use crate::strmap::{is_sorted_lex, no_dups};
use crate::text::{
    chars_of, concat, find_from, first_occurrence_from, lemma_first_occurrence_from, occurs_at,
    owned, push_str, string_from_range, trim, trim_bounds, usize_to_string, decimal, views,
};
use crate::yaml::{AssertionMap, YamlValue, YamlView, yaml_view};

verus! {

// ─── placeholders ────────────────────────────────────────────────────────────

/// The placeholder names of `s` from position `from` on: each `{{` with a
/// later `}}` encloses a name, trimmed; empty names are dropped; scanning
/// resumes after the `}}` and stops at a `{{` that is never closed.
pub open spec fn placeholders_from(s: Seq<char>, from: int) -> Seq<Seq<char>>
    decreases s.len() - from,
{
    if from < 0 || from > s.len() {
        Seq::empty()
    } else {
        match first_occurrence_from(s, seq!['{', '{'], from) {
            None => Seq::empty(),
            Some(start) => match first_occurrence_from(s, seq!['}', '}'], start + 2) {
                None => Seq::empty(),
                Some(end) => if start < from || end < start + 2 || end + 2 > s.len() {
                    Seq::empty()
                } else {
                    let name = trim(s.subrange(start + 2, end));
                    let rest = placeholders_from(s, end + 2);
                    if name.len() > 0 { seq![name] + rest } else { rest }
                },
            },
        }
    }
}

/// The placeholder names of `s`, in order.
pub open spec fn placeholders_of(s: Seq<char>) -> Seq<Seq<char>> {
    placeholders_from(s, 0)
}

/// Extracts the `{{placeholder}}` names of a string, in order.
pub fn extract_placeholders(s: &str) -> (r: Vec<String>)
    ensures
        views(r@) == placeholders_of(s@),
{
    let v = chars_of(s);
    let open = vec!['{', '{'];
    let close = vec!['}', '}'];
    assert(open@ =~= seq!['{', '{']);
    assert(close@ =~= seq!['}', '}']);
    let mut out: Vec<String> = Vec::new();
    let mut from: usize = 0;
    let vlen = v.len();
    assert(views(out@) =~= Seq::<Seq<char>>::empty());
    loop
        invariant
            vlen == v@.len(),
            from <= v@.len(),
            v@ == s@,
            open@ == seq!['{', '{'],
            close@ == seq!['}', '}'],
            placeholders_of(s@) == views(out@) + placeholders_from(v@, from as int),
        decreases v@.len() - from,
    {
        let start = match find_from(&v, &open, from) {
            None => {
                assert(views(out@) + Seq::<Seq<char>>::empty() =~= views(out@));
                return out;
            },
            Some(st) => st,
        };
        proof {
            lemma_first_occurrence_from(v@, open@, from as int);
            assert(occurs_at(v@, open@, start as int));
            assert(open@.len() == 2);
            assert(start + 2 <= v@.len());
        }
        let end = match find_from(&v, &close, start + 2) {
            None => {
                assert(views(out@) + Seq::<Seq<char>>::empty() =~= views(out@));
                return out;
            },
            Some(e) => e,
        };
        proof {
            lemma_first_occurrence_from(v@, close@, start + 2);
            assert(occurs_at(v@, close@, end as int));
            assert(close@.len() == 2);
            assert(end + 2 <= v@.len());
        }
        let (a, b) = trim_bounds(&v, start + 2, end);
        if a < b {
            let ghost before = out@;
            let name = string_from_range(&v, a, b);
            out.push(name);
            proof {
                crate::text::lemma_views_push(before, name);
                assert(views(before) + placeholders_from(v@, from as int) =~= views(out@) + placeholders_from(v@, end + 2));
            }
        }
        from = end + 2;
    }
}

/// The placeholders of a YAML value: those of its string leaves, mapping
/// values and sequence items in order (keys, numbers, booleans, null and
/// tagged values hold none).
pub open spec fn yaml_placeholders(v: YamlView) -> Seq<Seq<char>>
    decreases v,
{
    match v {
        YamlView::Str(s) => placeholders_of(s),
        YamlView::Sequence(items, _) => items_placeholders(items),
        YamlView::Mapping(es, _) => values_placeholders(es),
        _ => Seq::empty(),
    }
}

/// The placeholders of a list of YAML values, in order.
pub open spec fn items_placeholders(items: Seq<YamlView>) -> Seq<Seq<char>>
    decreases items,
{
    if items.len() == 0 {
        Seq::empty()
    } else {
        proof {
            assert(decreases_to!(items => items.drop_last()));
        }
        items_placeholders(items.drop_last()) + yaml_placeholders(items.last())
    }
}

/// The placeholders of the values of mapping entries, in order.
pub open spec fn values_placeholders(es: Seq<(YamlView, YamlView)>) -> Seq<Seq<char>>
    decreases es,
{
    if es.len() == 0 {
        Seq::empty()
    } else {
        proof {
            assert(decreases_to!(es => es.drop_last()));
        }
        values_placeholders(es.drop_last()) + yaml_placeholders(es.last().1)
    }
}

/// Collects the placeholders of a YAML value into `placeholders`.
pub fn walk_yaml_value(value: &YamlValue, placeholders: &mut Vec<String>)
    ensures
        views(final(placeholders)@) == views(old(placeholders)@) + yaml_placeholders(yaml_view(*value)),
    decreases value,
{
    match value {
        YamlValue::String(s) => {
            let mut found = extract_placeholders(s.as_str());
            let ghost before = placeholders@;
            let ghost fv = found@;
            placeholders.append(&mut found);
            assert(placeholders@ == before + fv);
            assert(views(placeholders@) =~= views(before) + views(fv));
        },
        YamlValue::Sequence { items, debug } => {
            let ghost iv = item_views(items@);
            assert(yaml_view(*value) == YamlView::Sequence(iv, debug@)) by {
                if let YamlView::Sequence(a, _) = yaml_view(*value) {
                    assert(a =~= iv);
                }
            }
            let ghost start = views(placeholders@);
            let mut i: usize = 0;
            assert(decreases_to!(*value => *items));
            assert(decreases_to!(*items => items@));
            assert(iv.take(0) =~= Seq::<YamlView>::empty());
            assert(start + Seq::<Seq<char>>::empty() =~= start);
            while i < items.len()
                invariant
                    decreases_to!(*value => items@),
                    i <= items@.len(),
                    iv == item_views(items@),
                    views(placeholders@) == start + items_placeholders(iv.take(i as int)),
                decreases items@.len() - i,
            {
                proof {
                    assert(decreases_to!(items@ => items@[i as int]));
                    assert(iv.take(i + 1).drop_last() =~= iv.take(i as int));
                    assert(iv.take(i + 1).last() == yaml_view(items@[i as int]));
                }
                let ghost mid = views(placeholders@);
                walk_yaml_value(&items[i], placeholders);
                assert(views(placeholders@) =~= start + items_placeholders(iv.take(i + 1)));
                i = i + 1;
            }
            assert(iv.take(i as int) =~= iv);
        },
        YamlValue::Mapping { entries, debug } => {
            let ghost ev = entry_views(entries@);
            assert(yaml_view(*value) == YamlView::Mapping(ev, debug@)) by {
                if let YamlView::Mapping(a, _) = yaml_view(*value) {
                    assert(a =~= ev);
                }
            }
            let ghost start = views(placeholders@);
            let mut i: usize = 0;
            assert(decreases_to!(*value => *entries));
            assert(decreases_to!(*entries => entries@));
            assert(ev.take(0) =~= Seq::<(YamlView, YamlView)>::empty());
            assert(start + Seq::<Seq<char>>::empty() =~= start);
            while i < entries.len()
                invariant
                    decreases_to!(*value => entries@),
                    i <= entries@.len(),
                    ev == entry_views(entries@),
                    views(placeholders@) == start + values_placeholders(ev.take(i as int)),
                decreases entries@.len() - i,
            {
                proof {
                    assert(decreases_to!(entries@ => entries@[i as int]));
                    assert(ev.take(i + 1).drop_last() =~= ev.take(i as int));
                    assert(ev.take(i + 1).last() == (yaml_view(entries@[i as int].0), yaml_view(entries@[i as int].1)));
                }
                walk_yaml_value(&entries[i].1, placeholders);
                assert(views(placeholders@) =~= start + values_placeholders(ev.take(i + 1)));
                i = i + 1;
            }
            assert(ev.take(i as int) =~= ev);
        },
        _ => {
            assert(views(placeholders@) + Seq::<Seq<char>>::empty() =~= views(placeholders@));
        },
    }
}

// ─── the collection check ────────────────────────────────────────────────────

/// The name of a request section, as error messages give it.
pub open spec fn section_name(sec: int) -> Seq<char> {
    if sec == 0 {
        "url"@
    } else if sec == 1 {
        "headers"@
    } else if sec == 2 {
        "body"@
    } else {
        "assertions"@
    }
}

/// The placeholders of the header values, taken in the key order `ks`.
pub open spec fn header_placeholders(ks: Seq<Seq<char>>, hs: Map<Seq<char>, Seq<char>>) -> Seq<Seq<char>>
    decreases ks.len(),
{
    if ks.len() == 0 {
        Seq::empty()
    } else {
        header_placeholders(ks.drop_last(), hs) + placeholders_of(hs[ks.last()])
    }
}

/// The placeholders of an assertion map's values, in order.
pub open spec fn map_placeholders(es: Seq<(String, YamlValue)>) -> Seq<Seq<char>>
    decreases es.len(),
{
    if es.len() == 0 {
        Seq::empty()
    } else {
        map_placeholders(es.drop_last()) + yaml_placeholders(yaml_view(es.last().1))
    }
}

/// The placeholders of a list of assertion maps, in order.
pub open spec fn assertion_placeholders(ms: Seq<AssertionMap>) -> Seq<Seq<char>>
    decreases ms.len(),
{
    if ms.len() == 0 {
        Seq::empty()
    } else {
        assertion_placeholders(ms.drop_last()) + map_placeholders(ms.last().entries@)
    }
}

/// The placeholders of one section of a request (`0` URL, `1` headers in the
/// key order `hks`, `2` body, `3` assertions).
pub open spec fn section_placeholders(r: Request, hks: Seq<Seq<char>>, sec: int) -> Seq<Seq<char>> {
    if sec == 0 {
        placeholders_of(r.url@)
    } else if sec == 1 {
        header_placeholders(hks, r.headers@)
    } else if sec == 2 {
        match r.body {
            Some(b) => yaml_placeholders(yaml_view(b.content)),
            None => Seq::empty(),
        }
    } else {
        assertion_placeholders(r.assertions@)
    }
}

/// The first name of `ps` that is not declared.
pub open spec fn first_undeclared(ps: Seq<Seq<char>>, declared: Map<Seq<char>, Seq<char>>) -> Option<Seq<char>>
    decreases ps.len(),
{
    if ps.len() == 0 {
        None
    } else if !declared.contains_key(ps[0]) {
        Some(ps[0])
    } else {
        first_undeclared(ps.drop_first(), declared)
    }
}

/// The first undeclared placeholder of the requests from request `i`,
/// section `sec` on, with the request index and section where it stands.
pub open spec fn first_unresolved(
    reqs: Seq<Request>,
    hks: Seq<Seq<Seq<char>>>,
    declared: Map<Seq<char>, Seq<char>>,
    i: int,
    sec: int,
) -> Option<(int, int, Seq<char>)>
    decreases reqs.len() - i, 4 - sec,
{
    if i < 0 || i >= reqs.len() || sec < 0 {
        None
    } else if sec >= 4 {
        first_unresolved(reqs, hks, declared, i + 1, 0)
    } else {
        match first_undeclared(section_placeholders(reqs[i], hks[i], sec), declared) {
            Some(p) => Some((i, sec, p)),
            None => first_unresolved(reqs, hks, declared, i, sec + 1),
        }
    }
}

/// The declared-variables list of an error message: the sorted names joined
/// with `, `, or `(none)`.
pub open spec fn declared_list_text(dks: Seq<Seq<char>>) -> Seq<char> {
    if dks.len() == 0 { "(none)"@ } else { join_seq(dks, ", "@) }
}

/// The outcome of validating a collection whose header keys (per request)
/// and declared variable names are listed in ascending order by `hks` and
/// `dks`: the number of requests, or the message for the first unresolved
/// placeholder.
pub open spec fn validation_result(c: Collection, hks: Seq<Seq<Seq<char>>>, dks: Seq<Seq<char>>) -> Result<nat, Seq<char>> {
    match first_unresolved(c.requests@, hks, declared_map(c.variables@), 0, 0) {
        None => Ok(c.requests@.len()),
        Some((i, sec, p)) => Err("error: unresolved variable `"@ + p + "` in requests["@ + decimal(i as nat) + "]."@
            + section_name(sec) + "\n  declared variables: "@ + declared_list_text(dks)),
    }
}

proof fn lemma_first_undeclared_none(ps: Seq<Seq<char>>, declared: Map<Seq<char>, Seq<char>>)
    requires
        first_undeclared(ps, declared) is None,
    ensures
        forall|i: int| 0 <= i < ps.len() ==> declared.contains_key(#[trigger] ps[i]),
    decreases ps.len(),
{
    if ps.len() > 0 {
        lemma_first_undeclared_none(ps.drop_first(), declared);
        assert forall|i: int| 0 <= i < ps.len() implies declared.contains_key(#[trigger] ps[i]) by {
            if i > 0 {
                assert(ps[i] == ps.drop_first()[i - 1]);
            }
        }
    }
}

proof fn lemma_first_unresolved_none(
    reqs: Seq<Request>,
    hks: Seq<Seq<Seq<char>>>,
    declared: Map<Seq<char>, Seq<char>>,
    i: int,
    sec: int,
    j: int,
    t: int,
)
    requires
        0 <= i,
        0 <= sec,
        first_unresolved(reqs, hks, declared, i, sec) is None,
        i <= j < reqs.len(),
        0 <= t < 4,
        j > i || t >= sec,
    ensures
        first_undeclared(section_placeholders(reqs[j], hks[j], t), declared) is None,
    decreases reqs.len() - i, 4 - sec,
{
    if i < reqs.len() {
        if sec >= 4 {
            lemma_first_unresolved_none(reqs, hks, declared, i + 1, 0, j, t);
        } else if j == i && t == sec {
        } else {
            lemma_first_unresolved_none(reqs, hks, declared, i, sec + 1, j, t);
        }
    }
}

proof fn lemma_map_placeholders_contain(es: Seq<(String, YamlValue)>, k: int, x: Seq<char>)
    requires
        0 <= k < es.len(),
        yaml_placeholders(yaml_view(es[k].1)).contains(x),
    ensures
        map_placeholders(es).contains(x),
    decreases es.len(),
{
    let d = es.drop_last();
    if k == es.len() - 1 {
        let a = map_placeholders(d);
        let b = yaml_placeholders(yaml_view(es.last().1));
        let q = choose|q: int| 0 <= q < b.len() && b[q] == x;
        assert((a + b)[a.len() + q] == x);
    } else {
        assert(d[k] == es[k]);
        lemma_map_placeholders_contain(d, k, x);
        let a = map_placeholders(d);
        let q = choose|q: int| 0 <= q < a.len() && a[q] == x;
        assert((a + yaml_placeholders(yaml_view(es.last().1)))[q] == x);
    }
}

proof fn lemma_assertion_placeholders_contain(ms: Seq<AssertionMap>, m: int, k: int, x: Seq<char>)
    requires
        0 <= m < ms.len(),
        0 <= k < ms[m].entries@.len(),
        yaml_placeholders(yaml_view(ms[m].entries@[k].1)).contains(x),
    ensures
        assertion_placeholders(ms).contains(x),
    decreases ms.len(),
{
    let d = ms.drop_last();
    if m == ms.len() - 1 {
        lemma_map_placeholders_contain(ms.last().entries@, k, x);
        let a = assertion_placeholders(d);
        let b = map_placeholders(ms.last().entries@);
        let q = choose|q: int| 0 <= q < b.len() && b[q] == x;
        assert((a + b)[a.len() + q] == x);
    } else {
        assert(d[m] == ms[m]);
        lemma_assertion_placeholders_contain(d, m, k, x);
        let a = assertion_placeholders(d);
        let q = choose|q: int| 0 <= q < a.len() && a[q] == x;
        assert((a + map_placeholders(ms.last().entries@))[q] == x);
    }
}

/// A collection that validates has every placeholder declared: in each
/// request's URL, in its body, and in every value of every one of its
/// assertions (`{{name}}` in an `equals` or `contains` included).
pub proof fn law_valid_collection_declares_placeholders(
    c: Collection,
    hks: Seq<Seq<Seq<char>>>,
    dks: Seq<Seq<char>>,
    i: int,
    x: Seq<char>,
)
    requires
        validation_result(c, hks, dks) is Ok,
        0 <= i < c.requests@.len(),
    ensures
        placeholders_of(c.requests@[i].url@).contains(x) ==> declared_map(c.variables@).contains_key(x),
        (c.requests@[i].body matches Some(b) && yaml_placeholders(yaml_view(b.content)).contains(x))
            ==> declared_map(c.variables@).contains_key(x),
        forall|m: int, k: int|
            0 <= m < c.requests@[i].assertions@.len() && 0 <= k < c.requests@[i].assertions@[m].entries@.len()
                && yaml_placeholders(yaml_view(#[trigger] c.requests@[i].assertions@[m].entries@[k].1)).contains(x)
                ==> declared_map(c.variables@).contains_key(x),
{
    let reqs = c.requests@;
    let declared = declared_map(c.variables@);
    let r = reqs[i];
    lemma_first_unresolved_none(reqs, hks, declared, 0, 0, i, 0);
    lemma_first_unresolved_none(reqs, hks, declared, 0, 0, i, 2);
    lemma_first_unresolved_none(reqs, hks, declared, 0, 0, i, 3);
    lemma_first_undeclared_none(section_placeholders(r, hks[i], 0), declared);
    lemma_first_undeclared_none(section_placeholders(r, hks[i], 2), declared);
    lemma_first_undeclared_none(section_placeholders(r, hks[i], 3), declared);
    assert forall|m: int, k: int|
        0 <= m < r.assertions@.len() && 0 <= k < r.assertions@[m].entries@.len()
            && yaml_placeholders(yaml_view(#[trigger] r.assertions@[m].entries@[k].1)).contains(x)
        implies declared.contains_key(x) by {
        lemma_assertion_placeholders_contain(r.assertions@, m, k, x);
        let a = assertion_placeholders(r.assertions@);
        let q = choose|q: int| 0 <= q < a.len() && a[q] == x;
        assert(declared.contains_key(a[q]));
    }
    if placeholders_of(r.url@).contains(x) {
        let a = placeholders_of(r.url@);
        let q = choose|q: int| 0 <= q < a.len() && a[q] == x;
        assert(declared.contains_key(a[q]));
    }
    if r.body is Some && yaml_placeholders(yaml_view(r.body->0.content)).contains(x) {
        let a = yaml_placeholders(yaml_view(r.body->0.content));
        let q = choose|q: int| 0 <= q < a.len() && a[q] == x;
        assert(declared.contains_key(a[q]));
    }
}

/// The sorted, comma-joined names of the declared variables, or `(none)`.
pub fn sorted_declared_list(variables: &Vec<(String, Option<String>)>) -> (r: String)
    ensures
        exists|dks: Seq<Seq<char>>|
            #![trigger declared_list_text(dks)]
            crate::interpolation::is_sorted_key_list(dks, declared_map(variables@)) && r@ == declared_list_text(dks),
{
    let m = declared_variables(variables);
    let keys = m.sorted_keys();
    let ghost dks = views(keys@);
    assert(crate::interpolation::is_sorted_key_list(dks, declared_map(variables@)));
    if keys.len() == 0 {
        let r = owned("(none)");
        assert(r@ == declared_list_text(dks));
        return r;
    }
    let r = crate::error::join_strings(&keys, ", ");
    assert(r@ == declared_list_text(dks));
    r
}

fn first_undeclared_exec(ps: &Vec<String>, declared: &crate::strmap::StrMap) -> (r: Option<String>)
    ensures
        match r {
            Some(p) => first_undeclared(views(ps@), declared@) == Some(p@),
            None => first_undeclared(views(ps@), declared@) is None,
        },
{
    let ghost pv = views(ps@);
    let mut i: usize = 0;
    assert(pv.skip(0) =~= pv);
    while i < ps.len()
        invariant
            i <= ps@.len(),
            pv == views(ps@),
            first_undeclared(pv, declared@) == first_undeclared(pv.skip(i as int), declared@),
        decreases ps@.len() - i,
    {
        proof {
            assert(pv.skip(i as int)[0] == ps@[i as int]@);
            assert(pv.skip(i as int).drop_first() =~= pv.skip(i + 1));
        }
        if !declared.contains_key(ps[i].as_str()) {
            return Some(owned(ps[i].as_str()));
        }
        i = i + 1;
    }
    None
}

fn section_placeholder_list(r: &Request, hkeys: &Vec<String>, sec: usize) -> (out: Vec<String>)
    requires
        sec < 4,
        forall|k: Seq<char>| #[trigger] views(hkeys@).contains(k) ==> r.headers@.contains_key(k),
    ensures
        views(out@) == section_placeholders(*r, views(hkeys@), sec as int),
{
    if sec == 0 {
        extract_placeholders(r.url.as_str())
    } else if sec == 1 {
        let ghost ks = views(hkeys@);
        let mut out: Vec<String> = Vec::new();
        let mut i: usize = 0;
        assert(ks.take(0) =~= Seq::<Seq<char>>::empty());
        assert(views(out@) =~= Seq::<Seq<char>>::empty());
        while i < hkeys.len()
            invariant
                i <= hkeys@.len(),
                ks == views(hkeys@),
                forall|k: Seq<char>| #[trigger] ks.contains(k) ==> r.headers@.contains_key(k),
                views(out@) == header_placeholders(ks.take(i as int), r.headers@),
            decreases hkeys@.len() - i,
        {
            proof {
                assert(ks.take(i + 1).drop_last() =~= ks.take(i as int));
                assert(ks.take(i + 1).last() == hkeys@[i as int]@);
                assert(ks.contains(ks[i as int]));
            }
            let value = match r.headers.get(hkeys[i].as_str()) {
                Some(v) => owned(v.as_str()),
                None => String::new(),
            };
            let ghost before = out@;
            let mut found = extract_placeholders(value.as_str());
            let ghost fv = found@;
            out.append(&mut found);
            assert(views(out@) =~= views(before) + views(fv));
            proof {
                if !r.headers@.contains_key(hkeys@[i as int]@) {
                    assert(value@ =~= Seq::<char>::empty());
                }
            }
            i = i + 1;
        }
        assert(ks.take(i as int) =~= ks);
        out
    } else if sec == 2 {
        let mut out: Vec<String> = Vec::new();
        match &r.body {
            Some(b) => {
                walk_yaml_value(&b.content, &mut out);
                assert(views(out@) =~= Seq::<Seq<char>>::empty() + yaml_placeholders(yaml_view(b.content)));
            },
            None => {
                assert(views(out@) =~= Seq::<Seq<char>>::empty());
            },
        }
        out
    } else {
        let ghost ms = r.assertions@;
        let mut out: Vec<String> = Vec::new();
        let mut i: usize = 0;
        assert(ms.take(0) =~= Seq::<AssertionMap>::empty());
        assert(views(out@) =~= Seq::<Seq<char>>::empty());
        while i < r.assertions.len()
            invariant
                i <= ms.len(),
                ms == r.assertions@,
                views(out@) == assertion_placeholders(ms.take(i as int)),
            decreases ms.len() - i,
        {
            proof {
                assert(ms.take(i + 1).drop_last() =~= ms.take(i as int));
                assert(ms.take(i + 1).last() == ms[i as int]);
            }
            let ghost es = r.assertions[i as int].entries@;
            let ghost base = views(out@);
            let mut k: usize = 0;
            assert(es.take(0) =~= Seq::<(String, YamlValue)>::empty());
            assert(base + Seq::<Seq<char>>::empty() =~= base);
            while k < r.assertions[i].entries.len()
                invariant
                    i < ms.len(),
                    ms == r.assertions@,
                    es == ms[i as int].entries@,
                    k <= es.len(),
                    views(out@) == base + map_placeholders(es.take(k as int)),
                decreases es.len() - k,
            {
                proof {
                    assert(es.take(k + 1).drop_last() =~= es.take(k as int));
                    assert(es.take(k + 1).last() == es[k as int]);
                }
                walk_yaml_value(&r.assertions[i].entries[k].1, &mut out);
                assert(views(out@) =~= base + map_placeholders(es.take(k + 1)));
                k = k + 1;
            }
            assert(es.take(k as int) =~= es);
            i = i + 1;
        }
        assert(ms.take(i as int) =~= ms);
        out
    }
}

/// Checks that every placeholder of every request names a declared variable.
///
/// Requests are checked in order, each by URL, headers (by key), body and
/// assertions; the first unresolved placeholder is reported with where it
/// stands and the declared names. On success the number of requests is
/// returned.
pub fn validate_collection(c: &Collection) -> (r: Result<usize, String>)
    ensures
        exists|hks: Seq<Seq<Seq<char>>>, dks: Seq<Seq<char>>|
            #![trigger validation_result(*c, hks, dks)]
            hks.len() == c.requests@.len()
            && (forall|i: int| 0 <= i < hks.len() ==> #[trigger] crate::interpolation::is_sorted_key_list(hks[i], c.requests@[i].headers@))
            && crate::interpolation::is_sorted_key_list(dks, declared_map(c.variables@))
            && match (r, validation_result(*c, hks, dks)) {
                (Ok(n), Ok(m)) => n == m,
                (Err(e), Err(t)) => e@ == t,
                _ => false,
            },
        r is Ok ==> forall|i: int, x: Seq<char>|
            0 <= i < c.requests@.len() && #[trigger] placeholders_of(c.requests@[i].url@).contains(x)
                ==> declared_map(c.variables@).contains_key(x),
        r is Ok ==> forall|i: int, m: int, k: int, x: Seq<char>|
            0 <= i < c.requests@.len() && 0 <= m < c.requests@[i].assertions@.len() && 0 <= k
                < c.requests@[i].assertions@[m].entries@.len() && #[trigger] yaml_placeholders(
                yaml_view(c.requests@[i].assertions@[m].entries@[k].1),
            ).contains(x) ==> declared_map(c.variables@).contains_key(x),
{
    let declared = declared_variables(&c.variables);
    let dkeys = declared.sorted_keys();
    let ghost dks = views(dkeys@);
    assert(crate::interpolation::is_sorted_key_list(dks, declared_map(c.variables@)));
    let ghost reqs = c.requests@;
    let mut hkeys_all: Vec<Vec<String>> = Vec::new();
    let mut i: usize = 0;
    while i < c.requests.len()
        invariant
            i <= reqs.len(),
            reqs == c.requests@,
            declared@ == declared_map(c.variables@),
            hkeys_all@.len() == i,
            forall|j: int| 0 <= j < i ==> #[trigger] crate::interpolation::is_sorted_key_list(views(hkeys_all@[j]@), reqs[j].headers@),
        decreases reqs.len() - i,
    {
        let ks = c.requests[i].headers.sorted_keys();
        hkeys_all.push(ks);
        i = i + 1;
    }
    let ghost hks = Seq::new(hkeys_all@.len(), |j: int| views(hkeys_all@[j]@));
    assert(forall|j: int| 0 <= j < hks.len() ==> #[trigger] crate::interpolation::is_sorted_key_list(hks[j], reqs[j].headers@));
    let mut idx: usize = 0;
    while idx < c.requests.len()
        invariant
            idx <= reqs.len(),
            reqs == c.requests@,
            declared@ == declared_map(c.variables@),
            hks.len() == reqs.len(),
            hkeys_all@.len() == reqs.len(),
            forall|j: int| 0 <= j < hks.len() ==> #[trigger] hks[j] == views(hkeys_all@[j]@),
            first_unresolved(reqs, hks, declared@, 0, 0) == first_unresolved(reqs, hks, declared@, idx as int, 0),
            dks == views(dkeys@),
                crate::interpolation::is_sorted_key_list(dks, declared_map(c.variables@)),
            forall|j: int| 0 <= j < hks.len() ==> #[trigger] crate::interpolation::is_sorted_key_list(hks[j], reqs[j].headers@),
        decreases reqs.len() - idx,
    {
        let mut sec: usize = 0;
        while sec < 4
            invariant
                idx < reqs.len(),
                sec <= 4,
                reqs == c.requests@,
                declared@ == declared_map(c.variables@),
                hks.len() == reqs.len(),
                hkeys_all@.len() == reqs.len(),
                forall|j: int| 0 <= j < hks.len() ==> #[trigger] hks[j] == views(hkeys_all@[j]@),
                first_unresolved(reqs, hks, declared@, 0, 0) == first_unresolved(reqs, hks, declared@, idx as int, sec as int),
                dks == views(dkeys@),
                crate::interpolation::is_sorted_key_list(dks, declared_map(c.variables@)),
                forall|j: int| 0 <= j < hks.len() ==> #[trigger] crate::interpolation::is_sorted_key_list(hks[j], reqs[j].headers@),
            decreases 4 - sec,
        {
            assert(hks[idx as int] == views(hkeys_all@[idx as int]@));
            assert(crate::interpolation::is_sorted_key_list(hks[idx as int], reqs[idx as int].headers@));
            let ps = section_placeholder_list(&c.requests[idx], &hkeys_all[idx], sec);
            match first_undeclared_exec(&ps, &declared) {
                Some(p) => {
                    let mut msg = owned("error: unresolved variable `");
                    push_str(&mut msg, p.as_str());
                    push_str(&mut msg, "` in requests[");
                    push_str(&mut msg, usize_to_string(idx).as_str());
                    push_str(&mut msg, "].");
                    let name = if sec == 0 { "url" } else if sec == 1 { "headers" } else if sec == 2 { "body" } else { "assertions" };
                    push_str(&mut msg, name);
                    push_str(&mut msg, "\n  declared variables: ");
                    let list = if dkeys.len() == 0 { owned("(none)") } else { crate::error::join_strings(&dkeys, ", ") };
                    push_str(&mut msg, list.as_str());
                    assert(name@ == section_name(sec as int));
                    proof {
                        let sp = section_placeholders(reqs[idx as int], hks[idx as int], sec as int);
                        assert(views(ps@) == sp);
                        assert(first_undeclared(sp, declared@) == Some(p@));
                        assert(first_unresolved(reqs, hks, declared@, idx as int, sec as int) == Some((idx as int, sec as int, p@)));
                        assert(list@ == declared_list_text(dks));
                        assert(validation_result(*c, hks, dks) == Err::<nat, Seq<char>>(msg@));
                    }
                    return Err(msg);
                },
                None => {},
            }
            sec = sec + 1;
        }
        idx = idx + 1;
    }
    proof {
        assert(validation_result(*c, hks, dks) is Ok);
        assert forall|i: int, x: Seq<char>|
            0 <= i < c.requests@.len() && #[trigger] placeholders_of(c.requests@[i].url@).contains(x)
            implies declared_map(c.variables@).contains_key(x) by {
            law_valid_collection_declares_placeholders(*c, hks, dks, i, x);
        }
        assert forall|i: int, m: int, k: int, x: Seq<char>|
            0 <= i < c.requests@.len() && 0 <= m < c.requests@[i].assertions@.len() && 0 <= k
                < c.requests@[i].assertions@[m].entries@.len() && #[trigger] yaml_placeholders(
                yaml_view(c.requests@[i].assertions@[m].entries@[k].1),
            ).contains(x) implies declared_map(c.variables@).contains_key(x) by {
            law_valid_collection_declares_placeholders(*c, hks, dks, i, x);
        }
    }
    Ok(c.requests.len())
}

} // verus!
