//! Saved runs of the browser interface: the names their files get, the
//! collection files a directory offers, and the newest-first listing.

use vstd::prelude::*;
use crate::strmap::{is_sorted_lex, sort_strings};
use crate::text::{chars_of, owned, push_char, push_str, str_eq, views};

verus! {

/// Whether `char::is_alphanumeric` holds of `c` (Unicode `Alphabetic` or
/// `Numeric`).
pub uninterp spec fn alphanumeric(c: char) -> bool;

/// Wraps `char::is_alphanumeric`: a property of the character alone (named
/// by [`alphanumeric`]; the Unicode tables are not restated here).
#[verifier::external_body]
fn is_alphanumeric_char(c: char) -> (r: bool)
    ensures
        r == alphanumeric(c),
{
    c.is_alphanumeric()
}

/// The character a collection name contributes to a file name: letters,
/// digits, `-` and `_` are kept, anything else becomes `_`.
pub open spec fn stem_char(c: char) -> char {
    if alphanumeric(c) || c == '-' || c == '_' { c } else { '_' }
}

/// The file-name stem of a collection name.
pub open spec fn stem_of(name: Seq<char>) -> Seq<char> {
    name.map_values(|c: char| stem_char(c))
}

/// The stem of a collection name, safe to use in a file name.
pub fn history_stem(name: &str) -> (r: String)
    ensures
        r@ == stem_of(name@),
{
    let v = chars_of(name);
    let mut out = String::new();
    let mut i: usize = 0;
    while i < v.len()
        invariant
            i <= v@.len(),
            v@ == name@,
            out@ == stem_of(name@).take(i as int),
        decreases v@.len() - i,
    {
        let c = v[i];
        let k = if is_alphanumeric_char(c) || c == '-' || c == '_' { c } else { '_' };
        push_char(&mut out, k);
        assert(stem_of(name@).take(i + 1) =~= stem_of(name@).take(i as int).push(k));
        i = i + 1;
    }
    assert(stem_of(name@).take(i as int) =~= stem_of(name@));
    out
}

/// The file a saved run is stored in: its timestamp, `-`, the collection's
/// stem and `.json`.
pub fn history_file_name(timestamp: &str, collection: &str) -> (r: String)
    ensures
        r@ == timestamp@ + seq!['-'] + stem_of(collection@) + ".json"@,
{
    let mut s = owned(timestamp);
    push_char(&mut s, '-');
    let stem = history_stem(collection);
    push_str(&mut s, stem.as_str());
    push_str(&mut s, ".json");
    s
}

/// The names among `ns` whose extension is `yaml`, in order.
pub open spec fn yaml_names(ns: Seq<Seq<char>>) -> Seq<Seq<char>>
    decreases ns.len(),
{
    if ns.len() == 0 {
        Seq::empty()
    } else if crate::cli::extension_of(ns.last()) == Some("yaml"@) {
        yaml_names(ns.drop_last()).push(ns.last())
    } else {
        yaml_names(ns.drop_last())
    }
}

/// The collection files among a directory's file names: those with the
/// extension `yaml`, sorted.
pub fn yaml_file_names(names: Vec<String>) -> (r: Vec<String>)
    ensures
        views(r@).to_multiset() == yaml_names(views(names@)).to_multiset(),
        is_sorted_lex(views(r@)),
{
    let ghost ns = views(names@);
    let mut kept: Vec<String> = Vec::new();
    let mut i: usize = 0;
    assert(ns.take(0) =~= Seq::<Seq<char>>::empty());
    while i < names.len()
        invariant
            i <= names@.len(),
            ns == views(names@),
            views(kept@) == yaml_names(ns.take(i as int)),
        decreases names@.len() - i,
    {
        proof {
            assert(ns.take(i + 1).drop_last() =~= ns.take(i as int));
            assert(ns.take(i + 1).last() == names@[i as int]@);
        }
        let is_yaml = match crate::cli::path_extension(names[i].as_str()) {
            Some(e) => str_eq(e.as_str(), "yaml"),
            None => false,
        };
        if is_yaml {
            let ghost before = kept@;
            let c = owned(names[i].as_str());
            kept.push(c);
            proof {
                crate::text::lemma_views_push(before, c);
            }
        }
        i = i + 1;
    }
    assert(ns.take(i as int) =~= ns);
    let sorted = sort_strings(kept);
    assert(views(sorted@) =~= sorted@.map_values(|s: String| s@));
    sorted
}

/// `s` is in descending order of its keys.
pub open spec fn newest_first_order<T>(s: Seq<(u128, T)>) -> bool {
    forall|i: int, j: int| 0 <= i <= j < s.len() ==> s[i].0 >= s[j].0
}

/// Orders saved runs by modification time, newest first.
pub fn order_newest_first<T>(entries: Vec<(u128, T)>) -> (r: Vec<(u128, T)>)
    ensures
        r@.to_multiset() == entries@.to_multiset(),
        newest_first_order(r@),
{
    broadcast use vstd::seq_lib::group_to_multiset_ensures;
    let ghost orig = entries@;
    let mut rest = entries;
    let mut out: Vec<(u128, T)> = Vec::new();
    assert(out@.to_multiset().add(rest@.to_multiset()) =~= orig.to_multiset());
    while rest.len() > 0
        invariant
            out@.to_multiset().add(rest@.to_multiset()) == orig.to_multiset(),
            newest_first_order(out@),
            forall|i: int, j: int| 0 <= i < out@.len() && 0 <= j < rest@.len() ==> out@[i].0 >= rest@[j].0,
        decreases rest@.len(),
    {
        let mut m: usize = 0;
        let mut k: usize = 1;
        while k < rest.len()
            invariant
                0 < rest@.len(),
                m < rest@.len(),
                1 <= k <= rest@.len(),
                m < k,
                forall|j: int| 0 <= j < k ==> rest@[m as int].0 >= #[trigger] rest@[j].0,
            decreases rest@.len() - k,
        {
            if rest[k].0 > rest[m].0 {
                m = k;
            }
            k = k + 1;
        }
        let ghost before_rest = rest@;
        let ghost before_out = out@;
        let x = rest.remove(m);
        proof {
            assert(before_rest =~= rest@.insert(m as int, x));
            vstd::seq_lib::to_multiset_insert(rest@, m as int, x);
            assert forall|j: int| 0 <= j < rest@.len() implies x.0 >= #[trigger] rest@[j].0 by {
                if j < m {
                    assert(rest@[j] == before_rest[j]);
                } else {
                    assert(rest@[j] == before_rest[j + 1]);
                }
            }
        }
        out.push(x);
        proof {
            assert(out@ =~= before_out.push(x));
            vstd::seq_lib::to_multiset_build(before_out, x);
            assert forall|i: int, j: int| 0 <= i <= j < out@.len() implies out@[i].0 >= out@[j].0 by {
                if j == before_out.len() && i < j {
                    assert(before_rest[m as int] == x);
                    assert(out@[i] == before_out[i]);
                }
            }
            assert forall|i: int, j: int| 0 <= i < out@.len() && 0 <= j < rest@.len() implies out@[i].0 >= rest@[j].0 by {
                if i < before_out.len() {
                    assert(out@[i] == before_out[i]);
                    if j < m {
                        assert(rest@[j] == before_rest[j]);
                    } else {
                        assert(rest@[j] == before_rest[j + 1]);
                    }
                }
            }
        }
    }
    assert(rest@.to_multiset() =~= vstd::multiset::Multiset::<(u128, T)>::empty());
    out
}

} // verus!
