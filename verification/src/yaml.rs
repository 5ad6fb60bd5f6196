//! `YamlValue`: the YAML values a collection carries (request bodies and
//! assertion maps), held as plain data.

use vstd::prelude::*;
use serde_yaml::Value as SerdeYamlValue;
use serde_yaml::Value::{Bool, Mapping, Null, Number, Sequence, String as YamlString, Tagged};

verus! {

/// A YAML number: its text as the YAML library prints it, and its value when
/// it is a non-negative integer that fits in `u64`.
#[derive(Clone)]
pub struct YamlNumber {
    pub text: String,
    pub as_u64: Option<u64>,
}

/// A YAML value.
pub enum YamlValue {
    Null,
    Bool(bool),
    Number(YamlNumber),
    String(String),
    /// A sequence, with its `Debug` rendering.
    Sequence { items: Vec<YamlValue>, debug: String },
    /// A mapping in document order, with its `Debug` rendering.
    Mapping { entries: Vec<(YamlValue, YamlValue)>, debug: String },
    /// A tagged value (`!tag value`), with its `Debug` rendering.
    Tagged { tag: String, value: Box<YamlValue>, debug: String },
}

/// One assertion as written in the collection: its keys and values.
#[derive(Clone)]
pub struct AssertionMap {
    pub entries: Vec<(String, YamlValue)>,
}

/// The value stored under `key` in an assertion map (the first such entry).
pub open spec fn assertion_lookup(entries: Seq<(String, YamlValue)>, key: Seq<char>) -> Option<YamlValue>
    decreases entries.len(),
{
    if entries.len() == 0 {
        None
    } else if entries[0].0@ == key {
        Some(entries[0].1)
    } else {
        assertion_lookup(entries.drop_first(), key)
    }
}

impl AssertionMap {
    /// Looks up `key`.
    pub fn get(&self, key: &str) -> (r: Option<&YamlValue>)
        ensures
            match r {
                Some(v) => assertion_lookup(self.entries@, key@) == Some(*v),
                None => assertion_lookup(self.entries@, key@) is None,
            },
    {
        let mut i: usize = 0;
        assert(self.entries@.skip(0) =~= self.entries@);
        while i < self.entries.len()
            invariant
                i <= self.entries@.len(),
                assertion_lookup(self.entries@, key@) == assertion_lookup(self.entries@.skip(i as int), key@),
            decreases self.entries@.len() - i,
        {
            proof {
                assert(self.entries@.skip(i as int)[0] == self.entries@[i as int]);
                assert(self.entries@.skip(i as int).drop_first() =~= self.entries@.skip(i + 1));
            }
            if crate::text::str_eq(self.entries[i].0.as_str(), key) {
                return Some(&self.entries[i].1);
            }
            i = i + 1;
        }
        None
    }
}

} // verus!

verus! {

/// The mathematical form of a [`YamlValue`]: strings as character sequences,
/// vectors as sequences.
pub enum YamlView {
    Null,
    Bool(bool),
    Number(Seq<char>, Option<u64>),
    Str(Seq<char>),
    Sequence(Seq<YamlView>, Seq<char>),
    Mapping(Seq<(YamlView, YamlView)>, Seq<char>),
    Tagged(Seq<char>, Box<YamlView>, Seq<char>),
}

/// The view of a YAML value.
pub open spec fn yaml_view(v: YamlValue) -> YamlView
    decreases v,
{
    match v {
        YamlValue::Null => YamlView::Null,
        YamlValue::Bool(b) => YamlView::Bool(b),
        YamlValue::Number(n) => YamlView::Number(n.text@, n.as_u64),
        YamlValue::String(s) => YamlView::Str(s@),
        YamlValue::Sequence { items, debug } => YamlView::Sequence(
            Seq::new(items@.len(), |i: int| if 0 <= i < items@.len() { yaml_view(items@[i]) } else { YamlView::Null }),
            debug@,
        ),
        YamlValue::Mapping { entries, debug } => YamlView::Mapping(
            Seq::new(entries@.len(), |i: int| if 0 <= i < entries@.len() {
                (yaml_view(entries@[i].0), yaml_view(entries@[i].1))
            } else {
                (YamlView::Null, YamlView::Null)
            }),
            debug@,
        ),
        YamlValue::Tagged { tag, value, debug } => YamlView::Tagged(tag@, Box::new(yaml_view(*value)), debug@),
    }
}

impl Clone for YamlValue {
    /// A deep copy, equal in view to the original.
    fn clone(&self) -> (r: Self)
        ensures
            yaml_view(r) == yaml_view(*self),
    {
        copy_yaml(self)
    }
}

/// A deep copy of a YAML value.
pub fn copy_yaml(v: &YamlValue) -> (r: YamlValue)
    ensures
        yaml_view(r) == yaml_view(*v),
    decreases v,
{
    match v {
        YamlValue::Null => YamlValue::Null,
        YamlValue::Bool(b) => YamlValue::Bool(*b),
        YamlValue::Number(n) => YamlValue::Number(YamlNumber { text: n.text.clone(), as_u64: n.as_u64 }),
        YamlValue::String(s) => YamlValue::String(s.clone()),
        YamlValue::Sequence { items, debug } => {
            let mut out: Vec<YamlValue> = Vec::new();
            let mut i: usize = 0;
            assert(decreases_to!(*v => *items));
            assert(decreases_to!(*items => items@));
            while i < items.len()
                invariant
                    decreases_to!(*v => items@),
                    i <= items@.len(),
                    out@.len() == i,
                    forall|j: int| 0 <= j < i ==> yaml_view(#[trigger] out@[j]) == yaml_view(items@[j]),
                decreases items@.len() - i,
            {
                proof {
                    assert(decreases_to!(*v => items@[i as int]));
                }
                out.push(copy_yaml(&items[i]));
                i = i + 1;
            }
            let r = YamlValue::Sequence { items: out, debug: debug.clone() };
            assert(yaml_view(r) == yaml_view(*v)) by {
                if let YamlView::Sequence(a, _) = yaml_view(r) {
                    if let YamlView::Sequence(b, _) = yaml_view(*v) {
                        assert(a =~= b);
                    }
                }
            }
            r
        },
        YamlValue::Mapping { entries, debug } => {
            let mut out: Vec<(YamlValue, YamlValue)> = Vec::new();
            let mut i: usize = 0;
            assert(decreases_to!(*v => *entries));
            assert(decreases_to!(*entries => entries@));
            while i < entries.len()
                invariant
                    decreases_to!(*v => entries@),
                    i <= entries@.len(),
                    out@.len() == i,
                    forall|j: int| 0 <= j < i ==> yaml_view(#[trigger] out@[j].0) == yaml_view(entries@[j].0)
                        && yaml_view(out@[j].1) == yaml_view(entries@[j].1),
                decreases entries@.len() - i,
            {
                proof {
                    assert(decreases_to!(entries@ => entries@[i as int]));
                    assert(decreases_to!(*v => entries@[i as int].0));
                    assert(decreases_to!(*v => entries@[i as int].1));
                }
                let k = copy_yaml(&entries[i].0);
                let x = copy_yaml(&entries[i].1);
                out.push((k, x));
                i = i + 1;
            }
            let r = YamlValue::Mapping { entries: out, debug: debug.clone() };
            assert(yaml_view(r) == yaml_view(*v)) by {
                if let YamlView::Mapping(a, _) = yaml_view(r) {
                    if let YamlView::Mapping(b, _) = yaml_view(*v) {
                        assert(a =~= b);
                    }
                }
            }
            r
        },
        YamlValue::Tagged { tag, value, debug } => {
            let inner = copy_yaml(value);
            YamlValue::Tagged { tag: tag.clone(), value: Box::new(inner), debug: debug.clone() }
        },
    }
}

// ─── reading YAML text through serde_yaml ────────────────────────────────────

#[verifier::external_type_specification]
#[verifier::external_body]
pub struct ExSerdeYamlValue(serde_yaml::Value);

/// What `serde_yaml::from_str::<serde_yaml::Value>` makes of `raw`: the
/// document as a [`YamlValue`] (numbers by their text, collections and tagged
/// values with their `Debug` rendering), or the `Display` text of the error.
pub uninterp spec fn yaml_tree_result(raw: Seq<char>) -> Result<YamlValue, Seq<char>>;

/// Converts a `serde_yaml::Value` into a [`YamlValue`], variant by variant:
/// a number as its `Display` text and `as_u64`, a sequence, mapping or
/// tagged value with its parts converted and its `Debug` rendering.
#[verifier::external_body]
fn yaml_tree(v: &SerdeYamlValue) -> YamlValue {
    match v {
        Null => YamlValue::Null,
        Bool(b) => YamlValue::Bool(*b),
        Number(n) => YamlValue::Number(YamlNumber { text: n.to_string(), as_u64: n.as_u64() }),
        YamlString(s) => YamlValue::String(s.clone()),
        Sequence(a) => YamlValue::Sequence { items: a.iter().map(yaml_tree).collect(), debug: format!("{v:?}") },
        Mapping(m) => YamlValue::Mapping {
            entries: m.iter().map(|(k, x)| (yaml_tree(k), yaml_tree(x))).collect(),
            debug: format!("{v:?}"),
        },
        Tagged(t) => YamlValue::Tagged { tag: t.tag.to_string(), value: Box::new(yaml_tree(&t.value)), debug: format!("{v:?}") },
    }
}

/// Wraps `serde_yaml::from_str::<serde_yaml::Value>` and converts the document
/// (named by [`yaml_tree_result`]); the error becomes its `Display` text.
#[verifier::external_body]
pub(crate) fn parse_yaml_tree(raw: &str) -> (r: Result<YamlValue, String>)
    ensures
        match (r, yaml_tree_result(raw@)) {
            (Ok(v), Ok(w)) => v == w,
            (Err(e), Err(m)) => e@ == m,
            _ => false,
        },
{
    match serde_yaml::from_str::<SerdeYamlValue>(raw) {
        Ok(v) => Ok(yaml_tree(&v)),
        Err(e) => Err(format!("{e}")),
    }
}

} // verus!
