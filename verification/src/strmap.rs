//! `StrMap`: a string-to-string map with unique keys, used for variables,
//! headers and data rows.
//!
//! Entries keep insertion order; the map's meaning is its view, a
//! `Map<Seq<char>, Seq<char>>`.

use vstd::prelude::*;
use crate::text::{chars_of, str_eq, views};

verus! {

/// Lexicographic order on character sequences by code point: `a` sorts
/// strictly before `b` (the order `String`'s `Ord` gives, since UTF-8 keeps
/// code point order).
pub open spec fn lex_lt(a: Seq<char>, b: Seq<char>) -> bool
    decreases a.len(),
{
    if a.len() == 0 {
        b.len() > 0
    } else if b.len() == 0 {
        false
    } else if (a[0] as int) < (b[0] as int) {
        true
    } else if a[0] == b[0] {
        lex_lt(a.drop_first(), b.drop_first())
    } else {
        false
    }
}

/// `a` sorts before or equal to `b`.
pub open spec fn lex_le(a: Seq<char>, b: Seq<char>) -> bool {
    a == b || lex_lt(a, b)
}

/// `s` is in non-decreasing lexicographic order.
pub open spec fn is_sorted_lex(s: Seq<Seq<char>>) -> bool {
    forall|i: int, j: int| 0 <= i < j < s.len() ==> lex_le(#[trigger] s[i], #[trigger] s[j])
}

/// Every element of `s` occurs once.
pub open spec fn no_dups<T>(s: Seq<T>) -> bool {
    forall|i: int, j: int| 0 <= i < j < s.len() ==> s[i] != s[j]
}

/// Sequences with the same multiset of elements agree on membership, and one
/// has no repeated element when the other has none.
pub proof fn lemma_same_multiset<T>(a: Seq<T>, b: Seq<T>)
    requires
        a.to_multiset() == b.to_multiset(),
        no_dups(b),
    ensures
        no_dups(a),
        forall|x: T| #[trigger] a.contains(x) <==> b.contains(x),
{
    broadcast use vstd::seq_lib::group_to_multiset_ensures;

    assert(b.no_duplicates()) by {
        assert forall|i: int, j: int| (0 <= i < b.len() && 0 <= j < b.len() && i != j) implies b[i] != b[j] by {
            if i < j {
            } else {
                assert(b[j] != b[i]);
            }
        }
    }
    b.lemma_multiset_has_no_duplicates();
    a.lemma_multiset_has_no_duplicates_conv();
    assert forall|x: T| #[trigger] a.contains(x) <==> b.contains(x) by {
        vstd::seq_lib::to_multiset_contains(a, x);
        vstd::seq_lib::to_multiset_contains(b, x);
        assert(a.to_multiset().count(x) == b.to_multiset().count(x));
    }
}

proof fn lemma_lex_lt_irrefl(a: Seq<char>)
    ensures
        !lex_lt(a, a),
    decreases a.len(),
{
    if a.len() > 0 {
        lemma_lex_lt_irrefl(a.drop_first());
    }
}

proof fn lemma_lex_total(a: Seq<char>, b: Seq<char>)
    ensures
        a == b || lex_lt(a, b) || lex_lt(b, a),
    decreases a.len(),
{
    if a.len() > 0 && b.len() > 0 && a[0] == b[0] {
        lemma_lex_total(a.drop_first(), b.drop_first());
        if a.drop_first() == b.drop_first() {
            assert(a =~= seq![a[0]] + a.drop_first());
            assert(b =~= seq![b[0]] + b.drop_first());
        }
    } else if a.len() == 0 && b.len() == 0 {
        assert(a =~= b);
    } else if a.len() > 0 && b.len() > 0 {
        assert((a[0] as int) != (b[0] as int));
    }
}

proof fn lemma_lex_trans(a: Seq<char>, b: Seq<char>, c: Seq<char>)
    requires
        lex_lt(a, b),
        lex_lt(b, c),
    ensures
        lex_lt(a, c),
    decreases a.len(),
{
    if a.len() > 0 && b.len() > 0 && c.len() > 0 && a[0] == b[0] && b[0] == c[0] {
        lemma_lex_trans(a.drop_first(), b.drop_first(), c.drop_first());
    }
}

proof fn lemma_lex_asym(a: Seq<char>, b: Seq<char>)
    requires
        lex_lt(a, b),
    ensures
        !lex_lt(b, a),
    decreases a.len(),
{
    if a.len() > 0 && b.len() > 0 && a[0] == b[0] {
        lemma_lex_asym(a.drop_first(), b.drop_first());
    }
}

/// Decides `lex_lt(a[i..], b[j..])`.
fn lex_lt_from(a: &Vec<char>, b: &Vec<char>, i: usize, j: usize) -> (r: bool)
    requires
        i <= a.len(),
        j <= b.len(),
    ensures
        r == lex_lt(a@.skip(i as int), b@.skip(j as int)),
    decreases a.len() - i,
{
    if i == a.len() {
        return j < b.len();
    }
    if j == b.len() {
        return false;
    }
    assert(a@.skip(i as int)[0] == a@[i as int]);
    assert(b@.skip(j as int)[0] == b@[j as int]);
    let ca = a[i];
    let cb = b[j];
    if ca < cb {
        true
    } else if a[i] == b[j] {
        assert(a@.skip(i as int).drop_first() =~= a@.skip(i + 1));
        assert(b@.skip(j as int).drop_first() =~= b@.skip(j + 1));
        lex_lt_from(a, b, i + 1, j + 1)
    } else {
        false
    }
}

/// Decides whether `a` sorts strictly before `b`.
pub fn str_lex_lt(a: &str, b: &str) -> (r: bool)
    ensures
        r == lex_lt(a@, b@),
{
    let va = chars_of(a);
    let vb = chars_of(b);
    assert(va@.skip(0) =~= va@);
    assert(vb@.skip(0) =~= vb@);
    lex_lt_from(&va, &vb, 0, 0)
}

/// Sorts strings into ascending lexicographic order (insertion sort).
pub fn sort_strings(v: Vec<String>) -> (r: Vec<String>)
    ensures
        r@.map_values(|s: String| s@).to_multiset() == v@.map_values(|s: String| s@).to_multiset(),
        r@.len() == v@.len(),
        is_sorted_lex(r@.map_values(|s: String| s@)),
{
    broadcast use vstd::seq_lib::group_to_multiset_ensures;

    let ghost src = v@.map_values(|s: String| s@);
    let mut out: Vec<String> = Vec::new();
    let mut i: usize = 0;
    while i < v.len()
        invariant
            i <= v@.len(),
            src == v@.map_values(|s: String| s@),
            out@.len() == i,
            out@.map_values(|s: String| s@).to_multiset() == src.take(i as int).to_multiset(),
            is_sorted_lex(out@.map_values(|s: String| s@)),
        decreases v@.len() - i,
    {
        let x = &v[i];
        let mut p: usize = 0;
        while p < out.len() && !str_lex_lt(x.as_str(), out[p].as_str())
            invariant
                p <= out@.len(),
                forall|q: int| 0 <= q < p ==> lex_le(#[trigger] out@[q]@, x@),
            decreases out@.len() - p,
        {
            proof {
                lemma_lex_total(x@, out@[p as int]@);
            }
            p = p + 1;
        }
        let ghost before = out@.map_values(|s: String| s@);
        out.insert(p, x.clone());
        proof {
            let after = out@.map_values(|s: String| s@);
            assert(after =~= before.insert(p as int, x@));
            vstd::seq_lib::to_multiset_insert(before, p as int, x@);
            assert(src.take(i + 1) =~= src.take(i as int).push(x@));
            vstd::seq_lib::to_multiset_build(src.take(i as int), x@);
            assert forall|a: int, b: int| 0 <= a < b < after.len() implies lex_le(
                #[trigger] after[a],
                #[trigger] after[b],
            ) by {
                if b < p {
                    assert(before[a] == after[a] && before[b] == after[b]);
                } else if b == p {
                    assert(after[a] == before[a]);
                } else if a == p {
                    assert(after[b] == before[b - 1]);
                    // x < out[p] <= out[b-1]
                    assert(p < out@.len() - 1);
                    assert(lex_lt(x@, before[p as int]));
                    if b - 1 > p {
                        assert(lex_le(before[p as int], before[b - 1]));
                        if lex_lt(before[p as int], before[b - 1]) {
                            lemma_lex_trans(x@, before[p as int], before[b - 1]);
                        }
                    }
                } else if a < p {
                    assert(after[a] == before[a] && after[b] == before[b - 1]);
                    if a < b - 1 {
                        assert(lex_le(before[a], before[b - 1]));
                    }
                } else {
                    assert(after[a] == before[a - 1] && after[b] == before[b - 1]);
                }
            }
        }
        i = i + 1;
    }
    proof {
        assert(src.take(v@.len() as int) =~= src);
    }
    out
}

/// A map from strings to strings with unique keys, kept in insertion order.
pub struct StrMap {
    entries: Vec<(String, String)>,
}

/// The position of an entry with key `k`.
pub open spec fn entry_index(e: Seq<(Seq<char>, Seq<char>)>, k: Seq<char>) -> int {
    choose|i: int| 0 <= i < e.len() && e[i].0 == k
}

/// The map denoted by a list of `(key, value)` entries with distinct keys.
pub open spec fn entries_map(e: Seq<(Seq<char>, Seq<char>)>) -> Map<Seq<char>, Seq<char>> {
    Map::new(
        |k: Seq<char>| exists|i: int| 0 <= i < e.len() && e[i].0 == k,
        |k: Seq<char>| e[entry_index(e, k)].1,
    )
}

/// The keys of a list of entries.
pub open spec fn entry_keys(e: Seq<(Seq<char>, Seq<char>)>) -> Seq<Seq<char>> {
    e.map_values(|p: (Seq<char>, Seq<char>)| p.0)
}

/// Looking up the key of entry `i` in a list with distinct keys gives entry `i`'s value.
pub proof fn lemma_entries_map_at(e: Seq<(Seq<char>, Seq<char>)>, i: int)
    requires
        no_dups(entry_keys(e)),
        0 <= i < e.len(),
    ensures
        entries_map(e).contains_key(e[i].0),
        entries_map(e)[e[i].0] == e[i].1,
{
    let k = e[i].0;
    assert(e[i].0 == k);
    assert(entries_map(e).contains_key(k));
    let j = entry_index(e, k);
    if j != i {
        if j < i {
            assert(entry_keys(e)[j] != entry_keys(e)[i]);
        } else {
            assert(entry_keys(e)[i] != entry_keys(e)[j]);
        }
    }
    assert(entries_map(e)[k] == e[j].1);
}

/// Appending an entry with a new key inserts it into the map.
pub proof fn lemma_entries_map_push(e: Seq<(Seq<char>, Seq<char>)>, k: Seq<char>, v: Seq<char>)
    requires
        no_dups(entry_keys(e)),
        !entries_map(e).contains_key(k),
    ensures
        no_dups(entry_keys(e.push((k, v)))),
        entries_map(e.push((k, v))) == entries_map(e).insert(k, v),
{
    let f = e.push((k, v));
    assert(entry_keys(f) =~= entry_keys(e).push(k));
    assert forall|a: int, b: int| 0 <= a < b < entry_keys(f).len() implies entry_keys(f)[a]
        != entry_keys(f)[b] by {
        if b == e.len() {
            assert(e[a].0 == entry_keys(e)[a]);
        }
    }
    assert forall|kq: Seq<char>| #[trigger] entries_map(f).contains_key(kq)
        == entries_map(e).insert(k, v).contains_key(kq) by {
        if entries_map(e).contains_key(kq) {
            let j = choose|j: int| 0 <= j < e.len() && e[j].0 == kq;
            assert(f[j].0 == kq);
        }
        if entries_map(f).contains_key(kq) && kq != k {
            let j = choose|j: int| 0 <= j < f.len() && f[j].0 == kq;
            assert(e[j].0 == kq);
        }
        if kq == k {
            assert(f[e.len() as int].0 == kq);
        }
    }
    assert forall|kq: Seq<char>| #[trigger] entries_map(f).contains_key(kq) implies entries_map(
        f,
    )[kq] == entries_map(e).insert(k, v)[kq] by {
        let j = choose|j: int| 0 <= j < f.len() && f[j].0 == kq;
        lemma_entries_map_at(f, j);
        if j < e.len() {
            lemma_entries_map_at(e, j);
        }
    }
    assert(entries_map(f) =~= entries_map(e).insert(k, v));
}

/// Replacing the value of entry `i` updates that key in the map.
pub proof fn lemma_entries_map_update(e: Seq<(Seq<char>, Seq<char>)>, i: int, v: Seq<char>)
    requires
        no_dups(entry_keys(e)),
        0 <= i < e.len(),
    ensures
        entry_keys(e.update(i, (e[i].0, v))) == entry_keys(e),
        entries_map(e.update(i, (e[i].0, v))) == entries_map(e).insert(e[i].0, v),
{
    let k = e[i].0;
    let f = e.update(i, (k, v));
    assert(entry_keys(f) =~= entry_keys(e));
    assert forall|kq: Seq<char>| #[trigger] entries_map(f).contains_key(kq)
        == entries_map(e).insert(k, v).contains_key(kq) by {
        if entries_map(e).contains_key(kq) {
            let j = choose|j: int| 0 <= j < e.len() && e[j].0 == kq;
            assert(f[j].0 == kq);
        }
        if entries_map(f).contains_key(kq) {
            let j = choose|j: int| 0 <= j < f.len() && f[j].0 == kq;
            assert(e[j].0 == kq);
        }
        if kq == k {
            assert(e[i].0 == kq);
        }
    }
    assert forall|kq: Seq<char>| #[trigger] entries_map(f).contains_key(kq) implies entries_map(
        f,
    )[kq] == entries_map(e).insert(k, v)[kq] by {
        let j = choose|j: int| 0 <= j < f.len() && f[j].0 == kq;
        lemma_entries_map_at(f, j);
        if j != i {
            lemma_entries_map_at(e, j);
            assert(entry_keys(e)[j] != entry_keys(e)[i]);
        }
    }
    assert(entries_map(f) =~= entries_map(e).insert(k, v));
}

/// Removing entry `i` removes its key from the map.
pub proof fn lemma_entries_map_remove(e: Seq<(Seq<char>, Seq<char>)>, i: int)
    requires
        no_dups(entry_keys(e)),
        0 <= i < e.len(),
    ensures
        no_dups(entry_keys(e.remove(i))),
        entries_map(e.remove(i)) == entries_map(e).remove(e[i].0),
{
    let k = e[i].0;
    let f = e.remove(i);
    let ke = entry_keys(e);
    assert(entry_keys(f) =~= ke.remove(i));
    assert forall|a: int, b: int| 0 <= a < b < entry_keys(f).len() implies entry_keys(f)[a]
        != entry_keys(f)[b] by {
        if b < i {
        } else if a < i {
            assert(ke[a] != ke[b + 1]);
        } else {
            assert(ke[a + 1] != ke[b + 1]);
        }
    }
    assert forall|kq: Seq<char>| #[trigger] entries_map(f).contains_key(kq)
        == entries_map(e).remove(k).contains_key(kq) by {
        if entries_map(f).contains_key(kq) {
            let j = choose|j: int| 0 <= j < f.len() && f[j].0 == kq;
            if j < i {
                assert(e[j].0 == kq);
                assert(ke[j] != ke[i]);
            } else {
                assert(e[j + 1].0 == kq);
                assert(ke[i] != ke[j + 1]);
            }
        }
        if entries_map(e).remove(k).contains_key(kq) {
            let j = choose|j: int| 0 <= j < e.len() && e[j].0 == kq;
            if j < i {
                assert(f[j].0 == kq);
            } else if j > i {
                assert(f[j - 1].0 == kq);
            }
        }
    }
    assert forall|kq: Seq<char>| #[trigger] entries_map(f).contains_key(kq) implies entries_map(
        f,
    )[kq] == entries_map(e).remove(k)[kq] by {
        let j = choose|j: int| 0 <= j < f.len() && f[j].0 == kq;
        lemma_entries_map_at(f, j);
        if j < i {
            lemma_entries_map_at(e, j);
        } else {
            lemma_entries_map_at(e, j + 1);
        }
    }
    assert(entries_map(f) =~= entries_map(e).remove(k));
}

/// A map's domain is exactly the set of its entries' keys.
pub proof fn lemma_entries_map_dom(e: Seq<(Seq<char>, Seq<char>)>)
    ensures
        entries_map(e).dom() == entry_keys(e).to_set(),
{
    assert forall|k: Seq<char>| #[trigger] entries_map(e).dom().contains(k) == entry_keys(
        e,
    ).to_set().contains(k) by {
        if entries_map(e).contains_key(k) {
            let j = choose|j: int| 0 <= j < e.len() && e[j].0 == k;
            assert(entry_keys(e)[j] == k);
        }
        if entry_keys(e).contains(k) {
            let j = choose|j: int| 0 <= j < entry_keys(e).len() && entry_keys(e)[j] == k;
            assert(e[j].0 == k);
        }
    }
    assert(entries_map(e).dom() =~= entry_keys(e).to_set());
}

impl StrMap {
    /// The entries as `(key, value)` character sequences, in insertion order.
    pub closed spec fn pairs(&self) -> Seq<(Seq<char>, Seq<char>)> {
        self.entries@.map_values(|e: (String, String)| (e.0@, e.1@))
    }

    /// The keys, in insertion order.
    pub open spec fn key_seq(&self) -> Seq<Seq<char>> {
        entry_keys(self.pairs())
    }

    /// No key occurs twice (the type's invariant).
    #[verifier::type_invariant]
    pub closed spec fn well_formed(&self) -> bool {
        no_dups(entry_keys(self.pairs()))
    }

    /// The number of entries (as a spec value).
    pub closed spec fn spec_len(&self) -> nat {
        self.entries@.len()
    }

    proof fn lemma_basics(&self)
        requires
            self.well_formed(),
        ensures
            no_dups(self.key_seq()),
            self.key_seq().len() == self.spec_len(),
            self.pairs().len() == self.spec_len(),
            forall|k: Seq<char>| #[trigger] self@.contains_key(k) <==> self.key_seq().contains(k),
            self@.dom().finite(),
            self@.len() == self.spec_len(),
    {
        let e = self.pairs();
        lemma_entries_map_dom(e);
        assert forall|k: Seq<char>| #[trigger] self@.contains_key(k) <==> self.key_seq().contains(
            k,
        ) by {
            assert(self@.dom().contains(k) == entry_keys(e).to_set().contains(k));
        }
        vstd::seq_lib::seq_to_set_is_finite(entry_keys(e));
        entry_keys(e).unique_seq_to_set();
    }

    /// Relates the map's keys to its entries.
    pub proof fn lemma_keys(&self)
        requires
            self.well_formed(),
        ensures
            forall|k: Seq<char>| #[trigger] self@.contains_key(k) <==> self.key_seq().contains(k),
            self.key_seq().len() == self.spec_len(),
            no_dups(self.key_seq()),
            self@.dom().finite(),
            self@.len() == self.spec_len(),
    {
        self.lemma_basics();
    }

    /// An empty map.
    pub fn new() -> (m: StrMap)
        ensures
            m@ == Map::<Seq<char>, Seq<char>>::empty(),
            m.key_seq() == Seq::<Seq<char>>::empty(),
    {
        let m = StrMap { entries: Vec::new() };
        assert(m.key_seq() =~= Seq::<Seq<char>>::empty());
        assert(m@ =~= Map::<Seq<char>, Seq<char>>::empty());
        m
    }

    /// Number of entries.
    pub fn len(&self) -> (n: usize)
        ensures
            n == self.spec_len(),
            n == self@.len(),
    {
        proof {
            use_type_invariant(self);
            self.lemma_basics();
        }
        self.entries.len()
    }

    /// True when there are no entries.
    pub fn is_empty(&self) -> (b: bool)
        ensures
            b == (self@ == Map::<Seq<char>, Seq<char>>::empty()),
    {
        proof {
            use_type_invariant(self);
            self.lemma_basics();
        }
        if self.entries.len() == 0 {
            assert(self@ =~= Map::<Seq<char>, Seq<char>>::empty());
            true
        } else {
            proof {
                lemma_entries_map_at(self.pairs(), 0);
            }
            false
        }
    }

    /// Finds the position of key `k`.
    fn position(&self, k: &str) -> (r: Option<usize>)
        ensures
            match r {
                Some(i) => i < self.spec_len() && self.pairs()[i as int].0 == k@,
                None => !self@.contains_key(k@),
            },
    {
        let mut i: usize = 0;
        while i < self.entries.len()
            invariant
                i <= self.entries@.len(),
                forall|j: int| 0 <= j < i ==> self.entries@[j].0@ != k@,
            decreases self.entries@.len() - i,
        {
            if str_eq(self.entries[i].0.as_str(), k) {
                return Some(i);
            }
            i = i + 1;
        }
        proof {
            if self@.contains_key(k@) {
                let j = choose|j: int| 0 <= j < self.pairs().len() && self.pairs()[j].0 == k@;
                assert(self.entries@[j].0@ == k@);
            }
        }
        None
    }

    /// Looks up `k`.
    pub fn get(&self, k: &str) -> (r: Option<&String>)
        ensures
            match r {
                Some(v) => self@.contains_key(k@) && self@[k@] == v@,
                None => !self@.contains_key(k@),
            },
    {
        proof {
            use_type_invariant(self);
        }
        match self.position(k) {
            Some(i) => {
                proof {
                    lemma_entries_map_at(self.pairs(), i as int);
                }
                Some(&self.entries[i].1)
            },
            None => None,
        }
    }

    /// Whether `k` is a key.
    pub fn contains_key(&self, k: &str) -> (b: bool)
        ensures
            b == self@.contains_key(k@),
    {
        proof {
            use_type_invariant(self);
        }
        match self.position(k) {
            Some(i) => {
                proof {
                    lemma_entries_map_at(self.pairs(), i as int);
                }
                true
            },
            None => false,
        }
    }

    /// Sets `k` to `v`; a new key goes after the existing ones.
    pub fn insert(&mut self, k: String, v: String)
        ensures
            final(self)@ == old(self)@.insert(k@, v@),
            old(self)@.contains_key(k@) ==> final(self).key_seq() == old(self).key_seq(),
            !old(self)@.contains_key(k@) ==> final(self).key_seq() == old(self).key_seq().push(
                k@,
            ),
    {
        proof {
            use_type_invariant(&*self);
        }
        let ghost e = self.pairs();
        let ghost kk = k@;
        let ghost vv = v@;
        let pos = self.position(k.as_str());
        let mut entries: Vec<(String, String)> = Vec::new();
        std::mem::swap(&mut entries, &mut self.entries);
        match pos {
            Some(i) => {
                entries.set(i, (k, v));
                proof {
                    lemma_entries_map_update(e, i as int, vv);
                    assert(entries@.map_values(|x: (String, String)| (x.0@, x.1@)) =~= e.update(
                        i as int,
                        (e[i as int].0, vv),
                    ));
                }
            },
            None => {
                entries.push((k, v));
                proof {
                    lemma_entries_map_push(e, kk, vv);
                    assert(entries@.map_values(|x: (String, String)| (x.0@, x.1@)) =~= e.push(
                        (kk, vv),
                    ));
                }
            },
        }
        self.entries = entries;
    }

    /// Removes `k` if present, keeping the other entries in order.
    pub fn remove(&mut self, k: &str)
        ensures
            final(self)@ == old(self)@.remove(k@),
    {
        proof {
            use_type_invariant(&*self);
        }
        let ghost e = self.pairs();
        match self.position(k) {
            Some(i) => {
                let mut entries: Vec<(String, String)> = Vec::new();
                std::mem::swap(&mut entries, &mut self.entries);
                let _ = entries.remove(i);
                proof {
                    lemma_entries_map_remove(e, i as int);
                    assert(entries@.map_values(|x: (String, String)| (x.0@, x.1@)) =~= e.remove(
                        i as int,
                    ));
                }
                self.entries = entries;
            },
            None => {
                assert(self@.remove(k@) =~= self@);
            },
        }
    }

    /// Removes every entry.
    pub fn clear(&mut self)
        ensures
            final(self)@ == Map::<Seq<char>, Seq<char>>::empty(),
    {
        self.entries = Vec::new();
        assert(self@ =~= Map::<Seq<char>, Seq<char>>::empty());
    }

    /// The entry at position `i` in insertion order.
    pub fn entry_at(&self, i: usize) -> (r: (&String, &String))
        requires
            i < self.spec_len(),
        ensures
            r.0@ == self.key_seq()[i as int],
            self@.contains_key(r.0@),
            self@[r.0@] == r.1@,
    {
        proof {
            use_type_invariant(self);
            lemma_entries_map_at(self.pairs(), i as int);
        }
        (&self.entries[i].0, &self.entries[i].1)
    }

    /// Copies every entry of `other` into `self`; keys of `other` win.
    pub fn extend(&mut self, other: &StrMap)
        ensures
            final(self)@ == old(self)@.union_prefer_right(other@),
    {
        proof {
            use_type_invariant(other);
            other.lemma_basics();
        }
        let ghost start = self@;
        let ghost ks = other.key_seq();
        let n = other.len();
        let mut i: usize = 0;
        while i < n
            invariant
                i <= n == other.spec_len() == ks.len(),
                ks == other.key_seq(),
                forall|k: Seq<char>| #[trigger] other@.contains_key(k) <==> ks.contains(k),
                self@ == start.union_prefer_right(
                    Map::new(|k: Seq<char>| ks.take(i as int).contains(k), |k: Seq<char>| other@[k]),
                ),
            decreases n - i,
        {
            let (k, v) = other.entry_at(i);
            self.insert(k.clone(), v.clone());
            proof {
                assert(ks.take(i + 1) =~= ks.take(i as int).push(ks[i as int]));
                let m0 = Map::new(|q: Seq<char>| ks.take(i as int).contains(q), |q: Seq<char>| other@[q]);
                let m1 = Map::new(|q: Seq<char>| ks.take(i + 1).contains(q), |q: Seq<char>| other@[q]);
                let t0 = ks.take(i as int);
                let t1 = ks.take(i + 1);
                assert forall|q: Seq<char>| m1.contains_key(q) <==> (m0.contains_key(q) || q == ks[i as int]) by {
                    if m1.contains_key(q) && q != ks[i as int] {
                        let j = choose|j: int| 0 <= j < t1.len() && t1[j] == q;
                        assert(t0[j] == q);
                    }
                    if m0.contains_key(q) {
                        let j = choose|j: int| 0 <= j < t0.len() && t0[j] == q;
                        assert(t1[j] == q);
                    }
                    if q == ks[i as int] {
                        assert(t1[i as int] == q);
                    }
                }
                assert(m1 =~= m0.insert(ks[i as int], other@[ks[i as int]]));
                assert(self@ =~= start.union_prefer_right(m1));
            }
            i = i + 1;
        }
        proof {
            assert(ks.take(n as int) =~= ks);
            let m = Map::new(|k: Seq<char>| ks.take(n as int).contains(k), |k: Seq<char>| other@[k]);
            assert(m =~= other@);
        }
    }

    /// A copy of this map, with the same entry order.
    pub fn copy(&self) -> (r: StrMap)
        ensures
            r@ == self@,
            r.key_seq() == self.key_seq(),
    {
        proof {
            use_type_invariant(self);
        }
        let mut entries: Vec<(String, String)> = Vec::new();
        let mut i: usize = 0;
        while i < self.entries.len()
            invariant
                i <= self.entries@.len(),
                entries@.map_values(|x: (String, String)| (x.0@, x.1@)) == self.pairs().take(i as int),
            decreases self.entries@.len() - i,
        {
            let k = self.entries[i].0.clone();
            let v = self.entries[i].1.clone();
            let ghost before = entries@;
            entries.push((k, v));
            proof {
                let p = self.pairs();
                assert(entries@ == before.push(self.entries@[i as int]));
                assert(p[i as int] == (self.entries@[i as int].0@, self.entries@[i as int].1@));
                assert(entries@.map_values(|x: (String, String)| (x.0@, x.1@)) =~= before.map_values(|x: (String, String)| (x.0@, x.1@)).push(p[i as int]));
                assert(p.take(i + 1) =~= p.take(i as int).push(p[i as int]));
            }
            i = i + 1;
        }
        proof {
            assert(self.pairs().take(self.entries@.len() as int) =~= self.pairs());
        }
        StrMap { entries }
    }

    /// The keys in ascending lexicographic order.
    pub fn sorted_keys(&self) -> (r: Vec<String>)
        ensures
            is_sorted_lex(views(r@)),
            no_dups(views(r@)),
            forall|k: Seq<char>| #[trigger] views(r@).contains(k) <==> self@.contains_key(k),
            r@.len() == self.spec_len(),
    {
        proof {
            use_type_invariant(self);
        }
        let mut out: Vec<String> = Vec::new();
        let mut i: usize = 0;
        while i < self.entries.len()
            invariant
                i <= self.entries@.len(),
                out@.map_values(|s: String| s@) == self.key_seq().take(i as int),
            decreases self.entries@.len() - i,
        {
            let ghost before = out@;
            out.push(self.entries[i].0.clone());
            proof {
                let ks = self.key_seq();
                assert(ks[i as int] == self.entries@[i as int].0@);
                assert(out@.map_values(|s: String| s@) =~= before.map_values(|s: String| s@).push(ks[i as int]));
                assert(ks.take(i + 1) =~= ks.take(i as int).push(ks[i as int]));
            }
            i = i + 1;
        }
        proof {
            assert(self.key_seq().take(self.entries@.len() as int) =~= self.key_seq());
        }
        let r = sort_strings(out);
        proof {
            self.lemma_basics();
            lemma_same_multiset(views(r@), self.key_seq());
        }
        r
    }
}

impl View for StrMap {
    type V = Map<Seq<char>, Seq<char>>;

    open spec fn view(&self) -> Map<Seq<char>, Seq<char>> {
        entries_map(self.pairs())
    }
}

impl Clone for StrMap {
    /// A copy with the same entries in the same order.
    fn clone(&self) -> (r: Self)
        ensures
            r@ == self@,
            r.key_seq() == self.key_seq(),
    {
        self.copy()
    }
}

} // verus!
