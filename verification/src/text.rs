//! Character-level string helpers shared by the parsers and formatters.
//!
//! Strings are reasoned about through their view, a `Seq<char>`; the helpers
//! here move between `String`/`&str` and `Vec<char>` and give the usual text
//! operations (trim, prefix, search, decimal rendering) exact specifications.

use vstd::prelude::*;

verus! {

// ─── views of string lists ───────────────────────────────────────────────────

/// The character sequences of a list of strings.
pub open spec fn views(v: Seq<String>) -> Seq<Seq<char>> {
    v.map_values(|s: String| s@)
}

/// Pushing a string pushes its view.
pub proof fn lemma_views_push(v: Seq<String>, s: String)
    ensures
        views(v.push(s)) == views(v).push(s@),
{
    assert(views(v.push(s)) =~= views(v).push(s@));
}

/// A prefix one longer adds the next element.
pub proof fn lemma_take_next<T>(v: Seq<T>, i: int)
    requires
        0 <= i < v.len(),
    ensures
        v.take(i + 1) == v.take(i).push(v[i]),
{
    assert(v.take(i + 1) =~= v.take(i).push(v[i]));
}

/// The whole sequence is its own full-length prefix.
pub proof fn lemma_take_all<T>(v: Seq<T>)
    ensures
        v.take(v.len() as int) == v,
{
    assert(v.take(v.len() as int) =~= v);
}

// ─── std string plumbing ─────────────────────────────────────────────────────

/// Appends one character: wraps `String::push`, whose documented effect is to
/// append `c` to the end of the string.
#[verifier::external_body]
pub(crate) fn push_char(s: &mut String, c: char)
    ensures
        final(s)@ == old(s)@.push(c),
{
    s.push(c);
}

/// Appends a string slice: wraps `String::push_str`, whose documented effect is
/// to append `t` to the end of the string.
#[verifier::external_body]
pub(crate) fn push_str(s: &mut String, t: &str)
    ensures
        final(s)@ == old(s)@ + t@,
{
    s.push_str(t);
}

/// The lowercase form of a string under Unicode's case mapping, as computed by
/// `str::to_lowercase`.
pub uninterp spec fn lowercase(s: Seq<char>) -> Seq<char>;

/// The uppercase form of a string under Unicode's case mapping, as computed by
/// `str::to_uppercase`.
pub uninterp spec fn uppercase(s: Seq<char>) -> Seq<char>;

/// Wraps `str::to_lowercase`: the result is the Unicode lowercase mapping of
/// `s`, a function of `s` alone (named by [`lowercase`]; the mapping tables are
/// not restated here).
#[verifier::external_body]
pub(crate) fn to_lowercase(s: &str) -> (r: String)
    ensures
        r@ == lowercase(s@),
{
    s.to_lowercase()
}

/// Wraps `str::to_uppercase`: the result is the Unicode uppercase mapping of
/// `s`, a function of `s` alone (named by [`uppercase`]).
#[verifier::external_body]
pub(crate) fn to_uppercase(s: &str) -> (r: String)
    ensures
        r@ == uppercase(s@),
{
    s.to_uppercase()
}

/// Copies a string slice into an owned `String`.
pub fn owned(s: &str) -> (r: String)
    ensures
        r@ == s@,
{
    s.to_owned()
}

/// Collects the characters of `s` into a vector.
pub fn chars_of(s: &str) -> (r: Vec<char>)
    ensures
        r@ == s@,
{
    let mut out: Vec<char> = Vec::new();
    for c in it: s.chars()
        invariant
            out@ == it.seq().take(it.index() as int),
    {
        out.push(c);
    }
    out
}

/// Builds a `String` from the characters `v[lo..hi]`.
pub fn string_from_range(v: &Vec<char>, lo: usize, hi: usize) -> (r: String)
    requires
        lo <= hi <= v.len(),
    ensures
        r@ == v@.subrange(lo as int, hi as int),
{
    let mut out = String::new();
    let mut i = lo;
    while i < hi
        invariant
            lo <= i <= hi <= v.len(),
            out@ == v@.subrange(lo as int, i as int),
        decreases hi - i,
    {
        push_char(&mut out, v[i]);
        i = i + 1;
        assert(out@ =~= v@.subrange(lo as int, i as int));
    }
    out
}

/// Builds a `String` from all the characters of `v`.
pub fn string_from_chars(v: &Vec<char>) -> (r: String)
    ensures
        r@ == v@,
{
    let r = string_from_range(v, 0, v.len());
    assert(v@.subrange(0, v@.len() as int) =~= v@);
    r
}

/// Concatenates two string slices into a new `String`.
pub fn concat(a: &str, b: &str) -> (r: String)
    ensures
        r@ == a@ + b@,
{
    let mut s = owned(a);
    push_str(&mut s, b);
    s
}

// ─── whitespace and trimming ─────────────────────────────────────────────────

/// Unicode `White_Space` code points: the characters `char::is_whitespace`
/// accepts.
pub open spec fn is_ws(c: char) -> bool {
    let u = c as u32;
    ||| 0x09 <= u <= 0x0D
    ||| u == 0x20
    ||| u == 0x85
    ||| u == 0xA0
    ||| u == 0x1680
    ||| 0x2000 <= u <= 0x200A
    ||| u == 0x2028
    ||| u == 0x2029
    ||| u == 0x202F
    ||| u == 0x205F
    ||| u == 0x3000
}

/// Executable test for [`is_ws`].
pub fn is_whitespace(c: char) -> (r: bool)
    ensures
        r == is_ws(c),
{
    let u = c as u32;
    (0x09 <= u && u <= 0x0D) || u == 0x20 || u == 0x85 || u == 0xA0 || u == 0x1680 || (0x2000
        <= u && u <= 0x200A) || u == 0x2028 || u == 0x2029 || u == 0x202F || u == 0x205F || u
        == 0x3000
}

/// `s` without its leading whitespace.
pub open spec fn trim_start(s: Seq<char>) -> Seq<char>
    decreases s.len(),
{
    if s.len() > 0 && is_ws(s[0]) {
        trim_start(s.drop_first())
    } else {
        s
    }
}

/// `s` without its trailing whitespace.
pub open spec fn trim_end(s: Seq<char>) -> Seq<char>
    decreases s.len(),
{
    if s.len() > 0 && is_ws(s.last()) {
        trim_end(s.drop_last())
    } else {
        s
    }
}

/// `s` without leading and trailing whitespace (what `str::trim` returns).
pub open spec fn trim(s: Seq<char>) -> Seq<char> {
    trim_end(trim_start(s))
}

/// Finds the bounds of `v[lo..hi]` once whitespace is trimmed from both ends.
pub fn trim_bounds(v: &Vec<char>, lo: usize, hi: usize) -> (r: (usize, usize))
    requires
        lo <= hi <= v.len(),
    ensures
        lo <= r.0 <= r.1 <= hi,
        v@.subrange(r.0 as int, r.1 as int) == trim(v@.subrange(lo as int, hi as int)),
{
    let ghost s = v@.subrange(lo as int, hi as int);
    let mut a = lo;
    while a < hi && is_whitespace(v[a])
        invariant
            lo <= a <= hi <= v.len(),
            s == v@.subrange(lo as int, hi as int),
            trim_start(s) == trim_start(v@.subrange(a as int, hi as int)),
        decreases hi - a,
    {
        assert(v@.subrange(a as int, hi as int).drop_first() =~= v@.subrange(a + 1, hi as int));
        a = a + 1;
    }
    let ghost t = v@.subrange(a as int, hi as int);
    assert(trim_start(s) == t);
    let mut b = hi;
    while b > a && is_whitespace(v[b - 1])
        invariant
            lo <= a <= b <= hi <= v.len(),
            trim_start(s) == v@.subrange(a as int, hi as int),
            trim_end(v@.subrange(a as int, hi as int)) == trim_end(v@.subrange(a as int, b as int)),
        decreases b - a,
    {
        assert(v@.subrange(a as int, b as int).drop_last() =~= v@.subrange(a as int, b - 1));
        b = b - 1;
    }
    (a, b)
}

/// `str::trim`: removes leading and trailing whitespace.
pub fn trim_str(s: &str) -> (r: String)
    ensures
        r@ == trim(s@),
{
    let v = chars_of(s);
    let (a, b) = trim_bounds(&v, 0, v.len());
    assert(v@.subrange(0, v@.len() as int) =~= v@);
    string_from_range(&v, a, b)
}

// ─── prefixes, suffixes, search ──────────────────────────────────────────────

/// `s` starts with `p`.
pub open spec fn has_prefix(s: Seq<char>, p: Seq<char>) -> bool {
    p.len() <= s.len() && s.take(p.len() as int) == p
}

/// `s` ends with `p`.
pub open spec fn has_suffix(s: Seq<char>, p: Seq<char>) -> bool {
    p.len() <= s.len() && s.skip(s.len() - p.len()) == p
}

/// `p` occurs in `s` at position `i`.
pub open spec fn occurs_at(s: Seq<char>, p: Seq<char>, i: int) -> bool {
    0 <= i && i + p.len() <= s.len() && s.subrange(i, i + p.len()) == p
}

/// `p` occurs somewhere in `s` (what `str::contains` tests).
pub open spec fn contains_seq(s: Seq<char>, p: Seq<char>) -> bool {
    exists|i: int| occurs_at(s, p, i)
}

/// The first position at or after `from` where `p` occurs in `s`, if any.
pub open spec fn first_occurrence_from(s: Seq<char>, p: Seq<char>, from: int) -> Option<int>
    decreases s.len() - from,
{
    if from < 0 || from > s.len() {
        None
    } else if occurs_at(s, p, from) {
        Some(from)
    } else if from == s.len() {
        None
    } else {
        first_occurrence_from(s, p, from + 1)
    }
}

/// The position of the first occurrence of `p` in `s`, if any (what
/// `str::find` returns, counted in characters).
pub open spec fn first_occurrence(s: Seq<char>, p: Seq<char>) -> Option<int> {
    first_occurrence_from(s, p, 0)
}

/// A found occurrence is at or after `from`, is one, and no earlier one
/// exists from `from` on; when none is found there is none.
pub proof fn lemma_first_occurrence_from(s: Seq<char>, p: Seq<char>, from: int)
    requires
        0 <= from,
    ensures
        first_occurrence_from(s, p, from) matches Some(j) ==> from <= j && occurs_at(s, p, j)
            && j + p.len() <= s.len() && forall|k: int| from <= k < j ==> !occurs_at(s, p, k),
        first_occurrence_from(s, p, from) is None ==> forall|k: int| from <= k ==> !occurs_at(s, p, k),
    decreases s.len() - from,
{
    if from <= s.len() && !occurs_at(s, p, from) && from < s.len() {
        lemma_first_occurrence_from(s, p, from + 1);
        assert forall|k: int| from <= k && first_occurrence_from(s, p, from) is None implies !occurs_at(s, p, k) by {
            if k > from {
            }
        }
    }
    if from > s.len() {
        assert forall|k: int| from <= k implies !occurs_at(s, p, k) by {}
    }
    if from == s.len() && !occurs_at(s, p, from) {
        assert forall|k: int| from <= k implies !occurs_at(s, p, k) by {
            if k > from {
            }
        }
    }
}

/// Whether `p` occurs in `v` at character position `i`.
pub fn occurs_at_exec(v: &Vec<char>, p: &Vec<char>, i: usize) -> (r: bool)
    ensures
        r == occurs_at(v@, p@, i as int),
{
    if i > v.len() || p.len() > v.len() - i {
        return false;
    }
    let mut k: usize = 0;
    while k < p.len()
        invariant
            i + p.len() <= v.len(),
            k <= p.len(),
            forall|j: int| 0 <= j < k ==> v@[i + j] == p@[j],
        decreases p.len() - k,
    {
        if v[i + k] != p[k] {
            assert(v@.subrange(i as int, i + p.len())[k as int] != p@[k as int]);
            return false;
        }
        k = k + 1;
    }
    assert(v@.subrange(i as int, i + p.len()) =~= p@);
    true
}

/// Searches for the first occurrence of `p` in `v` at or after `from`.
pub fn find_from(v: &Vec<char>, p: &Vec<char>, from: usize) -> (r: Option<usize>)
    requires
        from <= v.len(),
    ensures
        match r {
            Some(i) => from <= i && occurs_at(v@, p@, i as int) && forall|j: int|
                from <= j < i ==> !occurs_at(v@, p@, j),
            None => forall|j: int| from <= j ==> !occurs_at(v@, p@, j),
        },
        r matches Some(i) ==> first_occurrence_from(v@, p@, from as int) == Some(i as int),
        r is None <==> first_occurrence_from(v@, p@, from as int) is None,
{
    let mut i = from;
    while i < v.len()
        invariant
            from <= i <= v.len(),
            forall|j: int| from <= j < i ==> !occurs_at(v@, p@, j),
            first_occurrence_from(v@, p@, from as int) == first_occurrence_from(v@, p@, i as int),
        decreases v.len() - i,
    {
        if occurs_at_exec(v, p, i) {
            return Some(i);
        }
        i = i + 1;
    }
    proof {
        lemma_first_occurrence_from(v@, p@, i as int);
    }
    if occurs_at_exec(v, p, i) {
        return Some(i);
    }
    None
}

/// `str::find` on character sequences: the first position of `p` in `v`.
pub fn find(v: &Vec<char>, p: &Vec<char>) -> (r: Option<usize>)
    ensures
        r matches Some(i) ==> first_occurrence(v@, p@) == Some(i as int),
        r is None <==> first_occurrence(v@, p@) is None,
{
    find_from(v, p, 0)
}

/// `str::contains` on string slices.
pub fn str_contains(s: &str, p: &str) -> (r: bool)
    ensures
        r == contains_seq(s@, p@),
{
    let v = chars_of(s);
    let pv = chars_of(p);
    let r = find_from(&v, &pv, 0);
    match r {
        Some(i) => {
            assert(occurs_at(v@, pv@, i as int));
            true
        },
        None => false,
    }
}

/// `str::starts_with` on string slices.
pub fn str_starts_with(s: &str, p: &str) -> (r: bool)
    ensures
        r == has_prefix(s@, p@),
{
    let v = chars_of(s);
    let pv = chars_of(p);
    let r = occurs_at_exec(&v, &pv, 0);
    assert(v@.subrange(0, pv@.len() as int) =~= v@.take(pv@.len() as int));
    r
}

/// `str::ends_with` on string slices.
pub fn str_ends_with(s: &str, p: &str) -> (r: bool)
    ensures
        r == has_suffix(s@, p@),
{
    let v = chars_of(s);
    let pv = chars_of(p);
    if pv.len() > v.len() {
        return false;
    }
    let r = occurs_at_exec(&v, &pv, v.len() - pv.len());
    assert(v@.subrange(v@.len() - pv@.len(), v@.len() as int) =~= v@.skip(
        v@.len() - pv@.len(),
    ));
    r
}

/// Character-sequence equality of two string slices.
pub fn str_eq(a: &str, b: &str) -> (r: bool)
    ensures
        r == (a@ == b@),
{
    let va = chars_of(a);
    let vb = chars_of(b);
    if va.len() != vb.len() {
        return false;
    }
    let r = occurs_at_exec(&va, &vb, 0);
    assert(va@.subrange(0, vb@.len() as int) =~= va@);
    r
}

// ─── decimal rendering ───────────────────────────────────────────────────────

/// The decimal digit for `d < 10`.
pub open spec fn digit_char(d: nat) -> char {
    if d == 0 { '0' }
    else if d == 1 { '1' }
    else if d == 2 { '2' }
    else if d == 3 { '3' }
    else if d == 4 { '4' }
    else if d == 5 { '5' }
    else if d == 6 { '6' }
    else if d == 7 { '7' }
    else if d == 8 { '8' }
    else { '9' }
}

/// The decimal representation of `n`, without leading zeros (`"0"` for zero).
pub open spec fn decimal(n: nat) -> Seq<char>
    decreases n,
{
    if n < 10 {
        seq![digit_char(n)]
    } else {
        decimal(n / 10).push(digit_char(n % 10))
    }
}

fn digit(d: u64) -> (c: char)
    requires
        d < 10,
    ensures
        c == digit_char(d as nat),
{
    if d == 0 { '0' }
    else if d == 1 { '1' }
    else if d == 2 { '2' }
    else if d == 3 { '3' }
    else if d == 4 { '4' }
    else if d == 5 { '5' }
    else if d == 6 { '6' }
    else if d == 7 { '7' }
    else if d == 8 { '8' }
    else { '9' }
}

/// Renders `n` in decimal, as `u64`'s `Display` does.
pub fn u64_to_string(n: u64) -> (r: String)
    ensures
        r@ == decimal(n as nat),
    decreases n,
{
    if n < 10 {
        let mut s = String::new();
        push_char(&mut s, digit(n));
        assert(s@ =~= seq![digit_char(n as nat)]);
        s
    } else {
        let mut s = u64_to_string(n / 10);
        push_char(&mut s, digit(n % 10));
        s
    }
}

/// Renders a `usize` in decimal.
pub fn usize_to_string(n: usize) -> (r: String)
    ensures
        r@ == decimal(n as nat),
{
    u64_to_string(n as u64)
}

// ─── UTF-8 width ─────────────────────────────────────────────────────────────

/// The number of bytes UTF-8 uses to encode `c`.
pub open spec fn utf8_width(c: char) -> nat {
    let u = c as u32;
    if u < 0x80 {
        1
    } else if u < 0x800 {
        2
    } else if u < 0x10000 {
        3
    } else {
        4
    }
}

/// The number of bytes UTF-8 uses to encode `s` (what `str::len` returns).
pub open spec fn utf8_len(s: Seq<char>) -> nat
    decreases s.len(),
{
    if s.len() == 0 {
        0
    } else {
        utf8_len(s.drop_last()) + utf8_width(s.last())
    }
}

/// Wraps `str::len`, documented as the length of `s` in bytes: the size of its
/// UTF-8 encoding, one to four bytes per character by code point.
#[verifier::external_body]
pub(crate) fn byte_len(s: &str) -> (r: usize)
    ensures
        r == utf8_len(s@),
{
    s.len()
}

/// Executable [`utf8_width`].
pub fn char_utf8_width(c: char) -> (r: usize)
    ensures
        r == utf8_width(c),
{
    let u = c as u32;
    if u < 0x80 {
        1
    } else if u < 0x800 {
        2
    } else if u < 0x10000 {
        3
    } else {
        4
    }
}

/// `utf8_len` of a prefix grows by the width of the next character.
pub proof fn lemma_utf8_len_step(s: Seq<char>, i: int)
    requires
        0 <= i < s.len(),
    ensures
        utf8_len(s.take(i + 1)) == utf8_len(s.take(i)) + utf8_width(s[i]),
{
    assert(s.take(i + 1).drop_last() =~= s.take(i));
}

/// `utf8_len` never falls below the number of characters.
pub proof fn lemma_utf8_len_ge(s: Seq<char>)
    ensures
        utf8_len(s) >= s.len(),
    decreases s.len(),
{
    if s.len() > 0 {
        lemma_utf8_len_ge(s.drop_last());
    }
}

/// The UTF-8 byte length of the first `n` characters of `v`.
pub fn utf8_prefix_len(v: &Vec<char>, n: usize) -> (r: usize)
    requires
        n <= v.len(),
        utf8_len(v@.take(n as int)) <= usize::MAX,
    ensures
        r == utf8_len(v@.take(n as int)),
{
    let mut total: usize = 0;
    let mut i: usize = 0;
    while i < n
        invariant
            i <= n <= v.len(),
            total == utf8_len(v@.take(i as int)),
            utf8_len(v@.take(n as int)) <= usize::MAX,
        decreases n - i,
    {
        proof {
            lemma_utf8_len_step(v@, i as int);
            lemma_utf8_len_prefix_mono(v@, i + 1, n as int);
        }
        total = total + char_utf8_width(v[i]);
        i = i + 1;
    }
    total
}

/// The UTF-8 length of `s` is that of its first `k` characters plus that of
/// the rest.
pub proof fn lemma_utf8_len_split(s: Seq<char>, k: int)
    requires
        0 <= k <= s.len(),
    ensures
        utf8_len(s) == utf8_len(s.take(k)) + utf8_len(s.skip(k)),
    decreases s.len(),
{
    if k == s.len() {
        assert(s.take(k) =~= s);
        assert(s.skip(k) =~= Seq::<char>::empty());
    } else {
        lemma_utf8_len_split(s.drop_last(), k);
        assert(s.drop_last().take(k) =~= s.take(k));
        assert(s.skip(k).drop_last() =~= s.drop_last().skip(k));
        assert(s.skip(k).last() == s.last());
    }
}

/// `utf8_len` of prefixes is monotone in the prefix length.
pub proof fn lemma_utf8_len_prefix_mono(s: Seq<char>, i: int, j: int)
    requires
        0 <= i <= j <= s.len(),
    ensures
        utf8_len(s.take(i)) <= utf8_len(s.take(j)),
    decreases j - i,
{
    if i < j {
        lemma_utf8_len_step(s, j - 1);
        lemma_utf8_len_prefix_mono(s, i, j - 1);
    }
}

} // verus!

verus! {

// ─── lines and words ─────────────────────────────────────────────────────────

/// A line as `str::lines` yields it: a `\r` before the `\n` is dropped.
pub open spec fn strip_cr(line: Seq<char>) -> Seq<char> {
    if line.len() > 0 && line.last() == '\r' {
        line.drop_last()
    } else {
        line
    }
}

/// The first position at or after `from` holding character `c`.
pub open spec fn char_pos_from(s: Seq<char>, c: char, from: int) -> Option<int>
    decreases s.len() - from,
{
    if from < 0 || from >= s.len() {
        None
    } else if s[from] == c {
        Some(from)
    } else {
        char_pos_from(s, c, from + 1)
    }
}

/// The lines of `s`, as `str::lines` yields them: split at `\n`, with a `\r`
/// before the `\n` removed and no empty line after a final `\n`.
pub open spec fn lines_from(s: Seq<char>, from: int) -> Seq<Seq<char>>
    decreases s.len() - from,
{
    if from < 0 || from >= s.len() {
        Seq::empty()
    } else {
        match char_pos_from(s, '\n', from) {
            None => seq![s.subrange(from, s.len() as int)],
            Some(i) => {
                if i < from || i >= s.len() {
                    Seq::empty()
                } else {
                    seq![strip_cr(s.subrange(from, i))] + lines_from(s, i + 1)
                }
            },
        }
    }
}

/// The lines of `s`.
pub open spec fn lines(s: Seq<char>) -> Seq<Seq<char>> {
    lines_from(s, 0)
}

pub proof fn lemma_char_pos_from(s: Seq<char>, c: char, from: int)
    requires
        0 <= from,
    ensures
        char_pos_from(s, c, from) matches Some(i) ==> from <= i < s.len() && s[i] == c && forall|k: int| from <= k < i ==> s[k] != c,
        char_pos_from(s, c, from) is None ==> forall|k: int| from <= k < s.len() ==> s[k] != c,
    decreases s.len() - from,
{
    if from < s.len() && s[from] != c {
        lemma_char_pos_from(s, c, from + 1);
    }
}

/// Finds character `c` at or after `from`.
pub fn find_char_from(v: &Vec<char>, c: char, from: usize) -> (r: Option<usize>)
    requires
        from <= v.len(),
    ensures
        match r {
            Some(i) => char_pos_from(v@, c, from as int) == Some(i as int) && i < v.len(),
            None => char_pos_from(v@, c, from as int) is None,
        },
{
    let mut i = from;
    while i < v.len()
        invariant
            from <= i <= v.len(),
            char_pos_from(v@, c, from as int) == char_pos_from(v@, c, i as int),
        decreases v.len() - i,
    {
        if v[i] == c {
            return Some(i);
        }
        i = i + 1;
    }
    None
}

/// Splits `s` into lines, as `str::lines` does.
pub fn split_lines(s: &str) -> (r: Vec<String>)
    ensures
        views(r@) == lines(s@),
{
    let v = chars_of(s);
    let mut out: Vec<String> = Vec::new();
    let mut from: usize = 0;
    while from < v.len()
        invariant
            from <= v.len(),
            v@ == s@,
            lines(v@) == views(out@) + lines_from(v@, from as int),
        decreases v.len() - from,
    {
        let ghost before = out@;
        match find_char_from(&v, '\n', from) {
            None => {
                let line = string_from_range(&v, from, v.len());
                out.push(line);
                proof {
                    lemma_views_push(before, line);
                    assert(lines_from(v@, v@.len() as int) =~= Seq::<Seq<char>>::empty());
                    assert(views(before) + seq![line@] + Seq::<Seq<char>>::empty() =~= views(before) + lines_from(v@, from as int));
                }
                from = v.len();
            },
            Some(i) => {
                proof {
                    lemma_char_pos_from(v@, '\n', from as int);
                }
                let mut end = i;
                if end > from && v[end - 1] == '\r' {
                    end = end - 1;
                }
                let line = string_from_range(&v, from, end);
                out.push(line);
                proof {
                    lemma_views_push(before, line);
                    assert(line@ == strip_cr(v@.subrange(from as int, i as int))) by {
                        if i > from && v@[i - 1] == '\r' {
                            assert(v@.subrange(from as int, i as int).drop_last() =~= v@.subrange(from as int, i - 1));
                        }
                    }
                    assert(views(before) + lines_from(v@, from as int) =~= views(out@) + lines_from(v@, i + 1));
                }
                from = i + 1;
            },
        }
    }
    proof {
        assert(views(out@) + Seq::<Seq<char>>::empty() =~= views(out@));
    }
    out
}

/// The maximal runs of non-whitespace characters of `s` from `from` on, as
/// `str::split_whitespace` yields them.
pub open spec fn words_from(s: Seq<char>, from: int) -> Seq<Seq<char>>
    decreases s.len() - from,
{
    if from < 0 || from >= s.len() {
        Seq::empty()
    } else if is_ws(s[from]) {
        words_from(s, from + 1)
    } else {
        let e = word_end(s, from);
        if e <= from || e > s.len() {
            Seq::empty()
        } else {
            seq![s.subrange(from, e)] + words_from(s, e)
        }
    }
}

/// The end of the run of non-whitespace characters starting at `from`.
pub open spec fn word_end(s: Seq<char>, from: int) -> int
    decreases s.len() - from,
{
    if from < 0 || from >= s.len() || is_ws(s[from]) {
        from
    } else {
        word_end(s, from + 1)
    }
}

/// The whitespace-separated words of `s`.
pub open spec fn words(s: Seq<char>) -> Seq<Seq<char>> {
    words_from(s, 0)
}

proof fn lemma_word_end(s: Seq<char>, from: int)
    requires
        0 <= from <= s.len(),
    ensures
        from <= word_end(s, from) <= s.len(),
        forall|k: int| from <= k < word_end(s, from) ==> !is_ws(s[k]),
        word_end(s, from) < s.len() ==> is_ws(s[word_end(s, from)]),
    decreases s.len() - from,
{
    if from < s.len() && !is_ws(s[from]) {
        lemma_word_end(s, from + 1);
    }
}

/// Splits `s` at whitespace, as `str::split_whitespace` does.
pub fn split_words(s: &str) -> (r: Vec<String>)
    ensures
        views(r@) == words(s@),
{
    let v = chars_of(s);
    let mut out: Vec<String> = Vec::new();
    let mut from: usize = 0;
    while from < v.len()
        invariant
            from <= v.len(),
            v@ == s@,
            words(v@) == views(out@) + words_from(v@, from as int),
        decreases v.len() - from,
    {
        if is_whitespace(v[from]) {
            from = from + 1;
        } else {
            let mut e = from;
            while e < v.len() && !is_whitespace(v[e])
                invariant
                    from <= e <= v.len(),
                    word_end(v@, from as int) == word_end(v@, e as int),
                decreases v.len() - e,
            {
                e = e + 1;
            }
            proof {
                lemma_word_end(v@, from as int);
            }
            let ghost before = out@;
            let w = string_from_range(&v, from, e);
            out.push(w);
            proof {
                lemma_views_push(before, w);
                assert(views(before) + words_from(v@, from as int) =~= views(out@) + words_from(v@, e as int));
            }
            from = e;
        }
    }
    proof {
        assert(views(out@) + Seq::<Seq<char>>::empty() =~= views(out@));
    }
    out
}

} // verus!
