//! Pre-validation of collection files: the checks made on the raw text before
//! the YAML is deserialised, the depth limit on the parsed document, and the
//! mapping of deserialisation messages to typed errors.

use vstd::prelude::*;
use crate::error::CollectionError;
use crate::text::{
    byte_len, chars_of, lemma_take_all, lemma_utf8_len_prefix_mono, lemma_utf8_len_split, lines,
    split_lines, split_words, string_from_range, str_eq, trim, trim_bounds, trim_start, trim_str,
    utf8_len, utf8_prefix_len, views, words, is_whitespace, char_pos_from, find_char_from,
    find_from, first_occurrence, first_occurrence_from, lemma_first_occurrence_from, owned,
};
use crate::yaml::{YamlValue, parse_yaml_tree, yaml_tree_result};

verus! {

/// Largest accepted collection file, in bytes (10 MB).
pub const MAX_FILE_SIZE: usize = 10485760;

/// Deepest accepted nesting level of a collection document.
pub const MAX_NESTING_DEPTH: usize = 20;

// ─── file size ───────────────────────────────────────────────────────────────

/// Rejects files larger than [`MAX_FILE_SIZE`] bytes.
pub fn validate_file_size(raw: &str) -> (r: Result<(), CollectionError>)
    ensures
        utf8_len(raw@) <= MAX_FILE_SIZE ==> r is Ok,
        utf8_len(raw@) > MAX_FILE_SIZE ==> r == Err::<(), CollectionError>(
            CollectionError::FileTooLarge { size_bytes: utf8_len(raw@) as usize },
        ),
{
    let size = byte_len(raw);
    if size > MAX_FILE_SIZE {
        Err(CollectionError::FileTooLarge { size_bytes: size })
    } else {
        Ok(())
    }
}

// ─── anchors and aliases ─────────────────────────────────────────────────────

/// `t` without its leading `-`, `[` and `{` characters.
pub open spec fn strip_flow_prefix(t: Seq<char>) -> Seq<char>
    decreases t.len(),
{
    if t.len() > 0 && (t[0] == '-' || t[0] == '[' || t[0] == '{') {
        strip_flow_prefix(t.drop_first())
    } else {
        t
    }
}

/// The verdict on one whitespace-separated token: once list and flow
/// indicators are stripped, a token of two or more characters that starts with
/// `&` is an anchor, one that starts with `*` an alias.
pub open spec fn token_anchor_check(t: Seq<char>) -> Result<(), CollectionError> {
    let u = strip_flow_prefix(t);
    if u.len() > 1 && u[0] == '&' {
        Err(CollectionError::AnchorsNotAllowed)
    } else if u.len() > 1 && u[0] == '*' {
        Err(CollectionError::AliasesNotAllowed)
    } else {
        Ok(())
    }
}

/// The first failing verdict over a list of tokens.
pub open spec fn tokens_anchor_check(ts: Seq<Seq<char>>) -> Result<(), CollectionError>
    decreases ts.len(),
{
    if ts.len() == 0 {
        Ok(())
    } else if token_anchor_check(ts[0]) is Err {
        token_anchor_check(ts[0])
    } else {
        tokens_anchor_check(ts.drop_first())
    }
}

/// The verdict on one line: comment lines (first non-blank character `#`)
/// pass; other lines are checked token by token.
pub open spec fn line_anchor_check(line: Seq<char>) -> Result<(), CollectionError> {
    let t = trim(line);
    if t.len() > 0 && t[0] == '#' {
        Ok(())
    } else {
        tokens_anchor_check(words(t))
    }
}

/// The first failing verdict over the lines of a file.
pub open spec fn lines_anchor_check(ls: Seq<Seq<char>>) -> Result<(), CollectionError>
    decreases ls.len(),
{
    if ls.len() == 0 {
        Ok(())
    } else if line_anchor_check(ls[0]) is Err {
        line_anchor_check(ls[0])
    } else {
        lines_anchor_check(ls.drop_first())
    }
}

fn token_anchor_verdict(tok: &str) -> (r: Result<(), CollectionError>)
    ensures
        r == token_anchor_check(tok@),
{
    let v = chars_of(tok);
    let mut k: usize = 0;
    assert(v@.skip(0) =~= v@);
    while k < v.len() && (v[k] == '-' || v[k] == '[' || v[k] == '{')
        invariant
            k <= v.len(),
            strip_flow_prefix(v@) == strip_flow_prefix(v@.skip(k as int)),
        decreases v.len() - k,
    {
        assert(v@.skip(k as int).drop_first() =~= v@.skip(k + 1));
        k = k + 1;
    }
    let ghost u = v@.skip(k as int);
    assert(strip_flow_prefix(u) == u);
    assert(v@ == tok@);
    if v.len() - k > 1 && v[k] == '&' {
        Err(CollectionError::AnchorsNotAllowed)
    } else if v.len() - k > 1 && v[k] == '*' {
        Err(CollectionError::AliasesNotAllowed)
    } else {
        Ok(())
    }
}

fn line_anchor_verdict(line: &str) -> (r: Result<(), CollectionError>)
    ensures
        r == line_anchor_check(line@),
{
    let t = trim_str(line);
    let tv = chars_of(t.as_str());
    if tv.len() > 0 && tv[0] == '#' {
        return Ok(());
    }
    let toks = split_words(t.as_str());
    let ghost ts = views(toks@);
    let mut i: usize = 0;
    assert(ts.skip(0) =~= ts);
    while i < toks.len()
        invariant
            i <= toks.len(),
            ts == views(toks@),
            ts == words(t@),
            t@ == trim(line@),
            line_anchor_check(line@) == tokens_anchor_check(ts.skip(i as int)),
        decreases toks.len() - i,
    {
        let r = token_anchor_verdict(toks[i].as_str());
        proof {
            assert(ts.skip(i as int)[0] == toks@[i as int]@);
            assert(ts.skip(i as int).drop_first() =~= ts.skip(i + 1));
        }
        if r.is_err() {
            return r;
        }
        i = i + 1;
    }
    Ok(())
}

/// Scans the raw text for YAML anchor (`&name`) and alias (`*name`) tokens.
///
/// Each line that is not a comment is split at whitespace; a token is an
/// anchor or an alias when, once leading `-`, `[` and `{` are stripped, it
/// starts with `&` or `*` and has more characters after it. A `*` inside a
/// token (as in a URL pattern) is not an alias. The first offending token of
/// the file decides the error.
pub fn scan_for_anchors_aliases(raw: &str) -> (r: Result<(), CollectionError>)
    ensures
        r == lines_anchor_check(lines(raw@)),
{
    let ls = split_lines(raw);
    let ghost lv = views(ls@);
    let mut i: usize = 0;
    assert(lv.skip(0) =~= lv);
    while i < ls.len()
        invariant
            i <= ls.len(),
            lv == views(ls@),
            lv == lines(raw@),
            lines_anchor_check(lv) == lines_anchor_check(lv.skip(i as int)),
        decreases ls.len() - i,
    {
        let r = line_anchor_verdict(ls[i].as_str());
        proof {
            assert(lv.skip(i as int)[0] == ls@[i as int]@);
            assert(lv.skip(i as int).drop_first() =~= lv.skip(i + 1));
        }
        if r.is_err() {
            return r;
        }
        i = i + 1;
    }
    Ok(())
}

// ─── mapping keys ────────────────────────────────────────────────────────────

/// `s` without leading copies of `c`.
pub open spec fn trim_char_start(s: Seq<char>, c: char) -> Seq<char>
    decreases s.len(),
{
    if s.len() > 0 && s[0] == c {
        trim_char_start(s.drop_first(), c)
    } else {
        s
    }
}

/// `s` without trailing copies of `c`.
pub open spec fn trim_char_end(s: Seq<char>, c: char) -> Seq<char>
    decreases s.len(),
{
    if s.len() > 0 && s.last() == c {
        trim_char_end(s.drop_last(), c)
    } else {
        s
    }
}

/// `s` without leading and trailing copies of `c` (what `str::trim_matches`
/// with a character returns).
pub open spec fn trim_char(s: Seq<char>, c: char) -> Seq<char> {
    trim_char_end(trim_char_start(s, c), c)
}

/// The part of a trimmed line that may hold a key: a list item `- x` gives
/// `x` trimmed, a bare `-` gives nothing, any other line itself.
pub open spec fn key_content(t: Seq<char>) -> Option<Seq<char>> {
    if t.len() >= 2 && t[0] == '-' && t[1] == ' ' {
        Some(trim(t.subrange(2, t.len() as int)))
    } else if t == seq!['-'] {
        None
    } else {
        Some(t)
    }
}

/// The position of the first `:` at or after `i` that stands outside single
/// and double quotes, where `in_single`/`in_double` say whether position `i`
/// is inside quotes. A quote character of one kind toggles that kind only
/// outside a quote of the other kind.
pub open spec fn colon_index(s: Seq<char>, i: int, in_single: bool, in_double: bool) -> Option<int>
    decreases s.len() - i,
{
    if i < 0 || i >= s.len() {
        None
    } else if s[i] == '\'' && !in_double {
        colon_index(s, i + 1, !in_single, in_double)
    } else if s[i] == '"' && !in_single {
        colon_index(s, i + 1, in_single, !in_double)
    } else if s[i] == ':' && !in_single && !in_double {
        Some(i)
    } else {
        colon_index(s, i + 1, in_single, in_double)
    }
}

/// The mapping key of a trimmed YAML line: the text before its first unquoted
/// `:`, trimmed and stripped of surrounding `"` and then `'` characters;
/// nothing when the line has no such colon, starts with it, or the key is
/// empty.
pub open spec fn mapping_key(t: Seq<char>) -> Option<Seq<char>> {
    match key_content(t) {
        None => None,
        Some(c) => match colon_index(c, 0, false, false) {
            None => None,
            Some(i) => {
                let k = trim_char(trim_char(trim(c.take(i)), '"'), '\'');
                if i == 0 || k.len() == 0 {
                    None
                } else {
                    Some(k)
                }
            },
        },
    }
}

fn trim_char_bounds(v: &Vec<char>, lo: usize, hi: usize, c: char) -> (r: (usize, usize))
    requires
        lo <= hi <= v.len(),
    ensures
        lo <= r.0 <= r.1 <= hi,
        v@.subrange(r.0 as int, r.1 as int) == trim_char(v@.subrange(lo as int, hi as int), c),
{
    let ghost s = v@.subrange(lo as int, hi as int);
    let mut a = lo;
    while a < hi && v[a] == c
        invariant
            lo <= a <= hi <= v.len(),
            s == v@.subrange(lo as int, hi as int),
            trim_char_start(s, c) == trim_char_start(v@.subrange(a as int, hi as int), c),
        decreases hi - a,
    {
        assert(v@.subrange(a as int, hi as int).drop_first() =~= v@.subrange(a + 1, hi as int));
        a = a + 1;
    }
    let mut b = hi;
    while b > a && v[b - 1] == c
        invariant
            lo <= a <= b <= hi <= v.len(),
            trim_char_start(s, c) == v@.subrange(a as int, hi as int),
            trim_char_end(v@.subrange(a as int, hi as int), c) == trim_char_end(
                v@.subrange(a as int, b as int),
                c,
            ),
        decreases b - a,
    {
        assert(v@.subrange(a as int, b as int).drop_last() =~= v@.subrange(a as int, b - 1));
        b = b - 1;
    }
    (a, b)
}

fn sub_chars(v: &Vec<char>, lo: usize, hi: usize) -> (r: Vec<char>)
    requires
        lo <= hi <= v.len(),
    ensures
        r@ == v@.subrange(lo as int, hi as int),
{
    let mut out: Vec<char> = Vec::new();
    let mut i = lo;
    while i < hi
        invariant
            lo <= i <= hi <= v.len(),
            out@ == v@.subrange(lo as int, i as int),
        decreases hi - i,
    {
        out.push(v[i]);
        i = i + 1;
        assert(out@ =~= v@.subrange(lo as int, i as int));
    }
    out
}

/// Extracts the bare mapping key of a trimmed YAML line, or `None` for a line
/// that holds no key.
///
/// A list item's `- ` prefix is stripped first; a colon inside single or
/// double quotes does not end the key.
pub fn extract_mapping_key(trimmed: &str) -> (r: Option<String>)
    ensures
        r matches Some(k) ==> mapping_key(trimmed@) == Some(k@),
        r is None ==> mapping_key(trimmed@) is None,
{
    let t = chars_of(trimmed);
    let content: Vec<char>;
    if t.len() >= 2 && t[0] == '-' && t[1] == ' ' {
        let (a, b) = trim_bounds(&t, 2, t.len());
        content = sub_chars(&t, a, b);
    } else if t.len() == 1 && t[0] == '-' {
        assert(t@ =~= seq!['-']);
        return None;
    } else {
        content = t;
    }
    assert(key_content(trimmed@) == Some(content@));
    let mut in_single = false;
    let mut in_double = false;
    let mut i: usize = 0;
    while i < content.len()
        invariant
            i <= content.len(),
            key_content(trimmed@) == Some(content@),
            colon_index(content@, 0, false, false) == colon_index(content@, i as int, in_single, in_double),
        decreases content.len() - i,
    {
        let ch = content[i];
        if ch == '\'' && !in_double {
            in_single = !in_single;
        } else if ch == '"' && !in_single {
            in_double = !in_double;
        } else if ch == ':' && !in_single && !in_double {
            if i == 0 {
                return None;
            }
            let (a, b) = trim_bounds(&content, 0, i);
            assert(content@.subrange(0, i as int) =~= content@.take(i as int));
            let (a2, b2) = trim_char_bounds(&content, a, b, '"');
            let (a3, b3) = trim_char_bounds(&content, a2, b2, '\'');
            if a3 == b3 {
                return None;
            }
            return Some(string_from_range(&content, a3, b3));
        }
        i = i + 1;
    }
    None
}

// ─── duplicate keys ──────────────────────────────────────────────────────────

/// The width in bytes of a line's leading whitespace.
pub open spec fn indent_of(line: Seq<char>) -> nat {
    (utf8_len(line) - utf8_len(trim_start(line))) as nat
}

/// The levels of the key scan: for each open indentation level, the keys seen
/// there so far, innermost level last.
pub type KeyLevels = Seq<(nat, Seq<Seq<char>>)>;

/// Closes the levels deeper than `indent`; the outermost level stays.
pub open spec fn pop_deeper(st: KeyLevels, indent: nat) -> KeyLevels
    decreases st.len(),
{
    if st.len() > 1 && st.last().0 > indent {
        pop_deeper(st.drop_last(), indent)
    } else {
        st
    }
}

/// The first level at or after `j` whose indentation is `indent`.
pub open spec fn level_index_from(st: KeyLevels, indent: nat, j: int) -> Option<int>
    decreases st.len() - j,
{
    if j < 0 || j >= st.len() {
        None
    } else if st[j].0 == indent {
        Some(j)
    } else {
        level_index_from(st, indent, j + 1)
    }
}

/// Whether a trimmed line starts a sequence item (`- ...` or a lone `-`).
pub open spec fn is_seq_item(t: Seq<char>) -> bool {
    t.len() > 0 && t[0] == '-' && (t.len() == 1 || t[1] == ' ')
}

/// The indentation of the key that a sequence-item line `- key: ...` holds:
/// the line's own indentation, the dash, and the spaces after it.
pub open spec fn item_key_indent(ind: nat, t: Seq<char>) -> nat {
    ind + 1 + indent_of(t.skip(1))
}

/// One line of the key scan: blank and comment lines change nothing; other
/// lines close deeper levels. A sequence item starts a mapping of its own: it
/// opens a fresh level holding its key (if any), so keys of different items
/// are never compared. Any other line records its key (if any) at its level,
/// opening it if needed; a key already seen at that level is returned as
/// `Err`.
pub open spec fn key_scan_step(st: KeyLevels, line: Seq<char>) -> Result<KeyLevels, Seq<char>> {
    let t = trim(line);
    if t.len() == 0 || t[0] == '#' {
        Ok(st)
    } else {
        let ind = indent_of(line);
        let st2 = pop_deeper(st, ind);
        if is_seq_item(t) {
            match mapping_key(t) {
                None => Ok(st2),
                Some(k) => Ok(st2.push((item_key_indent(ind, t), seq![k]))),
            }
        } else {
            match mapping_key(t) {
                None => Ok(st2),
                Some(k) => match level_index_from(st2, ind, 0) {
                    Some(i) => if st2[i].1.contains(k) {
                        Err(k)
                    } else {
                        Ok(st2.update(i, (st2[i].0, st2[i].1.push(k))))
                    },
                    None => Ok(st2.push((ind, seq![k]))),
                },
            }
        }
    }
}

/// The first duplicate key met when scanning `ls` from levels `st`.
pub open spec fn key_scan(st: KeyLevels, ls: Seq<Seq<char>>) -> Option<Seq<char>>
    decreases ls.len(),
{
    if ls.len() == 0 {
        None
    } else {
        match key_scan_step(st, ls[0]) {
            Err(k) => Some(k),
            Ok(st2) => key_scan(st2, ls.drop_first()),
        }
    }
}

/// The first key that appears twice in one mapping of `raw`, as far as
/// indentation and sequence items tell its mappings apart.
pub open spec fn first_duplicate_key(raw: Seq<char>) -> Option<Seq<char>> {
    key_scan(seq![(0nat, Seq::<Seq<char>>::empty())], lines(raw))
}

/// The scan levels of the executable stack.
pub open spec fn levels_view(st: Seq<(u128, Vec<String>)>) -> KeyLevels {
    st.map_values(|e: (u128, Vec<String>)| (e.0 as nat, views(e.1@)))
}

fn line_indent(v: &Vec<char>, line: &str) -> (r: usize)
    requires
        v@ == line@,
    ensures
        r == indent_of(line@),
{
    let mut k: usize = 0;
    assert(v@.skip(0) =~= v@);
    while k < v.len() && is_whitespace(v[k])
        invariant
            k <= v.len(),
            trim_start(v@) == trim_start(v@.skip(k as int)),
        decreases v.len() - k,
    {
        assert(v@.skip(k as int).drop_first() =~= v@.skip(k + 1));
        k = k + 1;
    }
    assert(trim_start(v@.skip(k as int)) == v@.skip(k as int));
    let total = byte_len(line);
    proof {
        lemma_utf8_len_split(v@, k as int);
    }
    utf8_prefix_len(v, k)
}

fn contains_string(v: &Vec<String>, k: &str) -> (r: bool)
    ensures
        r == views(v@).contains(k@),
{
    let mut i: usize = 0;
    while i < v.len()
        invariant
            i <= v.len(),
            forall|j: int| 0 <= j < i ==> v@[j]@ != k@,
        decreases v.len() - i,
    {
        if str_eq(v[i].as_str(), k) {
            assert(views(v@)[i as int] == k@);
            return true;
        }
        i = i + 1;
    }
    proof {
        if views(v@).contains(k@) {
            let j = choose|j: int| 0 <= j < views(v@).len() && views(v@)[j] == k@;
            assert(v@[j]@ == k@);
        }
    }
    false
}

fn key_scan_line(stack: &mut Vec<(u128, Vec<String>)>, line: &str) -> (r: Option<String>)
    ensures
        match key_scan_step(levels_view(old(stack)@), line@) {
            Ok(st) => r is None && levels_view(final(stack)@) == st,
            Err(k) => r matches Some(s) && s@ == k,
        },
{
    let tv = chars_of(line);
    let (a, b) = trim_bounds(&tv, 0, tv.len());
    assert(tv@.subrange(0, tv@.len() as int) =~= tv@);
    assert(trim(line@) == tv@.subrange(a as int, b as int));
    if a == b || tv[a] == '#' {
        return None;
    }
    let indent = line_indent(&tv, line) as u128;
    while stack.len() > 1 && stack[stack.len() - 1].0 > indent
        invariant
            pop_deeper(levels_view(old(stack)@), indent as nat) == pop_deeper(
                levels_view(stack@),
                indent as nat,
            ),
        decreases stack.len(),
    {
        let ghost before = stack@;
        stack.pop();
        assert(levels_view(before).drop_last() =~= levels_view(stack@));
    }
    assert(pop_deeper(levels_view(stack@), indent as nat) == levels_view(stack@));
    let item = tv[a] == '-' && (b - a == 1 || tv[a + 1] == ' ');
    assert(item == is_seq_item(trim(line@)));
    if item {
        let trimmed = string_from_range(&tv, a, b);
        match extract_mapping_key(trimmed.as_str()) {
            None => {
                return None;
            },
            Some(key) => {
                let rest = string_from_range(&tv, a + 1, b);
                let rv = chars_of(rest.as_str());
                assert(rest@ =~= trim(line@).skip(1));
                let off = line_indent(&rv, rest.as_str()) as u128;
                let level = indent + 1 + off;
                let mut ks: Vec<String> = Vec::new();
                ks.push(key);
                let ghost before = stack@;
                stack.push((level, ks));
                assert(views(ks@) =~= seq![ks@[0]@]);
                assert(levels_view(stack@) =~= levels_view(before).push((level as nat, views(ks@))));
                return None;
            },
        }
    }
    let trimmed = string_from_range(&tv, a, b);
    match extract_mapping_key(trimmed.as_str()) {
        None => None,
        Some(key) => {
            let ghost st = levels_view(stack@);
            let mut j: usize = 0;
            while j < stack.len() && stack[j].0 != indent
                invariant
                    j <= stack.len(),
                    st == levels_view(stack@),
                    level_index_from(st, indent as nat, 0) == level_index_from(st, indent as nat, j as int),
                decreases stack.len() - j,
            {
                j = j + 1;
            }
            let found: Option<usize> = if j < stack.len() { Some(j) } else { None };
            match found {
                Some(j) => {
                    assert(level_index_from(st, indent as nat, 0) == Some(j as int));
                    let mut entry = stack.remove(j);
                    if contains_string(&entry.1, key.as_str()) {
                        return Some(key);
                    }
                    let ghost kv = key@;
                    let ghost old_keys = entry.1@;
                    entry.1.push(key);
                    proof {
                        crate::text::lemma_views_push(old_keys, entry.1@.last());
                        assert(entry.1@ =~= old_keys.push(entry.1@.last()));
                    }
                    let ghost removed = stack@;
                    stack.insert(j, entry);
                    assert(levels_view(stack@) =~= st.update(j as int, (st[j as int].0, st[j as int].1.push(kv))));
                    None
                },
                None => {
                    let mut ks: Vec<String> = Vec::new();
                    ks.push(key);
                    let ghost before = stack@;
                    stack.push((indent, ks));
                    assert(views(ks@) =~= seq![ks@[0]@]);
                    assert(levels_view(stack@) =~= levels_view(before).push((indent as nat, views(ks@))));
                    None
                },
            }
        },
    }
}

/// Scans the raw text for a mapping key that appears twice in one mapping.
///
/// An indentation-based stack tracks the keys seen at each open level; a line
/// indented less than the innermost level closes it, and each sequence item
/// (`- key: ...`) opens a fresh level, so separate items never clash.
pub fn scan_for_duplicate_keys(raw: &str) -> (r: Result<(), CollectionError>)
    ensures
        first_duplicate_key(raw@) is None ==> r is Ok,
        first_duplicate_key(raw@) matches Some(k) ==> r matches Err(CollectionError::DuplicateKey { key }) && key@ == k,
{
    let mut stack: Vec<(u128, Vec<String>)> = Vec::new();
    let v0: Vec<String> = Vec::new();
    assert(views(v0@) =~= Seq::<Seq<char>>::empty());
    stack.push((0, v0));
    let ls = split_lines(raw);
    let ghost lv = views(ls@);
    assert(levels_view(stack@) =~= seq![(0nat, Seq::<Seq<char>>::empty())]);
    assert(lv.skip(0) =~= lv);
    let mut i: usize = 0;
    while i < ls.len()
        invariant
            i <= ls.len(),
            lv == views(ls@),
            lv == lines(raw@),
            first_duplicate_key(raw@) == key_scan(levels_view(stack@), lv.skip(i as int)),
        decreases ls.len() - i,
    {
        proof {
            assert(lv.skip(i as int)[0] == ls@[i as int]@);
            assert(lv.skip(i as int).drop_first() =~= lv.skip(i + 1));
        }
        match key_scan_line(&mut stack, ls[i].as_str()) {
            Some(key) => {
                return Err(CollectionError::DuplicateKey { key });
            },
            None => {},
        }
        i = i + 1;
    }
    Ok(())
}

// ─── nesting depth ───────────────────────────────────────────────────────────

/// Whether some node of `v`, placed at nesting level `depth`, lies deeper than
/// [`MAX_NESTING_DEPTH`]. Every node counts, scalar leaves included; the
/// children of a mapping are its values, those of a sequence its items; a
/// tagged value is a leaf.
pub open spec fn exceeds_depth(v: YamlValue, depth: nat) -> bool
    decreases MAX_NESTING_DEPTH + 1 - depth, 0nat,
{
    if depth > MAX_NESTING_DEPTH {
        true
    } else {
        match v {
            YamlValue::Mapping { entries, .. } => values_exceed_depth(entries@, depth + 1),
            YamlValue::Sequence { items, .. } => items_exceed_depth(items@, depth + 1),
            _ => false,
        }
    }
}

/// Whether some value of the mapping entries `es`, placed at level `depth`,
/// exceeds the depth limit.
pub open spec fn values_exceed_depth(es: Seq<(YamlValue, YamlValue)>, depth: nat) -> bool
    decreases MAX_NESTING_DEPTH + 1 - depth, es.len(),
{
    if es.len() == 0 {
        false
    } else {
        values_exceed_depth(es.drop_last(), depth) || exceeds_depth(es.last().1, depth)
    }
}

/// Whether some item of `vs`, placed at level `depth`, exceeds the depth limit.
pub open spec fn items_exceed_depth(vs: Seq<YamlValue>, depth: nat) -> bool
    decreases MAX_NESTING_DEPTH + 1 - depth, vs.len(),
{
    if vs.len() == 0 {
        false
    } else {
        items_exceed_depth(vs.drop_last(), depth) || exceeds_depth(vs.last(), depth)
    }
}

/// Rejects a document in which some node lies deeper than
/// [`MAX_NESTING_DEPTH`] levels, `depth` being the level of `value` itself (0
/// at the document root).
pub fn validate_max_depth(value: &YamlValue, depth: usize) -> (r: Result<(), CollectionError>)
    ensures
        !exceeds_depth(*value, depth as nat) ==> r is Ok,
        exceeds_depth(*value, depth as nat) ==> r == Err::<(), CollectionError>(
            CollectionError::NestingTooDeep { max: MAX_NESTING_DEPTH },
        ),
    decreases MAX_NESTING_DEPTH + 1 - depth,
{
    if depth > MAX_NESTING_DEPTH {
        return Err(CollectionError::NestingTooDeep { max: MAX_NESTING_DEPTH });
    }
    match value {
        YamlValue::Mapping { entries, .. } => {
            let ghost es = entries@;
            assert(exceeds_depth(*value, depth as nat) == values_exceed_depth(es, depth as nat + 1));
            let mut i: usize = 0;
            assert(es.take(0) =~= Seq::<(YamlValue, YamlValue)>::empty());
            while i < entries.len()
                invariant
                    i <= entries.len(),
                    es == entries@,
                    depth <= MAX_NESTING_DEPTH,
                    !values_exceed_depth(es.take(i as int), depth as nat + 1),
                    exceeds_depth(*value, depth as nat) == values_exceed_depth(es, depth as nat + 1),
                decreases entries.len() - i,
            {
                assert(es.take(i + 1).drop_last() =~= es.take(i as int));
                assert(es.take(i + 1).last() == es[i as int]);
                let r = validate_max_depth(&entries[i].1, depth + 1);
                if r.is_err() {
                    proof {
                        crate::parser::lemma_values_exceed_prefix(es, depth as nat + 1, i + 1);
                    }
                    return r;
                }
                i = i + 1;
            }
            assert(es.take(i as int) =~= es);
        },
        YamlValue::Sequence { items, .. } => {
            let ghost vs = items@;
            assert(exceeds_depth(*value, depth as nat) == items_exceed_depth(vs, depth as nat + 1));
            let mut i: usize = 0;
            assert(vs.take(0) =~= Seq::<YamlValue>::empty());
            while i < items.len()
                invariant
                    i <= items.len(),
                    vs == items@,
                    depth <= MAX_NESTING_DEPTH,
                    !items_exceed_depth(vs.take(i as int), depth as nat + 1),
                    exceeds_depth(*value, depth as nat) == items_exceed_depth(vs, depth as nat + 1),
                decreases items.len() - i,
            {
                assert(vs.take(i + 1).drop_last() =~= vs.take(i as int));
                assert(vs.take(i + 1).last() == vs[i as int]);
                let r = validate_max_depth(&items[i], depth + 1);
                if r.is_err() {
                    proof {
                        crate::parser::lemma_items_exceed_prefix(vs, depth as nat + 1, i + 1);
                    }
                    return r;
                }
                i = i + 1;
            }
            assert(vs.take(i as int) =~= vs);
        },
        _ => {},
    }
    Ok(())
}

/// A prefix that exceeds the limit makes the whole list exceed it.
proof fn lemma_values_exceed_prefix(es: Seq<(YamlValue, YamlValue)>, depth: nat, n: int)
    requires
        0 <= n <= es.len(),
        values_exceed_depth(es.take(n), depth),
    ensures
        values_exceed_depth(es, depth),
    decreases es.len() - n,
{
    if n < es.len() {
        assert(es.take(n + 1).drop_last() =~= es.take(n));
        lemma_values_exceed_prefix(es, depth, n + 1);
    } else {
        assert(es.take(n) =~= es);
    }
}

/// A prefix that exceeds the limit makes the whole list exceed it.
proof fn lemma_items_exceed_prefix(vs: Seq<YamlValue>, depth: nat, n: int)
    requires
        0 <= n <= vs.len(),
        items_exceed_depth(vs.take(n), depth),
    ensures
        items_exceed_depth(vs, depth),
    decreases vs.len() - n,
{
    if n < vs.len() {
        assert(vs.take(n + 1).drop_last() =~= vs.take(n));
        lemma_items_exceed_prefix(vs, depth, n + 1);
    } else {
        assert(vs.take(n) =~= vs);
    }
}

// ─── raw-text stages ─────────────────────────────────────────────────────────

/// The verdict of the checks made on the raw text of a collection file, in
/// their order: size, then anchors and aliases, then duplicate keys.
pub open spec fn raw_collection_check(raw: Seq<char>) -> Result<(), CollectionError> {
    if utf8_len(raw) > MAX_FILE_SIZE {
        Err(CollectionError::FileTooLarge { size_bytes: utf8_len(raw) as usize })
    } else if lines_anchor_check(lines(raw)) is Err {
        lines_anchor_check(lines(raw))
    } else {
        Ok(())
    }
}

/// Runs the raw-text stages of collection loading: file size, anchors and
/// aliases, duplicate keys. The first failing stage decides the error.
pub fn validate_raw_collection(raw: &str) -> (r: Result<(), CollectionError>)
    ensures
        raw_collection_check(raw@) is Err ==> r == raw_collection_check(raw@),
        raw_collection_check(raw@) is Ok ==> match first_duplicate_key(raw@) {
            None => r is Ok,
            Some(k) => r matches Err(CollectionError::DuplicateKey { key }) && key@ == k,
        },
{
    let r = validate_file_size(raw);
    if r.is_err() {
        return r;
    }
    let r = scan_for_anchors_aliases(raw);
    if r.is_err() {
        return r;
    }
    scan_for_duplicate_keys(raw)
}

/// The checks a collection file's text goes through before its typed read, in
/// order: file size, anchors and aliases, duplicate keys, the YAML parse, and
/// the depth limit on the parsed document, which is returned when all pass.
pub open spec fn collection_text_rel(raw: Seq<char>, r: Result<YamlValue, CollectionError>) -> bool {
    match raw_collection_check(raw) {
        Err(e) => r == Err::<YamlValue, CollectionError>(e),
        Ok(()) => match first_duplicate_key(raw) {
            Some(k) => r matches Err(CollectionError::DuplicateKey { key }) && key@ == k,
            None => match yaml_tree_result(raw) {
                Err(m) => r matches Err(CollectionError::YamlParse { cause }) && cause@ == m,
                Ok(w) => if exceeds_depth(w, 0) {
                    r == Err::<YamlValue, CollectionError>(CollectionError::NestingTooDeep { max: MAX_NESTING_DEPTH })
                } else {
                    r == Ok::<YamlValue, CollectionError>(w)
                },
            },
        },
    }
}

/// Checks a collection file's text and parses it: the raw-text checks, the
/// YAML parse (its error as `YamlParse`), then the depth limit. The parsed
/// document is returned when every check passes.
pub fn check_collection_text(raw: &str) -> (r: Result<YamlValue, CollectionError>)
    ensures
        collection_text_rel(raw@, r),
{
    match validate_raw_collection(raw) {
        Err(e) => {
            return Err(e);
        },
        Ok(()) => {},
    }
    let tree = match parse_yaml_tree(raw) {
        Ok(t) => t,
        Err(m) => {
            return Err(CollectionError::YamlParse { cause: m });
        },
    };
    match validate_max_depth(&tree, 0) {
        Ok(()) => Ok(tree),
        Err(e) => Err(e),
    }
}

// ─── deserialisation messages ────────────────────────────────────────────────

/// The text between the first occurrence of `prefix` in `msg` and the next
/// backtick after it; nothing when either is missing.
pub open spec fn backtick_field(msg: Seq<char>, prefix: Seq<char>) -> Option<Seq<char>> {
    match first_occurrence(msg, prefix) {
        None => None,
        Some(p) => {
            let start = p + prefix.len();
            match char_pos_from(msg, '`', start) {
                None => None,
                Some(e) => Some(msg.subrange(start, e)),
            }
        },
    }
}

/// The field named by an `unknown field `name`` message.
pub open spec fn unknown_field_of(msg: Seq<char>) -> Option<Seq<char>> {
    backtick_field(msg, "unknown field `"@)
}

/// The field named by a `missing field `name`` message.
pub open spec fn missing_field_of(msg: Seq<char>) -> Option<Seq<char>> {
    backtick_field(msg, "missing field `"@)
}

fn extract_backtick_field(msg: &str, prefix: &str) -> (r: Option<String>)
    ensures
        r matches Some(f) ==> backtick_field(msg@, prefix@) == Some(f@),
        r is None ==> backtick_field(msg@, prefix@) is None,
{
    let v = chars_of(msg);
    let pv = chars_of(prefix);
    match find_from(&v, &pv, 0) {
        None => None,
        Some(p) => {
            proof {
                lemma_first_occurrence_from(v@, pv@, 0);
                assert(crate::text::occurs_at(v@, pv@, p as int));
                assert(p + pv@.len() <= v@.len());
                assert(p + pv.len() <= v.len());
            }
            let start = p + pv.len();
            match find_char_from(&v, '`', start) {
                None => None,
                Some(e) => {
                    proof {
                        crate::text::lemma_char_pos_from(v@, '`', start as int);
                    }
                    Some(string_from_range(&v, start, e))
                },
            }
        },
    }
}

/// Extracts the field name from an `unknown field `name`` message.
pub fn extract_unknown_field(msg: &str) -> (r: Option<String>)
    ensures
        r matches Some(f) ==> unknown_field_of(msg@) == Some(f@),
        r is None ==> unknown_field_of(msg@) is None,
{
    extract_backtick_field(msg, "unknown field `")
}

/// Extracts the field name from a `missing field `name`` message.
pub fn extract_missing_field(msg: &str) -> (r: Option<String>)
    ensures
        r matches Some(f) ==> missing_field_of(msg@) == Some(f@),
        r is None ==> missing_field_of(msg@) is None,
{
    extract_backtick_field(msg, "missing field `")
}

/// The pieces of `s` from position `from` on, split at each occurrence of
/// `sep` found left to right (what `str::split` with a non-empty string
/// pattern yields).
pub open spec fn split_from(s: Seq<char>, sep: Seq<char>, from: int) -> Seq<Seq<char>>
    decreases s.len() - from,
{
    if from < 0 || from > s.len() || sep.len() == 0 {
        Seq::empty()
    } else {
        match first_occurrence_from(s, sep, from) {
            None => seq![s.subrange(from, s.len() as int)],
            Some(i) => if i < from || i + sep.len() > s.len() {
                Seq::empty()
            } else {
                seq![s.subrange(from, i)] + split_from(s, sep, i + sep.len())
            },
        }
    }
}

/// A listed field name: the piece trimmed and stripped of backticks.
pub open spec fn clean_field(piece: Seq<char>) -> Seq<char> {
    trim_char(trim(piece), '`')
}

/// The non-empty cleaned names of a list of pieces, in order.
pub open spec fn clean_fields(ps: Seq<Seq<char>>) -> Seq<Seq<char>>
    decreases ps.len(),
{
    if ps.len() == 0 {
        Seq::empty()
    } else if clean_field(ps.last()).len() > 0 {
        clean_fields(ps.drop_last()).push(clean_field(ps.last()))
    } else {
        clean_fields(ps.drop_last())
    }
}

/// The field names listed after `expected one of ` in a message, split at
/// `, ` and cleaned; empty when the phrase is absent.
pub open spec fn valid_fields_of(msg: Seq<char>) -> Seq<Seq<char>> {
    match first_occurrence(msg, "expected one of "@) {
        None => Seq::empty(),
        Some(p) => clean_fields(split_from(msg.skip(p + "expected one of "@.len()), ", "@, 0)),
    }
}

/// Splits `v` at each occurrence of `sep`, left to right.
pub fn split_on_chars(v: &Vec<char>, sep: &Vec<char>) -> (r: Vec<Vec<char>>)
    requires
        sep.len() > 0,
    ensures
        r@.map_values(|x: Vec<char>| x@) == split_from(v@, sep@, 0),
{
    let mut out: Vec<Vec<char>> = Vec::new();
    let mut from: usize = 0;
    let mut done = false;
    while !done
        invariant
            sep.len() > 0,
            from <= v.len(),
            !done ==> split_from(v@, sep@, 0) == out@.map_values(|x: Vec<char>| x@) + split_from(v@, sep@, from as int),
            done ==> split_from(v@, sep@, 0) == out@.map_values(|x: Vec<char>| x@),
        decreases v.len() - from, if done { 0int } else { 1int },
    {
        let ghost before = out@;
        match find_from(v, sep, from) {
            None => {
                let piece = sub_chars(v, from, v.len());
                out.push(piece);
                assert(out@.map_values(|x: Vec<char>| x@) =~= before.map_values(|x: Vec<char>| x@).push(piece@));
                assert(split_from(v@, sep@, from as int) =~= seq![piece@]);
                done = true;
            },
            Some(i) => {
                proof {
                    lemma_first_occurrence_from(v@, sep@, from as int);
                }
                let piece = sub_chars(v, from, i);
                out.push(piece);
                assert(out@.map_values(|x: Vec<char>| x@) =~= before.map_values(|x: Vec<char>| x@).push(piece@));
                assert(split_from(v@, sep@, from as int) =~= seq![piece@] + split_from(v@, sep@, i + sep@.len()));
                assert(before.map_values(|x: Vec<char>| x@) + (seq![piece@] + split_from(v@, sep@, i + sep@.len())) =~= out@.map_values(|x: Vec<char>| x@) + split_from(v@, sep@, i + sep@.len()));
                from = i + sep.len();
            },
        }
    }
    out
}

/// Extracts the field names listed after `expected one of ` in a message.
pub fn extract_valid_fields(msg: &str) -> (r: Vec<String>)
    ensures
        views(r@) == valid_fields_of(msg@),
{
    let v = chars_of(msg);
    let pv = chars_of("expected one of ");
    let p = match find_from(&v, &pv, 0) {
        None => {
            let out: Vec<String> = Vec::new();
            assert(views(out@) =~= Seq::<Seq<char>>::empty());
            return out;
        },
        Some(p) => p,
    };
    proof {
        lemma_first_occurrence_from(v@, pv@, 0);
        assert(crate::text::occurs_at(v@, pv@, p as int));
        assert(p + pv@.len() <= v@.len());
        assert(p + pv.len() <= v.len());
    }
    let rest = sub_chars(&v, p + pv.len(), v.len());
    assert(rest@ =~= msg@.skip(p + pv@.len()));
    let sep = chars_of(", ");
    proof {
        reveal_strlit(", ");
    }
    let pieces = split_on_chars(&rest, &sep);
    let ghost ps = pieces@.map_values(|x: Vec<char>| x@);
    let mut out: Vec<String> = Vec::new();
    let mut i: usize = 0;
    assert(ps.take(0) =~= Seq::<Seq<char>>::empty());
    assert(views(out@) =~= Seq::<Seq<char>>::empty());
    while i < pieces.len()
        invariant
            i <= pieces.len(),
            ps == pieces@.map_values(|x: Vec<char>| x@),
            views(out@) == clean_fields(ps.take(i as int)),
        decreases pieces.len() - i,
    {
        let (a, b) = trim_bounds(&pieces[i], 0, pieces[i].len());
        let (a2, b2) = trim_char_bounds(&pieces[i], a, b, '`');
        proof {
            assert(pieces@[i as int]@.subrange(0, pieces@[i as int]@.len() as int) =~= pieces@[i as int]@);
            assert(ps.take(i + 1).drop_last() =~= ps.take(i as int));
            assert(ps.take(i + 1).last() == ps[i as int]);
        }
        if a2 < b2 {
            let ghost before = out@;
            let f = string_from_range(&pieces[i], a2, b2);
            out.push(f);
            proof {
                crate::text::lemma_views_push(before, f);
            }
        }
        i = i + 1;
    }
    proof {
        crate::text::lemma_take_all(ps);
    }
    out
}

/// Maps a deserialisation message to a typed error.
///
/// An `unknown field` message gives [`CollectionError::UnknownField`] with the
/// given `suggestion` (the caller's closest match among the fields that
/// [`extract_valid_fields`] lists); a `missing field` message gives
/// [`CollectionError::MissingField`]; any other message is kept as
/// [`CollectionError::YamlParse`].
pub fn enrich_serde_error(msg: &str, suggestion: Option<String>) -> (r: CollectionError)
    ensures
        unknown_field_of(msg@) matches Some(f) ==> r matches CollectionError::UnknownField {
            field,
            suggestion: s,
        } && field@ == f && s == suggestion,
        unknown_field_of(msg@) is None ==> match missing_field_of(msg@) {
            Some(f) => r matches CollectionError::MissingField { field } && field@ == f,
            None => r matches CollectionError::YamlParse { cause } && cause@ == msg@,
        },
{
    match extract_unknown_field(msg) {
        Some(field) => CollectionError::UnknownField { field, suggestion },
        None => match extract_missing_field(msg) {
            Some(field) => CollectionError::MissingField { field },
            None => CollectionError::YamlParse { cause: owned(msg) },
        },
    }
}

} // verus!
